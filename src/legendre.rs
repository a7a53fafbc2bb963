//! The integer side of the approximation: each basis polynomial aligned by
//! power for the coefficient assembler, and the decisions of the adaptive
//! degree search.

use vstd::prelude::*;
use crate::functions::{horner_value, legendre_coeffs, legendre_polynomial, MAX_LEGENDRE_DEGREE};

verus! {

/// Entry `p` of basis polynomial `i` when it is right-aligned in a row of
/// `degree + 1` coefficients (highest power first): position `p` holds the
/// coefficient of `x^(degree - p)`, zero above the polynomial's own degree.
pub open spec fn aligned_entry(degree: nat, i: nat, p: int) -> int {
    let offset = degree - i;
    if p < offset {
        0
    } else {
        legendre_coeffs(i)[p - offset]
    }
}

/// Basis polynomials `0..=degree`, each right-aligned in a row of
/// `degree + 1` coefficients, so that equal powers share a column. The
/// assembled polynomial is `sum_i lambdas[i] * row i`, column by column.
pub fn aligned_basis(degree: usize) -> (r: Vec<Vec<i64>>)
    requires
        degree <= MAX_LEGENDRE_DEGREE,
    ensures
        r@.len() == degree + 1,
        forall|i: int| 0 <= i <= degree ==> (#[trigger] r@[i])@.len() == degree + 1,
        forall|i: int, p: int|
            0 <= i <= degree && 0 <= p <= degree ==> (#[trigger] r@[i]@[p]) as int
                == aligned_entry(degree as nat, i as nat, p),
{
    let len = degree + 1;
    let mut rows: Vec<Vec<i64>> = Vec::new();
    let mut i: usize = 0;
    while i < len
        invariant
            len == degree + 1,
            degree <= MAX_LEGENDRE_DEGREE,
            i <= len,
            rows@.len() == i,
            forall|a: int| 0 <= a < i ==> (#[trigger] rows@[a])@.len() == len,
            forall|a: int, p: int|
                0 <= a < i && 0 <= p < len ==> (#[trigger] rows@[a]@[p]) as int
                    == aligned_entry(degree as nat, a as nat, p),
        decreases len - i,
    {
        let poly = legendre_polynomial(i);
        let mut row: Vec<i64> = Vec::new();
        let mut p: usize = 0;
        while p < len
            invariant
                len == degree + 1,
                i < len,
                poly@.len() == i + 1,
                forall|j: int| 0 <= j <= i ==> poly@[j] as int == legendre_coeffs(i as nat)[j],
                p <= len,
                row@.len() == p,
                forall|q: int| 0 <= q < p ==> row@[q] as int == aligned_entry(degree as nat, i as nat, q),
            decreases len - p,
        {
            if p < len - poly.len() {
                row.push(0);
            } else {
                row.push(poly[p - (len - poly.len())]);
            }
            p = p + 1;
        }
        rows.push(row);
        i = i + 1;
    }
    rows
}

/// Row `i` of the aligned table for `degree`, as a sequence.
pub open spec fn aligned_row(degree: nat, i: nat) -> Seq<int> {
    Seq::new(degree + 1, |p: int| aligned_entry(degree, i, p))
}

proof fn lemma_horner_zeros(z: Seq<int>, x: int)
    requires
        forall|p: int| 0 <= p < z.len() ==> z[p] == 0,
    ensures
        horner_value(z, x) == 0,
    decreases z.len(),
{
    if z.len() > 0 {
        lemma_horner_zeros(z.drop_last(), x);
    }
}

proof fn lemma_horner_leading_zeros(z: Seq<int>, a: Seq<int>, x: int)
    requires
        forall|p: int| 0 <= p < z.len() ==> z[p] == 0,
    ensures
        horner_value(z + a, x) == horner_value(a, x),
    decreases a.len(),
{
    if a.len() == 0 {
        assert(z + a =~= z);
        lemma_horner_zeros(z, x);
    } else {
        lemma_horner_leading_zeros(z, a.drop_last(), x);
        assert((z + a).drop_last() =~= z + a.drop_last());
    }
}

/// Right-aligning a basis polynomial changes no value of it: at every point,
/// row `i` of the table for `degree` evaluates as the degree-`i` basis
/// polynomial does, so summing the rows column by column sums the polynomials.
pub proof fn lemma_aligned_row_is_basis_polynomial(degree: nat, i: nat, x: int)
    requires
        i <= degree,
    ensures
        horner_value(aligned_row(degree, i), x) == horner_value(legendre_coeffs(i), x),
{
    let offset = degree - i;
    let z = Seq::new(offset as nat, |p: int| 0int);
    assert(aligned_row(degree, i) =~= z + legendre_coeffs(i));
    lemma_horner_leading_zeros(z, legendre_coeffs(i), x);
}

/// The first degree that the search tries.
pub const FIRST_SEARCH_DEGREE: usize = 1;

/// The quadrature node count of the first trial.
pub const FIRST_NODE_COUNT: usize = 40;

/// The last degree that the search tries.
pub const MAX_SEARCH_DEGREE: usize = 10;

/// Where the adaptive search stands: the trial about to be judged, and the
/// degree with the smallest error among the trials before it (zero before
/// the first).
#[derive(Clone, Copy, PartialEq, Eq, Structural, Debug)]
pub struct SearchState {
    pub degree: usize,
    pub node_count: usize,
    pub best_degree: usize,
}

impl SearchState {
    /// Degree and node count advance together from their first values, and
    /// the best degree so far is one of the degrees already tried.
    pub open spec fn wf(self) -> bool {
        &&& FIRST_SEARCH_DEGREE <= self.degree <= MAX_SEARCH_DEGREE
        &&& self.node_count == self.degree - FIRST_SEARCH_DEGREE + FIRST_NODE_COUNT
        &&& self.best_degree < self.degree
        &&& (self.degree > FIRST_SEARCH_DEGREE ==> self.best_degree >= FIRST_SEARCH_DEGREE)
    }

    /// The best degree once the current trial is counted.
    pub open spec fn best_after(self, improves_best: bool) -> usize {
        if improves_best || self.best_degree == 0 {
            self.degree
        } else {
            self.best_degree
        }
    }
}

/// What the search does after judging one trial.
#[derive(Clone, Copy, PartialEq, Eq, Structural, Debug)]
pub enum SearchStep {
    /// Try the next degree with one more quadrature node.
    Continue(SearchState),
    /// Stop with this degree; `true` when the tolerance was met.
    Finished(usize, bool),
}

/// The step that follows judging the trial at `state.degree`.
pub open spec fn next_step(state: SearchState, within_tolerance: bool, improves_best: bool) -> SearchStep {
    if within_tolerance {
        SearchStep::Finished(state.degree, true)
    } else if state.degree >= MAX_SEARCH_DEGREE {
        SearchStep::Finished(state.best_after(improves_best), false)
    } else {
        SearchStep::Continue(
            SearchState {
                degree: (state.degree + 1) as usize,
                node_count: (state.node_count + 1) as usize,
                best_degree: state.best_after(improves_best),
            },
        )
    }
}

/// The state before the first trial: degree 1 with 40 quadrature nodes.
pub fn search_start() -> (s: SearchState)
    ensures
        s.wf(),
        s.degree == FIRST_SEARCH_DEGREE,
        s.node_count == FIRST_NODE_COUNT,
        s.best_degree == 0,
{
    SearchState { degree: FIRST_SEARCH_DEGREE, node_count: FIRST_NODE_COUNT, best_degree: 0 }
}

/// Judges the trial at `state.degree`. `within_tolerance` says that its error
/// met the tolerance; `improves_best` that its error is strictly below every
/// earlier trial's, so that among equal errors the lowest degree is kept.
/// A met tolerance ends the search with success at once; otherwise the search
/// goes on with the next degree and one more node, until the last degree,
/// where it ends without success at the degree of least error.
pub fn search_step(state: SearchState, within_tolerance: bool, improves_best: bool) -> (r:
    SearchStep)
    requires
        state.wf(),
    ensures
        within_tolerance ==> r == SearchStep::Finished(state.degree, true),
        !within_tolerance && state.degree >= MAX_SEARCH_DEGREE ==> r == SearchStep::Finished(
            state.best_after(improves_best),
            false,
        ),
        !within_tolerance && state.degree < MAX_SEARCH_DEGREE ==> r == SearchStep::Continue(
            (SearchState {
                degree: (state.degree + 1) as usize,
                node_count: (state.node_count + 1) as usize,
                best_degree: state.best_after(improves_best),
            }),
        ),
        r == next_step(state, within_tolerance, improves_best),
        r matches SearchStep::Continue(next) ==> next.wf() && next.degree == state.degree + 1,
        r matches SearchStep::Finished(d, _) ==> FIRST_SEARCH_DEGREE <= d <= MAX_SEARCH_DEGREE,
{
    if within_tolerance {
        return SearchStep::Finished(state.degree, true);
    }
    let best = if improves_best || state.best_degree == 0 {
        state.degree
    } else {
        state.best_degree
    };
    if state.degree >= MAX_SEARCH_DEGREE {
        SearchStep::Finished(best, false)
    } else {
        SearchStep::Continue(
            SearchState {
                degree: state.degree + 1,
                node_count: state.node_count + 1,
                best_degree: best,
            },
        )
    }
}

/// The search driven to its end from `state` when the trial at degree `d`
/// has error `errors[d - 1]`; `best_error` is the least error before `state`.
/// Errors are compared only, so any totally ordered stand-in for them serves.
pub open spec fn search_outcome(errors: Seq<int>, eps: int, state: SearchState, best_error: int) -> (
    usize,
    bool,
)
    decreases MAX_SEARCH_DEGREE - state.degree,
{
    let e = errors[state.degree - 1];
    let improves = state.best_degree == 0 || e < best_error;
    match next_step(state, e <= eps, improves) {
        SearchStep::Finished(d, ok) => (d, ok),
        SearchStep::Continue(next) => if next.degree > state.degree {
            search_outcome(errors, eps, next, if improves { e } else { best_error })
        } else {
            (0, false)
        },
    }
}

proof fn lemma_search_outcome_from(errors: Seq<int>, eps: int, state: SearchState, best_error: int)
    requires
        errors.len() == MAX_SEARCH_DEGREE,
        state.wf(),
        forall|k: int| 0 <= k < state.degree - 1 ==> errors[k] > eps,
        state.degree > 1 ==> best_error == errors[state.best_degree - 1],
        forall|k: int| 0 <= k < state.degree - 1 ==> best_error <= errors[k],
        forall|k: int| 0 <= k < state.best_degree - 1 ==> errors[k] > best_error,
    ensures
        ({
            let (d, ok) = search_outcome(errors, eps, state, best_error);
            &&& 1 <= d <= MAX_SEARCH_DEGREE
            &&& ok ==> errors[d - 1] <= eps && forall|k: int| 0 <= k < d - 1 ==> errors[k] > eps
            &&& !ok ==> forall|k: int| 0 <= k < MAX_SEARCH_DEGREE ==> errors[k] > eps
            &&& !ok ==> forall|k: int| 0 <= k < MAX_SEARCH_DEGREE ==> errors[d - 1] <= #[trigger] errors[k]
            &&& !ok ==> forall|k: int| 0 <= k < d - 1 ==> #[trigger] errors[k] > errors[d - 1]
        }),
    decreases MAX_SEARCH_DEGREE - state.degree,
{
    let e = errors[state.degree - 1];
    let improves = state.best_degree == 0 || e < best_error;
    if e > eps && state.degree < MAX_SEARCH_DEGREE {
        let next = SearchState {
            degree: (state.degree + 1) as usize,
            node_count: (state.node_count + 1) as usize,
            best_degree: state.best_after(improves),
        };
        let next_best = if improves { e } else { best_error };
        lemma_search_outcome_from(errors, eps, next, next_best);
    }
}

/// The adaptive search, run from its start with the trial at degree `d`
/// having error `errors[d - 1]`, returns the first degree whose error meets
/// the tolerance, with success; when none does, it returns without success
/// the degree of least error, the lowest one among equal errors.
pub proof fn lemma_search_finds_first_fit_or_least_error(errors: Seq<int>, eps: int)
    requires
        errors.len() == MAX_SEARCH_DEGREE,
    ensures
        ({
            let start = SearchState {
                degree: FIRST_SEARCH_DEGREE,
                node_count: FIRST_NODE_COUNT,
                best_degree: 0,
            };
            let (d, ok) = search_outcome(errors, eps, start, 0);
            &&& FIRST_SEARCH_DEGREE <= d <= MAX_SEARCH_DEGREE
            &&& ok <==> exists|k: int| 0 <= k < MAX_SEARCH_DEGREE && errors[k] <= eps
            &&& ok ==> errors[d - 1] <= eps && forall|k: int| 0 <= k < d - 1 ==> errors[k] > eps
            &&& !ok ==> forall|k: int| 0 <= k < MAX_SEARCH_DEGREE ==> errors[d - 1] <= #[trigger] errors[k]
            &&& !ok ==> forall|k: int| 0 <= k < d - 1 ==> #[trigger] errors[k] > errors[d - 1]
        }),
{
    let start = SearchState {
        degree: FIRST_SEARCH_DEGREE,
        node_count: FIRST_NODE_COUNT,
        best_degree: 0,
    };
    lemma_search_outcome_from(errors, eps, start, 0);
    let (d, ok) = search_outcome(errors, eps, start, 0);
    if ok {
        assert(1 <= d <= MAX_SEARCH_DEGREE && errors[d - 1] <= eps);
    }
}

} // verus!
