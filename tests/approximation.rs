use legendre_approx::functions::{
    binomial_coeff, factorial, legendre_polynomial, pow, MAX_FACTORIAL_ARG, MAX_LEGENDRE_DEGREE,
};
use legendre_approx::legendre::{
    aligned_basis, search_start, search_step, SearchState, SearchStep, FIRST_NODE_COUNT,
    MAX_SEARCH_DEGREE,
};
use legendre_approx::{Function, Mode};

fn eval_at(coeffs: &[i64], x: i64) -> i64 {
    let mut out = coeffs[0];
    for c in &coeffs[1..] {
        out = out * x + c;
    }
    out
}

#[test]
fn factorial_small_values() {
    assert_eq!(factorial(0), 1);
    assert_eq!(factorial(1), 1);
    assert_eq!(factorial(5), 120);
    assert_eq!(factorial(10), 3628800);
}

#[test]
fn factorial_largest_argument() {
    assert_eq!(MAX_FACTORIAL_ARG, 20);
    assert_eq!(factorial(20), 2432902008176640000);
}

#[test]
fn binomial_equal_arguments_is_one() {
    assert_eq!(binomial_coeff(0, 0), 1);
    assert_eq!(binomial_coeff(7, 7), 1);
    assert_eq!(binomial_coeff(20, 20), 1);
}

#[test]
fn binomial_top_below_bottom_is_zero() {
    assert_eq!(binomial_coeff(2, 3), 0);
    assert_eq!(binomial_coeff(0, 5), 0);
}

#[test]
fn binomial_factorial_formula() {
    assert_eq!(binomial_coeff(5, 2), 10);
    assert_eq!(binomial_coeff(6, 0), 1);
    assert_eq!(binomial_coeff(10, 5), 252);
    assert_eq!(binomial_coeff(20, 10), 184756);
    assert_eq!(binomial_coeff(20, 1), 20);
}

#[test]
fn pow_values() {
    assert_eq!(pow(7, 0), 1);
    assert_eq!(pow(-3, 1), -3);
    assert_eq!(pow(2, 10), 1024);
    assert_eq!(pow(-1, 5), -1);
    assert_eq!(pow(-2, 3), -8);
    assert_eq!(pow(0, 4), 0);
    assert_eq!(pow(10, 18), 1_000_000_000_000_000_000);
}

#[test]
fn legendre_degree_zero_is_one() {
    assert_eq!(legendre_polynomial(0), vec![1]);
}

#[test]
fn legendre_low_degrees_closed_form() {
    // (-1)^k C(n, k) C(2n - 2k, n) at the powers n - 2k, zeros between
    assert_eq!(legendre_polynomial(1), vec![2, 0]);
    assert_eq!(legendre_polynomial(2), vec![6, 0, -2]);
    assert_eq!(legendre_polynomial(3), vec![20, 0, -12, 0]);
    assert_eq!(legendre_polynomial(4), vec![70, 0, -60, 0, 6]);
}

#[test]
fn legendre_lengths_match_degree() {
    for deg in 0..=MAX_LEGENDRE_DEGREE {
        assert_eq!(legendre_polynomial(deg).len(), deg + 1);
    }
}

#[test]
fn legendre_endpoint_values() {
    for deg in 0..=MAX_LEGENDRE_DEGREE {
        let p = legendre_polynomial(deg);
        let scale = pow(2, deg);
        assert_eq!(eval_at(&p, 1), scale);
        assert_eq!(eval_at(&p, -1), pow(-1, deg) * scale);
    }
}

#[test]
fn legendre_largest_degree() {
    let p = legendre_polynomial(10);
    assert_eq!(p[0], 184756);
    assert_eq!(p[10], -252);
    assert_eq!(p[9], 0);
}

#[test]
fn aligned_basis_right_aligns_each_row() {
    let rows = aligned_basis(2);
    assert_eq!(rows, vec![vec![0, 0, 1], vec![0, 2, 0], vec![6, 0, -2]]);
}

#[test]
fn aligned_basis_row_lengths_match_lambda_count() {
    for degree in 0..=MAX_LEGENDRE_DEGREE {
        let rows = aligned_basis(degree);
        assert_eq!(rows.len(), degree + 1);
        for row in &rows {
            assert_eq!(row.len(), degree + 1);
        }
        assert_eq!(rows[degree], legendre_polynomial(degree));
    }
}

#[test]
fn search_starts_at_degree_one_with_forty_nodes() {
    let s = search_start();
    assert_eq!(s.degree, 1);
    assert_eq!(s.node_count, FIRST_NODE_COUNT);
    assert_eq!(s.node_count, 40);
}

#[test]
fn search_stops_when_tolerance_met() {
    let s = search_start();
    assert_eq!(search_step(s, true, true), SearchStep::Finished(1, true));
    let next = match search_step(s, false, true) {
        SearchStep::Continue(n) => n,
        SearchStep::Finished(_, _) => panic!("search ended early"),
    };
    assert_eq!(next, SearchState { degree: 2, node_count: 41, best_degree: 1 });
    assert_eq!(search_step(next, true, false), SearchStep::Finished(2, true));
}

fn run_search(within: &[bool], improves: &[bool]) -> (usize, bool) {
    let mut s = search_start();
    let mut i = 0;
    loop {
        match search_step(s, within[i], improves[i]) {
            SearchStep::Continue(n) => s = n,
            SearchStep::Finished(d, ok) => return (d, ok),
        }
        i += 1;
    }
}

#[test]
fn search_falls_back_to_least_error_degree() {
    let within = [false; 10];
    // errors fall until degree 4 and never beat it afterwards
    let improves = [true, true, true, true, false, false, false, false, false, false];
    assert_eq!(run_search(&within, &improves), (4, false));
}

#[test]
fn search_fallback_keeps_earliest_among_equal_errors() {
    let within = [false; 10];
    let improves = [true, false, false, false, false, false, false, false, false, false];
    assert_eq!(run_search(&within, &improves), (1, false));
}

#[test]
fn search_fallback_at_last_degree() {
    let within = [false; 10];
    let improves = [true; 10];
    assert_eq!(run_search(&within, &improves), (MAX_SEARCH_DEGREE, false));
}

#[test]
fn search_node_count_follows_degree() {
    let mut s = search_start();
    while let SearchStep::Continue(n) = search_step(s, false, false) {
        assert_eq!(n.node_count, n.degree + 39);
        s = n;
    }
    assert_eq!(s.degree, 10);
    assert_eq!(s.node_count, 49);
}

#[test]
fn catalog_and_modes_compare() {
    assert_eq!(Function::Linear, Function::Linear);
    assert_ne!(Function::Sinusoidal, Function::Mixed);
    assert_ne!(Mode::Nodes, Mode::AproxError);
}
