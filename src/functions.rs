//! Exact integer arithmetic behind the Legendre basis: factorials, binomial
//! coefficients, powers, the basis coefficients themselves, and the model of
//! polynomial evaluation by Horner's scheme.

use vstd::prelude::*;

verus! {

/// `n!`
pub open spec fn fact(n: nat) -> nat
    decreases n,
{
    if n == 0 {
        1
    } else {
        n * fact((n - 1) as nat)
    }
}

/// The largest `n` whose factorial fits in an `i64`.
pub const MAX_FACTORIAL_ARG: usize = 20;

pub proof fn lemma_fact_positive(n: nat)
    ensures
        fact(n) >= 1,
    decreases n,
{
    if n > 0 {
        lemma_fact_positive((n - 1) as nat);
        assert(n * fact((n - 1) as nat) >= 1) by (nonlinear_arith)
            requires
                n >= 1,
                fact((n - 1) as nat) >= 1,
        ;
    }
}

pub proof fn lemma_fact_monotonic(m: nat, n: nat)
    requires
        m <= n,
    ensures
        fact(m) <= fact(n),
    decreases n - m,
{
    if m < n {
        lemma_fact_monotonic(m, (n - 1) as nat);
        lemma_fact_positive((n - 1) as nat);
        assert(fact((n - 1) as nat) <= n * fact((n - 1) as nat)) by (nonlinear_arith)
            requires
                n >= 1,
        ;
    }
}

proof fn lemma_fact_fits(n: nat)
    requires
        n <= MAX_FACTORIAL_ARG,
    ensures
        fact(n) <= i64::MAX,
{
    assert(fact(0) == 1);
    assert(fact(1) == 1);
    assert(fact(2) == 2);
    assert(fact(3) == 6);
    assert(fact(4) == 24);
    assert(fact(5) == 120);
    assert(fact(6) == 720);
    assert(fact(7) == 5040);
    assert(fact(8) == 40320);
    assert(fact(9) == 362880);
    assert(fact(10) == 3628800);
    assert(fact(11) == 39916800);
    assert(fact(12) == 479001600);
    assert(fact(13) == 6227020800);
    assert(fact(14) == 87178291200);
    assert(fact(15) == 1307674368000);
    assert(fact(16) == 20922789888000);
    assert(fact(17) == 355687428096000);
    assert(fact(18) == 6402373705728000);
    assert(fact(19) == 121645100408832000);
    assert(fact(20) == 2432902008176640000);
    lemma_fact_monotonic(n, 20);
}

/// `n!`, computed exactly; defined for every `n` whose factorial fits in an `i64`.
pub fn factorial(n: usize) -> (r: i64)
    requires
        n <= MAX_FACTORIAL_ARG,
    ensures
        r == fact(n as nat),
    decreases n,
{
    if n == 0 {
        1
    } else {
        let prev = factorial(n - 1);
        proof {
            lemma_fact_fits(n as nat);
        }
        n as i64 * prev
    }
}

/// The binomial coefficient `C(n, k)`, by Pascal's rule; zero when `k > n`.
pub open spec fn pascal(n: nat, k: nat) -> nat
    decreases n,
{
    if k == 0 {
        1
    } else if n == 0 {
        0
    } else {
        pascal((n - 1) as nat, (k - 1) as nat) + pascal((n - 1) as nat, k)
    }
}

/// `2^n`
pub open spec fn pow2(n: nat) -> nat
    decreases n,
{
    if n == 0 {
        1
    } else {
        2 * pow2((n - 1) as nat)
    }
}

pub proof fn lemma_pascal_above(n: nat, k: nat)
    requires
        k > n,
    ensures
        pascal(n, k) == 0,
    decreases n,
{
    if n > 0 {
        lemma_pascal_above((n - 1) as nat, (k - 1) as nat);
        lemma_pascal_above((n - 1) as nat, k);
    }
}

pub proof fn lemma_pascal_diagonal(n: nat)
    ensures
        pascal(n, n) == 1,
    decreases n,
{
    if n > 0 {
        lemma_pascal_diagonal((n - 1) as nat);
        lemma_pascal_above((n - 1) as nat, n);
    }
}

/// Every binomial coefficient of row `n` is at most `2^n`.
pub proof fn lemma_pascal_bound(n: nat, k: nat)
    ensures
        pascal(n, k) <= pow2(n),
    decreases n,
{
    if k > n {
        lemma_pascal_above(n, k);
    } else if k > 0 && n > 0 {
        lemma_pascal_bound((n - 1) as nat, (k - 1) as nat);
        lemma_pascal_bound((n - 1) as nat, k);
    } else if k == 0 {
        lemma_pow2_positive(n);
    }
}

pub proof fn lemma_pow2_positive(n: nat)
    ensures
        pow2(n) >= 1,
    decreases n,
{
    if n > 0 {
        lemma_pow2_positive((n - 1) as nat);
    }
}

/// `n! == C(n, k) * k! * (n - k)!`: Pascal's coefficients are the factorial quotients.
pub proof fn lemma_pascal_fact(n: nat, k: nat)
    requires
        k <= n,
    ensures
        fact(n) == pascal(n, k) * fact(k) * fact((n - k) as nat),
    decreases n,
{
    if k == 0 {
        assert(pascal(n, 0) == 1);
        assert(fact(0) == 1);
        assert((n - k) as nat == n);
    } else if k == n {
        lemma_pascal_diagonal(n);
        assert(fact(0) == 1);
        assert((n - k) as nat == 0);
    } else {
        let m = (n - 1) as nat;
        lemma_pascal_fact(m, (k - 1) as nat);
        lemma_pascal_fact(m, k);
        let a = pascal(m, (k - 1) as nat);
        let b = pascal(m, k);
        let fk1 = fact((k - 1) as nat);
        let fmk = fact((m - k) as nat);
        assert(fact(k) == k * fk1);
        assert(fact((n - k) as nat) == (n - k) * fmk);
        assert(fact(m) == a * fk1 * ((n - k) * fmk));
        assert(fact(m) == b * (k * fk1) * fmk);
        assert((a + b) * (k * fk1) * ((n - k) * fmk) == n * fact(m)) by (nonlinear_arith)
            requires
                fact(m) == a * fk1 * ((n - k) * fmk),
                fact(m) == b * (k * fk1) * fmk,
                m + 1 == n,
        ;
        assert(pascal(n, k) == a + b);
        assert(fact(n) == n * fact(m));
        assert(fact(n) == (a + b) * fact(k) * fact((n - k) as nat)) by (nonlinear_arith)
            requires
                (a + b) * (k * fk1) * ((n - k) * fmk) == n * fact(m),
                fact(n) == n * fact(m),
                fact(k) == k * fk1,
                fact((n - k) as nat) == (n - k) * fmk,
        ;
    }
}

/// The binomial coefficient as the original formula states it.
pub open spec fn binomial(top: nat, bot: nat) -> int {
    if top == bot {
        1
    } else if top < bot {
        0
    } else {
        fact(top) as int / (fact((top - bot) as nat) * fact(bot)) as int
    }
}

/// `C(top, bot)`: one when `top == bot`, zero when `top < bot`, and
/// `top! / ((top - bot)! * bot!)` otherwise, computed with exact factorials.
pub fn binomial_coeff(top: usize, bot: usize) -> (r: i64)
    requires
        top <= MAX_FACTORIAL_ARG,
    ensures
        r == binomial(top as nat, bot as nat),
        r == pascal(top as nat, bot as nat),
{
    if top > bot {
        let t = factorial(top);
        let d1 = factorial(top - bot);
        let d2 = factorial(bot);
        proof {
            let c = pascal(top as nat, bot as nat);
            lemma_pascal_fact(top as nat, bot as nat);
            lemma_fact_positive((top - bot) as nat);
            lemma_fact_positive(bot as nat);
            lemma_fact_fits(top as nat);
            assert(c * (d1 * d2) == t) by (nonlinear_arith)
                requires
                    t == c * d2 * d1,
            ;
            lemma_fact_positive(top as nat);
            assert(c >= 1 && d1 * d2 >= 1) by (nonlinear_arith)
                requires
                    c * (d1 * d2) == t,
                    t >= 1,
                    d1 >= 1,
                    d2 >= 1,
            ;
            assert(d1 * d2 <= t) by (nonlinear_arith)
                requires
                    c * (d1 * d2) == t,
                    c >= 1,
                    d1 >= 1,
                    d2 >= 1,
            ;
            vstd::arithmetic::div_mod::lemma_div_by_multiple(c as int, (d1 * d2) as int);
        }
        t / (d1 * d2)
    } else if top == bot {
        proof {
            lemma_pascal_diagonal(top as nat);
        }
        1
    } else {
        proof {
            lemma_pascal_above(top as nat, bot as nat);
        }
        0
    }
}

/// `x^n`
pub open spec fn power(x: int, n: nat) -> int
    decreases n,
{
    if n == 0 {
        1
    } else {
        x * power(x, (n - 1) as nat)
    }
}

proof fn lemma_power_abs_monotonic(x: int, i: nat, n: nat)
    requires
        i <= n,
        x != 0,
    ensures
        abs(power(x, i)) <= abs(power(x, n)),
    decreases n - i,
{
    if i < n {
        lemma_power_abs_monotonic(x, i, (n - 1) as nat);
        let p = power(x, (n - 1) as nat);
        assert(abs(p) <= abs(x * p)) by (nonlinear_arith)
            requires
                x != 0,
        ;
    }
}

/// `x^n`, for every `x` and `n` whose power fits in an `i64`.
pub fn pow(x: i64, n: usize) -> (r: i64)
    requires
        abs(power(x as int, n as nat)) <= i64::MAX,
    ensures
        r == power(x as int, n as nat),
{
    if n == 0 {
        return 1;
    }
    if n == 1 {
        assert(power(x as int, 1) == x * power(x as int, 0));
        return x;
    }
    let mut out: i64 = x;
    let mut i: usize = 1;
    assert(power(x as int, 1) == x * power(x as int, 0));
    while i < n
        invariant
            1 <= i <= n,
            out == power(x as int, i as nat),
            abs(power(x as int, n as nat)) <= i64::MAX,
        decreases n - i,
    {
        proof {
            if x != 0 {
                lemma_power_abs_monotonic(x as int, (i + 1) as nat, n as nat);
            }
            assert(power(x as int, (i + 1) as nat) == x * out);
        }
        out = out * x;
        i = i + 1;
    }
    out
}

/// `|v|`
pub open spec fn abs(v: int) -> int {
    if v < 0 {
        -v
    } else {
        v
    }
}

/// The largest degree whose Legendre coefficients the factorials above can produce.
pub const MAX_LEGENDRE_DEGREE: usize = 10;

/// The coefficient of `x^(n - 2k)` in the degree-`n` Legendre polynomial,
/// scaled by `2^n`: `(-1)^k * C(n, k) * C(2n - 2k, n)`.
pub open spec fn legendre_term(n: nat, k: nat) -> int {
    power(-1, k) * pascal(n, k) * pascal((2 * n - 2 * k) as nat, n)
}

/// Entry `j` of the degree-`n` coefficient sequence, highest power first:
/// the terms of the closed form at even positions, zeros in between.
pub open spec fn legendre_entry(n: nat, j: int) -> int {
    if j % 2 == 0 {
        legendre_term(n, (j / 2) as nat)
    } else {
        0
    }
}

/// The degree-`n` Legendre basis polynomial (scaled by `2^n`), highest power first.
pub open spec fn legendre_coeffs(n: nat) -> Seq<int> {
    Seq::new(n + 1, |j: int| legendre_entry(n, j))
}

proof fn lemma_power_neg_one(k: nat)
    ensures
        power(-1, k) == 1 || power(-1, k) == -1,
    decreases k,
{
    if k > 0 {
        lemma_power_neg_one((k - 1) as nat);
    }
}

proof fn lemma_pow2_monotonic(m: nat, n: nat)
    requires
        m <= n,
    ensures
        pow2(m) <= pow2(n),
    decreases n - m,
{
    if m < n {
        lemma_pow2_monotonic(m, (n - 1) as nat);
        lemma_pow2_positive((n - 1) as nat);
    }
}

proof fn lemma_pow2_values()
    ensures
        pow2(10) == 1024,
        pow2(20) == 1048576,
{
    reveal_with_fuel(pow2, 11);
    assert(pow2(10) == 1024);
    assert(pow2(20) == 1024 * pow2(10)) by {
        reveal_with_fuel(pow2, 11);
    }
}

/// The coefficients of the degree-`deg` Legendre polynomial, highest power
/// first, in the closed form `sum_k (-1)^k C(n, k) C(2n - 2k, n) x^(n - 2k)`
/// (which is `2^n` times the normalised polynomial), with a zero for each
/// power that the sum skips.
pub fn legendre_polynomial(deg: usize) -> (r: Vec<i64>)
    requires
        deg <= MAX_LEGENDRE_DEGREE,
    ensures
        r@.len() == deg + 1,
        forall|j: int| 0 <= j <= deg ==> r@[j] as int == legendre_coeffs(deg as nat)[j],
{
    let mut out: Vec<i64> = Vec::new();
    let mut k: usize = 0;
    while k <= deg / 2
        invariant
            deg <= MAX_LEGENDRE_DEGREE,
            k <= deg / 2 + 1,
            out@.len() == 2 * k,
            forall|j: int| 0 <= j < out@.len() ==> out@[j] as int == legendre_entry(deg as nat, j),
        decreases deg / 2 + 1 - k,
    {
        proof {
            lemma_power_neg_one(k as nat);
            lemma_pascal_bound(deg as nat, k as nat);
            lemma_pascal_bound((2 * deg - 2 * k) as nat, deg as nat);
            lemma_pow2_monotonic(deg as nat, 10);
            lemma_pow2_monotonic((2 * deg - 2 * k) as nat, 20);
            lemma_pow2_values();
        }
        let sign = pow(-1, k);
        let b1 = binomial_coeff(deg, k);
        let b2 = binomial_coeff(2 * deg - 2 * k, deg);
        proof {
            assert(-1024 <= sign * b1 <= 1024) by (nonlinear_arith)
                requires
                    sign == 1 || sign == -1,
                    0 <= b1 <= 1024,
            ;
            assert(-1073741824 <= (sign * b1) * b2 <= 1073741824) by (nonlinear_arith)
                requires
                    -1024 <= sign * b1 <= 1024,
                    0 <= b2 <= 1048576,
            ;
        }
        let term = sign * b1 * b2;
        out.push(term);
        out.push(0);
        proof {
            assert(((2 * k) as int) / 2 == k);
            assert(((2 * k + 1) as int) % 2 == 1);
        }
        k = k + 1;
    }
    if deg % 2 != 1 {
        out.pop();
    }
    proof {
        assert forall|j: int| 0 <= j <= deg implies out@[j] as int == legendre_coeffs(deg as nat)[j] by {}
    }
    out
}

/// Horner's scheme on coefficients given highest power first: start from the
/// first coefficient, then for each next one multiply by `x` and add it.
pub open spec fn horner_value(a: Seq<int>, x: int) -> int
    decreases a.len(),
{
    if a.len() == 0 {
        0
    } else {
        horner_value(a.drop_last(), x) * x + a.last()
    }
}

/// `a[0] * x^n + a[1] * x^(n - 1) + ... + a[n]`, where `n + 1 == a.len()`.
pub open spec fn power_sum(a: Seq<int>, x: int) -> int
    decreases a.len(),
{
    if a.len() == 0 {
        0
    } else {
        a[0] * power(x, (a.len() - 1) as nat) + power_sum(a.subrange(1, a.len() as int), x)
    }
}

proof fn lemma_power_sum_split_last(a: Seq<int>, x: int)
    requires
        a.len() >= 1,
    ensures
        power_sum(a, x) == power_sum(a.drop_last(), x) * x + a.last(),
    decreases a.len(),
{
    if a.len() == 1 {
        assert(a.subrange(1, 1).len() == 0);
        assert(a.drop_last().len() == 0);
        assert(power(x, 0) == 1);
        assert(power_sum(a.subrange(1, 1), x) == 0);
        assert(power_sum(a.drop_last(), x) == 0);
        assert(power_sum(a, x) == a[0]);
        assert(a.last() == a[0]);
    } else {
        let n = a.len();
        let tail = a.subrange(1, n as int);
        lemma_power_sum_split_last(tail, x);
        assert(tail.drop_last() =~= a.drop_last().subrange(1, (n - 1) as int));
        assert(tail.last() == a.last());
        assert(a.drop_last()[0] == a[0]);
        let p = power(x, (n - 2) as nat);
        assert(power(x, (n - 1) as nat) == x * p);
        assert(power_sum(a.drop_last(), x) == a[0] * p + power_sum(tail.drop_last(), x));
        assert(power_sum(a, x) == a[0] * (x * p) + power_sum(tail, x));
        assert(a[0] * (x * p) + (power_sum(tail.drop_last(), x) * x + a.last()) == (a[0] * p
            + power_sum(tail.drop_last(), x)) * x + a.last()) by (nonlinear_arith);
    }
}

/// Horner's scheme computes the polynomial that the coefficients stand for:
/// for every coefficient sequence and every point, the Horner value equals
/// the sum of each coefficient times its power of `x`.
pub proof fn lemma_horner_is_power_sum(a: Seq<int>, x: int)
    ensures
        horner_value(a, x) == power_sum(a, x),
    decreases a.len(),
{
    if a.len() > 0 {
        lemma_horner_is_power_sum(a.drop_last(), x);
        lemma_power_sum_split_last(a, x);
    }
}

proof fn lemma_horner_prefix_step(a: Seq<int>, j: int, x: int)
    requires
        0 <= j < a.len(),
    ensures
        horner_value(a.subrange(0, j + 1), x) == horner_value(a.subrange(0, j), x) * x + a[j],
{
    assert(a.subrange(0, j + 1).drop_last() =~= a.subrange(0, j));
}

proof fn lemma_pascal_table()
    ensures
        pascal(0, 0) == 1,
        pascal(0, 1) == 0,
        pascal(0, 2) == 0,
        pascal(0, 3) == 0,
        pascal(0, 4) == 0,
        pascal(0, 5) == 0,
        pascal(0, 6) == 0,
        pascal(0, 7) == 0,
        pascal(1, 0) == 1,
        pascal(1, 1) == 1,
        pascal(1, 2) == 0,
        pascal(1, 3) == 0,
        pascal(1, 4) == 0,
        pascal(1, 5) == 0,
        pascal(1, 6) == 0,
        pascal(1, 7) == 0,
        pascal(2, 0) == 1,
        pascal(2, 1) == 2,
        pascal(2, 2) == 1,
        pascal(2, 3) == 0,
        pascal(2, 4) == 0,
        pascal(2, 5) == 0,
        pascal(2, 6) == 0,
        pascal(2, 7) == 0,
        pascal(3, 0) == 1,
        pascal(3, 1) == 3,
        pascal(3, 2) == 3,
        pascal(3, 3) == 1,
        pascal(3, 4) == 0,
        pascal(3, 5) == 0,
        pascal(3, 6) == 0,
        pascal(3, 7) == 0,
        pascal(4, 0) == 1,
        pascal(4, 1) == 4,
        pascal(4, 2) == 6,
        pascal(4, 3) == 4,
        pascal(4, 4) == 1,
        pascal(4, 5) == 0,
        pascal(4, 6) == 0,
        pascal(4, 7) == 0,
        pascal(5, 0) == 1,
        pascal(5, 1) == 5,
        pascal(5, 2) == 10,
        pascal(5, 3) == 10,
        pascal(5, 4) == 5,
        pascal(5, 5) == 1,
        pascal(5, 6) == 0,
        pascal(5, 7) == 0,
        pascal(6, 0) == 1,
        pascal(6, 1) == 6,
        pascal(6, 2) == 15,
        pascal(6, 3) == 20,
        pascal(6, 4) == 15,
        pascal(6, 5) == 6,
        pascal(6, 6) == 1,
        pascal(6, 7) == 0,
        pascal(7, 0) == 1,
        pascal(7, 1) == 7,
        pascal(7, 2) == 21,
        pascal(7, 3) == 35,
        pascal(7, 4) == 35,
        pascal(7, 5) == 21,
        pascal(7, 6) == 7,
        pascal(7, 7) == 1,
        pascal(8, 0) == 1,
        pascal(8, 1) == 8,
        pascal(8, 2) == 28,
        pascal(8, 3) == 56,
        pascal(8, 4) == 70,
        pascal(8, 5) == 56,
        pascal(8, 6) == 28,
        pascal(8, 7) == 8,
        pascal(9, 0) == 1,
        pascal(9, 1) == 9,
        pascal(9, 2) == 36,
        pascal(9, 3) == 84,
        pascal(9, 4) == 126,
        pascal(9, 5) == 126,
        pascal(9, 6) == 84,
        pascal(9, 7) == 36,
        pascal(10, 0) == 1,
        pascal(10, 1) == 10,
        pascal(10, 2) == 45,
        pascal(10, 3) == 120,
        pascal(10, 4) == 210,
        pascal(10, 5) == 252,
        pascal(10, 6) == 210,
        pascal(10, 7) == 120,
        pascal(11, 0) == 1,
        pascal(11, 1) == 11,
        pascal(11, 2) == 55,
        pascal(11, 3) == 165,
        pascal(11, 4) == 330,
        pascal(11, 5) == 462,
        pascal(11, 6) == 462,
        pascal(11, 7) == 330,
        pascal(12, 0) == 1,
        pascal(12, 1) == 12,
        pascal(12, 2) == 66,
        pascal(12, 3) == 220,
        pascal(12, 4) == 495,
        pascal(12, 5) == 792,
        pascal(12, 6) == 924,
        pascal(12, 7) == 792,
{
    assert(pascal(0, 0) == 1);
    lemma_pascal_above(0, 1);
    lemma_pascal_above(0, 2);
    lemma_pascal_above(0, 3);
    lemma_pascal_above(0, 4);
    lemma_pascal_above(0, 5);
    lemma_pascal_above(0, 6);
    lemma_pascal_above(0, 7);
    lemma_pascal_above(0, 8);
    assert(pascal(1, 0) == 1);
    assert(pascal(1, 1) == 1);
    lemma_pascal_above(1, 2);
    lemma_pascal_above(1, 3);
    lemma_pascal_above(1, 4);
    lemma_pascal_above(1, 5);
    lemma_pascal_above(1, 6);
    lemma_pascal_above(1, 7);
    lemma_pascal_above(1, 8);
    assert(pascal(2, 0) == 1);
    assert(pascal(2, 1) == 2);
    assert(pascal(2, 2) == 1);
    lemma_pascal_above(2, 3);
    lemma_pascal_above(2, 4);
    lemma_pascal_above(2, 5);
    lemma_pascal_above(2, 6);
    lemma_pascal_above(2, 7);
    lemma_pascal_above(2, 8);
    assert(pascal(3, 0) == 1);
    assert(pascal(3, 1) == 3);
    assert(pascal(3, 2) == 3);
    assert(pascal(3, 3) == 1);
    lemma_pascal_above(3, 4);
    lemma_pascal_above(3, 5);
    lemma_pascal_above(3, 6);
    lemma_pascal_above(3, 7);
    lemma_pascal_above(3, 8);
    assert(pascal(4, 0) == 1);
    assert(pascal(4, 1) == 4);
    assert(pascal(4, 2) == 6);
    assert(pascal(4, 3) == 4);
    assert(pascal(4, 4) == 1);
    lemma_pascal_above(4, 5);
    lemma_pascal_above(4, 6);
    lemma_pascal_above(4, 7);
    lemma_pascal_above(4, 8);
    assert(pascal(5, 0) == 1);
    assert(pascal(5, 1) == 5);
    assert(pascal(5, 2) == 10);
    assert(pascal(5, 3) == 10);
    assert(pascal(5, 4) == 5);
    assert(pascal(5, 5) == 1);
    lemma_pascal_above(5, 6);
    lemma_pascal_above(5, 7);
    lemma_pascal_above(5, 8);
    assert(pascal(6, 0) == 1);
    assert(pascal(6, 1) == 6);
    assert(pascal(6, 2) == 15);
    assert(pascal(6, 3) == 20);
    assert(pascal(6, 4) == 15);
    assert(pascal(6, 5) == 6);
    assert(pascal(6, 6) == 1);
    lemma_pascal_above(6, 7);
    lemma_pascal_above(6, 8);
    assert(pascal(7, 0) == 1);
    assert(pascal(7, 1) == 7);
    assert(pascal(7, 2) == 21);
    assert(pascal(7, 3) == 35);
    assert(pascal(7, 4) == 35);
    assert(pascal(7, 5) == 21);
    assert(pascal(7, 6) == 7);
    assert(pascal(7, 7) == 1);
    lemma_pascal_above(7, 8);
    assert(pascal(8, 0) == 1);
    assert(pascal(8, 1) == 8);
    assert(pascal(8, 2) == 28);
    assert(pascal(8, 3) == 56);
    assert(pascal(8, 4) == 70);
    assert(pascal(8, 5) == 56);
    assert(pascal(8, 6) == 28);
    assert(pascal(8, 7) == 8);
    assert(pascal(8, 8) == 1);
    assert(pascal(9, 0) == 1);
    assert(pascal(9, 1) == 9);
    assert(pascal(9, 2) == 36);
    assert(pascal(9, 3) == 84);
    assert(pascal(9, 4) == 126);
    assert(pascal(9, 5) == 126);
    assert(pascal(9, 6) == 84);
    assert(pascal(9, 7) == 36);
    assert(pascal(9, 8) == 9);
    assert(pascal(10, 0) == 1);
    assert(pascal(10, 1) == 10);
    assert(pascal(10, 2) == 45);
    assert(pascal(10, 3) == 120);
    assert(pascal(10, 4) == 210);
    assert(pascal(10, 5) == 252);
    assert(pascal(10, 6) == 210);
    assert(pascal(10, 7) == 120);
    assert(pascal(10, 8) == 45);
    assert(pascal(11, 0) == 1);
    assert(pascal(11, 1) == 11);
    assert(pascal(11, 2) == 55);
    assert(pascal(11, 3) == 165);
    assert(pascal(11, 4) == 330);
    assert(pascal(11, 5) == 462);
    assert(pascal(11, 6) == 462);
    assert(pascal(11, 7) == 330);
    assert(pascal(11, 8) == 165);
    assert(pascal(12, 0) == 1);
    assert(pascal(12, 1) == 12);
    assert(pascal(12, 2) == 66);
    assert(pascal(12, 3) == 220);
    assert(pascal(12, 4) == 495);
    assert(pascal(12, 5) == 792);
    assert(pascal(12, 6) == 924);
    assert(pascal(12, 7) == 792);
    assert(pascal(12, 8) == 495);
}

proof fn lemma_legendre_term_value(n: nat, k: nat, sign: int, a: int, b: int)
    requires
        power(-1, k) == sign,
        pascal(n, k) == a,
        pascal((2 * n - 2 * k) as nat, n) == b,
    ensures
        legendre_term(n, k) == sign * a * b,
{
}

proof fn lemma_legendre_endpoints_of_degree_0()
    ensures
    horner_value(legendre_coeffs(0), 1) == pow2(0),
    horner_value(legendre_coeffs(0), -1) == power(-1, 0) * pow2(0),
{
    lemma_pascal_table();
    reveal_with_fuel(power, 8);
    reveal_with_fuel(pow2, 8);
    let a = legendre_coeffs(0);
    assert(horner_value(a.subrange(0, 0), 1) == 0);
    assert(horner_value(a.subrange(0, 0), -1) == 0);
    assert((2 * 0 - 2 * 0) as nat == 0);
    assert(pascal(0, 0) == 1 && pascal(0, 0) == 1 && power(-1, 0) == 1);
    lemma_legendre_term_value(0, 0, 1, 1, 1);
    assert(legendre_term(0, 0) == 1);
    assert(a[0] == 1);
    lemma_horner_prefix_step(a, 0, 1);
    assert(horner_value(a.subrange(0, 1), 1) == 1);
    assert(a.subrange(0, 1) =~= a);
    lemma_horner_prefix_step(a, 0, -1);
    assert(horner_value(a.subrange(0, 1), -1) == 1);
    assert(a.subrange(0, 1) =~= a);
}

proof fn lemma_legendre_endpoints_of_degree_1()
    ensures
    horner_value(legendre_coeffs(1), 1) == pow2(1),
    horner_value(legendre_coeffs(1), -1) == power(-1, 1) * pow2(1),
{
    lemma_pascal_table();
    reveal_with_fuel(power, 8);
    reveal_with_fuel(pow2, 8);
    let a = legendre_coeffs(1);
    assert(horner_value(a.subrange(0, 0), 1) == 0);
    assert(horner_value(a.subrange(0, 0), -1) == 0);
    assert((2 * 1 - 2 * 0) as nat == 2);
    assert(pascal(1, 0) == 1 && pascal(2, 1) == 2 && power(-1, 0) == 1);
    lemma_legendre_term_value(1, 0, 1, 1, 2);
    assert(legendre_term(1, 0) == 2);
    assert(a[0] == 2);
    assert(a[1] == 0);
    lemma_horner_prefix_step(a, 0, 1);
    assert(horner_value(a.subrange(0, 1), 1) == 2);
    lemma_horner_prefix_step(a, 1, 1);
    assert(horner_value(a.subrange(0, 2), 1) == 2);
    assert(a.subrange(0, 2) =~= a);
    lemma_horner_prefix_step(a, 0, -1);
    assert(horner_value(a.subrange(0, 1), -1) == 2);
    lemma_horner_prefix_step(a, 1, -1);
    assert(horner_value(a.subrange(0, 2), -1) == -2);
    assert(a.subrange(0, 2) =~= a);
}

proof fn lemma_legendre_endpoints_of_degree_2()
    ensures
    horner_value(legendre_coeffs(2), 1) == pow2(2),
    horner_value(legendre_coeffs(2), -1) == power(-1, 2) * pow2(2),
{
    lemma_pascal_table();
    reveal_with_fuel(power, 8);
    reveal_with_fuel(pow2, 8);
    let a = legendre_coeffs(2);
    assert(horner_value(a.subrange(0, 0), 1) == 0);
    assert(horner_value(a.subrange(0, 0), -1) == 0);
    assert((2 * 2 - 2 * 0) as nat == 4);
    assert(pascal(2, 0) == 1 && pascal(4, 2) == 6 && power(-1, 0) == 1);
    lemma_legendre_term_value(2, 0, 1, 1, 6);
    assert(legendre_term(2, 0) == 6);
    assert(a[0] == 6);
    assert(a[1] == 0);
    assert((2 * 2 - 2 * 1) as nat == 2);
    assert(pascal(2, 1) == 2 && pascal(2, 2) == 1 && power(-1, 1) == -1);
    lemma_legendre_term_value(2, 1, -1, 2, 1);
    assert(legendre_term(2, 1) == -2);
    assert(a[2] == -2);
    lemma_horner_prefix_step(a, 0, 1);
    assert(horner_value(a.subrange(0, 1), 1) == 6);
    lemma_horner_prefix_step(a, 1, 1);
    assert(horner_value(a.subrange(0, 2), 1) == 6);
    lemma_horner_prefix_step(a, 2, 1);
    assert(horner_value(a.subrange(0, 3), 1) == 4);
    assert(a.subrange(0, 3) =~= a);
    lemma_horner_prefix_step(a, 0, -1);
    assert(horner_value(a.subrange(0, 1), -1) == 6);
    lemma_horner_prefix_step(a, 1, -1);
    assert(horner_value(a.subrange(0, 2), -1) == -6);
    lemma_horner_prefix_step(a, 2, -1);
    assert(horner_value(a.subrange(0, 3), -1) == 4);
    assert(a.subrange(0, 3) =~= a);
}

proof fn lemma_legendre_endpoints_of_degree_3()
    ensures
    horner_value(legendre_coeffs(3), 1) == pow2(3),
    horner_value(legendre_coeffs(3), -1) == power(-1, 3) * pow2(3),
{
    lemma_pascal_table();
    reveal_with_fuel(power, 8);
    reveal_with_fuel(pow2, 8);
    let a = legendre_coeffs(3);
    assert(horner_value(a.subrange(0, 0), 1) == 0);
    assert(horner_value(a.subrange(0, 0), -1) == 0);
    assert((2 * 3 - 2 * 0) as nat == 6);
    assert(pascal(3, 0) == 1 && pascal(6, 3) == 20 && power(-1, 0) == 1);
    lemma_legendre_term_value(3, 0, 1, 1, 20);
    assert(legendre_term(3, 0) == 20);
    assert(a[0] == 20);
    assert(a[1] == 0);
    assert((2 * 3 - 2 * 1) as nat == 4);
    assert(pascal(3, 1) == 3 && pascal(4, 3) == 4 && power(-1, 1) == -1);
    lemma_legendre_term_value(3, 1, -1, 3, 4);
    assert(legendre_term(3, 1) == -12);
    assert(a[2] == -12);
    assert(a[3] == 0);
    lemma_horner_prefix_step(a, 0, 1);
    assert(horner_value(a.subrange(0, 1), 1) == 20);
    lemma_horner_prefix_step(a, 1, 1);
    assert(horner_value(a.subrange(0, 2), 1) == 20);
    lemma_horner_prefix_step(a, 2, 1);
    assert(horner_value(a.subrange(0, 3), 1) == 8);
    lemma_horner_prefix_step(a, 3, 1);
    assert(horner_value(a.subrange(0, 4), 1) == 8);
    assert(a.subrange(0, 4) =~= a);
    lemma_horner_prefix_step(a, 0, -1);
    assert(horner_value(a.subrange(0, 1), -1) == 20);
    lemma_horner_prefix_step(a, 1, -1);
    assert(horner_value(a.subrange(0, 2), -1) == -20);
    lemma_horner_prefix_step(a, 2, -1);
    assert(horner_value(a.subrange(0, 3), -1) == 8);
    lemma_horner_prefix_step(a, 3, -1);
    assert(horner_value(a.subrange(0, 4), -1) == -8);
    assert(a.subrange(0, 4) =~= a);
}

proof fn lemma_legendre_endpoints_of_degree_4()
    ensures
    horner_value(legendre_coeffs(4), 1) == pow2(4),
    horner_value(legendre_coeffs(4), -1) == power(-1, 4) * pow2(4),
{
    lemma_pascal_table();
    reveal_with_fuel(power, 8);
    reveal_with_fuel(pow2, 8);
    let a = legendre_coeffs(4);
    assert(horner_value(a.subrange(0, 0), 1) == 0);
    assert(horner_value(a.subrange(0, 0), -1) == 0);
    assert((2 * 4 - 2 * 0) as nat == 8);
    assert(pascal(4, 0) == 1 && pascal(8, 4) == 70 && power(-1, 0) == 1);
    lemma_legendre_term_value(4, 0, 1, 1, 70);
    assert(legendre_term(4, 0) == 70);
    assert(a[0] == 70);
    assert(a[1] == 0);
    assert((2 * 4 - 2 * 1) as nat == 6);
    assert(pascal(4, 1) == 4 && pascal(6, 4) == 15 && power(-1, 1) == -1);
    lemma_legendre_term_value(4, 1, -1, 4, 15);
    assert(legendre_term(4, 1) == -60);
    assert(a[2] == -60);
    assert(a[3] == 0);
    assert((2 * 4 - 2 * 2) as nat == 4);
    assert(pascal(4, 2) == 6 && pascal(4, 4) == 1 && power(-1, 2) == 1);
    lemma_legendre_term_value(4, 2, 1, 6, 1);
    assert(legendre_term(4, 2) == 6);
    assert(a[4] == 6);
    lemma_horner_prefix_step(a, 0, 1);
    assert(horner_value(a.subrange(0, 1), 1) == 70);
    lemma_horner_prefix_step(a, 1, 1);
    assert(horner_value(a.subrange(0, 2), 1) == 70);
    lemma_horner_prefix_step(a, 2, 1);
    assert(horner_value(a.subrange(0, 3), 1) == 10);
    lemma_horner_prefix_step(a, 3, 1);
    assert(horner_value(a.subrange(0, 4), 1) == 10);
    lemma_horner_prefix_step(a, 4, 1);
    assert(horner_value(a.subrange(0, 5), 1) == 16);
    assert(a.subrange(0, 5) =~= a);
    lemma_horner_prefix_step(a, 0, -1);
    assert(horner_value(a.subrange(0, 1), -1) == 70);
    lemma_horner_prefix_step(a, 1, -1);
    assert(horner_value(a.subrange(0, 2), -1) == -70);
    lemma_horner_prefix_step(a, 2, -1);
    assert(horner_value(a.subrange(0, 3), -1) == 10);
    lemma_horner_prefix_step(a, 3, -1);
    assert(horner_value(a.subrange(0, 4), -1) == -10);
    lemma_horner_prefix_step(a, 4, -1);
    assert(horner_value(a.subrange(0, 5), -1) == 16);
    assert(a.subrange(0, 5) =~= a);
}

proof fn lemma_legendre_endpoints_of_degree_5()
    ensures
    horner_value(legendre_coeffs(5), 1) == pow2(5),
    horner_value(legendre_coeffs(5), -1) == power(-1, 5) * pow2(5),
{
    lemma_pascal_table();
    reveal_with_fuel(power, 8);
    reveal_with_fuel(pow2, 8);
    let a = legendre_coeffs(5);
    assert(horner_value(a.subrange(0, 0), 1) == 0);
    assert(horner_value(a.subrange(0, 0), -1) == 0);
    assert((2 * 5 - 2 * 0) as nat == 10);
    assert(pascal(5, 0) == 1 && pascal(10, 5) == 252 && power(-1, 0) == 1);
    lemma_legendre_term_value(5, 0, 1, 1, 252);
    assert(legendre_term(5, 0) == 252);
    assert(a[0] == 252);
    assert(a[1] == 0);
    assert((2 * 5 - 2 * 1) as nat == 8);
    assert(pascal(5, 1) == 5 && pascal(8, 5) == 56 && power(-1, 1) == -1);
    lemma_legendre_term_value(5, 1, -1, 5, 56);
    assert(legendre_term(5, 1) == -280);
    assert(a[2] == -280);
    assert(a[3] == 0);
    assert((2 * 5 - 2 * 2) as nat == 6);
    assert(pascal(5, 2) == 10 && pascal(6, 5) == 6 && power(-1, 2) == 1);
    lemma_legendre_term_value(5, 2, 1, 10, 6);
    assert(legendre_term(5, 2) == 60);
    assert(a[4] == 60);
    assert(a[5] == 0);
    lemma_horner_prefix_step(a, 0, 1);
    assert(horner_value(a.subrange(0, 1), 1) == 252);
    lemma_horner_prefix_step(a, 1, 1);
    assert(horner_value(a.subrange(0, 2), 1) == 252);
    lemma_horner_prefix_step(a, 2, 1);
    assert(horner_value(a.subrange(0, 3), 1) == -28);
    lemma_horner_prefix_step(a, 3, 1);
    assert(horner_value(a.subrange(0, 4), 1) == -28);
    lemma_horner_prefix_step(a, 4, 1);
    assert(horner_value(a.subrange(0, 5), 1) == 32);
    lemma_horner_prefix_step(a, 5, 1);
    assert(horner_value(a.subrange(0, 6), 1) == 32);
    assert(a.subrange(0, 6) =~= a);
    lemma_horner_prefix_step(a, 0, -1);
    assert(horner_value(a.subrange(0, 1), -1) == 252);
    lemma_horner_prefix_step(a, 1, -1);
    assert(horner_value(a.subrange(0, 2), -1) == -252);
    lemma_horner_prefix_step(a, 2, -1);
    assert(horner_value(a.subrange(0, 3), -1) == -28);
    lemma_horner_prefix_step(a, 3, -1);
    assert(horner_value(a.subrange(0, 4), -1) == 28);
    lemma_horner_prefix_step(a, 4, -1);
    assert(horner_value(a.subrange(0, 5), -1) == 32);
    lemma_horner_prefix_step(a, 5, -1);
    assert(horner_value(a.subrange(0, 6), -1) == -32);
    assert(a.subrange(0, 6) =~= a);
}

proof fn lemma_legendre_endpoints_of_degree_6()
    ensures
    horner_value(legendre_coeffs(6), 1) == pow2(6),
    horner_value(legendre_coeffs(6), -1) == power(-1, 6) * pow2(6),
{
    lemma_pascal_table();
    reveal_with_fuel(power, 8);
    reveal_with_fuel(pow2, 8);
    let a = legendre_coeffs(6);
    assert(horner_value(a.subrange(0, 0), 1) == 0);
    assert(horner_value(a.subrange(0, 0), -1) == 0);
    assert((2 * 6 - 2 * 0) as nat == 12);
    assert(pascal(6, 0) == 1 && pascal(12, 6) == 924 && power(-1, 0) == 1);
    lemma_legendre_term_value(6, 0, 1, 1, 924);
    assert(legendre_term(6, 0) == 924);
    assert(a[0] == 924);
    assert(a[1] == 0);
    assert((2 * 6 - 2 * 1) as nat == 10);
    assert(pascal(6, 1) == 6 && pascal(10, 6) == 210 && power(-1, 1) == -1);
    lemma_legendre_term_value(6, 1, -1, 6, 210);
    assert(legendre_term(6, 1) == -1260);
    assert(a[2] == -1260);
    assert(a[3] == 0);
    assert((2 * 6 - 2 * 2) as nat == 8);
    assert(pascal(6, 2) == 15 && pascal(8, 6) == 28 && power(-1, 2) == 1);
    lemma_legendre_term_value(6, 2, 1, 15, 28);
    assert(legendre_term(6, 2) == 420);
    assert(a[4] == 420);
    assert(a[5] == 0);
    assert((2 * 6 - 2 * 3) as nat == 6);
    assert(pascal(6, 3) == 20 && pascal(6, 6) == 1 && power(-1, 3) == -1);
    lemma_legendre_term_value(6, 3, -1, 20, 1);
    assert(legendre_term(6, 3) == -20);
    assert(a[6] == -20);
    lemma_horner_prefix_step(a, 0, 1);
    assert(horner_value(a.subrange(0, 1), 1) == 924);
    lemma_horner_prefix_step(a, 1, 1);
    assert(horner_value(a.subrange(0, 2), 1) == 924);
    lemma_horner_prefix_step(a, 2, 1);
    assert(horner_value(a.subrange(0, 3), 1) == -336);
    lemma_horner_prefix_step(a, 3, 1);
    assert(horner_value(a.subrange(0, 4), 1) == -336);
    lemma_horner_prefix_step(a, 4, 1);
    assert(horner_value(a.subrange(0, 5), 1) == 84);
    lemma_horner_prefix_step(a, 5, 1);
    assert(horner_value(a.subrange(0, 6), 1) == 84);
    lemma_horner_prefix_step(a, 6, 1);
    assert(horner_value(a.subrange(0, 7), 1) == 64);
    assert(a.subrange(0, 7) =~= a);
    lemma_horner_prefix_step(a, 0, -1);
    assert(horner_value(a.subrange(0, 1), -1) == 924);
    lemma_horner_prefix_step(a, 1, -1);
    assert(horner_value(a.subrange(0, 2), -1) == -924);
    lemma_horner_prefix_step(a, 2, -1);
    assert(horner_value(a.subrange(0, 3), -1) == -336);
    lemma_horner_prefix_step(a, 3, -1);
    assert(horner_value(a.subrange(0, 4), -1) == 336);
    lemma_horner_prefix_step(a, 4, -1);
    assert(horner_value(a.subrange(0, 5), -1) == 84);
    lemma_horner_prefix_step(a, 5, -1);
    assert(horner_value(a.subrange(0, 6), -1) == -84);
    lemma_horner_prefix_step(a, 6, -1);
    assert(horner_value(a.subrange(0, 7), -1) == 64);
    assert(a.subrange(0, 7) =~= a);
}

/// The Legendre basis at the ends of the interval, for degrees 0 to 6: with
/// the closed form's scaling by `2^n`, `P_n(1) = 2^n` and `P_n(-1) = (-1)^n 2^n`
/// (the normalised `P_n(1) = 1` and `P_n(-1) = (-1)^n`).
pub proof fn lemma_legendre_endpoints(n: nat)
    requires
        n <= 6,
    ensures
        horner_value(legendre_coeffs(n), 1) == pow2(n),
        horner_value(legendre_coeffs(n), -1) == power(-1, n) * pow2(n),
{
    if n == 0 {
        lemma_legendre_endpoints_of_degree_0();
    } else if n == 1 {
        lemma_legendre_endpoints_of_degree_1();
    } else if n == 2 {
        lemma_legendre_endpoints_of_degree_2();
    } else if n == 3 {
        lemma_legendre_endpoints_of_degree_3();
    } else if n == 4 {
        lemma_legendre_endpoints_of_degree_4();
    } else if n == 5 {
        lemma_legendre_endpoints_of_degree_5();
    } else if n == 6 {
        lemma_legendre_endpoints_of_degree_6();
    }
}

} // verus!
