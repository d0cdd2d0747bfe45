//! Coefficients of polynomial derivatives.
use vstd::prelude::*;

verus! {

/// The falling factorial `degree · (degree - 1) · … · (degree - derivative + 1)`
/// (the empty product `1` when `derivative <= 0`).
pub open spec fn falling_factorial(degree: int, derivative: int) -> int
    decreases derivative,
{
    if derivative <= 0 {
        1
    } else {
        degree * falling_factorial(degree - 1, derivative - 1)
    }
}

/// The coefficient in front of the degree-`degree` term after `derivative`
/// differentiations.
pub open spec fn spec_derivative_coefficient(degree: int, derivative: int) -> int {
    if derivative > degree {
        0
    } else {
        falling_factorial(degree, derivative)
    }
}

/// A falling factorial whose factors are all positive is at least one.
proof fn lemma_falling_factorial_positive(degree: int, derivative: int)
    requires
        derivative <= degree,
        1 <= degree || derivative <= 0,
    ensures
        falling_factorial(degree, derivative) >= 1,
    decreases derivative,
{
    if derivative > 0 {
        lemma_falling_factorial_positive(degree - 1, derivative - 1);
        let f = falling_factorial(degree - 1, derivative - 1);
        assert(degree * f >= 1) by (nonlinear_arith)
            requires
                degree >= 1,
                f >= 1,
        ;
    }
}

/// The coefficient in front of the degree-`degree` term after `derivative`
/// differentiations (the falling factorial `degree · (degree-1) · …`), and `0`
/// when `derivative > degree`.
pub fn derivative_coefficient(degree: i32, derivative: i32) -> (r: i64)
    requires
        spec_derivative_coefficient(degree as int, derivative as int) <= i64::MAX,
    ensures
        r == spec_derivative_coefficient(degree as int, derivative as int),
{
    if derivative > degree {
        return 0;
    }
    let mut degree = degree;
    let mut derivative = derivative;
    let mut coefficient: i64 = 1;
    let ghost total = falling_factorial(degree as int, derivative as int);
    proof {
        lemma_falling_factorial_positive(degree as int, derivative as int);
    }
    while derivative > 0
        invariant
            derivative <= degree,
            1 <= degree || derivative <= 0,
            coefficient >= 1,
            coefficient * falling_factorial(degree as int, derivative as int) == total,
            total <= i64::MAX,
        decreases derivative,
    {
        proof {
            lemma_falling_factorial_positive(degree - 1, derivative - 1);
            let f = falling_factorial(degree - 1, derivative - 1);
            let d = degree as int;
            let c = coefficient as int;
            assert(c * d <= c * (d * f)) by (nonlinear_arith)
                requires
                    c >= 1,
                    d >= 1,
                    f >= 1,
            ;
            assert(c * (d * f) == (c * d) * f) by (nonlinear_arith);
            assert(c * d >= 1) by (nonlinear_arith)
                requires
                    c >= 1,
                    d >= 1,
            ;
        }
        coefficient = coefficient * (degree as i64);
        degree = degree - 1;
        derivative = derivative - 1;
    }
    coefficient
}

/// `n!`.
pub open spec fn factorial(n: nat) -> nat
    decreases n,
{
    if n == 0 {
        1
    } else {
        n * factorial((n - 1) as nat)
    }
}

/// Differentiating `derivative` times the degree-`degree` term multiplies it by
/// `degree! / (degree - derivative)!` when `0 <= derivative <= degree`: in particular
/// by `1` when nothing is differentiated, and by `degree!` when the term becomes
/// constant. A term of lower degree than the number of differentiations vanishes.
pub proof fn lemma_derivative_coefficient_factorials(degree: int, derivative: int)
    ensures
        0 <= derivative <= degree ==> spec_derivative_coefficient(degree, derivative)
            * factorial((degree - derivative) as nat) == factorial(degree as nat),
        0 <= degree ==> spec_derivative_coefficient(degree, 0) == 1,
        0 <= degree ==> spec_derivative_coefficient(degree, degree) == factorial(degree as nat),
        derivative > degree ==> spec_derivative_coefficient(degree, derivative) == 0,
{
    if 0 <= degree {
        lemma_falling_factorial_ratio(degree, 0);
        lemma_falling_factorial_ratio(degree, degree);
        assert(factorial((degree - degree) as nat) == 1);
        assert(factorial((degree - 0) as nat) == factorial(degree as nat));
    }
    if 0 <= derivative <= degree {
        lemma_falling_factorial_ratio(degree, derivative);
    }
}

proof fn lemma_falling_factorial_ratio(degree: int, derivative: int)
    requires
        0 <= derivative <= degree,
    ensures
        falling_factorial(degree, derivative) * factorial((degree - derivative) as nat)
            == factorial(degree as nat),
    decreases derivative,
{
    if derivative > 0 {
        lemma_falling_factorial_ratio(degree - 1, derivative - 1);
        let f = falling_factorial(degree - 1, derivative - 1);
        let g = factorial((degree - derivative) as nat);
        assert((degree - 1) - (derivative - 1) == degree - derivative);
        assert(f * g == factorial((degree - 1) as nat));
        assert(factorial(degree as nat) == degree * factorial((degree - 1) as nat));
        assert((degree * f) * g == degree * (f * g)) by (nonlinear_arith);
    }
}

proof fn lemma_falling_factorial_last(degree: int, k: int)
    requires
        0 <= k,
    ensures
        falling_factorial(degree, k + 1) == falling_factorial(degree, k) * (degree - k),
    decreases k,
{
    assert(falling_factorial(degree, k + 1) == degree * falling_factorial(degree - 1, k));
    if k > 0 {
        lemma_falling_factorial_last(degree - 1, k - 1);
        let f = falling_factorial(degree - 1, k - 1);
        assert(falling_factorial(degree - 1, k) == f * (degree - k));
        assert(falling_factorial(degree, k) == degree * f);
        assert(degree * (f * (degree - k)) == (degree * f) * (degree - k)) by (nonlinear_arith);
    } else {
        assert(falling_factorial(degree - 1, 0) == 1);
        assert(falling_factorial(degree, 0) == 1);
    }
}

/// Each further differentiation multiplies the coefficient by the exponent the term has
/// reached: for `0 <= k < degree`, differentiating `k + 1` times gives the coefficient of
/// `k` times multiplied by `degree - k`. Differentiating the degree-`degree` term once
/// more than the degree-`degree - 1` term multiplies its coefficient by `degree`.
pub proof fn lemma_derivative_coefficient_step(degree: int, k: int)
    ensures
        0 <= k < degree ==> spec_derivative_coefficient(degree, k + 1)
            == spec_derivative_coefficient(degree, k) * (degree - k),
        1 <= k <= degree ==> spec_derivative_coefficient(degree, k) == degree
            * spec_derivative_coefficient(degree - 1, k - 1),
{
    if 0 <= k < degree {
        lemma_falling_factorial_last(degree, k);
    }
}

} // verus!
