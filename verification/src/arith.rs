//! Exact integer arithmetic for fixed-point geometry: floors and roundings
//! of ratios, and the bounds that keep intermediate products representable.

use vstd::prelude::*;
use vstd::arithmetic::div_mod::lemma_fundamental_div_mod_converse;

verus! {

/// The largest integer not above the ratio `n / d`, for a positive `d`.
pub open spec fn floor_ratio(n: int, d: int) -> int
    recommends
        d > 0,
{
    n / d
}

/// The ratio `n / d` rounded to the nearest integer, halves rounded up,
/// for a non-negative `n` and a positive `d`.
pub open spec fn round_ratio(n: int, d: int) -> int
    recommends
        n >= 0,
        d > 0,
{
    (2 * n + d) / (2 * d)
}

/// `v` limited to the interval `[lo, hi]`.
pub open spec fn clamp(v: int, lo: int, hi: int) -> int
    recommends
        lo <= hi,
{
    if v < lo {
        lo
    } else if v > hi {
        hi
    } else {
        v
    }
}

/// The smaller of two integers.
pub open spec fn min_int(a: int, b: int) -> int {
    if a <= b {
        a
    } else {
        b
    }
}

/// The larger of two integers.
pub open spec fn max_int(a: int, b: int) -> int {
    if a >= b {
        a
    } else {
        b
    }
}

/// A quotient `q` with a remainder in `[0, d)` is the floor of the ratio.
pub proof fn lemma_floor_ratio_unique(n: int, d: int, q: int)
    requires
        d > 0,
        q * d <= n < q * d + d,
    ensures
        floor_ratio(n, d) == q,
{
    lemma_fundamental_div_mod_converse(n, d, q, n - q * d);
}

/// The floor of a ratio lies within one divisor of the numerator.
pub proof fn lemma_floor_ratio_bounds(n: int, d: int)
    requires
        d > 0,
    ensures
        floor_ratio(n, d) * d <= n < floor_ratio(n, d) * d + d,
{
    vstd::arithmetic::div_mod::lemma_fundamental_div_mod(n, d);
    vstd::arithmetic::div_mod::lemma_mod_bound(n, d);
    assert(d * (n / d) == (n / d) * d) by (nonlinear_arith);
}

/// Flooring keeps order.
pub proof fn lemma_floor_ratio_monotonic(a: int, b: int, d: int)
    requires
        d > 0,
        a <= b,
    ensures
        floor_ratio(a, d) <= floor_ratio(b, d),
{
    vstd::arithmetic::div_mod::lemma_div_is_ordered(a, b, d);
}

/// A ratio keeps its floor when numerator and divisor are multiplied by the
/// same positive number.
pub proof fn lemma_floor_ratio_scaling(n: int, d: int, k: int)
    requires
        d > 0,
        k > 0,
    ensures
        k * d > 0,
        floor_ratio(k * n, k * d) == floor_ratio(n, d),
{
    let q = floor_ratio(n, d);
    lemma_floor_ratio_bounds(n, d);
    assert(k * d > 0 && q * (k * d) <= k * n < q * (k * d) + k * d) by (nonlinear_arith)
        requires
            q * d <= n < q * d + d,
            d > 0,
            k > 0,
    ;
    lemma_floor_ratio_unique(k * n, k * d, q);
}

/// With a divisor of one or more, the floor of a ratio is no larger in
/// magnitude than the numerator.
pub proof fn lemma_floor_ratio_magnitude(n: int, d: int, m: int)
    requires
        d >= 1,
        -m <= n <= m,
    ensures
        -m <= floor_ratio(n, d) <= m,
{
    let q = floor_ratio(n, d);
    lemma_floor_ratio_bounds(n, d);
    if q > m {
        assert(q * d >= q) by (nonlinear_arith)
            requires
                q > 0,
                d >= 1,
        ;
    }
    if q < -m {
        assert(q * d + d <= q + 1) by (nonlinear_arith)
            requires
                q + 1 <= 0,
                d >= 1,
        ;
    }
}

/// The product of two numbers that are each scaled by `k` is the product of
/// the two, scaled by `k * k`.
pub proof fn lemma_scaled_product(k: int, a: int, b: int)
    by (nonlinear_arith)
    ensures
        (k * a) * (k * b) == (k * k) * (a * b),
{
}

/// A product of two bounded non-negative factors is bounded by the product
/// of the bounds.
pub proof fn lemma_product_bound(a: int, b: int, a_max: int, b_max: int)
    by (nonlinear_arith)
    requires
        0 <= a <= a_max,
        0 <= b <= b_max,
    ensures
        0 <= a * b <= a_max * b_max,
{
}

/// A product of two factors bounded in magnitude is bounded in magnitude by
/// the product of the bounds.
pub proof fn lemma_product_magnitude(a: int, b: int, a_max: int, b_max: int)
    by (nonlinear_arith)
    requires
        -a_max <= a <= a_max,
        -b_max <= b <= b_max,
    ensures
        -(a_max * b_max) <= a * b <= a_max * b_max,
{
}

/// Computes the floor of `n / d` for a positive divisor, also where `n` is
/// negative (machine division truncates toward zero instead).
pub fn floor_div(n: i128, d: i128) -> (q: i128)
    requires
        d > 0,
    ensures
        q == floor_ratio(n as int, d as int),
{
    if n >= 0 {
        n / d
    } else {
        let m: i128 = -(n + 1);
        let t: i128 = m / d;
        let q: i128 = -t - 1;
        proof {
            let mi = m as int;
            let di = d as int;
            lemma_floor_ratio_bounds(mi, di);
            assert((-(t as int) - 1) * di == -((t as int) * di) - di) by (nonlinear_arith);
            lemma_floor_ratio_unique(n as int, di, q as int);
        }
        q
    }
}

} // verus!
