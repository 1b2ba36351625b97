//! Integer square roots and rounded division.

use vstd::prelude::*;

verus! {

/// `r` is the integer square root of `n`: the largest integer whose
/// square does not exceed `n`.
pub open spec fn is_floor_sqrt(n: int, r: int) -> bool {
    0 <= r && r * r <= n && n < (r + 1) * (r + 1)
}

/// The integer square root of `n` (of a negative `n`, nothing is said).
pub open spec fn floor_sqrt(n: int) -> int {
    choose|r: int| is_floor_sqrt(n, r)
}

/// Squaring is strictly monotone on the non-negative integers.
pub proof fn lemma_square_monotone(a: int, b: int)
    requires
        0 <= a <= b,
    ensures
        a * a <= b * b,
        a < b ==> a * a < b * b,
{
    assert(a * a <= b * b) by (nonlinear_arith)
        requires
            0 <= a <= b,
    ;
    if a < b {
        assert(a * a < b * b) by (nonlinear_arith)
            requires
                0 <= a < b,
        ;
    }
}

/// An integer square root is unique, so `floor_sqrt` names it.
pub proof fn lemma_floor_sqrt_unique(n: int, r: int)
    requires
        is_floor_sqrt(n, r),
    ensures
        floor_sqrt(n) == r,
{
    let s = floor_sqrt(n);
    assert(is_floor_sqrt(n, s));
    if s < r {
        lemma_square_monotone(s + 1, r);
    } else if r < s {
        lemma_square_monotone(r + 1, s);
    }
}

/// The integer square root, by bisection.
pub fn isqrt(n: u128) -> (r: u128)
    ensures
        is_floor_sqrt(n as int, r as int),
        r as int == floor_sqrt(n as int),
        r < 0x1_0000_0000_0000_0000,
{
    let mut lo: u128 = 0;
    let mut hi: u128 = 0x1_0000_0000_0000_0000;
    assert(n < hi * hi) by (nonlinear_arith)
        requires
            hi == 0x1_0000_0000_0000_0000,
            n <= u128::MAX,
    ;
    while hi - lo > 1
        invariant
            lo < hi <= 0x1_0000_0000_0000_0000,
            lo * lo <= n,
            n < hi * hi,
        decreases hi - lo,
    {
        let mid: u128 = lo + (hi - lo) / 2;
        assert(mid * mid <= u128::MAX) by (nonlinear_arith)
            requires
                mid < 0x1_0000_0000_0000_0000,
        ;
        if mid * mid <= n {
            lo = mid;
        } else {
            hi = mid;
        }
    }
    proof {
        lemma_floor_sqrt_unique(n as int, lo as int);
    }
    lo
}

/// `a / b` rounded to the nearest integer, a tie going away from zero.
pub open spec fn round_div(a: int, b: int) -> int
    recommends
        b > 0,
{
    if a >= 0 {
        (2 * a + b) / (2 * b)
    } else {
        -((2 * (-a) + b) / (2 * b))
    }
}

/// Rounded division of a signed numerator by a positive denominator.
pub fn rounded_quotient(a: i128, b: u128) -> (q: i128)
    requires
        0 < b <= 0x2000_0000_0000_0000_0000_0000_0000_0000,
        -0x2000_0000_0000_0000_0000_0000_0000_0000 <= a <= 0x2000_0000_0000_0000_0000_0000_0000_0000,
    ensures
        q == round_div(a as int, b as int),
{
    let mag: u128 = if a >= 0 { a as u128 } else { (-a) as u128 };
    let q: u128 = (2 * mag + b) / (2 * b);
    assert(q <= 2 * mag + b) by (nonlinear_arith)
        requires
            q == (2 * mag + b) / (2 * b),
            b > 0,
    ;
    if a >= 0 {
        q as i128
    } else {
        -(q as i128)
    }
}

/// The absolute value.
pub open spec fn abs(a: int) -> int {
    if a >= 0 {
        a
    } else {
        -a
    }
}

/// A bounded integer has a bounded square.
pub proof fn lemma_square_bound(a: int, limit: int)
    requires
        abs(a) <= limit,
    ensures
        0 <= a * a <= limit * limit,
{
    assert(0 <= a * a <= limit * limit) by (nonlinear_arith)
        requires
            -limit <= a <= limit,
    ;
}

/// A number and its absolute value have one square.
pub proof fn lemma_abs_square(a: int)
    ensures
        abs(a) * abs(a) == a * a,
{
    assert(abs(a) * abs(a) == a * a) by (nonlinear_arith)
        requires
            abs(a) == a || abs(a) == -a,
    ;
}

/// The product of two bounded integers is bounded by the product of
/// the bounds.
pub proof fn lemma_product_bound(a: int, b: int, la: int, lb: int)
    requires
        abs(a) <= la,
        abs(b) <= lb,
    ensures
        abs(a * b) <= la * lb,
        -(la * lb) <= a * b <= la * lb,
{
    assert(-(la * lb) <= a * b <= la * lb) by (nonlinear_arith)
        requires
            -la <= a <= la,
            -lb <= b <= lb,
    ;
}

/// Every natural number has an integer square root.
pub proof fn lemma_floor_sqrt_exists(n: int)
    requires
        n >= 0,
    ensures
        is_floor_sqrt(n, floor_sqrt(n)),
    decreases n,
{
    if n == 0 {
        assert(is_floor_sqrt(0, 0));
    } else {
        lemma_floor_sqrt_exists(n - 1);
        let r = floor_sqrt(n - 1);
        if n < (r + 1) * (r + 1) {
            assert(is_floor_sqrt(n, r));
        } else {
            assert(n < (r + 2) * (r + 2)) by (nonlinear_arith)
                requires
                    n - 1 < (r + 1) * (r + 1),
                    r >= 0,
            ;
            assert(is_floor_sqrt(n, r + 1));
        }
    }
}

/// A rounded quotient is off by half a unit at most.
pub proof fn lemma_round_div_error(a: int, b: int)
    requires
        b > 0,
    ensures
        -b <= 2 * b * round_div(a, b) - 2 * a <= b,
{
    if a >= 0 {
        let q = (2 * a + b) / (2 * b);
        assert(2 * b * q <= 2 * a + b < 2 * b * q + 2 * b) by (nonlinear_arith)
            requires
                q == (2 * a + b) / (2 * b),
                b > 0,
        ;
    } else {
        let q = (2 * (-a) + b) / (2 * b);
        assert(2 * b * q <= 2 * (-a) + b < 2 * b * q + 2 * b) by (nonlinear_arith)
            requires
                q == (2 * (-a) + b) / (2 * b),
                b > 0,
        ;
        assert(2 * b * (-q) == -(2 * b * q)) by (nonlinear_arith);
    }
}

} // verus!
