//! Fixed-point arithmetic shared by the analysis stages.
//!
//! Magnitudes, energies, intensities, levels and blend factors are unsigned
//! integers counted in millionths: the integer `v` stands for the quantity
//! `v / ONE`.

use vstd::prelude::*;

verus! {

/// The fixed-point representation of 1.0.
pub const ONE: u64 = 1_000_000;

/// `a / b` rounded up to the next integer, for `a >= 0` and `b > 0`.
pub open spec fn div_ceil(a: int, b: int) -> int {
    (a + b - 1) / b
}

/// `r` is the square root of `x`, rounded down.
pub open spec fn is_floor_sqrt(x: int, r: int) -> bool {
    0 <= r && r * r <= x < (r + 1) * (r + 1)
}

/// Squaring keeps the order of non-negative integers.
pub proof fn lemma_square_monotone(a: int, b: int)
    requires
        0 <= a <= b,
    ensures
        a * a <= b * b,
{
    assert(a * a <= b * b) by (nonlinear_arith)
        requires
            0 <= a <= b,
    ;
}

/// A number has exactly one rounded-down square root.
pub proof fn lemma_floor_sqrt_unique(x: int, r1: int, r2: int)
    requires
        is_floor_sqrt(x, r1),
        is_floor_sqrt(x, r2),
    ensures
        r1 == r2,
{
    if r1 < r2 {
        lemma_square_monotone(r1 + 1, r2);
    } else if r2 < r1 {
        lemma_square_monotone(r2 + 1, r1);
    }
}

/// Every non-negative number has a rounded-down square root.
pub proof fn lemma_floor_sqrt_exists(x: int)
    requires
        0 <= x,
    ensures
        exists|r: int| #[trigger] is_floor_sqrt(x, r),
    decreases x,
{
    if x == 0 {
        assert(is_floor_sqrt(0, 0));
    } else {
        let y = x - 1;
        lemma_floor_sqrt_exists(y);
        let r = choose|r: int| #[trigger] is_floor_sqrt(y, r);
        if (r + 1) * (r + 1) <= x {
            assert((r + 2) * (r + 2) > (r + 1) * (r + 1)) by (nonlinear_arith)
                requires
                    0 <= r,
            ;
            assert(is_floor_sqrt(x, r + 1));
        } else {
            assert(is_floor_sqrt(x, r));
        }
    }
}

/// The square root of `x`, rounded down; meaningful for `x >= 0`.
pub open spec fn floor_sqrt_of(x: int) -> int {
    choose|r: int| #[trigger] is_floor_sqrt(x, r)
}

/// `floor_sqrt_of` is the rounded-down square root, and the only one.
pub proof fn lemma_floor_sqrt_of(x: int)
    requires
        0 <= x,
    ensures
        is_floor_sqrt(x, floor_sqrt_of(x)),
        forall|r: int| #[trigger] is_floor_sqrt(x, r) ==> r == floor_sqrt_of(x),
{
    lemma_floor_sqrt_exists(x);
    assert forall|r: int| #[trigger] is_floor_sqrt(x, r) implies r == floor_sqrt_of(x) by {
        lemma_floor_sqrt_unique(x, r, floor_sqrt_of(x));
    }
}

/// The square root of `x`, rounded down.
pub fn floor_sqrt(x: u128) -> (r: u64)
    ensures
        is_floor_sqrt(x as int, r as int),
        r == floor_sqrt_of(x as int),
{
    proof {
        lemma_floor_sqrt_of(x as int);
    }
    let mut lo: u128 = 0;
    let mut hi: u128 = 0x1_0000_0000_0000_0000;
    assert(x < hi * hi) by (nonlinear_arith)
        requires
            x <= u128::MAX,
            hi == 0x1_0000_0000_0000_0000,
    ;
    while hi - lo > 1
        invariant
            lo < hi <= 0x1_0000_0000_0000_0000,
            lo * lo <= x < hi * hi,
        decreases hi - lo,
    {
        let mid: u128 = lo + (hi - lo) / 2;
        assert(mid * mid <= u128::MAX) by (nonlinear_arith)
            requires
                0 <= mid < 0x1_0000_0000_0000_0000,
        ;
        if mid * mid <= x {
            lo = mid;
        } else {
            hi = mid;
        }
    }
    lo as u64
}

/// `d * alpha / ONE` rounded up: the part `alpha` of the distance `d`, never
/// less than one unit while both are positive.
pub(crate) fn scaled_ceil(d: u64, alpha: u64) -> (s: u64)
    requires
        alpha <= ONE,
    ensures
        s == div_ceil(d * alpha, ONE as int),
        s <= d,
        d > 0 && alpha > 0 ==> s >= 1,
        alpha == ONE ==> s == d,
        alpha == 0 ==> s == 0,
{
    proof {
        lemma_scaled_ceil_bounds(d as int, alpha as int);
    }
    let product: u128 = (d as u128) * (alpha as u128);
    let s: u128 = (product + (ONE as u128 - 1)) / (ONE as u128);
    s as u64
}

/// Bounds of the rounded-up part `alpha` of a distance `d`.
pub proof fn lemma_scaled_ceil_bounds(d: int, alpha: int)
    requires
        0 <= d,
        0 <= alpha <= ONE,
    ensures
        0 <= d * alpha <= d * ONE,
        0 <= div_ceil(d * alpha, ONE as int) <= d,
        d > 0 && alpha > 0 ==> div_ceil(d * alpha, ONE as int) >= 1,
        alpha == ONE ==> div_ceil(d * alpha, ONE as int) == d,
        alpha == 0 ==> div_ceil(d * alpha, ONE as int) == 0,
{
    let p = d * alpha;
    assert(0 <= p <= d * ONE) by (nonlinear_arith)
        requires
            p == d * alpha,
            0 <= d,
            0 <= alpha <= ONE,
    ;
    assert(d > 0 && alpha > 0 ==> p >= 1) by (nonlinear_arith)
        requires
            p == d * alpha,
            0 <= d,
            0 <= alpha,
    ;
    assert(alpha == ONE ==> p == d * 1_000_000);
    assert(alpha == 0 ==> p == 0) by (nonlinear_arith)
        requires
            p == d * alpha,
    ;
}

} // verus!
