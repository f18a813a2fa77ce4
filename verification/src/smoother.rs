//! Temporal smoothing: an exponential moving average whose blend factor is
//! derived from the elapsed time, and the compression curve that turns a mean
//! energy into the raw target of the overall level.
//!
//! The blend factor `alpha` of a tick is `1 - exp(-k * dt)` for the smoothing
//! rate `k` and the elapsed time `dt`, handed in as a fixed-point number and
//! clamped here into `[0, 1]`. The smoothed value moves from the previous
//! value toward the target by the part `alpha` of their distance, rounded to
//! the next representable value in the direction of the target.

use vstd::prelude::*;
use vstd::arithmetic::power::{pow, lemma_pow_positive};
use crate::fixed::{ONE, div_ceil, is_floor_sqrt, floor_sqrt, floor_sqrt_of, scaled_ceil,
    lemma_scaled_ceil_bounds, lemma_square_monotone, lemma_floor_sqrt_of};

verus! {

/// `raw` clamped into the unit interval `[0, ONE]`.
pub open spec fn clamp_unit(raw: int) -> int {
    if raw < 0 {
        0
    } else if raw > ONE {
        ONE as int
    } else {
        raw
    }
}

/// The blend of `prev` and `target` with weight `alpha` on the target:
/// `prev * (1 - alpha) + target * alpha`, rounded toward `target`.
pub open spec fn blend(prev: int, target: int, alpha: int) -> int {
    if target >= prev {
        prev + div_ceil((target - prev) * alpha, ONE as int)
    } else {
        prev - div_ceil((prev - target) * alpha, ONE as int)
    }
}

/// The distance between two values.
pub open spec fn distance(a: int, b: int) -> int {
    if a >= b {
        a - b
    } else {
        b - a
    }
}

/// The smoothed value after `ticks` ticks that all see the same target and
/// the same blend factor.
pub open spec fn smoothed_after(prev: int, target: int, alpha: int, ticks: nat) -> int
    decreases ticks,
{
    if ticks == 0 {
        prev
    } else {
        smoothed_after(blend(prev, target, alpha), target, alpha, (ticks - 1) as nat)
    }
}

/// The smoothed value after one tick per entry of `alphas`, each with its own
/// blend factor, all with the same target.
pub open spec fn smoothed_over(prev: int, target: int, alphas: Seq<int>) -> int
    decreases alphas.len(),
{
    if alphas.len() == 0 {
        prev
    } else {
        smoothed_over(blend(prev, target, alphas[0]), target, alphas.drop_first())
    }
}

/// The raw target of the level for a mean energy: the square root of
/// `energy / normalization`, rounded down and clamped to `cap`. A zero
/// divisor saturates at the cap.
pub open spec fn level_target_of(energy: int, normalization: int, cap: int) -> int {
    if normalization <= 0 {
        cap
    } else {
        let root = floor_sqrt_of(energy * ONE * ONE / normalization);
        if root < cap {
            root
        } else {
            cap
        }
    }
}

/// `level` is the largest value up to `cap` whose square does not exceed
/// `energy / normalization`.
pub open spec fn is_level_target(energy: int, normalization: int, cap: int, level: int) -> bool {
    &&& 0 <= level <= cap
    &&& level * level * normalization <= energy * ONE * ONE
    &&& level < cap ==> (level + 1) * (level + 1) * normalization > energy * ONE * ONE
}

/// Clamps a blend factor into `[0, 1]`.
pub fn clamp_alpha(raw: i64) -> (alpha: u64)
    ensures
        alpha == clamp_unit(raw as int),
        alpha <= ONE,
{
    if raw < 0 {
        0
    } else if raw > ONE as i64 {
        ONE
    } else {
        raw as u64
    }
}

/// One smoothing step: blends `prev` and `target` with the blend factor
/// `raw_alpha`, clamped into `[0, 1]`.
pub fn smooth(prev: u64, target: u64, raw_alpha: i64) -> (smoothed: u64)
    ensures
        smoothed == blend(prev as int, target as int, clamp_unit(raw_alpha as int)),
        prev <= target ==> prev <= smoothed <= target,
        target <= prev ==> target <= smoothed <= prev,
{
    let alpha: u64 = clamp_alpha(raw_alpha);
    if target >= prev {
        let step: u64 = scaled_ceil(target - prev, alpha);
        prev + step
    } else {
        let step: u64 = scaled_ceil(prev - target, alpha);
        prev - step
    }
}

/// The raw target of the level: `sqrt(energy / normalization)` clamped into
/// `[0, cap]`.
pub fn level_target(energy: u64, normalization: u64, cap: u64) -> (level: u64)
    ensures
        level == level_target_of(energy as int, normalization as int, cap as int),
        is_level_target(energy as int, normalization as int, cap as int, level as int),
{
    proof {
        lemma_level_target_is_largest(energy as int, normalization as int, cap as int);
    }
    if normalization == 0 {
        return cap;
    }
    assert(energy * ONE * ONE <= u64::MAX * 1_000_000_000_000) by (nonlinear_arith)
        requires
            0 <= energy <= u64::MAX,
            ONE == 1_000_000,
    ;
    let scaled: u128 = (energy as u128) * (ONE as u128) * (ONE as u128);
    let root: u64 = floor_sqrt(scaled / (normalization as u128));
    if root < cap {
        root
    } else {
        cap
    }
}

/// The level target is the largest value up to the cap whose square, times
/// the divisor, does not exceed the energy.
pub proof fn lemma_level_target_is_largest(energy: int, normalization: int, cap: int)
    requires
        0 <= energy,
        0 <= normalization,
        0 <= cap,
    ensures
        is_level_target(energy, normalization, cap, level_target_of(energy, normalization, cap)),
        forall|level: int|
            is_level_target(energy, normalization, cap, level) ==> level == level_target_of(
                energy,
                normalization,
                cap,
            ),
{
    let e = energy * ONE * ONE;
    assert(e >= 0) by (nonlinear_arith)
        requires
            e == energy * ONE * ONE,
            energy >= 0,
    ;
    let t = level_target_of(energy, normalization, cap);
    if normalization == 0 {
        assert(t * t * normalization == 0) by (nonlinear_arith)
            requires
                normalization == 0,
        ;
        assert forall|level: int| is_level_target(energy, normalization, cap, level) implies level
            == t by {
            if level < cap {
                assert((level + 1) * (level + 1) * normalization == 0) by (nonlinear_arith)
                    requires
                        normalization == 0,
                ;
            }
        }
    } else {
        let q = e / normalization;
        assert(0 <= q && q * normalization <= e < (q + 1) * normalization) by (nonlinear_arith)
            requires
                q == e / normalization,
                normalization > 0,
                e >= 0,
        ;
        lemma_floor_sqrt_of(q);
        let root = floor_sqrt_of(q);
        lemma_square_monotone(t, root);
        lemma_square_below_quotient(t, q, normalization, e);
        if t < cap {
            lemma_square_above_quotient(t + 1, q, normalization, e);
        }
        assert forall|level: int| is_level_target(energy, normalization, cap, level) implies level
            == t by {
            // level * level <= q, and (level + 1)^2 > q unless level == cap
            lemma_product_below_quotient(level * level, q, normalization, e);
            if level < cap {
                lemma_product_above_quotient((level + 1) * (level + 1), q, normalization, e);
                assert(is_floor_sqrt(q, level));
                assert(level == root);
            } else {
                // level == cap and cap * cap <= q, so root >= cap
                if root < cap {
                    lemma_square_monotone(root + 1, cap);
                }
            }
        }
    }
}

/// If `r * r` is at most the quotient `q = e / n`, then `r * r * n` is at most `e`.
proof fn lemma_square_below_quotient(r: int, q: int, n: int, e: int)
    requires
        n > 0,
        q * n <= e,
        0 <= r,
        r * r <= q,
    ensures
        r * r * n <= e,
{
    assert(r * r * n <= q * n) by (nonlinear_arith)
        requires
            r * r <= q,
            n > 0,
    ;
}

/// If `r * r` exceeds the quotient `q = e / n`, then `r * r * n` exceeds `e`.
proof fn lemma_square_above_quotient(r: int, q: int, n: int, e: int)
    requires
        n > 0,
        e < (q + 1) * n,
        r * r > q,
    ensures
        r * r * n > e,
{
    assert(r * r * n >= (q + 1) * n) by (nonlinear_arith)
        requires
            r * r >= q + 1,
            n > 0,
    ;
}

/// If `p * n` is at most `e`, then `p` is at most the quotient `q = e / n`.
proof fn lemma_product_below_quotient(p: int, q: int, n: int, e: int)
    requires
        n > 0,
        e < (q + 1) * n,
        p * n <= e,
    ensures
        p <= q,
{
    if p >= q + 1 {
        assert(p * n >= (q + 1) * n) by (nonlinear_arith)
            requires
                p >= q + 1,
                n > 0,
        ;
    }
}

/// If `p * n` exceeds `e`, then `p` exceeds the quotient `q = e / n`.
proof fn lemma_product_above_quotient(p: int, q: int, n: int, e: int)
    requires
        n > 0,
        q * n <= e,
        p * n > e,
    ensures
        p > q,
{
    if p <= q {
        assert(p * n <= q * n) by (nonlinear_arith)
            requires
                p <= q,
                n > 0,
        ;
    }
}

/// The blend is the exact weighted mean `prev * (1 - alpha) + target * alpha`
/// rounded toward the target: it differs from it by less than one unit.
pub proof fn lemma_blend_rounds_weighted_mean(prev: int, target: int, alpha: int)
    requires
        0 <= alpha <= ONE,
    ensures
        target >= prev ==> prev * (ONE - alpha) + target * alpha <= blend(prev, target, alpha) * ONE
            < prev * (ONE - alpha) + target * alpha + ONE,
        target < prev ==> prev * (ONE - alpha) + target * alpha - ONE < blend(prev, target, alpha)
            * ONE <= prev * (ONE - alpha) + target * alpha,
{
    let d = distance(target, prev);
    let p = d * alpha;
    let s = div_ceil(p, ONE as int);
    assert(p <= s * ONE < p + ONE);
    if target >= prev {
        assert(prev * (ONE - alpha) + target * alpha == prev * ONE + (target - prev) * alpha)
            by (nonlinear_arith);
    } else {
        assert(prev * (ONE - alpha) + target * alpha == prev * ONE - (prev - target) * alpha)
            by (nonlinear_arith);
    }
}

/// A step with a blend factor in `[0, 1]` never overshoots: the result lies
/// between the previous value and the target.
pub proof fn lemma_blend_between(prev: int, target: int, alpha: int)
    requires
        0 <= alpha <= ONE,
    ensures
        prev <= target ==> prev <= blend(prev, target, alpha) <= target,
        target <= prev ==> target <= blend(prev, target, alpha) <= prev,
        distance(target, blend(prev, target, alpha)) <= distance(target, prev),
        alpha > 0 && prev != target ==> distance(target, blend(prev, target, alpha)) < distance(
            target,
            prev,
        ),
        alpha == ONE ==> blend(prev, target, alpha) == target,
        alpha == 0 ==> blend(prev, target, alpha) == prev,
{
    lemma_scaled_ceil_bounds(distance(target, prev), alpha);
}

/// The distance to the target shrinks by the factor `1 - alpha` in each step,
/// rounded down.
pub proof fn lemma_blend_contracts(prev: int, target: int, alpha: int)
    requires
        0 <= alpha <= ONE,
    ensures
        distance(target, blend(prev, target, alpha)) == distance(target, prev) * (ONE - alpha)
            / (ONE as int),
{
    let d = distance(target, prev);
    let p = d * alpha;
    lemma_scaled_ceil_bounds(d, alpha);
    assert(d * (ONE - alpha) == d * ONE - p) by (nonlinear_arith)
        requires
            p == d * alpha,
    ;
    // d - ceil(p / ONE) == floor((d * ONE - p) / ONE)
    let s = div_ceil(p, ONE as int);
    assert(p <= s * ONE < p + ONE);
    assert((d - s) * ONE <= d * ONE - p < (d - s) * ONE + ONE);
}

/// Smoothing toward the value already held changes nothing, whatever the
/// blend factor.
pub proof fn lemma_steady_input_is_fixed_point(prev: int, alpha: int)
    ensures
        blend(prev, prev, alpha) == prev,
{
    assert((prev - prev) * alpha == 0) by (nonlinear_arith);
}

/// While the target equals the value held, the smoothed value stays there
/// over any number of ticks and whatever time elapses between them.
pub proof fn lemma_steady_input_stays(prev: int, alphas: Seq<int>)
    ensures
        smoothed_over(prev, prev, alphas) == prev,
    decreases alphas.len(),
{
    if alphas.len() > 0 {
        lemma_steady_input_is_fixed_point(prev, alphas[0]);
        lemma_steady_input_stays(prev, alphas.drop_first());
    }
}

/// With a constant target and a constant blend factor in `[0, 1]` the
/// smoothed value never overshoots: after any number of ticks it lies between
/// the starting value and the target, and one more tick brings it no farther
/// from the target.
pub proof fn lemma_smoothing_never_overshoots(prev: int, target: int, alpha: int, ticks: nat)
    requires
        0 <= alpha <= ONE,
    ensures
        prev <= target ==> prev <= smoothed_after(prev, target, alpha, ticks) <= target,
        target <= prev ==> target <= smoothed_after(prev, target, alpha, ticks) <= prev,
        distance(target, smoothed_after(prev, target, alpha, ticks + 1)) <= distance(
            target,
            smoothed_after(prev, target, alpha, ticks),
        ),
    decreases ticks,
{
    lemma_blend_between(prev, target, alpha);
    if ticks > 0 {
        lemma_smoothing_never_overshoots(
            blend(prev, target, alpha),
            target,
            alpha,
            (ticks - 1) as nat,
        );
    } else {
        reveal_with_fuel(smoothed_after, 2);
    }
}

/// With a constant target and a constant positive blend factor the smoothed
/// value converges to the target: each tick brings it at least one unit
/// closer, so after as many ticks as units lay between them it has arrived,
/// and it stays.
pub proof fn lemma_smoothing_converges(prev: int, target: int, alpha: int, ticks: nat)
    requires
        0 < alpha <= ONE,
        ticks >= distance(target, prev),
    ensures
        smoothed_after(prev, target, alpha, ticks) == target,
    decreases ticks,
{
    lemma_blend_between(prev, target, alpha);
    if ticks > 0 {
        lemma_smoothing_converges(blend(prev, target, alpha), target, alpha, (ticks - 1) as nat);
    }
}

/// With a constant target and a constant blend factor the distance to the
/// target decays at least geometrically: after `ticks` ticks it is at most
/// the part `(1 - alpha)` to the power of `ticks` of the distance at the
/// start.
pub proof fn lemma_smoothing_decays_geometrically(prev: int, target: int, alpha: int, ticks: nat)
    requires
        0 <= alpha <= ONE,
    ensures
        pow(ONE as int, ticks) * distance(target, smoothed_after(prev, target, alpha, ticks))
            <= pow(ONE - alpha, ticks) * distance(target, prev),
    decreases ticks,
{
    reveal(pow);
    if ticks > 0 {
        let before = (ticks - 1) as nat;
        let next = blend(prev, target, alpha);
        lemma_smoothing_decays_geometrically(next, target, alpha, before);
        lemma_blend_contracts(prev, target, alpha);
        lemma_pow_positive(ONE as int, before);
        if alpha < ONE {
            lemma_pow_positive(ONE - alpha, before);
        }
        let d0 = distance(target, prev);
        let d1 = distance(target, next);
        let dn = distance(target, smoothed_after(prev, target, alpha, ticks));
        let one_n = pow(ONE as int, before);
        let rest_n = pow(ONE - alpha, before);
        let rest = ONE - alpha;
        assert(d1 * ONE <= d0 * rest) by {
            assert(d1 == d0 * rest / (ONE as int));
        }
        assert(ONE * one_n * dn <= rest * rest_n * d0) by (nonlinear_arith)
            requires
                one_n * dn <= rest_n * d1,
                d1 * ONE <= d0 * rest,
                0 <= rest_n,
                0 <= rest,
                0 < one_n,
                0 <= dn,
                0 <= d1,
                0 <= d0,
        ;
    }
}

} // verus!
