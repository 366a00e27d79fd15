//! The fixed squashing function and its derivative, on the fixed-point
//! scalar. The curve is the logistic function `1 / (1 + e^-x)`, realised as a
//! piecewise-linear interpolation between its values at steps of one half
//! over `[-6, 6]`, clamped outside that interval. The derivative is formed
//! from the squashed value as `s * (1 - s)`, evaluated on the pre-activation
//! input, never as a quotient.

use crate::fixed::{mul_v, sub_v, Fx, SCALE};
use vstd::arithmetic::div_mod::{lemma_div_is_ordered, lemma_div_multiples_vanish};
use vstd::arithmetic::mul::lemma_mul_inequality;
use vstd::prelude::*;

verus! {

/// Half a unit: the spacing of the interpolation nodes.
pub const HALF_STEP: i64 = 500_000;

/// The logistic curve at `k / 2`, in millionths, for `0 <= k <= 12`; clamped
/// at the ends.
pub open spec fn sig_node(k: int) -> int {
    if k <= 0 {
        500_000
    } else if k == 1 {
        622_459
    } else if k == 2 {
        731_059
    } else if k == 3 {
        817_574
    } else if k == 4 {
        880_797
    } else if k == 5 {
        924_142
    } else if k == 6 {
        952_574
    } else if k == 7 {
        970_688
    } else if k == 8 {
        982_014
    } else if k == 9 {
        989_013
    } else if k == 10 {
        993_307
    } else if k == 11 {
        995_930
    } else {
        997_527
    }
}

/// Linear interpolation between the two nodes around `x`, for
/// `0 <= x < 6 * SCALE`.
pub open spec fn sig_interp(x: int) -> int
    recommends
        0 <= x < 6 * SCALE,
{
    let k = x / (HALF_STEP as int);
    let off = x - k * (HALF_STEP as int);
    sig_node(k) + ((sig_node(k + 1) - sig_node(k)) * off) / (HALF_STEP as int)
}

/// The squashing curve on the whole line: clamped beyond six units either
/// way, interpolated inside, and mirrored for negative inputs so that
/// `sig_v(-x) == SCALE - sig_v(x)`.
pub open spec fn sig_v(x: int) -> int {
    if x >= 6 * SCALE {
        997_527
    } else if x <= -6 * SCALE {
        2_473
    } else if x >= 0 {
        sig_interp(x)
    } else {
        (SCALE as int) - sig_interp(-x)
    }
}

/// The derivative of the squashing curve, as computed from the squashed
/// value: `s * (1 - s)` in saturating fixed-point arithmetic.
pub open spec fn dsig_v(x: int) -> int {
    mul_v(sig_v(x), sub_v(SCALE as int, sig_v(x)))
}

/// For inputs in `[0, 6)` the interpolated curve lies between one half and
/// the top clamp value: interpolation between monotone nodes never leaves
/// the band its end nodes span.
proof fn lemma_sig_interp_bounds(x: int)
    requires
        0 <= x < 6 * SCALE,
    ensures
        500_000 <= sig_interp(x) <= 997_527,
{
    let h = HALF_STEP as int;
    let k = x / h;
    let off = x - k * h;
    assert(0 <= k <= 11) by (nonlinear_arith)
        requires
            0 <= x < 6 * SCALE,
            k == x / h,
            h == 500_000,
    ;
    assert(0 <= off < h) by (nonlinear_arith)
        requires
            x >= 0,
            k == x / h,
            off == x - k * h,
            h == 500_000,
    ;
    let lo = sig_node(k);
    let hi = sig_node(k + 1);
    let delta = hi - lo;
    assert(500_000 <= lo <= 997_527);
    assert(0 <= delta <= 122_459);
    let rise = (delta * off) / h;
    assert(0 <= delta * off) by (nonlinear_arith)
        requires
            0 <= delta,
            0 <= off,
    ;
    lemma_div_is_ordered(0, delta * off, h);
    lemma_mul_inequality(off, h, delta);
    assert(delta * off == off * delta) by (nonlinear_arith);
    assert(h * delta == delta * h) by (nonlinear_arith);
    lemma_div_is_ordered(delta * off, h * delta, h);
    lemma_div_multiples_vanish(delta, h);
    assert(rise <= delta);
    assert(sig_interp(x) == lo + rise);
}

/// The squashing function stays strictly inside (0, 1), so every score a
/// network hands out lies strictly between the two class extremes.
pub proof fn lemma_sig_bounds(x: int)
    ensures
        0 < sig_v(x),
        sig_v(x) < SCALE as int,
{
    if x >= 6 * SCALE {
    } else if x <= -6 * SCALE {
    } else if x >= 0 {
        lemma_sig_interp_bounds(x);
    } else {
        lemma_sig_interp_bounds(-x);
    }
}

/// The interpolation node at index `k`.
fn sig_node_at(k: u64) -> (r: i64)
    ensures
        r as int == sig_node(k as int),
{
    if k == 0 {
        500_000
    } else if k == 1 {
        622_459
    } else if k == 2 {
        731_059
    } else if k == 3 {
        817_574
    } else if k == 4 {
        880_797
    } else if k == 5 {
        924_142
    } else if k == 6 {
        952_574
    } else if k == 7 {
        970_688
    } else if k == 8 {
        982_014
    } else if k == 9 {
        989_013
    } else if k == 10 {
        993_307
    } else if k == 11 {
        995_930
    } else {
        997_527
    }
}

/// The interpolated curve for `0 <= x < 6 * SCALE`.
fn sig_interp_at(x: i64) -> (r: i64)
    requires
        0 <= x < 6 * SCALE,
    ensures
        r as int == sig_interp(x as int),
{
    let k: u64 = (x as u64) / (HALF_STEP as u64);
    let off: u64 = (x as u64) % (HALF_STEP as u64);
    proof {
        assert((x as int) % (HALF_STEP as int) == (x as int) - ((x as int) / (
        HALF_STEP as int)) * (HALF_STEP as int)) by (nonlinear_arith)
            requires
                x as int >= 0,
        ;
    }
    let lo: i64 = sig_node_at(k);
    let hi: i64 = sig_node_at(k + 1);
    proof {
        assert(k as int <= 11) by (nonlinear_arith)
            requires
                0 <= (x as int),
                (x as int) < 6 * SCALE,
                (k as int) == (x as int) / (HALF_STEP as int),
        ;
        assert(0 <= sig_node(k as int + 1) - sig_node(k as int) <= 122_459);
        assert(off < HALF_STEP as u64);
        assert(((hi - lo) as int) * (off as int) <= 122_459 * 500_000) by (nonlinear_arith)
            requires
                0 <= ((hi - lo) as int) <= 122_459,
                0 <= (off as int) <= 500_000,
        ;
    }
    let rise: u64 = ((hi - lo) as u64) * off / (HALF_STEP as u64);
    lo + (rise as i64)
}

/// The squashing function on a scalar.
pub fn num_sigmoid(x: Fx) -> (r: Fx)
    ensures
        r@ == sig_v(x@),
{
    if x.units >= 6 * SCALE {
        Fx { units: 997_527 }
    } else if x.units <= -(6 * SCALE) {
        Fx { units: 2_473 }
    } else if x.units >= 0 {
        Fx { units: sig_interp_at(x.units) }
    } else {
        Fx { units: SCALE - sig_interp_at(-x.units) }
    }
}

/// The derivative of the squashing function, evaluated on the pre-activation
/// scalar.
pub fn num_dsigmoid(x: Fx) -> (r: Fx)
    ensures
        r@ == dsig_v(x@),
{
    let s = num_sigmoid(x);
    let one = Fx { units: SCALE };
    s.mul(one.sub(s))
}

} // verus!
