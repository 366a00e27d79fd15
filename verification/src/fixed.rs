//! The scalar that every matrix entry, weight and bias is made of: a
//! fixed-point number with six decimal places, stored as a count of
//! millionths in an `i64`. All arithmetic is exact integer arithmetic that
//! saturates at the ends of the `i64` range, so every operation is total and
//! its result is pinned down exactly by the spec functions below.

use vstd::prelude::*;

verus! {

/// Number of fixed-point units in 1.0.
pub const SCALE: i64 = 1_000_000;

/// A fixed-point number: `units` counts millionths, so `Fx { units: 1_500_000 }`
/// stands for 1.5. Arithmetic saturates instead of overflowing.
#[derive(Clone, Copy, Debug, PartialEq, Eq, Structural)]
pub struct Fx {
    pub units: i64,
}

impl View for Fx {
    type V = int;

    open spec fn view(&self) -> int {
        self.units as int
    }
}

/// Whether a value lies inside the representable range, where saturation
/// never alters it.
pub open spec fn fits(v: int) -> bool {
    i64::MIN as int <= v <= i64::MAX as int
}

/// Saturation to the `i64` range.
pub open spec fn clip(v: int) -> int {
    if v > i64::MAX as int {
        i64::MAX as int
    } else if v < i64::MIN as int {
        i64::MIN as int
    } else {
        v
    }
}

/// Division truncating toward zero, the rounding used when a product is
/// brought back to scale.
pub open spec fn trunc_div(p: int, d: int) -> int
    recommends
        d > 0,
{
    if p >= 0 {
        p / d
    } else {
        -((-p) / d)
    }
}

/// What adding two scalars yields.
pub open spec fn add_v(a: int, b: int) -> int {
    clip(a + b)
}

/// What subtracting one scalar from another yields.
pub open spec fn sub_v(a: int, b: int) -> int {
    clip(a - b)
}

/// What multiplying two scalars yields: the exact product, truncated back to
/// scale, then saturated.
pub open spec fn mul_v(a: int, b: int) -> int {
    clip(trunc_div(a * b, SCALE as int))
}

/// What dividing a scalar by a positive whole count yields.
pub open spec fn div_count_v(a: int, n: int) -> int
    recommends
        n > 0,
{
    trunc_div(a, n)
}

/// The product of two `i64` counts stays well inside the `i128` range.
proof fn lemma_prod_fits(a: int, b: int)
    requires
        i64::MIN as int <= a <= i64::MAX as int,
        i64::MIN as int <= b <= i64::MAX as int,
    ensures
        -(i128::MAX as int) <= a * b <= i128::MAX as int,
{
    assert(-(i128::MAX as int) <= a * b <= i128::MAX as int) by (nonlinear_arith)
        requires
            i64::MIN as int <= a <= i64::MAX as int,
            i64::MIN as int <= b <= i64::MAX as int,
    ;
}

/// Saturate an exact `i128` sum back to `i64`.
fn clamp_i128(s: i128) -> (r: i64)
    ensures
        r as int == clip(s as int),
{
    if s > i64::MAX as i128 {
        i64::MAX
    } else if s < i64::MIN as i128 {
        i64::MIN
    } else {
        s as i64
    }
}

impl Fx {
    /// The scalar with the given count of millionths.
    pub fn new(units: i64) -> (r: Fx)
        ensures
            r@ == units as int,
    {
        Fx { units }
    }

    /// The whole number `n`, saturated if `n * SCALE` leaves the range.
    pub fn from_int(n: i64) -> (r: Fx)
        ensures
            r@ == clip(n * SCALE),
    {
        proof {
            lemma_prod_fits(n as int, SCALE as int);
        }
        let p: i128 = (n as i128) * (SCALE as i128);
        Fx { units: clamp_i128(p) }
    }

    /// Zero.
    pub fn zero() -> (r: Fx)
        ensures
            r@ == 0,
    {
        Fx { units: 0 }
    }

    /// One.
    pub fn one() -> (r: Fx)
        ensures
            r@ == SCALE as int,
    {
        Fx { units: SCALE }
    }

    /// Saturating addition.
    pub fn add(self, o: Fx) -> (r: Fx)
        ensures
            r@ == add_v(self@, o@),
    {
        let s: i128 = (self.units as i128) + (o.units as i128);
        Fx { units: clamp_i128(s) }
    }

    /// Saturating subtraction.
    pub fn sub(self, o: Fx) -> (r: Fx)
        ensures
            r@ == sub_v(self@, o@),
    {
        let s: i128 = (self.units as i128) - (o.units as i128);
        Fx { units: clamp_i128(s) }
    }

    /// Saturating multiplication: exact product of the two counts, truncated
    /// toward zero back to scale.
    pub fn mul(self, o: Fx) -> (r: Fx)
        ensures
            r@ == mul_v(self@, o@),
    {
        proof {
            lemma_prod_fits(self.units as int, o.units as int);
        }
        let p: i128 = (self.units as i128) * (o.units as i128);
        let q: i128 = if p >= 0 {
            ((p as u128) / (SCALE as u128)) as i128
        } else {
            -((((-p) as u128) / (SCALE as u128)) as i128)
        };
        Fx { units: clamp_i128(q) }
    }

    /// Division by a positive whole count, truncating toward zero. Used to
    /// average a gradient over the examples of a mini-batch.
    pub fn div_count(self, n: usize) -> (r: Fx)
        requires
            n >= 1,
        ensures
            r@ == div_count_v(self@, n as int),
    {
        let q: i128 = if self.units >= 0 {
            (((self.units as u128)) / (n as u128)) as i128
        } else {
            -((((-(self.units as i128)) as u128) / (n as u128)) as i128)
        };
        Fx { units: clamp_i128(q) }
    }
}

} // verus!
