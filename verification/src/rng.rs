//! The injected random generator for weight initialisation: a small
//! deterministic 64-bit generator (an additive state with a bit-mixing
//! output), and on top of it a draw that approximates a standard-normal
//! sample in fixed point as the sum of twelve uniform draws on `[0, 1]`
//! shifted by six. Every draw is an exact function of the seed, so a test
//! can replay an initialisation; fresh entropy enters only through the one
//! trusted seed constructor.

use crate::fixed::{Fx, SCALE};
use vstd::prelude::*;
use vstd::wrapping::u64_specs;

verus! {

/// The additive step of the state.
pub open spec fn rng_next_state(s: u64) -> u64 {
    u64_specs::wrapping_add(s, 0x9E37_79B9_7F4A_7C15)
}

/// The output mixing of a state: xor-shifts interleaved with two wrapping
/// multiplications.
pub open spec fn rng_mix(s: u64) -> u64 {
    let z1 = u64_specs::wrapping_mul(s ^ (s >> 30), 0xBF58_476D_1CE4_E5B9);
    let z2 = u64_specs::wrapping_mul(z1 ^ (z1 >> 27), 0x94D0_49BB_1331_11EB);
    z2 ^ (z2 >> 31)
}

/// The state after `k` draws.
pub open spec fn rng_after(s: u64, k: int) -> u64
    decreases k,
{
    if k <= 0 {
        s
    } else {
        rng_next_state(rng_after(s, k - 1))
    }
}

/// A raw draw reduced to a uniform fixed-point value on `[0, 1]`.
pub open spec fn unit_v(u: u64) -> int {
    (u % 1_000_001) as int
}

/// The sum of the first `k` unit draws made from state `s`.
pub open spec fn norm_sum(s: u64, k: int) -> int
    decreases k,
{
    if k <= 0 {
        0
    } else {
        norm_sum(s, k - 1) + unit_v(rng_mix(rng_after(s, k)))
    }
}

/// The approximate standard-normal draw made from state `s`: twelve unit
/// draws summed, centred on zero.
pub open spec fn normal_v(s: u64) -> int {
    norm_sum(s, 12) - 6 * SCALE
}

/// The normal draw number `t` (counted from zero) made from state `s`.
pub open spec fn normal_at(s: u64, t: int) -> int {
    normal_v(rng_after(s, 12 * t))
}

/// Drawing `a` times and then `b` times is drawing `a + b` times.
pub proof fn lemma_rng_after_add(s: u64, a: int, b: int)
    requires
        a >= 0,
        b >= 0,
    ensures
        rng_after(s, a + b) == rng_after(rng_after(s, a), b),
    decreases b,
{
    if b > 0 {
        lemma_rng_after_add(s, a, b - 1);
    }
}

/// The deterministic generator: 64 bits of state.
#[derive(Clone, Copy, Debug)]
pub struct Rng64 {
    state: u64,
}

impl View for Rng64 {
    type V = u64;

    closed spec fn view(&self) -> u64 {
        self.state
    }
}

impl Rng64 {
    /// The generator that will replay the draws of the given seed.
    pub fn from_seed(seed: u64) -> (r: Rng64)
        ensures
            r@ == seed,
    {
        Rng64 { state: seed }
    }

    /// Relies on rand::random: a seed drawn from the process's own
    /// generator, for callers that want a fresh initialisation. Nothing is
    /// promised of the value.
    #[verifier::external_body]
    pub fn from_entropy() -> (r: Rng64) {
        Rng64 { state: rand::random::<u64>() }
    }

    /// One raw draw: the state advances by the additive step and the new
    /// state is handed out mixed.
    pub fn next_u64(&mut self) -> (r: u64)
        ensures
            final(self)@ == rng_next_state(old(self)@),
            r == rng_mix(final(self)@),
    {
        self.state = self.state.wrapping_add(0x9E37_79B9_7F4A_7C15);
        let s = self.state;
        let z1 = (s ^ (s >> 30u32)).wrapping_mul(0xBF58_476D_1CE4_E5B9);
        let z2 = (z1 ^ (z1 >> 27u32)).wrapping_mul(0x94D0_49BB_1331_11EB);
        z2 ^ (z2 >> 31u32)
    }

    /// One uniform fixed-point draw on `[0, 1]`.
    pub fn next_unit(&mut self) -> (r: Fx)
        ensures
            final(self)@ == rng_next_state(old(self)@),
            r@ == unit_v(rng_mix(final(self)@)),
            0 <= r@ <= SCALE as int,
    {
        let u = self.next_u64();
        Fx { units: (u % 1_000_001) as i64 }
    }

    /// One approximate standard-normal draw in fixed point: twelve uniform
    /// draws summed and centred, which has mean zero and unit variance.
    #[verifier::loop_isolation(false)]
    pub fn next_normal(&mut self) -> (r: Fx)
        ensures
            final(self)@ == rng_after(old(self)@, 12),
            r@ == normal_v(old(self)@),
            -6 * SCALE as int <= r@ <= 6 * SCALE as int,
    {
        let ghost s0 = self.state;
        let mut acc: i64 = 0;
        let mut k: usize = 0;
        while k < 12
            invariant
                k <= 12,
                self@ == rng_after(s0, k as int),
                acc as int == norm_sum(s0, k as int),
                0 <= acc <= k * 1_000_000,
            decreases 12 - k,
        {
            let u = self.next_unit();
            acc = acc + u.units;
            k = k + 1;
        }
        Fx { units: acc - 6 * SCALE }
    }
}

/// A buffer of `n` normal draws, in draw order.
#[verifier::loop_isolation(false)]
pub fn draw_normals(rng: &mut Rng64, n: usize) -> (r: Vec<Fx>)
    ensures
        r@.len() == n,
        forall|t: int| 0 <= t < n ==> #[trigger] r@[t]@ == normal_at(old(rng)@, t),
        final(rng)@ == rng_after(old(rng)@, 12 * n),
{
    let ghost s0 = rng@;
    let mut v: Vec<Fx> = Vec::new();
    let mut k: usize = 0;
    while k < n
        invariant
            k <= n,
            v@.len() == k,
            rng@ == rng_after(s0, 12 * k as int),
            forall|t: int| 0 <= t < k ==> #[trigger] v@[t]@ == normal_at(s0, t),
        decreases n - k,
    {
        let x = rng.next_normal();
        proof {
            lemma_rng_after_add(s0, 12 * k as int, 12);
        }
        v.push(x);
        k = k + 1;
    }
    v
}

} // verus!
