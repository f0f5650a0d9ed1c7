//! A tiny deterministic random generator for synthetic test signals.
use vstd::prelude::*;

verus! {

/// The state a zero seed is replaced with.
pub open spec fn zero_seed_state() -> u64 {
    0x9E37_79B9_7F4A_7C15
}

/// One xorshift64 step: `x ^= x >> 12; x ^= x << 25; x ^= x >> 27`.
pub open spec fn xorshift(x: u64) -> u64 {
    let a = x ^ (x >> 12u64);
    let b = a ^ (a << 25u64);
    b ^ (b >> 27u64)
}

/// The output multiplier of xorshift64*.
pub open spec fn star_multiplier() -> u64 {
    0x2545_F491_4F6C_DD1D
}

/// A tiny xorshift64* generator; deterministic across platforms, not for anything but tests.
#[derive(Debug, Clone)]
pub struct Rng(u64);

impl Rng {
    /// The generator's state.
    pub closed spec fn state(&self) -> u64 {
        self.0
    }

    /// A generator seeded with `seed` (zero is remapped to a fixed non-zero state).
    pub fn new(seed: u64) -> (r: Self)
        ensures
            r.state() == if seed == 0 { zero_seed_state() } else { seed },
            r.state() != 0,
    {
        Rng(if seed == 0 { 0x9E37_79B9_7F4A_7C15 } else { seed })
    }

    /// Next raw 64-bit value.
    pub fn next_u64(&mut self) -> (v: u64)
        ensures
            final(self).state() == xorshift(old(self).state()),
            v == final(self).state().wrapping_mul(star_multiplier()),
    {
        let mut x = self.0;
        x ^= x >> 12;
        x ^= x << 25;
        x ^= x >> 27;
        self.0 = x;
        x.wrapping_mul(0x2545_F491_4F6C_DD1D)
    }
}

/// A step never reaches the all-zero state from any other, so a seeded generator never gets
/// stuck repeating zero.
pub proof fn xorshift_never_reaches_zero(x: u64)
    requires
        x != 0,
    ensures
        xorshift(x) != 0,
{
    let a = x ^ (x >> 12u64);
    let b = a ^ (a << 25u64);
    assert(x != 0 ==> x ^ (x >> 12u64) != 0) by (bit_vector);
    assert(a != 0 ==> a ^ (a << 25u64) != 0) by (bit_vector);
    assert(b != 0 ==> b ^ (b >> 27u64) != 0) by (bit_vector);
}

} // verus!
