//! Seeded sampler: a deterministic pseudo-random generator.
//!
//! The generator is a 64-bit linear congruential generator; its whole state is
//! one `u64` and one step is `state := (RNG_MUL * state + RNG_INC) mod 2^64`.
//! Every draw is pinned to the spec-level step function, so two runs from the
//! same seed produce bit-identical sequences.

use vstd::prelude::*;
use vstd::arithmetic::mul::lemma_mul_inequality;

verus! {

/// Multiplier of the linear congruential step.
pub const RNG_MUL: u64 = 6364136223846793005;

/// Increment of the linear congruential step.
pub const RNG_INC: u64 = 1442695040888963407;

/// One step of the generator: the next state is
/// `(RNG_MUL * s + RNG_INC) mod 2^64`.
pub open spec fn rng_next_spec(s: u64) -> u64 {
    ((RNG_MUL * s + RNG_INC) % 0x1_0000_0000_0000_0000) as u64
}

/// Advances the generator state by one linear congruential step.
pub fn rng_next(s: u64) -> (r: u64)
    ensures
        r == rng_next_spec(s),
{
    proof {
        lemma_mul_inequality(s as int, u64::MAX as int, RNG_MUL as int);
        assert((RNG_MUL as int) * (s as int) == (s as int) * (RNG_MUL as int)) by (nonlinear_arith);
    }
    let t: u128 = (RNG_MUL as u128) * (s as u128) + (RNG_INC as u128);
    (t % 0x1_0000_0000_0000_0000u128) as u64
}

/// A draw in `[0, n)`: the remainder of the state by `n`.
pub open spec fn rng_below_spec(s: u64, n: u64) -> u64
    recommends
        n > 0,
{
    (s % n) as u64
}

/// Reduces a generator state to a value below `n`.
pub fn rng_below(s: u64, n: u64) -> (r: u64)
    requires
        n > 0,
    ensures
        r == rng_below_spec(s, n),
        r < n,
{
    s % n
}

} // verus!
