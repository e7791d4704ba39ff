//! The xorshift generator behind sampled cache bypasses.
//!
//! The generator state is seeded from the clock and advanced by one
//! xorshift step per draw; each draw yields a 53-bit sample that the caller
//! scales to the unit interval and compares with the configured bypass rate.

use vstd::prelude::*;

verus! {

/// The seed derived from a clock reading in nanoseconds: mixed with a fixed
/// odd constant and forced odd, so it is never zero.
pub open spec fn seed_of(nanos: u64) -> u64 {
    (nanos ^ 0x9E37_79B9_7F4A_7C15u64) | 1u64
}

/// One xorshift step (shifts 13, 7, 17).
pub open spec fn xorshift(x: u64) -> u64 {
    let a = x ^ (x << 13u64);
    let b = a ^ (a >> 7u64);
    b ^ (b << 17u64)
}

/// Seeds the generator from a clock reading in nanoseconds.
pub fn rng_seed(nanos: u64) -> (seed: u64)
    ensures
        seed == seed_of(nanos),
        seed != 0,
{
    let seed = (nanos ^ 0x9E37_79B9_7F4A_7C15u64) | 1u64;
    assert(seed != 0) by (bit_vector)
        requires
            seed == (nanos ^ 0x9E37_79B9_7F4A_7C15u64) | 1u64,
    ;
    seed
}

/// Advances the generator by one step and returns the new state.
pub fn next_rng_state(state: u64) -> (next: u64)
    ensures
        next == xorshift(state),
        state != 0 ==> next != 0,
{
    let a = state ^ (state << 13u64);
    let b = a ^ (a >> 7u64);
    let next = b ^ (b << 17u64);
    proof {
        lemma_xorshift_nonzero(state);
    }
    next
}

/// The 53-bit sample a state yields: its top 53 bits.
pub fn unit_sample(state: u64) -> (sample: u64)
    ensures
        sample == state >> 11u64,
        sample < 0x20_0000_0000_0000u64,
{
    let sample = state >> 11u64;
    assert(sample < 0x20_0000_0000_0000u64) by (bit_vector)
        requires
            sample == state >> 11u64,
    ;
    sample
}

/// A nonzero state never steps to zero, so a seeded generator never sticks.
pub proof fn lemma_xorshift_nonzero(x: u64)
    ensures
        x != 0 ==> xorshift(x) != 0,
{
    let a = x ^ (x << 13u64);
    let b = a ^ (a >> 7u64);
    let c = b ^ (b << 17u64);
    assert(x != 0 ==> a != 0) by (bit_vector)
        requires
            a == x ^ (x << 13u64),
    ;
    assert(a != 0 ==> b != 0) by (bit_vector)
        requires
            b == a ^ (a >> 7u64),
    ;
    assert(b != 0 ==> c != 0) by (bit_vector)
        requires
            c == b ^ (b << 17u64),
    ;
}

} // verus!
