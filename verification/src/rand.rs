//! A deterministic xorshift pseudo-random stream; the source of the Zobrist
//! hashing keys. The same seed yields the same key stream in every run and
//! every build.

use vstd::prelude::*;

verus! {

/// One step of the 64-bit xorshift stream.
pub open spec fn xorshift_step(x: u64) -> u64 {
    let a = x ^ (x << 13u64);
    let b = a ^ (a >> 7u64);
    b ^ (b << 17u64)
}

/// The state of the 64-bit xorshift stream seeded with `seed` after `n`
/// steps.
pub open spec fn xorshift_stream(seed: u64, n: nat) -> u64
    decreases n,
{
    if n == 0 {
        seed
    } else {
        xorshift_step(xorshift_stream(seed, (n - 1) as nat))
    }
}

/// A step of the stream never maps a nonzero state to zero: each of the
/// three xor-shifts is invertible.
pub proof fn lemma_xorshift_step_nonzero(x: u64)
    requires
        x != 0,
    ensures
        xorshift_step(x) != 0,
{
    assert({
        let a = x ^ (x << 13u64);
        let b = a ^ (a >> 7u64);
        x != 0 ==> b ^ (b << 17u64) != 0
    }) by (bit_vector);
}

/// Every state of a stream with a nonzero seed is nonzero.
pub proof fn lemma_xorshift_stream_nonzero(seed: u64, n: nat)
    requires
        seed != 0,
    ensures
        xorshift_stream(seed, n) != 0,
    decreases n,
{
    if n > 0 {
        lemma_xorshift_stream_nonzero(seed, (n - 1) as nat);
        lemma_xorshift_step_nonzero(xorshift_stream(seed, (n - 1) as nat));
    }
}

/// A 64-bit xorshift pseudo-random generator.
pub struct XorShift64 {
    state: u64,
}

impl XorShift64 {
    /// The current state of the generator.
    pub closed spec fn spec_state(self) -> u64 {
        self.state
    }

    pub fn new(seed: u64) -> (r: Self)
        ensures
            r.spec_state() == seed,
    {
        Self { state: seed }
    }

    /// Advances the stream one step and returns the new state.
    pub fn next(&mut self) -> (r: u64)
        ensures
            r == xorshift_step(old(self).spec_state()),
            final (self).spec_state() == r,
    {
        let mut x = self.state;
        x = x ^ (x << 13u64);
        x = x ^ (x >> 7u64);
        x = x ^ (x << 17u64);
        self.state = x;
        x
    }
}

} // verus!
