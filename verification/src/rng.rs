//! The explicit random source threaded through generation, spawning and
//! combat. It draws from rand's `StdRng`; every verified consumer sees only
//! the range guarantees stated here and is proved for every value in range.

use vstd::prelude::*;
use rand::Rng;
use rand::SeedableRng;

verus! {

#[verifier::external_type_specification]
#[verifier::external_body]
pub struct ExStdRng(rand::rngs::StdRng);

/// A random source for one game. Deterministic under a fixed seed.
pub struct GameRng {
    inner: rand::rngs::StdRng,
}

impl GameRng {
    /// Relies on rand's `SeedableRng::seed_from_u64` for `StdRng`: builds a
    /// generator whose stream is a function of the seed alone.
    #[verifier::external_body]
    pub fn seeded(seed: u64) -> GameRng {
        GameRng { inner: rand::rngs::StdRng::seed_from_u64(seed) }
    }

    /// Relies on rand's `SeedableRng::from_entropy` for `StdRng`: builds a
    /// generator seeded from the operating system.
    #[verifier::external_body]
    pub fn from_entropy() -> GameRng {
        GameRng { inner: rand::rngs::StdRng::from_entropy() }
    }

    /// Relies on rand's `Rng::gen_range` over `lo..hi`: returns a value of
    /// the half-open range, and panics only on an empty range, which the
    /// precondition rules out.
    #[verifier::external_body]
    pub fn range_u32(&mut self, lo: u32, hi: u32) -> (r: u32)
        requires
            lo < hi,
        ensures
            lo <= r < hi,
    {
        self.inner.gen_range(lo..hi)
    }

    /// Relies on rand's `Rng::gen_range` over `lo..=hi`: returns a value of
    /// the inclusive range, and panics only on an empty range, which the
    /// precondition rules out.
    #[verifier::external_body]
    pub fn range_i32(&mut self, lo: i32, hi: i32) -> (r: i32)
        requires
            lo <= hi,
        ensures
            lo <= r <= hi,
    {
        self.inner.gen_range(lo..=hi)
    }

    /// Relies on rand's `Rng::gen_ratio`: true with probability num/den;
    /// certainly false for a zero numerator and certainly true for a full
    /// one. Panics only when `den == 0` or `num > den`, which the
    /// precondition rules out.
    #[verifier::external_body]
    pub fn ratio(&mut self, num: u32, den: u32) -> (r: bool)
        requires
            0 < den,
            num <= den,
        ensures
            num == 0 ==> !r,
            num == den ==> r,
    {
        self.inner.gen_ratio(num, den)
    }
}

} // verus!
