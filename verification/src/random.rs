//! The injected source of randomness: a seeded pseudo-random generator
//! exposing exactly the draw kinds the engine needs (uniform integers
//! below a bound, and Bernoulli coins built on top of them).

use vstd::prelude::*;
use rand::Rng;
use rand::SeedableRng;
use crate::SCALE;

verus! {

#[verifier::external_type_specification]
#[verifier::external_body]
pub struct ExStdRng(rand::rngs::StdRng);

/// A seeded pseudo-random generator. Every stochastic decision of the
/// engine draws from one of these, so a whole run is reproducible from
/// the seed that built it.
pub struct RandomSource {
    rng: rand::rngs::StdRng,
}

impl RandomSource {
    /// Relies on rand's `StdRng::seed_from_u64` (`SeedableRng`): builds
    /// a generator whose draw sequence is determined by the seed.
    #[verifier::external_body]
    pub fn from_seed(seed: u64) -> RandomSource {
        RandomSource { rng: rand::rngs::StdRng::seed_from_u64(seed) }
    }

    /// Relies on rand's `Rng::gen_range` on the range `0..n` at `u64`:
    /// it returns a value of that range and panics only when the range
    /// is empty, which the precondition rules out. Nothing more is
    /// promised of the draw.
    #[verifier::external_body]
    pub(crate) fn draw_u64(&mut self, n: u64) -> (r: u64)
        requires
            n > 0,
        ensures
            r < n,
    {
        self.rng.gen_range(0..n)
    }

    /// Relies on rand's `Rng::gen_range` on the range `0..n` at `usize`:
    /// it returns a value of that range and panics only when the range
    /// is empty, which the precondition rules out. Nothing more is
    /// promised of the draw.
    #[verifier::external_body]
    pub(crate) fn draw_usize(&mut self, n: usize) -> (r: usize)
        requires
            n > 0,
        ensures
            r < n,
    {
        self.rng.gen_range(0..n)
    }

    /// A Bernoulli draw that is true with probability `p / SCALE`,
    /// realized exactly by comparing a uniform draw below `SCALE`
    /// against `p`: no draw is below 0, and every draw is below `SCALE`.
    pub fn coin(&mut self, p: u64) -> (r: bool)
        requires
            p <= SCALE,
        ensures
            p == 0 ==> !r,
            p == SCALE ==> r,
    {
        let d = self.draw_u64(SCALE);
        d < p
    }
}

} // verus!
