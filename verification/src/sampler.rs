//! The crate's only source of randomness: a seeded generator behind trusted
//! wrappers. Everything downstream is verified for every value the wrappers
//! may hand back.

use vstd::prelude::*;

verus! {

/// The standard generator of the `rand` crate, held opaquely.
#[verifier::external_type_specification]
#[verifier::external_body]
pub struct ExStdRng(rand::rngs::StdRng);

/// A deterministic sampler owning a seeded generator. Two samplers built
/// from the same seed replay the same draws.
pub struct Sampler {
    rng: rand::rngs::StdRng,
}

impl Sampler {
    /// Relies on rand's `SeedableRng::seed_from_u64`: builds a generator
    /// whose draws are a function of the seed.
    #[verifier::external_body]
    pub fn new(seed: u64) -> (s: Sampler)
    {
        Sampler { rng: rand::SeedableRng::seed_from_u64(seed) }
    }

    /// Relies on rand's `Rng::gen_range` over the inclusive range
    /// `lo..=hi`: the sample lies in that range. The range must be nonempty,
    /// since `gen_range` panics on an empty one.
    #[verifier::external_body]
    pub fn next_in(&mut self, lo: i64, hi: i64) -> (r: i64)
        requires
            lo <= hi,
        ensures
            lo <= r <= hi,
    {
        rand::Rng::gen_range(&mut self.rng, lo..=hi)
    }
}

} // verus!
