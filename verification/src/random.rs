use rand::rngs::StdRng;
use rand::Rng;
use rand::SeedableRng;
use vstd::prelude::*;

use crate::fixed::Fixed;
use crate::fixed::SCALE;

verus! {

#[verifier::external_type_specification]
#[verifier::external_body]
pub struct ExStdRng(StdRng);

/// `StdRng::seed_from_u64` of the `rand` crate: a generator whose stream is
/// fixed by `seed`. Nothing is claimed of the generator that comes back.
#[verifier::external_body]
fn std_rng_from_seed(seed: u64) -> (rng: StdRng) {
    StdRng::seed_from_u64(seed)
}

/// `Rng::random_range` of the `rand` crate on the half-open range
/// `0..bound`. The crate panics on an empty range, which `requires` leaves
/// out, and documents that the value drawn lies in the range; that is all
/// the contract claims.
#[verifier::external_body]
fn std_rng_below(rng: &mut StdRng, bound: usize) -> (r: usize)
    requires
        bound > 0,
    ensures
        r < bound,
{
    rng.random_range(0..bound)
}

/// The owned, seedable source of every random draw the solvers and the
/// environments make.
pub struct RandomSource {
    rng: StdRng,
}

impl RandomSource {
    /// A source whose draws are determined by `seed`.
    pub fn seeded(seed: u64) -> (source: RandomSource) {
        RandomSource { rng: std_rng_from_seed(seed) }
    }

    /// A draw from `0..bound`.
    pub fn below(&mut self, bound: usize) -> (r: usize)
        requires
            bound > 0,
        ensures
            r < bound,
    {
        std_rng_below(&mut self.rng, bound)
    }

    /// A draw from the half-open unit interval `[0, 1)`.
    pub fn unit(&mut self) -> (r: Fixed)
        ensures
            0 <= r.raw < SCALE,
    {
        let raw: usize = self.below(1_000_000_000);
        Fixed { raw: raw as i64 }
    }
}

} // verus!
