//! Random sampling state for the renderer.
//!
//! Each render worker owns one `Sampler`, seeded explicitly so that a render
//! is reproducible.  The generator itself comes from the `rand` crate; the
//! wrappers below are the only places where it is called, and their contracts
//! state no more than what holds of every draw.

use vstd::prelude::*;

verus! {

#[verifier::external_type_specification]
#[verifier::external_body]
pub struct ExSmallRng(rand::rngs::SmallRng);

/// Per-worker source of pseudo-random draws, seeded explicitly.
pub struct Sampler {
    inner: rand::rngs::SmallRng,
}

impl Sampler {
    /// Relies on `rand::rngs::SmallRng::seed_from_u64`: builds a generator
    /// deterministically from the seed.
    #[verifier::external_body]
    pub fn from_seed(seed: u64) -> (r: Sampler) {
        Sampler { inner: <rand::rngs::SmallRng as rand::SeedableRng>::seed_from_u64(seed) }
    }

    /// Relies on `rand::Rng::random_range`: a draw from `0..bound` lies below
    /// `bound` (the range is non-empty, so the call cannot panic).
    #[verifier::external_body]
    pub fn next_below(&mut self, bound: u64) -> (r: u64)
        requires
            bound > 0,
        ensures
            r < bound,
    {
        rand::Rng::random_range(&mut self.inner, 0..bound)
    }

    /// Relies on `rand::seq::SliceRandom::shuffle`: a Fisher-Yates shuffle
    /// permutes the slice in place, so the multiset of elements is kept.
    #[verifier::external_body]
    pub fn shuffle_ranges(&mut self, v: &mut Vec<(usize, usize)>)
        ensures
            final(v)@.to_multiset() == old(v)@.to_multiset(),
            final(v)@.len() == old(v)@.len(),
    {
        rand::seq::SliceRandom::shuffle(v.as_mut_slice(), &mut self.inner)
    }
}

} // verus!
