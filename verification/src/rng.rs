//! The pseudo-random generator threaded through every call that samples.
//!
//! All randomness enters the library through `Prng::next_in`; its result is
//! constrained only by its range, so everything proved about the callers
//! holds for every stream the generator can produce. For one seed the
//! stream, and so the whole render, is reproducible.

use vstd::prelude::*;

verus! {

#[verifier::external_type_specification]
#[verifier::external_body]
pub struct ExStdRng(rand::rngs::StdRng);

/// A seeded pseudo-random generator, passed by exclusive reference down the
/// call chain; no call hides ambient generator state.
pub struct Prng {
    inner: rand::rngs::StdRng,
}

/// Relies on rand::SeedableRng::seed_from_u64: builds a generator whose
/// stream of draws is a deterministic function of the seed alone.
#[verifier::external_body]
fn seeded_rng(seed: u64) -> rand::rngs::StdRng {
    <rand::rngs::StdRng as rand::SeedableRng>::seed_from_u64(seed)
}

impl Prng {
    pub fn new(seed: u64) -> Prng {
        Prng { inner: seeded_rng(seed) }
    }

    /// Relies on rand::Rng::gen_range: a uniform draw from the half-open
    /// range [lo, hi), which panics only when the range is empty.
    #[verifier::external_body]
    pub(crate) fn next_in(&mut self, lo: i64, hi: i64) -> (r: i64)
        requires
            lo < hi,
        ensures
            lo <= r < hi,
    {
        rand::Rng::gen_range(&mut self.inner, lo..hi)
    }
}

} // verus!
