//! The random source: rand's small seeded generator, and the draws the
//! placement search makes from it.
use rand::Rng;
use rand::SeedableRng;
use vstd::prelude::*;

verus! {

#[verifier::external_type_specification]
#[verifier::external_body]
pub struct ExSmallRng(rand::rngs::SmallRng);

/// Relies on rand's `SeedableRng::seed_from_u64` for `SmallRng`: a generator
/// whose stream is fixed by the seed.
#[verifier::external_body]
pub(crate) fn rng_from_seed(seed: u64) -> (r: rand::rngs::SmallRng) {
    rand::rngs::SmallRng::seed_from_u64(seed)
}

/// Relies on rand's `Rng::gen_range` over an inclusive integer range: a value
/// drawn uniformly from `low..=high`. It panics only on an empty range.
#[verifier::external_body]
pub(crate) fn uniform_between(rng: &mut rand::rngs::SmallRng, low: i32, high: i32) -> (r: i32)
    requires
        low <= high,
    ensures
        low <= r <= high,
{
    rng.gen_range(low..=high)
}

} // verus!
