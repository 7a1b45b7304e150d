use vstd::prelude::*;

verus! {

/// The random number generator that the bag randomizer draws from. Each game
/// owns one, seeded explicitly, so that piece generation is deterministic for
/// a given seed.
#[verifier::external_type_specification]
#[verifier::external_body]
pub struct ExStdRng(rand::rngs::StdRng);

/// Relies on rand::SeedableRng::seed_from_u64: builds a generator whose
/// output stream is determined by the seed.
#[verifier::external_body]
pub fn rng_from_seed(seed: u64) -> (rng: rand::rngs::StdRng) {
    <rand::rngs::StdRng as rand::SeedableRng>::seed_from_u64(seed)
}

/// Relies on rand::Rng::gen_range over the range `0..n`: it panics only on
/// an empty range and otherwise returns a value of the range.
#[verifier::external_body]
pub fn rng_below(rng: &mut rand::rngs::StdRng, n: usize) -> (r: usize)
    requires
        n >= 1,
    ensures
        r < n,
{
    rand::Rng::gen_range(rng, 0..n)
}

} // verus!
