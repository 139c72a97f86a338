//! The pseudo-random generator behind dealing, and the few calls made into it.

use vstd::prelude::*;

verus! {

/// The seeded generator of the `rand` crate; opaque to the proofs.
#[verifier::external_type_specification]
#[verifier::external_body]
pub struct ExSmallRng(rand::rngs::SmallRng);

/// Relies on the derived `Clone` of `SmallRng`, so that game states can be
/// copied; nothing is stated of the copy.
pub assume_specification[ <rand::rngs::SmallRng as core::clone::Clone>::clone ](
    rng: &rand::rngs::SmallRng,
) -> rand::rngs::SmallRng;

/// Relies on `rand::SeedableRng::seed_from_u64`: builds a generator from a seed.
/// Nothing is stated of the generator's state.
#[verifier::external_body]
pub(crate) fn seeded_rng(seed: u64) -> rand::rngs::SmallRng {
    <rand::rngs::SmallRng as rand::SeedableRng>::seed_from_u64(seed)
}

/// Relies on `rand::SeedableRng::from_os_rng`: a generator seeded from the
/// operating system. Nothing is stated of its state.
#[verifier::external_body]
pub(crate) fn entropy_rng() -> rand::rngs::SmallRng {
    <rand::rngs::SmallRng as rand::SeedableRng>::from_os_rng()
}

/// Relies on `rand::Rng::random_range` over `0..len`, which returns a value
/// of that half-open range and panics only when the range is empty.
#[verifier::external_body]
pub(crate) fn random_index(rng: &mut rand::rngs::SmallRng, len: usize) -> (r: usize)
    requires
        len > 0,
    ensures
        r < len,
{
    rand::Rng::random_range(rng, 0..len)
}

/// Relies on `rand::random`: a fresh seed from the thread-local generator.
/// Nothing is stated of its value.
#[verifier::external_body]
pub(crate) fn random_seed() -> u64 {
    rand::random::<u64>()
}

} // verus!
