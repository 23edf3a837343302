//! Trusted window onto the ChaCha8 random stream the player owns.

use vstd::prelude::*;

verus! {

#[verifier::external_type_specification]
#[verifier::external_body]
pub struct ExChaCha8Rng(rand_chacha::ChaCha8Rng);

/// Relies on rand_chacha's `ChaCha8Rng` through `rand_core::SeedableRng::
/// seed_from_u64`: builds the player's random stream from a seed.  Nothing
/// is assumed of the stream.
#[verifier::external_body]
pub(crate) fn rng_from_seed(seed: u64) -> (r: rand_chacha::ChaCha8Rng) {
    <rand_chacha::ChaCha8Rng as rand_core::SeedableRng>::seed_from_u64(seed)
}

/// Relies on `rand_core::RngCore::next_u32` on `ChaCha8Rng`: one draw from
/// the stream; nothing is assumed of the value drawn.
#[verifier::external_body]
pub(crate) fn rng_next_u32(rng: &mut rand_chacha::ChaCha8Rng) -> (r: u32) {
    rand_core::RngCore::next_u32(rng)
}

} // verus!
