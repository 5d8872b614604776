//! The verifier's source of randomness: a seeded ChaCha20 generator from the
//! rand_chacha crate, behind trusted declarations. The stream's values carry
//! no contract — callers reduce them and state only what holds of every
//! outcome.

use vstd::prelude::*;

verus! {

/// Declares rand_chacha's ChaCha20Rng so the generator can stand in fields
/// and signatures; the type stays opaque to verification.
#[verifier::external_type_specification]
#[verifier::external_body]
pub struct ExChaCha20Rng(rand_chacha::ChaCha20Rng);

/// Relies on rand_core's SeedableRng::seed_from_u64 for ChaCha20Rng: builds
/// the generator deterministically from a word-sized seed, so protocol runs
/// are reproducible under test.
#[verifier::external_body]
pub(crate) fn chacha_from_seed(seed: u64) -> rand_chacha::ChaCha20Rng {
    <rand_chacha::ChaCha20Rng as rand_chacha::rand_core::SeedableRng>::seed_from_u64(seed)
}

/// Relies on rand_core's Rng::next_u64 for ChaCha20Rng: draws the next word
/// of the stream. Nothing is assumed of the value drawn.
#[verifier::external_body]
pub(crate) fn chacha_next_u64(rng: &mut rand_chacha::ChaCha20Rng) -> u64 {
    rand_chacha::rand_core::Rng::next_u64(rng)
}

} // verus!
