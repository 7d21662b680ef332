//! A deterministic, seedable, cryptographically secure random generator.
//!
//! All randomized operations of this crate draw from this one generator
//! type, in a fixed order, so that a run is reproducible given its seed.

use vstd::prelude::*;
use rand::Rng;
use rand::SeedableRng;

verus! {

#[verifier::external_type_specification]
#[verifier::external_body]
pub struct ExChaChaRngInner(rand::chacha::ChaChaRng);

/// A ChaCha-based deterministic random bit generator.
pub struct ChaChaPrng {
    inner: rand::chacha::ChaChaRng,
}

/// Relies on rand's `ChaChaRng::from_seed`: a deterministic stream-cipher
/// generator seeded from eight 32-bit words.
#[verifier::external_body]
fn chacha_from_seed_words(words: &[u32; 8]) -> (r: ChaChaPrng) {
    ChaChaPrng { inner: rand::chacha::ChaChaRng::from_seed(&words[..]) }
}

/// Relies on rand's `Rng::fill_bytes`: fills the buffer with the next
/// bytes of the generator's stream.
#[verifier::external_body]
fn chacha_fill64(rng: &mut ChaChaPrng) -> (r: Vec<u8>)
    ensures
        r@.len() == 64,
{
    let mut buf = vec![0u8; 64];
    rng.inner.fill_bytes(&mut buf);
    buf
}

/// The big-endian 32-bit word starting at position `4 * i` of `seed`.
fn seed_word(seed: &[u8; 32], i: usize) -> (w: u32)
    requires
        i < 8,
{
    (seed[4 * i] as u32) << 24 | (seed[4 * i + 1] as u32) << 16 | (seed[4 * i + 2] as u32) << 8
        | (seed[4 * i + 3] as u32)
}

impl ChaChaPrng {
    /// Seeds the generator from 32 bytes, read as eight big-endian words.
    pub fn from_seed(seed: [u8; 32]) -> ChaChaPrng {
        let words: [u32; 8] = [
            seed_word(&seed, 0),
            seed_word(&seed, 1),
            seed_word(&seed, 2),
            seed_word(&seed, 3),
            seed_word(&seed, 4),
            seed_word(&seed, 5),
            seed_word(&seed, 6),
            seed_word(&seed, 7),
        ];
        chacha_from_seed_words(&words)
    }

    /// Draws the next 64 bytes of the stream. Nothing is promised of the
    /// values: callers must hold for every outcome.
    pub fn fill64(&mut self) -> (r: Vec<u8>)
        ensures
            r@.len() == 64,
    {
        chacha_fill64(self)
    }
}

} // verus!
