//! The fixed 512-bit hash used across the crate, both for Fiat-Shamir
//! challenge derivation and for hashing to scalars and group elements.

use vstd::prelude::*;
use sha2::Digest;

verus! {

/// The SHA-512 digest of a byte sequence. The digest is a pure function of
/// the input bytes; it is named here and never restated.
pub uninterp spec fn sha512_model(input: Seq<u8>) -> Seq<u8>;

/// Relies on sha2's `Sha512`: the 64-byte digest depends on the input
/// bytes alone.
#[verifier::external_body]
pub fn sha512(input: &[u8]) -> (r: Vec<u8>)
    ensures
        r@ == sha512_model(input@),
        r@.len() == 64,
{
    sha2::Sha512::digest(input).to_vec()
}

} // verus!
