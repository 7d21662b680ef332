//! The error taxonomy: every failure is returned as a typed value.

use vstd::prelude::*;

verus! {

/// A typed failure of a cryptographic operation.
#[derive(Clone, Copy, Debug, PartialEq, Eq, Structural)]
pub enum ZeiError {
    /// Structural mismatch between supplied arrays.
    ParameterError,
    /// A signature, aggregate or batch check failed.
    SignatureError,
    /// A ciphertext does not open to the claimed plaintext.
    ElGamalVerificationError,
    /// A brute-force decryption search exhausted its bound.
    ElGamalDecryptionError,
    /// Bytes do not decode to a valid field or group element.
    DeserializationError,
    /// A joint identity-disclosure proof failed to verify.
    IdentityRevealVerificationError,
}

} // verus!
