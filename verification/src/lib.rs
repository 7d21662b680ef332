//! Cryptographic primitives for confidential and anonymous payment protocols:
//! a curve-agnostic algebraic interface (scalar field, group, bilinear
//! pairing), ElGamal encryption over any group backend, BLS signatures with
//! rogue-key-resistant aggregation and batch verification, and a Fiat-Shamir
//! joint proof of knowledge linking ElGamal ciphertexts to an anonymous
//! credential's selective-disclosure proof.

pub mod algebra;
pub mod b64;
pub mod bls;
pub mod bls_sig;
pub mod credentials;
pub mod elgamal;
pub mod errors;
pub mod hashing;
pub mod identity;
pub mod prng;
pub mod serialization;
pub mod utils;
