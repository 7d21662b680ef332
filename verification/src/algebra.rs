//! The curve-agnostic algebraic interface and its concrete curve backends.

pub mod groups;
pub mod ristretto;
pub mod bls12_381;
