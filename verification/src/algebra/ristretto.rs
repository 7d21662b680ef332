//! The Ristretto backend: a non-pairing group of prime order, over
//! curve25519_dalek's Ristretto implementation.

use vstd::prelude::*;
use curve25519_dalek::traits::Identity;

verus! {

use crate::algebra::groups::{Group, ScalarField};
use crate::utils::{
    le_bytes_of, lemma_le_bytes_of_to_nat, lemma_pow256_32,
};

#[verifier::external_type_specification]
#[verifier::external_body]
pub struct ExDalekScalar(curve25519_dalek::scalar::Scalar);

#[verifier::external_type_specification]
#[verifier::external_body]
pub struct ExDalekPoint(curve25519_dalek::ristretto::RistrettoPoint);

/// The prime order of the Ristretto group and of its scalar field:
/// 2^252 + 27742317777372353535851937790883648493.
pub open spec fn ristretto_order() -> nat {
    0x1000000000000000000000000000000014def9dea2f79cd65812631a5cf5d3ed as nat
}

/// A scalar of the Ristretto backend: a residue modulo the group order.
#[derive(Clone, Copy)]
pub struct RistrettoScalar {
    v: curve25519_dalek::scalar::Scalar,
}

/// A point of the Ristretto group, modelled by its discrete logarithm
/// with respect to the Ristretto base point.
#[derive(Clone, Copy)]
pub struct RistrettoElement {
    v: curve25519_dalek::ristretto::RistrettoPoint,
}

/// The residue a Ristretto scalar denotes.
pub uninterp spec fn rsc_rep(s: RistrettoScalar) -> nat;

/// The discrete logarithm of a Ristretto point with respect to the
/// Ristretto base point.
pub uninterp spec fn rp_rep(p: RistrettoElement) -> nat;

/// The canonical 32-byte Ristretto encoding of the element with discrete
/// logarithm `n`.
pub uninterp spec fn ristretto_compress_model(n: nat) -> Seq<u8>;

/// The discrete logarithm of the Ristretto element derived from a 64-byte
/// digest by the uniform-bytes construction.
pub uninterp spec fn ristretto_hash_model(digest: Seq<u8>) -> nat;

/// Relies on curve25519_dalek's `Scalar::from(u64)`.
#[verifier::external_body]
fn rsc_from_u64(value: u64) -> (r: RistrettoScalar)
    ensures
        rsc_rep(r) == value,
{
    RistrettoScalar { v: curve25519_dalek::scalar::Scalar::from(value) }
}

/// Relies on curve25519_dalek's scalar addition, which is modulo the
/// group order.
#[verifier::external_body]
fn rsc_add(a: &RistrettoScalar, b: &RistrettoScalar) -> (r: RistrettoScalar)
    requires
        rsc_rep(*a) < ristretto_order(),
        rsc_rep(*b) < ristretto_order(),
    ensures
        rsc_rep(r) == (rsc_rep(*a) + rsc_rep(*b)) % ristretto_order(),
{
    RistrettoScalar { v: a.v + b.v }
}

/// Relies on curve25519_dalek's scalar multiplication modulo the group
/// order.
#[verifier::external_body]
fn rsc_mul(a: &RistrettoScalar, b: &RistrettoScalar) -> (r: RistrettoScalar)
    requires
        rsc_rep(*a) < ristretto_order(),
        rsc_rep(*b) < ristretto_order(),
    ensures
        rsc_rep(r) == (rsc_rep(*a) * rsc_rep(*b)) % ristretto_order(),
{
    RistrettoScalar { v: a.v * b.v }
}

/// Relies on curve25519_dalek's scalar subtraction modulo the group
/// order.
#[verifier::external_body]
fn rsc_sub(a: &RistrettoScalar, b: &RistrettoScalar) -> (r: RistrettoScalar)
    requires
        rsc_rep(*a) < ristretto_order(),
        rsc_rep(*b) < ristretto_order(),
    ensures
        rsc_rep(r) == (rsc_rep(*a) + ristretto_order() - rsc_rep(*b)) % (
        ristretto_order() as int),
{
    RistrettoScalar { v: a.v - b.v }
}

/// Relies on curve25519_dalek's `Scalar::invert`: for a nonzero scalar
/// the product with its inverse is one.
#[verifier::external_body]
fn rsc_inv(a: &RistrettoScalar) -> (r: RistrettoScalar)
    requires
        rsc_rep(*a) < ristretto_order(),
        rsc_rep(*a) != 0,
    ensures
        rsc_rep(r) < ristretto_order(),
        (rsc_rep(r) * rsc_rep(*a)) % ristretto_order() == 1,
{
    RistrettoScalar { v: a.v.invert() }
}

/// Relies on curve25519_dalek's scalar equality, which compares the
/// canonical residues.
#[verifier::external_body]
fn rsc_eq(a: &RistrettoScalar, b: &RistrettoScalar) -> (r: bool)
    ensures
        r == (rsc_rep(*a) == rsc_rep(*b)),
{
    a.v == b.v
}

/// Relies on curve25519_dalek's `Scalar::to_bytes`: the canonical
/// little-endian encoding of the residue.
#[verifier::external_body]
fn rsc_to_bytes(a: &RistrettoScalar) -> (r: Vec<u8>)
    requires
        rsc_rep(*a) < ristretto_order(),
    ensures
        r@ == le_bytes_of(rsc_rep(*a), 32),
{
    a.v.to_bytes().to_vec()
}

/// Relies on curve25519_dalek's `Scalar::from_canonical_bytes`: succeeds
/// exactly on the canonical little-endian encoding of a residue below
/// the group order, and returns that residue.
#[verifier::external_body]
fn rsc_from_bytes(bytes: &[u8]) -> (r: Option<RistrettoScalar>)
    ensures
        r matches Some(s) ==> rsc_rep(s) < ristretto_order() && bytes@ == le_bytes_of(
            rsc_rep(s),
            32,
        ),
        forall|n: nat|
            n < ristretto_order() && bytes@ == le_bytes_of(n, 32) ==> r is Some,
{
    let arr: [u8; 32] = match bytes.try_into() {
        Ok(a) => a,
        Err(_) => return None,
    };
    curve25519_dalek::scalar::Scalar::from_canonical_bytes(arr).map(|v| RistrettoScalar { v })
}

/// Relies on curve25519_dalek's `RistrettoPoint::identity`.
#[verifier::external_body]
fn rp_identity() -> (r: RistrettoElement)
    ensures
        rp_rep(r) == 0,
{
    RistrettoElement { v: curve25519_dalek::ristretto::RistrettoPoint::identity() }
}

/// Relies on curve25519_dalek's `RISTRETTO_BASEPOINT_POINT`: the
/// canonical generator.
#[verifier::external_body]
fn rp_base() -> (r: RistrettoElement)
    ensures
        rp_rep(r) == 1,
{
    RistrettoElement { v: curve25519_dalek::constants::RISTRETTO_BASEPOINT_POINT }
}

/// Relies on curve25519_dalek's point addition: logarithms add modulo
/// the group order.
#[verifier::external_body]
fn rp_add(a: &RistrettoElement, b: &RistrettoElement) -> (r: RistrettoElement)
    requires
        rp_rep(*a) < ristretto_order(),
        rp_rep(*b) < ristretto_order(),
    ensures
        rp_rep(r) == (rp_rep(*a) + rp_rep(*b)) % ristretto_order(),
{
    RistrettoElement { v: a.v + b.v }
}

/// Relies on curve25519_dalek's point subtraction.
#[verifier::external_body]
fn rp_sub(a: &RistrettoElement, b: &RistrettoElement) -> (r: RistrettoElement)
    requires
        rp_rep(*a) < ristretto_order(),
        rp_rep(*b) < ristretto_order(),
    ensures
        rp_rep(r) == (rp_rep(*a) + ristretto_order() - rp_rep(*b)) % (ristretto_order() as int),
{
    RistrettoElement { v: a.v - b.v }
}

/// Relies on curve25519_dalek's scalar multiplication of a point: the
/// logarithm is multiplied by the scalar, modulo the group order.
#[verifier::external_body]
fn rp_mul(a: &RistrettoElement, s: &RistrettoScalar) -> (r: RistrettoElement)
    requires
        rp_rep(*a) < ristretto_order(),
        rsc_rep(*s) < ristretto_order(),
    ensures
        rp_rep(r) == (rp_rep(*a) * rsc_rep(*s)) % ristretto_order(),
{
    RistrettoElement { v: a.v * s.v }
}

/// Relies on curve25519_dalek's point equality: two Ristretto points are
/// equal exactly when they are the same group element.
#[verifier::external_body]
fn rp_eq(a: &RistrettoElement, b: &RistrettoElement) -> (r: bool)
    requires
        rp_rep(*a) < ristretto_order(),
        rp_rep(*b) < ristretto_order(),
    ensures
        r == (rp_rep(*a) == rp_rep(*b)),
{
    a.v == b.v
}

/// Relies on curve25519_dalek's `RistrettoPoint::compress`: every group
/// element has one canonical 32-byte encoding.
#[verifier::external_body]
fn rp_compress(a: &RistrettoElement) -> (r: Vec<u8>)
    requires
        rp_rep(*a) < ristretto_order(),
    ensures
        r@ == ristretto_compress_model(rp_rep(*a)),
        r@.len() == 32,
{
    a.v.compress().to_bytes().to_vec()
}

/// Relies on curve25519_dalek's `CompressedRistretto::decompress`: the
/// canonical encoding of an element decodes back to that element, and
/// malformed bytes are rejected.
#[verifier::external_body]
fn rp_decompress(bytes: &[u8]) -> (r: Option<RistrettoElement>)
    ensures
        r is None ==> forall|n: nat|
            n < ristretto_order() ==> bytes@ != ristretto_compress_model(n),
        r matches Some(g) ==> forall|n: nat|
            n < ristretto_order() && bytes@ == ristretto_compress_model(n) ==> rp_rep(g) == n,
{
    let arr: [u8; 32] = match bytes.try_into() {
        Ok(a) => a,
        Err(_) => return None,
    };
    curve25519_dalek::ristretto::CompressedRistretto(arr).decompress().map(
        |v| RistrettoElement { v },
    )
}

/// Relies on curve25519_dalek's `RistrettoPoint::from_uniform_bytes`:
/// the resulting element depends on the 64 input bytes alone.
#[verifier::external_body]
fn rp_from_uniform(digest: &[u8]) -> (r: RistrettoElement)
    requires
        digest@.len() == 64,
    ensures
        rp_rep(r) == ristretto_hash_model(digest@),
        rp_rep(r) < ristretto_order(),
{
    let mut arr = [0u8; 64];
    arr.copy_from_slice(digest);
    RistrettoElement { v: curve25519_dalek::ristretto::RistrettoPoint::from_uniform_bytes(&arr) }
}

impl ScalarField for RistrettoScalar {
    closed spec fn rep(&self) -> nat {
        rsc_rep(*self)
    }

    open spec fn order() -> nat {
        ristretto_order()
    }

    open spec fn to_bytes_model(n: nat) -> Seq<u8> {
        le_bytes_of(n, 32)
    }

    open spec fn bytes_len() -> nat {
        32
    }

    proof fn order_facts() {
    }

    proof fn to_bytes_model_injective(n1: nat, n2: nat) {
        lemma_pow256_32();
        lemma_le_bytes_of_to_nat(n1, 32);
        lemma_le_bytes_of_to_nat(n2, 32);
    }

    fn from_u32(value: u32) -> Self {
        rsc_from_u64(value as u64)
    }

    fn from_u64(value: u64) -> Self {
        rsc_from_u64(value)
    }

    fn add(&self, b: &Self) -> Self {
        rsc_add(self, b)
    }

    fn mul(&self, b: &Self) -> Self {
        rsc_mul(self, b)
    }

    fn sub(&self, b: &Self) -> Self {
        rsc_sub(self, b)
    }

    fn inv(&self) -> Self {
        rsc_inv(self)
    }

    fn eq_scalar(&self, b: &Self) -> bool {
        rsc_eq(self, b)
    }

    fn to_bytes(&self) -> Vec<u8> {
        rsc_to_bytes(self)
    }

    fn from_bytes(bytes: &[u8]) -> Option<Self> {
        rsc_from_bytes(bytes)
    }
}

impl Group<RistrettoScalar> for RistrettoElement {
    closed spec fn rep(&self) -> nat {
        rp_rep(*self)
    }

    closed spec fn wf(&self) -> bool {
        rp_rep(*self) < ristretto_order()
    }

    open spec fn compress_model(n: nat) -> Seq<u8> {
        ristretto_compress_model(n)
    }

    open spec fn compressed_len() -> nat {
        32
    }

    open spec fn hash_model(digest: Seq<u8>) -> nat {
        ristretto_hash_model(digest)
    }

    proof fn wf_bound(&self) {
    }

    fn compressed_len_exec() -> usize {
        32
    }

    fn get_identity() -> Self {
        rp_identity()
    }

    fn get_base() -> Self {
        rp_base()
    }

    fn add(&self, o: &Self) -> Self {
        rp_add(self, o)
    }

    fn sub(&self, o: &Self) -> Self {
        rp_sub(self, o)
    }

    fn mul(&self, s: &RistrettoScalar) -> Self {
        rp_mul(self, s)
    }

    fn eq_elem(&self, o: &Self) -> bool {
        rp_eq(self, o)
    }

    fn to_compressed_bytes(&self) -> Vec<u8> {
        rp_compress(self)
    }

    fn from_compressed_bytes(bytes: &[u8]) -> Option<Self> {
        rp_decompress(bytes)
    }

    fn from_hash(digest: &[u8]) -> Self {
        rp_from_uniform(digest)
    }
}

} // verus!
