//! The BLS12-381 backend: a pairing-capable curve with source groups G1
//! and G2 and target group Gt, over the pairing crate's implementation.
//!
//! G1 and G2 are prime-order curve groups; Gt is the order-r subgroup of
//! the multiplicative group of the twelfth-degree extension field,
//! written additively here, with the pairing of the two generators as its
//! base. A target-field value decoded from arbitrary bytes need not lie
//! in that subgroup, so Gt elements carry a well-formedness predicate
//! that the group operations preserve.

use vstd::prelude::*;
use pairing::bls12_381::{Fq, Fq12, Fq2, Fq6, FqRepr};
use pairing::{CurveAffine, CurveProjective, EncodedPoint, Field, PrimeField, PrimeFieldRepr};
use rand::Rand;
use rand::SeedableRng;

verus! {

use crate::algebra::groups::{Group, Pairing, ScalarField};
use crate::utils::{
    be_bytes_of, be_bytes_to_nat, lemma_be_bytes_of_to_nat, lemma_pow256_32,
};
use vstd::arithmetic::div_mod::lemma_small_mod;

#[verifier::external_type_specification]
#[verifier::external_body]
pub struct ExBlsFr(pairing::bls12_381::Fr);

#[verifier::external_type_specification]
#[verifier::external_body]
pub struct ExBlsG1(pairing::bls12_381::G1);

#[verifier::external_type_specification]
#[verifier::external_body]
pub struct ExBlsG2(pairing::bls12_381::G2);

#[verifier::external_type_specification]
#[verifier::external_body]
pub struct ExBlsFq12(pairing::bls12_381::Fq12);

/// The prime order of the BLS12-381 scalar field and of the groups G1,
/// G2 and Gt.
pub open spec fn bls_scalar_order() -> nat {
    0x73eda753299d7d483339d80809a1d80553bda402fffe5bfeffffffff00000001 as nat
}

/// A scalar of the BLS12-381 backend: a residue modulo the curve order.
#[derive(Clone, Copy)]
pub struct BLSScalar {
    v: pairing::bls12_381::Fr,
}

/// An element of G1, modelled by its discrete logarithm with respect to
/// the G1 generator.
#[derive(Clone, Copy)]
pub struct BLSG1 {
    v: pairing::bls12_381::G1,
}

/// An element of G2, modelled by its discrete logarithm with respect to
/// the G2 generator.
#[derive(Clone, Copy)]
pub struct BLSG2 {
    v: pairing::bls12_381::G2,
}

/// An element of the pairing target field. When it lies in the order-r
/// subgroup it is modelled by its discrete logarithm with respect to the
/// pairing of the two generators.
#[derive(Clone, Copy)]
pub struct BLSGt {
    v: pairing::bls12_381::Fq12,
}

/// The residue a BLS scalar denotes.
pub uninterp spec fn fr_rep(s: BLSScalar) -> nat;

/// The discrete logarithm of a G1 element.
pub uninterp spec fn g1_rep(p: BLSG1) -> nat;

/// The discrete logarithm of a G2 element.
pub uninterp spec fn g2_rep(p: BLSG2) -> nat;

/// The discrete logarithm of a target-group element, meaningful only
/// when the element lies in the order-r subgroup.
pub uninterp spec fn gt_rep(p: BLSGt) -> nat;

/// Whether a target-field value lies in the order-r subgroup.
pub uninterp spec fn gt_in_group(p: BLSGt) -> bool;

/// The canonical 48-byte compressed encoding of the G1 element with
/// logarithm `n`.
pub uninterp spec fn g1_compress_model(n: nat) -> Seq<u8>;

/// The canonical 96-byte compressed encoding of the G2 element with
/// logarithm `n`.
pub uninterp spec fn g2_compress_model(n: nat) -> Seq<u8>;

/// The 576-byte field encoding of the subgroup element with logarithm
/// `n`.
pub uninterp spec fn gt_compress_model(n: nat) -> Seq<u8>;

/// The logarithm of the G1 element sampled from a seeded deterministic
/// generator.
pub uninterp spec fn g1_seeded_model(words: Seq<u32>) -> nat;

/// The logarithm of the G2 element sampled from a seeded deterministic
/// generator.
pub uninterp spec fn g2_seeded_model(words: Seq<u32>) -> nat;

/// The sixteen big-endian 32-bit words of a 64-byte digest.
pub open spec fn spec_seed_words(d: Seq<u8>) -> Seq<u32> {
    Seq::new(
        16,
        |i: int|
            (d[4 * i] as u32) << 24 | (d[4 * i + 1] as u32) << 16 | (d[4 * i + 2] as u32) << 8 | (
            d[4 * i + 3] as u32),
    )
}

/// The big-endian 32-bit word starting at position `4 * i` of `digest`.
fn digest_word(digest: &[u8], i: usize) -> (w: u32)
    requires
        i < 16,
        digest@.len() == 64,
    ensures
        w == spec_seed_words(digest@)[i as int],
{
    (digest[4 * i] as u32) << 24 | (digest[4 * i + 1] as u32) << 16 | (digest[4 * i + 2]
        as u32) << 8 | (digest[4 * i + 3] as u32)
}

/// The sixteen seed words of a 64-byte digest.
fn digest_to_seed_words(digest: &[u8]) -> (w: [u32; 16])
    requires
        digest@.len() == 64,
    ensures
        w@ == spec_seed_words(digest@),
{
    let w: [u32; 16] = [
        digest_word(digest, 0),
        digest_word(digest, 1),
        digest_word(digest, 2),
        digest_word(digest, 3),
        digest_word(digest, 4),
        digest_word(digest, 5),
        digest_word(digest, 6),
        digest_word(digest, 7),
        digest_word(digest, 8),
        digest_word(digest, 9),
        digest_word(digest, 10),
        digest_word(digest, 11),
        digest_word(digest, 12),
        digest_word(digest, 13),
        digest_word(digest, 14),
        digest_word(digest, 15),
    ];
    assert(w@ =~= spec_seed_words(digest@));
    w
}

/// Relies on the pairing crate's `Fr::from_repr` on a single-limb value,
/// which is below the field order.
#[verifier::external_body]
fn fr_from_u64(value: u64) -> (r: BLSScalar)
    ensures
        fr_rep(r) == value,
{
    let repr = pairing::bls12_381::FrRepr([value, 0, 0, 0]);
    BLSScalar { v: pairing::bls12_381::Fr::from_repr(repr).unwrap() }
}

/// Relies on the pairing crate's `Fr::add_assign`: field addition modulo
/// the order.
#[verifier::external_body]
fn fr_add(a: &BLSScalar, b: &BLSScalar) -> (r: BLSScalar)
    requires
        fr_rep(*a) < bls_scalar_order(),
        fr_rep(*b) < bls_scalar_order(),
    ensures
        fr_rep(r) == (fr_rep(*a) + fr_rep(*b)) % bls_scalar_order(),
{
    let mut m = a.v;
    m.add_assign(&b.v);
    BLSScalar { v: m }
}

/// Relies on the pairing crate's `Fr::mul_assign`: field multiplication
/// modulo the order.
#[verifier::external_body]
fn fr_mul(a: &BLSScalar, b: &BLSScalar) -> (r: BLSScalar)
    requires
        fr_rep(*a) < bls_scalar_order(),
        fr_rep(*b) < bls_scalar_order(),
    ensures
        fr_rep(r) == (fr_rep(*a) * fr_rep(*b)) % bls_scalar_order(),
{
    let mut m = a.v;
    m.mul_assign(&b.v);
    BLSScalar { v: m }
}

/// Relies on the pairing crate's `Fr::sub_assign`: field subtraction
/// modulo the order.
#[verifier::external_body]
fn fr_sub(a: &BLSScalar, b: &BLSScalar) -> (r: BLSScalar)
    requires
        fr_rep(*a) < bls_scalar_order(),
        fr_rep(*b) < bls_scalar_order(),
    ensures
        fr_rep(r) == (fr_rep(*a) + bls_scalar_order() - fr_rep(*b)) % (
        bls_scalar_order() as int),
{
    let mut m = a.v;
    m.sub_assign(&b.v);
    BLSScalar { v: m }
}

/// Relies on the pairing crate's `Fr::inverse`: for a nonzero field
/// element the product with its inverse is one.
#[verifier::external_body]
fn fr_inv(a: &BLSScalar) -> (r: BLSScalar)
    requires
        fr_rep(*a) < bls_scalar_order(),
        fr_rep(*a) != 0,
    ensures
        fr_rep(r) < bls_scalar_order(),
        (fr_rep(r) * fr_rep(*a)) % bls_scalar_order() == 1,
{
    BLSScalar { v: a.v.inverse().unwrap() }
}

/// Relies on the pairing crate's `Fr` equality, which compares field
/// elements.
#[verifier::external_body]
fn fr_eq(a: &BLSScalar, b: &BLSScalar) -> (r: bool)
    ensures
        r == (fr_rep(*a) == fr_rep(*b)),
{
    a.v == b.v
}

/// Relies on the pairing crate's `FrRepr::write_be`: the canonical
/// 32-byte big-endian encoding of the residue.
#[verifier::external_body]
fn fr_to_bytes(a: &BLSScalar) -> (r: Vec<u8>)
    requires
        fr_rep(*a) < bls_scalar_order(),
    ensures
        r@ == be_bytes_of(fr_rep(*a), 32),
{
    let mut v: Vec<u8> = Vec::new();
    a.v.into_repr().write_be(&mut v).unwrap();
    v
}

/// Relies on the pairing crate's `FrRepr::read_be` and `Fr::from_repr`:
/// succeeds exactly on the 32-byte big-endian encoding of a residue
/// below the field order, and returns that residue.
#[verifier::external_body]
fn fr_from_bytes(bytes: &[u8]) -> (r: Option<BLSScalar>)
    ensures
        r matches Some(s) ==> fr_rep(s) < bls_scalar_order() && bytes@ == be_bytes_of(
            fr_rep(s),
            32,
        ),
        forall|n: nat|
            n < bls_scalar_order() && bytes@ == be_bytes_of(n, 32) ==> r is Some,
{
    let arr: [u8; 32] = match bytes.try_into() {
        Ok(a) => a,
        Err(_) => return None,
    };
    let mut repr = pairing::bls12_381::FrRepr([0; 4]);
    if repr.read_be(&arr[..]).is_err() {
        return None;
    }
    pairing::bls12_381::Fr::from_repr(repr).ok().map(|v| BLSScalar { v })
}

/// Relies on the pairing crate's `G1::zero`: the additive identity.
#[verifier::external_body]
fn g1_zero() -> (r: BLSG1)
    ensures
        g1_rep(r) == 0,
{
    BLSG1 { v: pairing::bls12_381::G1::zero() }
}

/// Relies on the pairing crate's `G1::one`: the fixed generator.
#[verifier::external_body]
fn g1_one() -> (r: BLSG1)
    ensures
        g1_rep(r) == 1,
{
    BLSG1 { v: pairing::bls12_381::G1::one() }
}

/// Relies on the pairing crate's `G1::add_assign`: logarithms add modulo
/// the group order.
#[verifier::external_body]
fn g1_add(a: &BLSG1, b: &BLSG1) -> (r: BLSG1)
    requires
        g1_rep(*a) < bls_scalar_order(),
        g1_rep(*b) < bls_scalar_order(),
    ensures
        g1_rep(r) == (g1_rep(*a) + g1_rep(*b)) % bls_scalar_order(),
{
    let mut m = a.v;
    m.add_assign(&b.v);
    BLSG1 { v: m }
}

/// Relies on the pairing crate's `G1::sub_assign`.
#[verifier::external_body]
fn g1_sub(a: &BLSG1, b: &BLSG1) -> (r: BLSG1)
    requires
        g1_rep(*a) < bls_scalar_order(),
        g1_rep(*b) < bls_scalar_order(),
    ensures
        g1_rep(r) == (g1_rep(*a) + bls_scalar_order() - g1_rep(*b)) % (
        bls_scalar_order() as int),
{
    let mut m = a.v;
    m.sub_assign(&b.v);
    BLSG1 { v: m }
}

/// Relies on the pairing crate's `G1::mul_assign` by a scalar: the
/// logarithm is multiplied by the scalar's residue.
#[verifier::external_body]
fn g1_mul(a: &BLSG1, s: &BLSScalar) -> (r: BLSG1)
    requires
        g1_rep(*a) < bls_scalar_order(),
        fr_rep(*s) < bls_scalar_order(),
    ensures
        g1_rep(r) == (g1_rep(*a) * fr_rep(*s)) % bls_scalar_order(),
{
    let mut m = a.v;
    m.mul_assign(s.v);
    BLSG1 { v: m }
}

/// Relies on the pairing crate's `G1` equality of curve points.
#[verifier::external_body]
fn g1_eq(a: &BLSG1, b: &BLSG1) -> (r: bool)
    requires
        g1_rep(*a) < bls_scalar_order(),
        g1_rep(*b) < bls_scalar_order(),
    ensures
        r == (g1_rep(*a) == g1_rep(*b)),
{
    a.v == b.v
}

/// Relies on the pairing crate's `into_compressed` for G1: every group
/// element has one canonical 48-byte encoding.
#[verifier::external_body]
fn g1_compress(a: &BLSG1) -> (r: Vec<u8>)
    requires
        g1_rep(*a) < bls_scalar_order(),
    ensures
        r@ == g1_compress_model(g1_rep(*a)),
        r@.len() == 48,
{
    a.v.into_affine().into_compressed().as_ref().to_vec()
}

/// Relies on the pairing crate's `G1Compressed::into_affine`: the
/// canonical encoding of an element decodes back to that element, and
/// bytes that are not on the curve, not canonical, or outside the
/// prime-order subgroup are rejected.
#[verifier::external_body]
fn g1_decompress(bytes: &[u8]) -> (r: Option<BLSG1>)
    ensures
        r is None ==> forall|n: nat|
            n < bls_scalar_order() ==> bytes@ != g1_compress_model(n),
        r matches Some(g) ==> forall|n: nat|
            n < bls_scalar_order() && bytes@ == g1_compress_model(n) ==> g1_rep(g) == n,
{
    let arr: [u8; 48] = match bytes.try_into() {
        Ok(a) => a,
        Err(_) => return None,
    };
    let mut c = pairing::bls12_381::G1Compressed::empty();
    c.as_mut().copy_from_slice(&arr);
    match c.into_affine() {
        Ok(a) => Some(BLSG1 { v: pairing::bls12_381::G1::from(a) }),
        Err(_) => None,
    }
}

/// Relies on the pairing crate's `G1::rand` over rand's seeded
/// `ChaChaRng`: the sampled group element depends on the seed words
/// alone.
#[verifier::external_body]
fn g1_from_seed(words: &[u32; 16]) -> (r: BLSG1)
    ensures
        g1_rep(r) == g1_seeded_model(words@),
        g1_rep(r) < bls_scalar_order(),
{
    let mut prng = rand::chacha::ChaChaRng::from_seed(&words[..]);
    BLSG1 { v: pairing::bls12_381::G1::rand(&mut prng) }
}

/// Relies on the pairing crate's `G2::zero`.
#[verifier::external_body]
fn g2_zero() -> (r: BLSG2)
    ensures
        g2_rep(r) == 0,
{
    BLSG2 { v: pairing::bls12_381::G2::zero() }
}

/// Relies on the pairing crate's `G2::one`: the fixed generator.
#[verifier::external_body]
fn g2_one() -> (r: BLSG2)
    ensures
        g2_rep(r) == 1,
{
    BLSG2 { v: pairing::bls12_381::G2::one() }
}

/// Relies on the pairing crate's `G2::add_assign`.
#[verifier::external_body]
fn g2_add(a: &BLSG2, b: &BLSG2) -> (r: BLSG2)
    requires
        g2_rep(*a) < bls_scalar_order(),
        g2_rep(*b) < bls_scalar_order(),
    ensures
        g2_rep(r) == (g2_rep(*a) + g2_rep(*b)) % bls_scalar_order(),
{
    let mut m = a.v;
    m.add_assign(&b.v);
    BLSG2 { v: m }
}

/// Relies on the pairing crate's `G2::sub_assign`.
#[verifier::external_body]
fn g2_sub(a: &BLSG2, b: &BLSG2) -> (r: BLSG2)
    requires
        g2_rep(*a) < bls_scalar_order(),
        g2_rep(*b) < bls_scalar_order(),
    ensures
        g2_rep(r) == (g2_rep(*a) + bls_scalar_order() - g2_rep(*b)) % (
        bls_scalar_order() as int),
{
    let mut m = a.v;
    m.sub_assign(&b.v);
    BLSG2 { v: m }
}

/// Relies on the pairing crate's `G2::mul_assign` by a scalar.
#[verifier::external_body]
fn g2_mul(a: &BLSG2, s: &BLSScalar) -> (r: BLSG2)
    requires
        g2_rep(*a) < bls_scalar_order(),
        fr_rep(*s) < bls_scalar_order(),
    ensures
        g2_rep(r) == (g2_rep(*a) * fr_rep(*s)) % bls_scalar_order(),
{
    let mut m = a.v;
    m.mul_assign(s.v);
    BLSG2 { v: m }
}

/// Relies on the pairing crate's `G2` equality of curve points.
#[verifier::external_body]
fn g2_eq(a: &BLSG2, b: &BLSG2) -> (r: bool)
    requires
        g2_rep(*a) < bls_scalar_order(),
        g2_rep(*b) < bls_scalar_order(),
    ensures
        r == (g2_rep(*a) == g2_rep(*b)),
{
    a.v == b.v
}

/// Relies on the pairing crate's `into_compressed` for G2: every group
/// element has one canonical 96-byte encoding.
#[verifier::external_body]
fn g2_compress(a: &BLSG2) -> (r: Vec<u8>)
    requires
        g2_rep(*a) < bls_scalar_order(),
    ensures
        r@ == g2_compress_model(g2_rep(*a)),
        r@.len() == 96,
{
    a.v.into_affine().into_compressed().as_ref().to_vec()
}

/// Relies on the pairing crate's `G2Compressed::into_affine`: the
/// canonical encoding of an element decodes back to that element, and
/// malformed bytes are rejected.
#[verifier::external_body]
fn g2_decompress(bytes: &[u8]) -> (r: Option<BLSG2>)
    ensures
        r is None ==> forall|n: nat|
            n < bls_scalar_order() ==> bytes@ != g2_compress_model(n),
        r matches Some(g) ==> forall|n: nat|
            n < bls_scalar_order() && bytes@ == g2_compress_model(n) ==> g2_rep(g) == n,
{
    let arr: [u8; 96] = match bytes.try_into() {
        Ok(a) => a,
        Err(_) => return None,
    };
    let mut c = pairing::bls12_381::G2Compressed::empty();
    c.as_mut().copy_from_slice(&arr);
    match c.into_affine() {
        Ok(a) => Some(BLSG2 { v: pairing::bls12_381::G2::from(a) }),
        Err(_) => None,
    }
}

/// Relies on the pairing crate's `G2::rand` over rand's seeded
/// `ChaChaRng`: the sampled group element depends on the seed words
/// alone.
#[verifier::external_body]
fn g2_from_seed(words: &[u32; 16]) -> (r: BLSG2)
    ensures
        g2_rep(r) == g2_seeded_model(words@),
        g2_rep(r) < bls_scalar_order(),
{
    let mut prng = rand::chacha::ChaChaRng::from_seed(&words[..]);
    BLSG2 { v: pairing::bls12_381::G2::rand(&mut prng) }
}

/// Relies on the pairing crate's `Fq12::one`: the multiplicative
/// identity, which is the subgroup element of logarithm zero.
#[verifier::external_body]
fn gt_one() -> (r: BLSGt)
    ensures
        gt_in_group(r),
        gt_rep(r) == 0,
{
    BLSGt { v: pairing::bls12_381::Fq12::one() }
}

/// Relies on the pairing crate's `Fq12::mul_assign`: multiplication in
/// the target field adds subgroup logarithms.
#[verifier::external_body]
fn gt_add(a: &BLSGt, b: &BLSGt) -> (r: BLSGt)
    requires
        gt_in_group(*a),
        gt_in_group(*b),
        gt_rep(*a) < bls_scalar_order(),
        gt_rep(*b) < bls_scalar_order(),
    ensures
        gt_in_group(r),
        gt_rep(r) == (gt_rep(*a) + gt_rep(*b)) % bls_scalar_order(),
{
    let mut m = b.v;
    m.mul_assign(&a.v);
    BLSGt { v: m }
}

/// Relies on the pairing crate's `Fq12::inverse` and `Fq12::mul_assign`:
/// division in the target field subtracts subgroup logarithms. A
/// subgroup element is nonzero, so the inverse exists.
#[verifier::external_body]
fn gt_sub(a: &BLSGt, b: &BLSGt) -> (r: BLSGt)
    requires
        gt_in_group(*a),
        gt_in_group(*b),
        gt_rep(*a) < bls_scalar_order(),
        gt_rep(*b) < bls_scalar_order(),
    ensures
        gt_in_group(r),
        gt_rep(r) == (gt_rep(*a) + bls_scalar_order() - gt_rep(*b)) % (
        bls_scalar_order() as int),
{
    let mut m = b.v.inverse().unwrap();
    m.mul_assign(&a.v);
    BLSGt { v: m }
}

/// Relies on the pairing crate's `Fq12::pow` by the scalar's canonical
/// representation: exponentiation multiplies the subgroup logarithm.
#[verifier::external_body]
fn gt_mul(a: &BLSGt, s: &BLSScalar) -> (r: BLSGt)
    requires
        gt_in_group(*a),
        gt_rep(*a) < bls_scalar_order(),
        fr_rep(*s) < bls_scalar_order(),
    ensures
        gt_in_group(r),
        gt_rep(r) == (gt_rep(*a) * fr_rep(*s)) % bls_scalar_order(),
{
    BLSGt { v: a.v.pow(s.v.into_repr()) }
}

/// Relies on the pairing crate's `Fq12` equality: distinct subgroup
/// elements have distinct logarithms.
#[verifier::external_body]
fn gt_eq(a: &BLSGt, b: &BLSGt) -> (r: bool)
    requires
        gt_in_group(*a),
        gt_in_group(*b),
        gt_rep(*a) < bls_scalar_order(),
        gt_rep(*b) < bls_scalar_order(),
    ensures
        r == (gt_rep(*a) == gt_rep(*b)),
{
    a.v == b.v
}

/// Relies on the pairing crate's `FqRepr::write_be`: the canonical
/// big-endian bytes of each coefficient of the target-field value, in a
/// fixed order.
#[verifier::external_body]
fn gt_compress(a: &BLSGt) -> (r: Vec<u8>)
    requires
        gt_in_group(*a),
        gt_rep(*a) < bls_scalar_order(),
    ensures
        r@ == gt_compress_model(gt_rep(*a)),
        r@.len() == 576,
{
    let c = [
        a.v.c0.c0.c0, a.v.c0.c0.c1, a.v.c0.c1.c0, a.v.c0.c1.c1, a.v.c0.c2.c0, a.v.c0.c2.c1,
        a.v.c1.c0.c0, a.v.c1.c0.c1, a.v.c1.c1.c0, a.v.c1.c1.c1, a.v.c1.c2.c0, a.v.c1.c2.c1,
    ];
    let mut r: Vec<u8> = Vec::new();
    for fq in c.iter() {
        fq.into_repr().write_be(&mut r).unwrap();
    }
    r
}

/// Relies on the pairing crate's `FqRepr::read_be` and `Fq::from_repr`:
/// rebuilds the target-field value from its coefficient bytes, so the
/// encoding of a subgroup element decodes back to that element.
#[verifier::external_body]
fn gt_decompress(bytes: &[u8]) -> (r: Option<BLSGt>)
    ensures
        r is None ==> forall|n: nat|
            n < bls_scalar_order() ==> bytes@ != gt_compress_model(n),
        r matches Some(g) ==> forall|n: nat|
            n < bls_scalar_order() && bytes@ == gt_compress_model(n) ==> (gt_in_group(g)
                && gt_rep(g) == n),
{
    let mut rd: &[u8] = bytes;
    let mut g = [Fq2::zero(); 6];
    for i in 0..6 {
        let mut r0 = FqRepr([0; 6]);
        r0.read_be(&mut rd).ok()?;
        let mut r1 = FqRepr([0; 6]);
        r1.read_be(&mut rd).ok()?;
        g[i] = Fq2 { c0: Fq::from_repr(r0).ok()?, c1: Fq::from_repr(r1).ok()? };
    }
    Some(BLSGt { v: Fq12 {
        c0: Fq6 { c0: g[0], c1: g[1], c2: g[2] },
        c1: Fq6 { c0: g[3], c1: g[4], c2: g[5] },
    } })
}

/// Relies on the pairing crate's `pairing_with`: the bilinear map into
/// the order-r subgroup of the target field. The pairing of the two
/// generators is the subgroup base, and the logarithm of a pairing is
/// the product of its arguments' logarithms.
#[verifier::external_body]
fn bls_pairing(a: &BLSG1, b: &BLSG2) -> (r: BLSGt)
    requires
        g1_rep(*a) < bls_scalar_order(),
        g2_rep(*b) < bls_scalar_order(),
    ensures
        gt_in_group(r),
        gt_rep(r) == (g1_rep(*a) * g2_rep(*b)) % bls_scalar_order(),
{
    BLSGt { v: a.v.into_affine().pairing_with(&b.v.into_affine()) }
}

impl ScalarField for BLSScalar {
    closed spec fn rep(&self) -> nat {
        fr_rep(*self)
    }

    open spec fn order() -> nat {
        bls_scalar_order()
    }

    open spec fn to_bytes_model(n: nat) -> Seq<u8> {
        be_bytes_of(n, 32)
    }

    open spec fn bytes_len() -> nat {
        32
    }

    proof fn order_facts() {
    }

    proof fn to_bytes_model_injective(n1: nat, n2: nat) {
        lemma_pow256_32();
        lemma_be_bytes_of_to_nat(n1, 32);
        lemma_be_bytes_of_to_nat(n2, 32);
    }

    fn from_u32(value: u32) -> Self {
        fr_from_u64(value as u64)
    }

    fn from_u64(value: u64) -> Self {
        fr_from_u64(value)
    }

    fn add(&self, b: &Self) -> Self {
        fr_add(self, b)
    }

    fn mul(&self, b: &Self) -> Self {
        fr_mul(self, b)
    }

    fn sub(&self, b: &Self) -> Self {
        fr_sub(self, b)
    }

    fn inv(&self) -> Self {
        fr_inv(self)
    }

    fn eq_scalar(&self, b: &Self) -> bool {
        fr_eq(self, b)
    }

    fn to_bytes(&self) -> Vec<u8> {
        fr_to_bytes(self)
    }

    fn from_bytes(bytes: &[u8]) -> Option<Self> {
        fr_from_bytes(bytes)
    }
}

impl Group<BLSScalar> for BLSG1 {
    closed spec fn rep(&self) -> nat {
        g1_rep(*self)
    }

    closed spec fn wf(&self) -> bool {
        g1_rep(*self) < bls_scalar_order()
    }

    open spec fn compress_model(n: nat) -> Seq<u8> {
        g1_compress_model(n)
    }

    open spec fn compressed_len() -> nat {
        48
    }

    open spec fn hash_model(digest: Seq<u8>) -> nat {
        g1_seeded_model(spec_seed_words(digest))
    }

    proof fn wf_bound(&self) {
    }

    fn compressed_len_exec() -> usize {
        48
    }

    fn get_identity() -> Self {
        g1_zero()
    }

    fn get_base() -> Self {
        g1_one()
    }

    fn add(&self, o: &Self) -> Self {
        g1_add(self, o)
    }

    fn sub(&self, o: &Self) -> Self {
        g1_sub(self, o)
    }

    fn mul(&self, s: &BLSScalar) -> Self {
        g1_mul(self, s)
    }

    fn eq_elem(&self, o: &Self) -> bool {
        g1_eq(self, o)
    }

    fn to_compressed_bytes(&self) -> Vec<u8> {
        g1_compress(self)
    }

    fn from_compressed_bytes(bytes: &[u8]) -> Option<Self> {
        g1_decompress(bytes)
    }

    fn from_hash(digest: &[u8]) -> Self {
        let words = digest_to_seed_words(digest);
        g1_from_seed(&words)
    }
}

impl Group<BLSScalar> for BLSG2 {
    closed spec fn rep(&self) -> nat {
        g2_rep(*self)
    }

    closed spec fn wf(&self) -> bool {
        g2_rep(*self) < bls_scalar_order()
    }

    open spec fn compress_model(n: nat) -> Seq<u8> {
        g2_compress_model(n)
    }

    open spec fn compressed_len() -> nat {
        96
    }

    open spec fn hash_model(digest: Seq<u8>) -> nat {
        g2_seeded_model(spec_seed_words(digest))
    }

    proof fn wf_bound(&self) {
    }

    fn compressed_len_exec() -> usize {
        96
    }

    fn get_identity() -> Self {
        g2_zero()
    }

    fn get_base() -> Self {
        g2_one()
    }

    fn add(&self, o: &Self) -> Self {
        g2_add(self, o)
    }

    fn sub(&self, o: &Self) -> Self {
        g2_sub(self, o)
    }

    fn mul(&self, s: &BLSScalar) -> Self {
        g2_mul(self, s)
    }

    fn eq_elem(&self, o: &Self) -> bool {
        g2_eq(self, o)
    }

    fn to_compressed_bytes(&self) -> Vec<u8> {
        g2_compress(self)
    }

    fn from_compressed_bytes(bytes: &[u8]) -> Option<Self> {
        g2_decompress(bytes)
    }

    fn from_hash(digest: &[u8]) -> Self {
        let words = digest_to_seed_words(digest);
        g2_from_seed(&words)
    }
}

impl Group<BLSScalar> for BLSGt {
    closed spec fn rep(&self) -> nat {
        gt_rep(*self)
    }

    closed spec fn wf(&self) -> bool {
        gt_in_group(*self) && gt_rep(*self) < bls_scalar_order()
    }

    open spec fn compress_model(n: nat) -> Seq<u8> {
        gt_compress_model(n)
    }

    open spec fn compressed_len() -> nat {
        576
    }

    open spec fn hash_model(digest: Seq<u8>) -> nat {
        be_bytes_to_nat(digest) % bls_scalar_order()
    }

    proof fn wf_bound(&self) {
    }

    fn compressed_len_exec() -> usize {
        576
    }

    fn get_identity() -> Self {
        gt_one()
    }

    fn get_base() -> Self {
        let g1 = BLSG1::get_base();
        let g2 = BLSG2::get_base();
        let r = bls_pairing(&g1, &g2);
        proof {
            lemma_small_mod(1, bls_scalar_order());
        }
        r
    }

    fn add(&self, o: &Self) -> Self {
        gt_add(self, o)
    }

    fn sub(&self, o: &Self) -> Self {
        gt_sub(self, o)
    }

    fn mul(&self, s: &BLSScalar) -> Self {
        gt_mul(self, s)
    }

    fn eq_elem(&self, o: &Self) -> bool {
        gt_eq(self, o)
    }

    fn to_compressed_bytes(&self) -> Vec<u8> {
        gt_compress(self)
    }

    fn from_compressed_bytes(bytes: &[u8]) -> Option<Self> {
        gt_decompress(bytes)
    }

    fn from_hash(digest: &[u8]) -> Self {
        let s = crate::algebra::groups::scalar_from_be_bytes_mod_order::<BLSScalar>(digest);
        let b = Self::get_base();
        let r = b.mul(&s);
        proof {
            lemma_small_mod(s.rep(), bls_scalar_order());
        }
        r
    }
}

/// The BLS12-381 pairing capability.
#[derive(Clone, Copy)]
pub struct Bls12381;

impl Pairing for Bls12381 {
    type ScalarType = BLSScalar;

    type G1 = BLSG1;

    type G2 = BLSG2;

    type Gt = BLSGt;

    fn pairing(a: &BLSG1, b: &BLSG2) -> BLSGt {
        proof {
            a.wf_bound();
            b.wf_bound();
        }
        bls_pairing(a, b)
    }
}

} // verus!
