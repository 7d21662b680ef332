//! The scalar-field, group and pairing capability contracts.
//!
//! Every scalar denotes a residue below the prime order of its field, and
//! every group element of a backend denotes its discrete logarithm with
//! respect to the backend's canonical generator, a residue below the same
//! prime. All contracts of this crate are stated over those residues:
//! group addition adds logarithms, scalar multiplication multiplies them,
//! and a bilinear pairing multiplies the logarithms of its two arguments.

use vstd::prelude::*;

verus! {

use crate::prng::ChaChaPrng;
use crate::utils::be_bytes_to_nat;
use vstd::arithmetic::div_mod::{
    lemma_add_mod_noop, lemma_mod_bound, lemma_mod_twice, lemma_mul_mod_noop_left,
    lemma_small_mod,
};

/// An element of a prime field: the scalar field of a group backend.
pub trait ScalarField: Sized + Copy {
    /// The residue that this scalar denotes: an integer below the field
    /// order.
    spec fn rep(&self) -> nat;

    /// The order of the scalar field.
    spec fn order() -> nat;

    /// The canonical fixed-width byte encoding of the residue `n`.
    spec fn to_bytes_model(n: nat) -> Seq<u8>;

    /// The width of the byte encoding.
    spec fn bytes_len() -> nat;

    /// The field order exceeds 2^64, so every `u64` is a distinct residue.
    proof fn order_facts()
        ensures
            Self::order() > 0x1_0000_0000_0000_0000,
    ;

    /// Distinct residues have distinct byte encodings.
    proof fn to_bytes_model_injective(n1: nat, n2: nat)
        requires
            n1 < Self::order(),
            n2 < Self::order(),
            Self::to_bytes_model(n1) == Self::to_bytes_model(n2),
        ensures
            n1 == n2,
    ;

    fn from_u32(value: u32) -> (r: Self)
        ensures
            r.rep() == value,
    ;

    fn from_u64(value: u64) -> (r: Self)
        ensures
            r.rep() == value,
    ;

    fn add(&self, b: &Self) -> (r: Self)
        requires
            self.rep() < Self::order(),
            b.rep() < Self::order(),
        ensures
            r.rep() == (self.rep() + b.rep()) % Self::order(),
    ;

    fn mul(&self, b: &Self) -> (r: Self)
        requires
            self.rep() < Self::order(),
            b.rep() < Self::order(),
        ensures
            r.rep() == (self.rep() * b.rep()) % Self::order(),
    ;

    fn sub(&self, b: &Self) -> (r: Self)
        requires
            self.rep() < Self::order(),
            b.rep() < Self::order(),
        ensures
            r.rep() == (self.rep() + Self::order() - b.rep()) % (Self::order() as int),
    ;

    /// The multiplicative inverse; undefined at zero, which callers must
    /// not pass.
    fn inv(&self) -> (r: Self)
        requires
            self.rep() < Self::order(),
            self.rep() != 0,
        ensures
            r.rep() < Self::order(),
            (r.rep() * self.rep()) % Self::order() == 1,
    ;

    fn eq_scalar(&self, b: &Self) -> (r: bool)
        ensures
            r == (self.rep() == b.rep()),
    ;

    fn to_bytes(&self) -> (r: Vec<u8>)
        requires
            self.rep() < Self::order(),
        ensures
            r@ == Self::to_bytes_model(self.rep()),
            r@.len() == Self::bytes_len(),
    ;

    /// Decodes a canonical encoding; fails on any byte string that is not
    /// the encoding of a residue below the order.
    fn from_bytes(bytes: &[u8]) -> (r: Option<Self>)
        ensures
            r matches Some(s) ==> s.rep() < Self::order() && bytes@ == Self::to_bytes_model(
                s.rep(),
            ),
            forall|n: nat| n < Self::order() && bytes@ == Self::to_bytes_model(n) ==> r is Some,
    ;

}

/// An element of a cyclic group of prime order `S::order()`, modelled by
/// its discrete logarithm with respect to the canonical generator.
pub trait Group<S: ScalarField>: Sized + Copy {
    /// The discrete logarithm of this element with respect to the
    /// canonical generator.
    spec fn rep(&self) -> nat;

    /// Whether this value denotes a group element at all. Backends whose
    /// carrier type is larger than the group (a pairing target field)
    /// mark values decoded from arbitrary bytes as unconstrained.
    spec fn wf(&self) -> bool;

    /// The canonical compressed byte encoding of the element with
    /// logarithm `n`.
    spec fn compress_model(n: nat) -> Seq<u8>;

    /// The length of the compressed encoding.
    spec fn compressed_len() -> nat;

    /// The logarithm of the element deterministically derived from a
    /// 64-byte digest.
    spec fn hash_model(digest: Seq<u8>) -> nat;

    proof fn wf_bound(&self)
        requires
            self.wf(),
        ensures
            self.rep() < S::order(),
    ;

    fn compressed_len_exec() -> (r: usize)
        ensures
            r == Self::compressed_len(),
    ;

    fn get_identity() -> (r: Self)
        ensures
            r.wf(),
            r.rep() == 0,
    ;

    fn get_base() -> (r: Self)
        ensures
            r.wf(),
            r.rep() == 1,
    ;

    fn add(&self, o: &Self) -> (r: Self)
        requires
            self.wf(),
            o.wf(),
        ensures
            r.wf(),
            r.rep() == (self.rep() + o.rep()) % S::order(),
    ;

    fn sub(&self, o: &Self) -> (r: Self)
        requires
            self.wf(),
            o.wf(),
        ensures
            r.wf(),
            r.rep() == (self.rep() + S::order() - o.rep()) % (S::order() as int),
    ;

    fn mul(&self, s: &S) -> (r: Self)
        requires
            self.wf(),
            s.rep() < S::order(),
        ensures
            r.wf(),
            r.rep() == (self.rep() * s.rep()) % S::order(),
    ;

    fn eq_elem(&self, o: &Self) -> (r: bool)
        requires
            self.wf(),
            o.wf(),
        ensures
            r == (self.rep() == o.rep()),
    ;

    fn to_compressed_bytes(&self) -> (r: Vec<u8>)
        requires
            self.wf(),
        ensures
            r@ == Self::compress_model(self.rep()),
            r@.len() == Self::compressed_len(),
    ;

    /// Decodes a compressed encoding. On the canonical encoding of an
    /// element the decoding succeeds and returns exactly that element;
    /// on malformed bytes it fails.
    fn from_compressed_bytes(bytes: &[u8]) -> (r: Option<Self>)
        ensures
            forall|n: nat|
                n < S::order() && bytes@ == Self::compress_model(n) ==> (r matches Some(g)
                    && g.wf() && g.rep() == n),
    ;

    /// Deterministic construction from a 64-byte digest.
    fn from_hash(digest: &[u8]) -> (r: Self)
        requires
            digest@.len() == 64,
        ensures
            r.wf(),
            r.rep() == Self::hash_model(digest@),
            r.rep() < S::order(),
    ;
}

/// A bilinear pairing capability: two source groups, a target group, and a
/// map that multiplies discrete logarithms, all over one scalar field.
pub trait Pairing: Sized {
    type ScalarType: ScalarField;

    type G1: Group<Self::ScalarType>;

    type G2: Group<Self::ScalarType>;

    type Gt: Group<Self::ScalarType>;

    /// The bilinear map: `pairing(a·P, b·Q)` has logarithm `a·b` in the
    /// target group, with respect to the base `pairing(P, Q)`.
    fn pairing(a: &Self::G1, b: &Self::G2) -> (r: Self::Gt)
        requires
            a.wf(),
            b.wf(),
        ensures
            r.wf(),
            r.rep() == (a.rep() * b.rep()) % <Self::ScalarType as ScalarField>::order(),
    ;
}

/// Folds a big-endian byte string into the scalar field: the result
/// denotes the bytes' integer value reduced modulo the field order.
pub fn scalar_from_be_bytes_mod_order<S: ScalarField>(bytes: &[u8]) -> (r: S)
    ensures
        r.rep() == be_bytes_to_nat(bytes@) % S::order(),
        r.rep() < S::order(),
{
    proof {
        S::order_facts();
    }
    let c256 = S::from_u64(256);
    let mut acc = S::from_u64(0);
    let mut i: usize = 0;
    proof {
        assert(bytes@.take(0) =~= Seq::<u8>::empty());
        lemma_small_mod(0, S::order());
    }
    while i < bytes.len()
        invariant
            i <= bytes@.len(),
            c256.rep() == 256,
            S::order() > 0x1_0000_0000_0000_0000,
            acc.rep() == be_bytes_to_nat(bytes@.take(i as int)) % S::order(),
            acc.rep() < S::order(),
        decreases bytes@.len() - i,
    {
        let b = S::from_u64(bytes[i] as u64);
        let t = acc.mul(&c256);
        let acc2 = t.add(&b);
        proof {
            let m = S::order() as int;
            let x = be_bytes_to_nat(bytes@.take(i as int)) as int;
            let bv = bytes@[i as int] as int;
            assert(bytes@.take(i + 1).drop_last() =~= bytes@.take(i as int));
            assert(be_bytes_to_nat(bytes@.take(i + 1)) == x * 256 + bv);
            // acc2.rep == ((x % m) * 256 % m + bv) % m == (x * 256 + bv) % m
            lemma_mul_mod_noop_left(x, 256, m);
            lemma_small_mod(bv as nat, m as nat);
            lemma_add_mod_noop(x * 256, bv, m);
            lemma_mod_twice(x * 256, m);
            assert(acc2.rep() == (x * 256 + bv) % m);
            lemma_mod_bound(x * 256 + bv, m);
        }
        acc = acc2;
        i = i + 1;
    }
    proof {
        assert(bytes@.take(bytes@.len() as int) =~= bytes@);
    }
    acc
}

/// Draws a uniformly random scalar: 64 bytes of the generator's stream,
/// reduced modulo the field order.
pub fn scalar_sample<S: ScalarField>(prng: &mut ChaChaPrng) -> (r: S)
    ensures
        r.rep() < S::order(),
{
    let buf = prng.fill64();
    scalar_from_be_bytes_mod_order::<S>(buf.as_slice())
}

/// Folds the fixed 512-bit hash of a byte slice into the scalar field.
pub fn byte_slice_to_scalar<S: ScalarField>(slice: &[u8]) -> (r: S)
    ensures
        r.rep() == be_bytes_to_nat(crate::hashing::sha512_model(slice@)) % S::order(),
        r.rep() < S::order(),
{
    let d = crate::hashing::sha512(slice);
    scalar_from_be_bytes_mod_order::<S>(d.as_slice())
}

/// Law: the scalar byte codec round-trips — decoding the encoding of a
/// scalar recovers exactly that scalar.
pub fn scalar_codec_round_trip<S: ScalarField>(x: &S) -> (r: S)
    requires
        x.rep() < S::order(),
    ensures
        r.rep() == x.rep(),
{
    let bytes = x.to_bytes();
    let decoded = S::from_bytes(bytes.as_slice());
    match decoded {
        Some(s) => {
            proof {
                S::to_bytes_model_injective(s.rep(), x.rep());
            }
            s
        },
        None => {
            proof {
                assert(false);
            }
            vstd::pervasive::unreached::<S>()
        },
    }
}

/// Law: the group-element codec round-trips — decoding the compressed
/// encoding of an element recovers exactly that element.
pub fn group_codec_round_trip<S: ScalarField, G: Group<S>>(x: &G) -> (r: G)
    requires
        x.wf(),
    ensures
        r.wf(),
        r.rep() == x.rep(),
{
    proof {
        x.wf_bound();
    }
    let bytes = x.to_compressed_bytes();
    let decoded = G::from_compressed_bytes(bytes.as_slice());
    match decoded {
        Some(g) => g,
        None => {
            proof {
                assert(false);
            }
            vstd::pervasive::unreached::<G>()
        },
    }
}

} // verus!
