//! The two serialization modes of every serializable value: a raw form,
//! the canonical compressed bytes, and a textual form, base64 over those
//! bytes. Each decoder accepts exactly the canonical encodings, and each
//! codec round-trips; the round-trip laws are stated by the
//! `*_round_trip` functions.

use vstd::prelude::*;

verus! {

use crate::algebra::groups::{Group, Pairing, ScalarField};
use crate::algebra::ristretto::{RistrettoElement, RistrettoScalar};
use crate::b64::{b64_decode, b64_encode, lemma_b64_round_trip, spec_b64_decode, spec_b64_encode};
use crate::bls::BlsSignature;
use crate::elgamal::ElGamalCiphertext;
use crate::errors::ZeiError;

/// The textual form of a scalar: base64 over its canonical bytes.
pub fn scalar_to_text<S: ScalarField>(x: &S) -> (r: Vec<u8>)
    requires
        x.rep() < S::order(),
    ensures
        r@ == spec_b64_encode(S::to_bytes_model(x.rep())),
{
    let b = x.to_bytes();
    b64_encode(b.as_slice())
}

/// Decodes the textual form of a scalar; fails on anything that is not
/// the canonical text of a scalar.
pub fn scalar_from_text<S: ScalarField>(text: &[u8]) -> (r: Result<S, ZeiError>)
    ensures
        r matches Ok(s) ==> s.rep() < S::order() && spec_b64_decode(text@) == Some(
            S::to_bytes_model(s.rep()),
        ),
        forall|n: nat|
            n < S::order() && text@ == spec_b64_encode(#[trigger] S::to_bytes_model(n))
                ==> r is Ok,
        r matches Err(e) ==> e == ZeiError::DeserializationError,
{
    proof {
        assert forall|n: nat|
            n < S::order() && text@ == spec_b64_encode(#[trigger] S::to_bytes_model(n))
                implies spec_b64_decode(text@) == Some(S::to_bytes_model(n)) by {
            lemma_b64_round_trip(S::to_bytes_model(n));
        }
    }
    let bytes = match b64_decode(text) {
        Some(b) => b,
        None => {
            return Err(ZeiError::DeserializationError);
        },
    };
    match S::from_bytes(bytes.as_slice()) {
        Some(s) => Ok(s),
        None => Err(ZeiError::DeserializationError),
    }
}

/// Law: the textual scalar codec round-trips.
pub fn scalar_text_round_trip<S: ScalarField>(x: &S) -> (r: S)
    requires
        x.rep() < S::order(),
    ensures
        r.rep() == x.rep(),
{
    let text = scalar_to_text(x);
    let decoded = scalar_from_text::<S>(text.as_slice());
    proof {
        lemma_b64_round_trip(S::to_bytes_model(x.rep()));
    }
    match decoded {
        Ok(s) => {
            proof {
                S::to_bytes_model_injective(s.rep(), x.rep());
            }
            s
        },
        Err(_) => {
            proof {
                assert(false);
            }
            vstd::pervasive::unreached::<S>()
        },
    }
}

/// The textual form of a group element: base64 over its compressed
/// bytes.
pub fn group_to_text<S: ScalarField, G: Group<S>>(x: &G) -> (r: Vec<u8>)
    requires
        x.wf(),
    ensures
        r@ == spec_b64_encode(G::compress_model(x.rep())),
{
    let b = x.to_compressed_bytes();
    b64_encode(b.as_slice())
}

/// Decodes the textual form of a group element.
pub fn group_from_text<S: ScalarField, G: Group<S>>(text: &[u8]) -> (r: Result<G, ZeiError>)
    ensures
        forall|n: nat|
            n < S::order() && text@ == spec_b64_encode(#[trigger] G::compress_model(n)) ==> (
            r matches Ok(g) && g.wf() && g.rep() == n),
        r matches Err(e) ==> e == ZeiError::DeserializationError,
{
    proof {
        assert forall|n: nat|
            n < S::order() && text@ == spec_b64_encode(#[trigger] G::compress_model(n))
                implies spec_b64_decode(text@) == Some(G::compress_model(n)) by {
            lemma_b64_round_trip(G::compress_model(n));
        }
    }
    let bytes = match b64_decode(text) {
        Some(b) => b,
        None => {
            return Err(ZeiError::DeserializationError);
        },
    };
    match G::from_compressed_bytes(bytes.as_slice()) {
        Some(g) => Ok(g),
        None => Err(ZeiError::DeserializationError),
    }
}

/// Law: the textual group-element codec round-trips.
pub fn group_text_round_trip<S: ScalarField, G: Group<S>>(x: &G) -> (r: G)
    requires
        x.wf(),
    ensures
        r.wf(),
        r.rep() == x.rep(),
{
    proof {
        x.wf_bound();
    }
    let text = group_to_text(x);
    let decoded = group_from_text::<S, G>(text.as_slice());
    match decoded {
        Ok(g) => g,
        Err(_) => {
            proof {
                assert(false);
            }
            vstd::pervasive::unreached::<G>()
        },
    }
}

/// The raw form of an ElGamal ciphertext: the two compressed components,
/// concatenated.
pub fn elgamal_ciphertext_to_bytes<S: ScalarField, G: Group<S>>(
    ct: &ElGamalCiphertext<G>,
) -> (r: Vec<u8>)
    requires
        ct.e1.wf(),
        ct.e2.wf(),
    ensures
        r@ == G::compress_model(ct.e1.rep()) + G::compress_model(ct.e2.rep()),
        G::compress_model(ct.e1.rep()).len() == G::compressed_len(),
        G::compress_model(ct.e2.rep()).len() == G::compressed_len(),
        r@.len() == 2 * G::compressed_len(),
{
    let mut v = ct.e1.to_compressed_bytes();
    let b2 = ct.e2.to_compressed_bytes();
    crate::utils::vec_extend(&mut v, b2.as_slice());
    v
}

/// Decodes the raw form of an ElGamal ciphertext: the canonical
/// encodings of two group elements, concatenated.
pub fn elgamal_ciphertext_from_bytes<S: ScalarField, G: Group<S>>(bytes: &[u8]) -> (r: Result<
    ElGamalCiphertext<G>,
    ZeiError,
>)
    ensures
        forall|n1: nat, n2: nat|
            n1 < S::order() && n2 < S::order() && (#[trigger] G::compress_model(n1)).len()
                == G::compressed_len() && (#[trigger] G::compress_model(n2)).len()
                == G::compressed_len() && bytes@ == G::compress_model(n1) + G::compress_model(
                n2,
            ) ==> (r matches Ok(ct) && ct.e1.wf() && ct.e1.rep() == n1 && ct.e2.wf()
                && ct.e2.rep() == n2),
        r matches Err(e) ==> e == ZeiError::DeserializationError,
{
    let cl = G::compressed_len_exec();
    if bytes.len() < cl || bytes.len() - cl != cl {
        return Err(ZeiError::DeserializationError);
    }
    let first = vstd::slice::slice_subrange(bytes, 0, cl);
    let second = vstd::slice::slice_subrange(bytes, cl, bytes.len());
    proof {
        assert forall|n1: nat, n2: nat|
            n1 < S::order() && n2 < S::order() && (#[trigger] G::compress_model(n1)).len()
                == G::compressed_len() && (#[trigger] G::compress_model(n2)).len()
                == G::compressed_len() && bytes@ == G::compress_model(n1) + G::compress_model(
                n2,
            ) implies first@ == G::compress_model(n1) && second@ == G::compress_model(n2) by {
            assert(first@ =~= G::compress_model(n1));
            assert(second@ =~= G::compress_model(n2));
        }
    }
    let e1 = match G::from_compressed_bytes(first) {
        Some(g) => g,
        None => {
            return Err(ZeiError::DeserializationError);
        },
    };
    let e2 = match G::from_compressed_bytes(second) {
        Some(g) => g,
        None => {
            return Err(ZeiError::DeserializationError);
        },
    };
    Ok(ElGamalCiphertext::<G> { e1, e2 })
}

/// Law: the raw ciphertext codec round-trips.
pub fn elgamal_ciphertext_round_trip<S: ScalarField, G: Group<S>>(
    ct: &ElGamalCiphertext<G>,
) -> (r: ElGamalCiphertext<G>)
    requires
        ct.e1.wf(),
        ct.e2.wf(),
    ensures
        r.e1.wf(),
        r.e1.rep() == ct.e1.rep(),
        r.e2.wf(),
        r.e2.rep() == ct.e2.rep(),
{
    proof {
        ct.e1.wf_bound();
        ct.e2.wf_bound();
    }
    let bytes = elgamal_ciphertext_to_bytes(ct);
    let decoded = elgamal_ciphertext_from_bytes::<S, G>(bytes.as_slice());
    match decoded {
        Ok(c) => c,
        Err(_) => {
            proof {
                assert(false);
            }
            vstd::pervasive::unreached::<ElGamalCiphertext<G>>()
        },
    }
}

/// The raw form of a BLS signature: the compressed signature element.
pub fn bls_signature_to_bytes<P: Pairing>(sig: &BlsSignature<P>) -> (r: Vec<u8>)
    requires
        sig.wf(),
    ensures
        r@ == <P::G2 as Group<P::ScalarType>>::compress_model(sig.rep()),
{
    sig.to_g2_bytes()
}

/// Decodes the raw form of a BLS signature.
pub fn bls_signature_from_bytes<P: Pairing>(bytes: &[u8]) -> (r: Result<
    BlsSignature<P>,
    ZeiError,
>)
    ensures
        forall|n: nat|
            n < crate::bls::spec_order::<P>() && bytes@ == <P::G2 as Group<
                P::ScalarType,
            >>::compress_model(n) ==> (r matches Ok(s) && s.wf() && s.rep() == n),
        r matches Err(e) ==> e == ZeiError::DeserializationError,
{
    match BlsSignature::<P>::from_g2_bytes(bytes) {
        Some(s) => Ok(s),
        None => Err(ZeiError::DeserializationError),
    }
}

/// Law: the raw signature codec round-trips.
pub fn bls_signature_round_trip<P: Pairing>(sig: &BlsSignature<P>) -> (r: BlsSignature<P>)
    requires
        sig.wf(),
    ensures
        r.wf(),
        r.rep() == sig.rep(),
{
    proof {
        sig.wf_bound_sig();
    }
    let bytes = bls_signature_to_bytes(sig);
    let decoded = bls_signature_from_bytes::<P>(bytes.as_slice());
    match decoded {
        Ok(s) => s,
        Err(_) => {
            proof {
                assert(false);
            }
            vstd::pervasive::unreached::<BlsSignature<P>>()
        },
    }
}

impl ElGamalCiphertext<RistrettoElement> {
    /// The raw byte form of a Ristretto ciphertext.
    pub fn zei_to_bytes(&self) -> (r: Vec<u8>)
        requires
            self.e1.wf(),
            self.e2.wf(),
        ensures
            r@ == <RistrettoElement as Group<RistrettoScalar>>::compress_model(self.e1.rep())
                + <RistrettoElement as Group<RistrettoScalar>>::compress_model(self.e2.rep()),
    {
        elgamal_ciphertext_to_bytes(self)
    }

    /// Decodes the raw byte form of a Ristretto ciphertext.
    pub fn zei_from_bytes(bytes: &[u8]) -> (r: Result<Self, ZeiError>)
        ensures
            forall|n1: nat, n2: nat|
                n1 < crate::algebra::ristretto::ristretto_order() && n2
                    < crate::algebra::ristretto::ristretto_order() && (
                #[trigger] <RistrettoElement as Group<RistrettoScalar>>::compress_model(
                    n1,
                )).len() == 32 && (#[trigger] <RistrettoElement as Group<
                    RistrettoScalar,
                >>::compress_model(n2)).len() == 32 && bytes@ == <RistrettoElement as Group<
                    RistrettoScalar,
                >>::compress_model(n1) + <RistrettoElement as Group<
                    RistrettoScalar,
                >>::compress_model(n2) ==> (r matches Ok(ct) && ct.e1.wf() && ct.e1.rep() == n1
                    && ct.e2.wf() && ct.e2.rep() == n2),
            r matches Err(e) ==> e == ZeiError::DeserializationError,
    {
        elgamal_ciphertext_from_bytes::<RistrettoScalar, RistrettoElement>(bytes)
    }
}

} // verus!
