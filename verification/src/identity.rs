//! The joint disclosure proof: a Fiat-Shamir Sigma protocol that links
//! ElGamal ciphertexts of attribute values to an anonymous credential's
//! selective-disclosure proof.
//!
//! The prover commits to a blinding of each encrypted attribute and of
//! each encryption randomness, derives one challenge from all the
//! commitments, and answers with blinded responses. The verifier checks
//! every ciphertext against the responses, and checks that the same
//! responses are consistent with the credential reveal proof through a
//! single pairing equation; the two halves are linked only by the shared
//! challenge and responses, which is what makes the knowledge joint.

use vstd::prelude::*;

verus! {

use crate::algebra::groups::{Group, Pairing, ScalarField, scalar_from_be_bytes_mod_order,
    scalar_sample};
use crate::bls::{spec_concat_compressed, spec_order};
use crate::credentials::{
    count_mono_lemma, sel_mulsum_grow_lemma, spec_compute_challenge, spec_count, spec_scalar_reps,
    spec_sel_mulsum, AttrsRevealProof, IssuerPublicKey,
};
use crate::elgamal::{ElGamalCiphertext, ElGamalEncKey};
use crate::errors::ZeiError;
use crate::hashing::{sha512, sha512_model};
use crate::prng::ChaChaPrng;
use crate::utils::{be_bytes_to_nat, vec_extend};
use vstd::arithmetic::div_mod::lemma_small_mod;

/// A joint proof of knowledge of attribute values that are both
/// ElGamal-encrypted and consistent with a credential reveal proof. All
/// per-position vectors are ordered consistently with the bitmap, one
/// entry per revealed (encrypted) position.
pub struct PoKAttrs<P: Pairing> {
    pub attr_blind_cred_commitment: P::G2,
    pub attr_commitments: Vec<P::G1>,
    pub rand_commitments: Vec<(P::G1, P::G1)>,
    pub attr_responses: Vec<P::ScalarType>,
    pub rand_responses: Vec<P::ScalarType>,
}

impl<P: Pairing> PoKAttrs<P> {
    pub open spec fn wf(&self) -> bool {
        &&& self.attr_blind_cred_commitment.wf()
        &&& forall|i: int|
            0 <= i < self.attr_commitments@.len() ==> (#[trigger] self.attr_commitments@[i]).wf()
        &&& forall|i: int|
            0 <= i < self.rand_commitments@.len() ==> (#[trigger] self.rand_commitments@[i]).0.wf()
                && self.rand_commitments@[i].1.wf()
        &&& forall|i: int|
            0 <= i < self.attr_responses@.len() ==> (#[trigger] self.attr_responses@[i]).rep()
                < spec_order::<P>()
        &&& forall|i: int|
            0 <= i < self.rand_responses@.len() ==> (#[trigger] self.rand_responses@[i]).rep()
                < spec_order::<P>()
    }

    pub open spec fn attr_com_reps(&self) -> Seq<nat> {
        self.attr_commitments@.map_values(|g: P::G1| g.rep())
    }

    pub open spec fn rand_com_reps(&self) -> Seq<(nat, nat)> {
        self.rand_commitments@.map_values(|g: (P::G1, P::G1)| (g.0.rep(), g.1.rep()))
    }

    pub open spec fn attr_resp_reps(&self) -> Seq<nat> {
        spec_scalar_reps(self.attr_responses@)
    }

    pub open spec fn rand_resp_reps(&self) -> Seq<nat> {
        spec_scalar_reps(self.rand_responses@)
    }
}

/// The concatenation of the compressed encodings of commitment pairs.
pub open spec fn spec_concat_pairs<P: Pairing>(reps: Seq<(nat, nat)>) -> Seq<u8>
    decreases reps.len(),
{
    if reps.len() == 0 {
        Seq::<u8>::empty()
    } else {
        spec_concat_pairs::<P>(reps.drop_last()) + <P::G1 as Group<
            P::ScalarType,
        >>::compress_model(reps.last().0) + <P::G1 as Group<P::ScalarType>>::compress_model(
            reps.last().1,
        )
    }
}

/// The Fiat-Shamir challenge of the joint proof: the digest of all
/// commitments' compressed bytes, in position order, folded into the
/// scalar field.
pub open spec fn spec_pok_challenge<P: Pairing>(
    attr_reps: Seq<nat>,
    rand_reps: Seq<(nat, nat)>,
) -> nat {
    be_bytes_to_nat(
        sha512_model(
            spec_concat_compressed::<P>(attr_reps) + spec_concat_pairs::<P>(rand_reps),
        ),
    ) % spec_order::<P>()
}

/// I compute the challenge in a proof of knowledge of identity
/// attributes: the hash of every commitment, in order.
fn pok_attrs_challenge<P: Pairing>(
    attr_coms: &[P::G1],
    rand_coms: &[(P::G1, P::G1)],
) -> (c: P::ScalarType)
    requires
        forall|i: int| 0 <= i < attr_coms@.len() ==> (#[trigger] attr_coms@[i]).wf(),
        forall|i: int|
            0 <= i < rand_coms@.len() ==> (#[trigger] rand_coms@[i]).0.wf()
                && rand_coms@[i].1.wf(),
    ensures
        c.rep() == spec_pok_challenge::<P>(
            attr_coms@.map_values(|g: P::G1| g.rep()),
            rand_coms@.map_values(|g: (P::G1, P::G1)| (g.0.rep(), g.1.rep())),
        ),
        c.rep() < spec_order::<P>(),
{
    let ghost attr_reps = attr_coms@.map_values(|g: P::G1| g.rep());
    let ghost rand_reps = rand_coms@.map_values(|g: (P::G1, P::G1)| (g.0.rep(), g.1.rep()));
    let mut bytes: Vec<u8> = Vec::new();
    proof {
        assert(attr_reps.take(0) =~= Seq::<nat>::empty());
    }
    let mut i: usize = 0;
    while i < attr_coms.len()
        invariant
            i <= attr_coms@.len(),
            attr_reps == attr_coms@.map_values(|g: P::G1| g.rep()),
            forall|j: int| 0 <= j < attr_coms@.len() ==> (#[trigger] attr_coms@[j]).wf(),
            bytes@ == spec_concat_compressed::<P>(attr_reps.take(i as int)),
        decreases attr_coms@.len() - i,
    {
        proof {
            attr_coms@[i as int].wf_bound();
            assert(attr_reps.take(i + 1).drop_last() =~= attr_reps.take(i as int));
        }
        let cb = attr_coms[i].to_compressed_bytes();
        vec_extend(&mut bytes, cb.as_slice());
        i = i + 1;
    }
    proof {
        assert(attr_reps.take(attr_reps.len() as int) =~= attr_reps);
        assert(rand_reps.take(0) =~= Seq::<(nat, nat)>::empty());
    }
    let ghost attr_bytes = bytes@;
    let mut k: usize = 0;
    while k < rand_coms.len()
        invariant
            k <= rand_coms@.len(),
            rand_reps == rand_coms@.map_values(|g: (P::G1, P::G1)| (g.0.rep(), g.1.rep())),
            forall|j: int|
                0 <= j < rand_coms@.len() ==> (#[trigger] rand_coms@[j]).0.wf()
                    && rand_coms@[j].1.wf(),
            bytes@ == attr_bytes + spec_concat_pairs::<P>(rand_reps.take(k as int)),
        decreases rand_coms@.len() - k,
    {
        proof {
            rand_coms@[k as int].0.wf_bound();
            rand_coms@[k as int].1.wf_bound();
            assert(rand_reps.take(k + 1).drop_last() =~= rand_reps.take(k as int));
        }
        let cb0 = rand_coms[k].0.to_compressed_bytes();
        vec_extend(&mut bytes, cb0.as_slice());
        let cb1 = rand_coms[k].1.to_compressed_bytes();
        vec_extend(&mut bytes, cb1.as_slice());
        k = k + 1;
    }
    proof {
        assert(rand_reps.take(rand_reps.len() as int) =~= rand_reps);
    }
    let d = sha512(bytes.as_slice());
    scalar_from_be_bytes_mod_order::<P::ScalarType>(d.as_slice())
}

/// All the relations that an honest joint proof satisfies, given the
/// attribute blindings `battrs` and randomness blindings `brands` that
/// built it, one of each per revealed position.
pub open spec fn spec_pok_rel<P: Pairing>(
    pok: PoKAttrs<P>,
    cred_issuer_pk: IssuerPublicKey<P>,
    asset_issuer_pk_rep: nat,
    attr_reps: Seq<nat>,
    rand_reps: Seq<nat>,
    bitmap: Seq<bool>,
    battrs: Seq<nat>,
    brands: Seq<nat>,
) -> bool {
    let n = spec_order::<P>();
    let count = spec_count(bitmap, true, bitmap.len());
    let c = spec_pok_challenge::<P>(pok.attr_com_reps(), pok.rand_com_reps());
    &&& battrs.len() == count
    &&& brands.len() == count
    &&& forall|j: int| 0 <= j < count ==> #[trigger] battrs[j] < n
    &&& forall|j: int| 0 <= j < count ==> #[trigger] brands[j] < n
    &&& pok.attr_commitments@.len() == count
    &&& pok.rand_commitments@.len() == count
    &&& pok.attr_responses@.len() == count
    &&& pok.rand_responses@.len() == count
    &&& forall|j: int| 0 <= j < count ==> #[trigger] pok.attr_com_reps()[j] == battrs[j]
    &&& pok.attr_blind_cred_commitment.rep() == spec_sel_mulsum(
        0,
        cred_issuer_pk.yy2_reps(),
        bitmap,
        true,
        battrs,
        bitmap.len(),
        n,
    )
    &&& forall|j: int| 0 <= j < count ==> (#[trigger] pok.rand_com_reps()[j]).0 == brands[j]
    &&& forall|j: int|
        0 <= j < count ==> (#[trigger] pok.rand_com_reps()[j]).1 == (asset_issuer_pk_rep
            * brands[j]) % n
    &&& forall|j: int|
        0 <= j < count ==> #[trigger] pok.attr_resp_reps()[j] == ((attr_reps[j] * c) % n
            + battrs[j]) % n
    &&& forall|j: int|
        0 <= j < count ==> #[trigger] pok.rand_resp_reps()[j] == ((rand_reps[j] * c) % n
            + brands[j]) % n
}

/// What an honestly produced joint proof satisfies: well-formedness,
/// and the proof relations for some choice of blindings.
pub open spec fn spec_pok_prove_ok<P: Pairing>(
    pok: PoKAttrs<P>,
    cred_issuer_pk: IssuerPublicKey<P>,
    asset_issuer_pk_rep: nat,
    attr_reps: Seq<nat>,
    rand_reps: Seq<nat>,
    bitmap: Seq<bool>,
) -> bool {
    &&& pok.wf()
    &&& exists|battrs: Seq<nat>, brands: Seq<nat>|
        spec_pok_rel::<P>(
            pok,
            cred_issuer_pk,
            asset_issuer_pk_rep,
            attr_reps,
            rand_reps,
            bitmap,
            battrs,
            brands,
        )
}

/// I compute a proof of knowledge of identity attributes to be verified
/// against ciphertexts of these and an anonymous credential proof. The
/// attributes and encryption randomness are supplied one per bitmap-true
/// position; a count mismatch is a parameter error.
#[verifier::rlimit(60)]
pub fn pok_attrs_prove<P: Pairing>(
    prng: &mut ChaChaPrng,
    attrs: &[P::ScalarType],
    cred_issuer_pk: &IssuerPublicKey<P>,
    asset_issuer_pk: &ElGamalEncKey<P::G1>,
    ctexts_rand: &[P::ScalarType],
    bitmap: &[bool],
) -> (res: Result<PoKAttrs<P>, ZeiError>)
    requires
        cred_issuer_pk.wf(),
        asset_issuer_pk.0.wf(),
        bitmap@.len() == cred_issuer_pk.yy2@.len(),
        forall|i: int| 0 <= i < attrs@.len() ==> (#[trigger] attrs@[i]).rep() < spec_order::<P>(),
        forall|i: int|
            0 <= i < ctexts_rand@.len() ==> (#[trigger] ctexts_rand@[i]).rep()
                < spec_order::<P>(),
    ensures
        res is Ok <==> attrs@.len() == spec_count(bitmap@, true, bitmap@.len())
            && ctexts_rand@.len() == spec_count(bitmap@, true, bitmap@.len()),
        res matches Err(e) ==> e == ZeiError::ParameterError,
        res matches Ok(pok) ==> spec_pok_prove_ok::<P>(
            pok,
            *cred_issuer_pk,
            asset_issuer_pk.0.rep(),
            spec_scalar_reps(attrs@),
            spec_scalar_reps(ctexts_rand@),
            bitmap@,
        ),
{
    proof {
        <P::ScalarType as ScalarField>::order_facts();
    }
    let n_attrs = bitmap.len();
    let count = count_bits(bitmap, true);
    if attrs.len() != count || ctexts_rand.len() != count {
        return Err(ZeiError::ParameterError);
    }
    let base = <P::G1 as Group<P::ScalarType>>::get_base();
    let mut attr_commitments: Vec<P::G1> = Vec::new();
    let mut rand_commitments: Vec<(P::G1, P::G1)> = Vec::new();
    let mut attr_blind: Vec<P::ScalarType> = Vec::new();
    let mut rand_blind: Vec<P::ScalarType> = Vec::new();
    let mut attr_blind_cred_commitment = <P::G2 as Group<P::ScalarType>>::get_identity();
    let mut i: usize = 0;
    while i < n_attrs
        invariant
            n_attrs == bitmap@.len(),
            i <= bitmap@.len(),
            bitmap@.len() == cred_issuer_pk.yy2@.len(),
            cred_issuer_pk.wf(),
            asset_issuer_pk.0.wf(),
            base.wf(),
            base.rep() == 1,
            spec_order::<P>() > 1,
            attr_blind_cred_commitment.wf(),
            attr_blind@.len() == spec_count(bitmap@, true, i as nat),
            rand_blind@.len() == spec_count(bitmap@, true, i as nat),
            attr_commitments@.len() == spec_count(bitmap@, true, i as nat),
            rand_commitments@.len() == spec_count(bitmap@, true, i as nat),
            forall|j: int|
                0 <= j < attr_blind@.len() ==> (#[trigger] attr_blind@[j]).rep()
                    < spec_order::<P>(),
            forall|j: int|
                0 <= j < rand_blind@.len() ==> (#[trigger] rand_blind@[j]).rep()
                    < spec_order::<P>(),
            forall|j: int|
                0 <= j < attr_commitments@.len() ==> (#[trigger] attr_commitments@[j]).wf(),
            forall|j: int|
                0 <= j < rand_commitments@.len() ==> (#[trigger] rand_commitments@[j]).0.wf()
                    && rand_commitments@[j].1.wf(),
            forall|j: int|
                0 <= j < attr_commitments@.len() ==> (#[trigger] attr_commitments@[j]).rep()
                    == attr_blind@[j].rep(),
            forall|j: int|
                0 <= j < rand_commitments@.len() ==> (#[trigger] rand_commitments@[j]).0.rep()
                    == rand_blind@[j].rep(),
            forall|j: int|
                0 <= j < rand_commitments@.len() ==> (#[trigger] rand_commitments@[j]).1.rep()
                    == (asset_issuer_pk.0.rep() * rand_blind@[j].rep()) % spec_order::<P>(),
            attr_blind_cred_commitment.rep() == spec_sel_mulsum(
                0,
                cred_issuer_pk.yy2_reps(),
                bitmap@,
                true,
                spec_scalar_reps(attr_blind@),
                i as nat,
                spec_order::<P>(),
            ),
        decreases bitmap@.len() - i,
    {
        if bitmap[i] {
            let r: P::ScalarType = scalar_sample::<P::ScalarType>(prng);
            proof {
                assert(spec_scalar_reps(attr_blind@.push(r)).drop_last() =~= spec_scalar_reps(
                    attr_blind@,
                ));
                lemma_small_mod(r.rep(), spec_order::<P>());
            }
            let com_y2i = cred_issuer_pk.yy2[i].mul(&r);
            let com_g = base.mul(&r);
            attr_blind_cred_commitment = attr_blind_cred_commitment.add(&com_y2i);
            attr_blind.push(r);
            attr_commitments.push(com_g);
            proof {
                assert(spec_scalar_reps(attr_blind@)[spec_count(bitmap@, true, i as nat) as int]
                    == r.rep());
            }
            let r2: P::ScalarType = scalar_sample::<P::ScalarType>(prng);
            proof {
                lemma_small_mod(r2.rep(), spec_order::<P>());
            }
            let com_g2 = base.mul(&r2);
            let com_pk = asset_issuer_pk.0.mul(&r2);
            rand_blind.push(r2);
            rand_commitments.push((com_g2, com_pk));
        }
        proof {
            sel_mulsum_grow_lemma::<P>(
                0,
                cred_issuer_pk.yy2_reps(),
                bitmap@,
                true,
                spec_scalar_reps(attr_blind@),
                i as nat,
            );
        }
        i = i + 1;
    }
    let c = pok_attrs_challenge::<P>(attr_commitments.as_slice(), rand_commitments.as_slice());
    let mut attr_responses: Vec<P::ScalarType> = Vec::new();
    let mut j: usize = 0;
    while j < count
        invariant
            j <= count,
            count == attr_blind@.len(),
            attrs@.len() == count,
            c.rep() < spec_order::<P>(),
            forall|j2: int|
                0 <= j2 < attrs@.len() ==> (#[trigger] attrs@[j2]).rep() < spec_order::<P>(),
            forall|j2: int|
                0 <= j2 < attr_blind@.len() ==> (#[trigger] attr_blind@[j2]).rep()
                    < spec_order::<P>(),
            attr_responses@.len() == j,
            forall|j2: int|
                0 <= j2 < j ==> (#[trigger] attr_responses@[j2]).rep() == ((attrs@[j2].rep()
                    * c.rep()) % spec_order::<P>() + attr_blind@[j2].rep()) % spec_order::<P>(),
        decreases count - j,
    {
        attr_responses.push(attrs[j].mul(&c).add(&attr_blind[j]));
        j = j + 1;
    }
    let mut rand_responses: Vec<P::ScalarType> = Vec::new();
    let mut j2: usize = 0;
    while j2 < count
        invariant
            j2 <= count,
            count == rand_blind@.len(),
            ctexts_rand@.len() == count,
            c.rep() < spec_order::<P>(),
            forall|j3: int|
                0 <= j3 < ctexts_rand@.len() ==> (#[trigger] ctexts_rand@[j3]).rep()
                    < spec_order::<P>(),
            forall|j3: int|
                0 <= j3 < rand_blind@.len() ==> (#[trigger] rand_blind@[j3]).rep()
                    < spec_order::<P>(),
            rand_responses@.len() == j2,
            forall|j3: int|
                0 <= j3 < j2 ==> (#[trigger] rand_responses@[j3]).rep() == ((
                ctexts_rand@[j3].rep() * c.rep()) % spec_order::<P>() + rand_blind@[j3].rep())
                    % spec_order::<P>(),
        decreases count - j2,
    {
        rand_responses.push(ctexts_rand[j2].mul(&c).add(&rand_blind[j2]));
        j2 = j2 + 1;
    }
    let pok = PoKAttrs::<P> {
        attr_blind_cred_commitment,
        attr_commitments,
        rand_commitments,
        attr_responses,
        rand_responses,
    };
    proof {
        assert(pok.wf());
        let ghost battrs = spec_scalar_reps(attr_blind@);
        let ghost brands = spec_scalar_reps(rand_blind@);
        assert(spec_pok_rel::<P>(
            pok,
            *cred_issuer_pk,
            asset_issuer_pk.0.rep(),
            spec_scalar_reps(attrs@),
            spec_scalar_reps(ctexts_rand@),
            bitmap@,
            battrs,
            brands,
        ));
        assert(spec_pok_prove_ok::<P>(
            pok,
            *cred_issuer_pk,
            asset_issuer_pk.0.rep(),
            spec_scalar_reps(attrs@),
            spec_scalar_reps(ctexts_rand@),
            bitmap@,
        ));
    }
    Ok(pok)
}

/// Counts the bitmap entries equal to `sel`.
pub fn count_bits(bitmap: &[bool], sel: bool) -> (r: usize)
    ensures
        r == spec_count(bitmap@, sel, bitmap@.len()),
{
    let mut r: usize = 0;
    let mut i: usize = 0;
    while i < bitmap.len()
        invariant
            i <= bitmap@.len(),
            r <= i,
            r == spec_count(bitmap@, sel, i as nat),
        decreases bitmap@.len() - i,
    {
        if bitmap[i] == sel {
            r = r + 1;
        }
        i = i + 1;
    }
    r
}

/// A selected count never exceeds the prefix length.
pub proof fn count_le_len_lemma(bitmap: Seq<bool>, sel: bool, k: nat)
    requires
        k <= bitmap.len(),
    ensures
        spec_count(bitmap, sel, k) <= k,
    decreases k,
{
    if k > 0 {
        count_le_len_lemma(bitmap, sel, (k - 1) as nat);
    }
}

/// The first ciphertext check of the joint proof at one position:
/// `e1·c + rand_commitment.0 == base·rand_response`.
pub open spec fn spec_ct_eq1<P: Pairing>(e1: nat, c: nat, rcg: nat, rr: nat) -> bool {
    let n = spec_order::<P>();
    ((e1 * c) % n + rcg) % n == (1 * rr) % n
}

/// The second ciphertext check of the joint proof at one position:
/// `e2·c + rand_commitment.1 + attr_commitment ==
///  base·attr_response + pk·rand_response`.
pub open spec fn spec_ct_eq2<P: Pairing>(
    e2: nat,
    c: nat,
    rcp: nat,
    ac: nat,
    pk: nat,
    ar: nat,
    rr: nat,
) -> bool {
    let n = spec_order::<P>();
    (((e2 * c) % n + rcp) % n + ac) % n == ((1 * ar) % n + (pk * rr) % n) % n
}

/// Both ciphertext checks of the joint proof at position `i`.
pub open spec fn spec_ct_ok_at<P: Pairing>(
    c: nat,
    ctexts: Seq<ElGamalCiphertext<<P as Pairing>::G1>>,
    pok: PoKAttrs<P>,
    pk_rep: nat,
    i: int,
) -> bool {
    spec_ct_eq1::<P>(
        ctexts[i].e1.rep(),
        c,
        pok.rand_com_reps()[i].0,
        pok.rand_resp_reps()[i],
    ) && spec_ct_eq2::<P>(
        ctexts[i].e2.rep(),
        c,
        pok.rand_com_reps()[i].1,
        pok.attr_com_reps()[i],
        pk_rep,
        pok.attr_resp_reps()[i],
        pok.rand_resp_reps()[i],
    )
}

/// All ciphertext checks of the joint proof.
pub open spec fn spec_ciphertexts_ok<P: Pairing>(
    c: nat,
    ctexts: Seq<ElGamalCiphertext<<P as Pairing>::G1>>,
    pok: PoKAttrs<P>,
    pk_rep: nat,
) -> bool {
    forall|i: int|
        0 <= i < ctexts.len() ==> #[trigger] spec_ct_ok_at::<P>(c, ctexts, pok, pk_rep, i)
}

pub open spec fn spec_cts_wf<P: Pairing>(
    ctexts: Seq<ElGamalCiphertext<<P as Pairing>::G1>>,
) -> bool {
    forall|i: int|
        0 <= i < ctexts.len() ==> (#[trigger] ctexts[i]).e1.wf() && ctexts[i].e2.wf()
}

/// I verify a proof of knowledge of a set of ElGamal encrypted messages:
/// each ciphertext must satisfy both response equations under the shared
/// challenge.
#[verifier::rlimit(60)]
pub fn verify_ciphertext<P: Pairing>(
    challenge: &P::ScalarType,
    ctexts: &[ElGamalCiphertext<<P as Pairing>::G1>],
    pok_attrs: &PoKAttrs<P>,
    asset_issuer_public_key: &ElGamalEncKey<<P as Pairing>::G1>,
) -> (res: Result<(), ZeiError>)
    requires
        challenge.rep() < spec_order::<P>(),
        pok_attrs.wf(),
        asset_issuer_public_key.0.wf(),
        spec_cts_wf::<P>(ctexts@),
        ctexts@.len() == pok_attrs.attr_commitments@.len(),
        ctexts@.len() == pok_attrs.rand_commitments@.len(),
        ctexts@.len() == pok_attrs.attr_responses@.len(),
        ctexts@.len() == pok_attrs.rand_responses@.len(),
    ensures
        res is Ok <==> spec_ciphertexts_ok::<P>(
            challenge.rep(),
            ctexts@,
            *pok_attrs,
            asset_issuer_public_key.0.rep(),
        ),
        res matches Err(e) ==> e == ZeiError::IdentityRevealVerificationError,
{
    let base = <P::G1 as Group<P::ScalarType>>::get_base();
    let mut i: usize = 0;
    while i < ctexts.len()
        invariant
            i <= ctexts@.len(),
            challenge.rep() < spec_order::<P>(),
            pok_attrs.wf(),
            asset_issuer_public_key.0.wf(),
            base.wf(),
            base.rep() == 1,
            spec_cts_wf::<P>(ctexts@),
            ctexts@.len() == pok_attrs.attr_commitments@.len(),
            ctexts@.len() == pok_attrs.rand_commitments@.len(),
            ctexts@.len() == pok_attrs.attr_responses@.len(),
            ctexts@.len() == pok_attrs.rand_responses@.len(),
            forall|i2: int|
                0 <= i2 < i ==> #[trigger] spec_ct_ok_at::<P>(
                    challenge.rep(),
                    ctexts@,
                    *pok_attrs,
                    asset_issuer_public_key.0.rep(),
                    i2,
                ),
        decreases ctexts@.len() - i,
    {
        let e1 = &ctexts[i].e1;
        let e2 = &ctexts[i].e2;
        let rand_com_g = &pok_attrs.rand_commitments[i].0;
        let rand_com_pk = &pok_attrs.rand_commitments[i].1;
        let attr_com = &pok_attrs.attr_commitments[i];
        let rand_response = &pok_attrs.rand_responses[i];
        let attr_response = &pok_attrs.attr_responses[i];
        let verify_e1 = e1.mul(challenge).add(rand_com_g).eq_elem(
            &base.mul(rand_response),
        );
        let verify_e2 = e2.mul(challenge).add(rand_com_pk).add(attr_com).eq_elem(
            &base.mul(attr_response).add(&asset_issuer_public_key.0.mul(rand_response)),
        );
        proof {
            assert(pok_attrs.rand_com_reps()[i as int] == (
                pok_attrs.rand_commitments@[i as int].0.rep(),
                pok_attrs.rand_commitments@[i as int].1.rep(),
            ));
            assert(pok_attrs.attr_com_reps()[i as int] == pok_attrs.attr_commitments@[
                i as int
            ].rep());
            assert(pok_attrs.attr_resp_reps()[i as int] == pok_attrs.attr_responses@[
                i as int
            ].rep());
            assert(pok_attrs.rand_resp_reps()[i as int] == pok_attrs.rand_responses@[
                i as int
            ].rep());
        }
        if !(verify_e1 && verify_e2) {
            proof {
                assert(!spec_ct_ok_at::<P>(
                    challenge.rep(),
                    ctexts@,
                    *pok_attrs,
                    asset_issuer_public_key.0.rep(),
                    i as int,
                ));
                assert(!spec_ciphertexts_ok::<P>(
                    challenge.rep(),
                    ctexts@,
                    *pok_attrs,
                    asset_issuer_public_key.0.rep(),
                ));
            }
            return Err(ZeiError::IdentityRevealVerificationError);
        }
        proof {
            assert(spec_ct_ok_at::<P>(
                challenge.rep(),
                ctexts@,
                *pok_attrs,
                asset_issuer_public_key.0.rep(),
                i as int,
            ));
        }
        i = i + 1;
    }
    proof {
        assert(spec_ciphertexts_ok::<P>(
            challenge.rep(),
            ctexts@,
            *pok_attrs,
            asset_issuer_public_key.0.rep(),
        ));
    }
    Ok(())
}

/// The G2 accumulator of the credential-linking check: the issuer key
/// element scaled by the credential challenge, minus the reveal
/// commitment, plus the generator and key elements scaled by the
/// responses, plus the hidden positions' elements scaled by their
/// responses.
pub open spec fn spec_constant_terms<P: Pairing>(
    cc: nat,
    reveal_proof: AttrsRevealProof<P>,
    ipk: IssuerPublicKey<P>,
    bitmap: Seq<bool>,
) -> nat {
    let n = spec_order::<P>();
    let q0 = (ipk.xx2.rep() * cc) % n;
    let q1 = ((q0 + n - reveal_proof.pok.commitment.rep()) % (n as int)) as nat;
    let q2 = (q1 + (ipk.gen2.rep() * reveal_proof.pok.response_t.rep()) % n) % n;
    let q3 = (q2 + (ipk.zz2.rep() * reveal_proof.pok.response_sk.rep()) % n) % n;
    spec_sel_mulsum(
        q3,
        ipk.yy2_reps(),
        bitmap,
        false,
        reveal_proof.pok.response_attr_reps(),
        bitmap.len(),
        n,
    )
}

/// I accumulate the constant terms of the credential-linking check.
pub fn constant_terms_addition<P: Pairing>(
    challenge: &P::ScalarType,
    reveal_proof: &AttrsRevealProof<P>,
    cred_issuer_public_key: &IssuerPublicKey<P>,
    bitmap: &[bool],
) -> (r: P::G2)
    requires
        challenge.rep() < spec_order::<P>(),
        reveal_proof.wf(),
        cred_issuer_public_key.wf(),
        bitmap@.len() == cred_issuer_public_key.yy2@.len(),
        reveal_proof.pok.response_attrs@.len() == spec_count(bitmap@, false, bitmap@.len()),
    ensures
        r.wf(),
        r.rep() == spec_constant_terms::<P>(
            challenge.rep(),
            *reveal_proof,
            *cred_issuer_public_key,
            bitmap@,
        ),
{
    proof {
        <P::ScalarType as ScalarField>::order_facts();
    }
    let mut q = cred_issuer_public_key.xx2.mul(challenge).sub(&reveal_proof.pok.commitment);
    q = q.add(&cred_issuer_public_key.gen2.mul(&reveal_proof.pok.response_t));
    q = q.add(&cred_issuer_public_key.zz2.mul(&reveal_proof.pok.response_sk));
    let ghost q3 = q.rep();
    let n_attrs = bitmap.len();
    let mut i: usize = 0;
    while i < n_attrs
        invariant
            n_attrs == bitmap@.len(),
            i <= bitmap@.len(),
            bitmap@.len() == cred_issuer_public_key.yy2@.len(),
            cred_issuer_public_key.wf(),
            reveal_proof.wf(),
            reveal_proof.pok.response_attrs@.len() == spec_count(
                bitmap@,
                false,
                bitmap@.len(),
            ),
            q.wf(),
            q.rep() == spec_sel_mulsum(
                q3,
                cred_issuer_public_key.yy2_reps(),
                bitmap@,
                false,
                reveal_proof.pok.response_attr_reps(),
                i as nat,
                spec_order::<P>(),
            ),
        decreases bitmap@.len() - i,
    {
        proof {
            count_mono_lemma(bitmap@, false, (i + 1) as nat, bitmap@.len());
        }
        if !bitmap[i] {
            let idx = count_bits_prefix(bitmap, false, i);
            let response = &reveal_proof.pok.response_attrs[idx];
            q = q.add(&cred_issuer_public_key.yy2[i].mul(response));
        }
        i = i + 1;
    }
    q
}

/// Counts the bitmap entries equal to `sel` among the first `upto`.
pub fn count_bits_prefix(bitmap: &[bool], sel: bool, upto: usize) -> (r: usize)
    requires
        upto <= bitmap@.len(),
    ensures
        r == spec_count(bitmap@, sel, upto as nat),
{
    let mut r: usize = 0;
    let mut i: usize = 0;
    while i < upto
        invariant
            i <= upto <= bitmap@.len(),
            r == spec_count(bitmap@, sel, i as nat),
        decreases upto - i,
    {
        proof {
            count_le_len_lemma(bitmap@, sel, i as nat);
        }
        if bitmap[i] == sel {
            r = r + 1;
        }
        i = i + 1;
    }
    r
}

/// The credential-linking pairing check of the joint proof.
pub open spec fn spec_credential_ok<P: Pairing>(
    c: nat,
    reveal_proof: AttrsRevealProof<P>,
    pok: PoKAttrs<P>,
    ipk: IssuerPublicKey<P>,
    bitmap: Seq<bool>,
) -> bool {
    let n = spec_order::<P>();
    let cc = spec_compute_challenge::<P>(reveal_proof.pok.commitment.rep());
    let q = spec_constant_terms::<P>(cc, reveal_proof, ipk, bitmap);
    let rhs_constant = (ipk.gen2.rep() * cc) % n;
    let lhs_constant = (q * c) % n;
    let rev_sum = spec_sel_mulsum(
        0,
        ipk.yy2_reps(),
        bitmap,
        true,
        pok.attr_resp_reps(),
        bitmap.len(),
        n,
    );
    let b1 = ((rev_sum + n - pok.attr_blind_cred_commitment.rep()) % (n as int)) as nat;
    let b2 = (b1 * cc) % n;
    let lhs = (lhs_constant + b2) % n;
    let rhs = (rhs_constant * c) % n;
    (reveal_proof.sig.sigma1.rep() * lhs) % n == (reveal_proof.sig.sigma2.rep() * rhs) % n
}

/// I verify a proof of knowledge of a set of identity attributes that
/// verify an identity credential proof: one pairing equation links the
/// joint proof's responses to the credential reveal proof.
pub fn verify_credential<P: Pairing>(
    challenge: &P::ScalarType,
    reveal_proof: &AttrsRevealProof<P>,
    pok_attrs: &PoKAttrs<P>,
    cred_issuer_public_key: &IssuerPublicKey<P>,
    bitmap: &[bool],
) -> (res: Result<(), ZeiError>)
    requires
        challenge.rep() < spec_order::<P>(),
        reveal_proof.wf(),
        pok_attrs.wf(),
        cred_issuer_public_key.wf(),
        bitmap@.len() == cred_issuer_public_key.yy2@.len(),
        reveal_proof.pok.response_attrs@.len() == spec_count(bitmap@, false, bitmap@.len()),
        pok_attrs.attr_responses@.len() == spec_count(bitmap@, true, bitmap@.len()),
    ensures
        res is Ok <==> spec_credential_ok::<P>(
            challenge.rep(),
            *reveal_proof,
            *pok_attrs,
            *cred_issuer_public_key,
            bitmap@,
        ),
        res matches Err(e) ==> e == ZeiError::IdentityRevealVerificationError,
{
    proof {
        <P::ScalarType as ScalarField>::order_facts();
    }
    let cred_challenge = crate::credentials::compute_challenge::<P>(
        &reveal_proof.pok.commitment,
    );
    let cred_lhs_constant = constant_terms_addition::<P>(
        &cred_challenge,
        reveal_proof,
        cred_issuer_public_key,
        bitmap,
    );
    let cred_rhs_constant = cred_issuer_public_key.gen2.mul(&cred_challenge);
    let lhs_constant = cred_lhs_constant.mul(challenge);
    let mut blinded_attr_sum = <P::G2 as Group<P::ScalarType>>::get_identity();
    let n_attrs = bitmap.len();
    let mut i: usize = 0;
    while i < n_attrs
        invariant
            n_attrs == bitmap@.len(),
            i <= bitmap@.len(),
            bitmap@.len() == cred_issuer_public_key.yy2@.len(),
            cred_issuer_public_key.wf(),
            pok_attrs.wf(),
            pok_attrs.attr_responses@.len() == spec_count(bitmap@, true, bitmap@.len()),
            blinded_attr_sum.wf(),
            blinded_attr_sum.rep() == spec_sel_mulsum(
                0,
                cred_issuer_public_key.yy2_reps(),
                bitmap@,
                true,
                pok_attrs.attr_resp_reps(),
                i as nat,
                spec_order::<P>(),
            ),
        decreases bitmap@.len() - i,
    {
        proof {
            count_mono_lemma(bitmap@, true, (i + 1) as nat, bitmap@.len());
        }
        if bitmap[i] {
            let idx = count_bits_prefix(bitmap, true, i);
            let response = &pok_attrs.attr_responses[idx];
            blinded_attr_sum = blinded_attr_sum.add(
                &cred_issuer_public_key.yy2[i].mul(response),
            );
        }
        i = i + 1;
    }
    let blinded_attr_sum2 = blinded_attr_sum.sub(&pok_attrs.attr_blind_cred_commitment);
    let blinded_attr_sum3 = blinded_attr_sum2.mul(&cred_challenge);
    let lhs = lhs_constant.add(&blinded_attr_sum3);
    let rhs = cred_rhs_constant.mul(challenge);
    let a = P::pairing(&reveal_proof.sig.sigma1, &lhs);
    let b = P::pairing(&reveal_proof.sig.sigma2, &rhs);
    if a.eq_elem(&b) {
        Ok(())
    } else {
        Err(ZeiError::IdentityRevealVerificationError)
    }
}

/// Law: at any single position, an honestly built ciphertext and honest
/// commitments and responses satisfy both ciphertext checks of the
/// verifier — an encryption of attribute `a` with randomness `r` under
/// key `k`, blinded by `battr` and `brand`, passes for every challenge.
pub proof fn lemma_ciphertext_check_complete<P: Pairing>(
    a: nat,
    r: nat,
    k: nat,
    battr: nat,
    brand: nat,
    c: nat,
)
    requires
        a < spec_order::<P>(),
        r < spec_order::<P>(),
        k < spec_order::<P>(),
        battr < spec_order::<P>(),
        brand < spec_order::<P>(),
        c < spec_order::<P>(),
        spec_order::<P>() > 1,
    ensures
        spec_ct_eq1::<P>(
            (1 * r) % spec_order::<P>(),
            c,
            brand,
            ((r * c) % spec_order::<P>() + brand) % spec_order::<P>(),
        ),
        spec_ct_eq2::<P>(
            (1 * a + k * r) % spec_order::<P>(),
            c,
            (k * brand) % spec_order::<P>(),
            battr,
            k,
            ((a * c) % spec_order::<P>() + battr) % spec_order::<P>(),
            ((r * c) % spec_order::<P>() + brand) % spec_order::<P>(),
        ),
{
    let n = spec_order::<P>() as int;
    let aa = a as int;
    let rr = r as int;
    let kk = k as int;
    let ba = battr as int;
    let br = brand as int;
    let cc = c as int;
    lemma_small_mod(r, n as nat);
    lemma_small_mod(a, n as nat);
    // The first check: both sides reduce to (r·c + brand) % n.
    let resp_r = ((rr * cc) % n + br) % n;
    lemma_small_mod(resp_r as nat, n as nat);
    vstd::arithmetic::div_mod::lemma_add_mod_noop(rr * cc, br, n);
    vstd::arithmetic::div_mod::lemma_small_mod(br as nat, n as nat);
    vstd::arithmetic::div_mod::lemma_mul_mod_noop_left(rr, cc, n);
    assert(((((1 * rr) % n) * cc) % n + br) % n == (rr * cc + br) % n);
    assert((1 * resp_r) % n == resp_r);
    assert(resp_r == (rr * cc + br) % n);
    // The second check: both sides reduce to
    // (a·c + k·r·c + k·brand + battr) % n.
    let e2 = (1 * aa + kk * rr) % n;
    let resp_a = ((aa * cc) % n + ba) % n;
    let x = aa * cc + kk * rr * cc;
    let q = aa * cc + kk * rr * cc + kk * br + ba;
    lemma_small_mod(battr, n as nat);
    lemma_small_mod(brand, n as nat);
    assert((((e2 * cc) % n + (kk * br) % n) % n + ba) % n == q % n) by {
        vstd::arithmetic::div_mod::lemma_mul_mod_noop_left(aa + kk * rr, cc, n);
        vstd::arithmetic::mul::lemma_mul_is_distributive_add_other_way(cc, aa, kk * rr);
        vstd::arithmetic::mul::lemma_mul_is_associative(kk, rr, cc);
        assert((e2 * cc) % n == x % n);
        vstd::arithmetic::div_mod::lemma_add_mod_noop(x, kk * br, n);
        assert(((e2 * cc) % n + (kk * br) % n) % n == (x + kk * br) % n);
        vstd::arithmetic::div_mod::lemma_add_mod_noop(x + kk * br, ba, n);
        assert(((x + kk * br) % n + ba) % n == q % n);
    }
    assert(((1 * resp_a) % n + (kk * resp_r) % n) % n == q % n) by {
        lemma_small_mod(resp_a as nat, n as nat);
        assert(resp_a == (aa * cc + ba) % n) by {
            vstd::arithmetic::div_mod::lemma_add_mod_noop(aa * cc, ba, n);
        }
        assert((kk * resp_r) % n == (kk * rr * cc + kk * br) % n) by {
            vstd::arithmetic::div_mod::lemma_mul_mod_noop_right(kk, rr * cc + br, n);
            vstd::arithmetic::mul::lemma_mul_is_distributive_add(kk, rr * cc, br);
            vstd::arithmetic::mul::lemma_mul_is_associative(kk, rr, cc);
        }
        vstd::arithmetic::div_mod::lemma_add_mod_noop(aa * cc + ba, kk * rr * cc + kk * br, n);
        assert(aa * cc + ba + (kk * rr * cc + kk * br) == q);
    }
}

/// Congruent factors have congruent products.
proof fn lemma_cong_mul(a1: int, a2: int, b1: int, b2: int, n: int)
    requires
        n > 0,
        a1 % n == b1 % n,
        a2 % n == b2 % n,
    ensures
        (a1 * a2) % n == (b1 * b2) % n,
{
    vstd::arithmetic::div_mod::lemma_mul_mod_noop_general(a1, a2, n);
    vstd::arithmetic::div_mod::lemma_mul_mod_noop_general(b1, b2, n);
}

/// Congruent terms have congruent sums.
proof fn lemma_cong_add(a1: int, a2: int, b1: int, b2: int, n: int)
    requires
        n > 0,
        a1 % n == b1 % n,
        a2 % n == b2 % n,
    ensures
        (a1 + a2) % n == (b1 + b2) % n,
{
    vstd::arithmetic::div_mod::lemma_add_mod_noop(a1, a2, n);
    vstd::arithmetic::div_mod::lemma_add_mod_noop(b1, b2, n);
}

/// Congruent terms have congruent differences.
proof fn lemma_cong_sub(a1: int, a2: int, b1: int, b2: int, n: int)
    requires
        n > 0,
        a1 % n == b1 % n,
        a2 % n == b2 % n,
    ensures
        (a1 - a2) % n == (b1 - b2) % n,
{
    vstd::arithmetic::div_mod::lemma_sub_mod_noop(a1, a2, n);
    vstd::arithmetic::div_mod::lemma_sub_mod_noop(b1, b2, n);
}

/// Law: the credential-linking pairing equation balances for an honest
/// prover. Over residues modulo the order `n`, with a credential on the
/// full attribute dot-products `dh` (hidden) and `dr` (revealed), honest
/// reveal responses, and joint-proof responses whose bitmap-selected
/// sums distribute as `rh = cc·dh + bh` and `rtr = c·dr + btr`, the two
/// pairing arguments carry equal discrete logarithms, so the verifier's
/// final check accepts.
pub proof fn lemma_credential_equation_balances(
    n: int,
    x: int,
    z: int,
    sk: int,
    t: int,
    s1: int,
    r2: int,
    c: int,
    cc: int,
    bt: int,
    bsk: int,
    bh: int,
    btr: int,
    dh: int,
    dr: int,
    upk: int,
    s2: int,
    sp1: int,
    sp2: int,
    com: int,
    rt: int,
    rsk: int,
    rh: int,
    rtr: int,
    qq: int,
    lhs: int,
    rhs: int,
)
    requires
        n > 1,
        upk % n == (z * sk) % n,
        s2 % n == (s1 * x + s1 * (dh + dr) + upk * s1) % n,
        sp1 % n == (s1 * r2) % n,
        sp2 % n == ((s2 + s1 * t) * r2) % n,
        com % n == (bt + z * bsk + bh) % n,
        rt % n == (t * cc + bt) % n,
        rsk % n == (sk * cc + bsk) % n,
        rh % n == (cc * dh + bh) % n,
        rtr % n == (c * dr + btr) % n,
        qq % n == (x * cc - com + rt + z * rsk + rh) % n,
        lhs % n == (qq * c + cc * (rtr - btr)) % n,
        rhs % n == (cc * c) % n,
    ensures
        (sp1 * lhs) % n == (sp2 * rhs) % n,
{
    let k = x + t + z * sk + dh + dr;
    // The constant accumulator collapses: the blinding terms cancel and
    // qq ≡ cc·(x + t + z·sk + dh).
    assert((z * rsk) % n == (z * (sk * cc + bsk)) % n) by {
        lemma_cong_mul(z, rsk, z, sk * cc + bsk, n);
    }
    let a0 = x * cc - com;
    let b0 = x * cc - (bt + z * bsk + bh);
    assert(a0 % n == b0 % n) by {
        lemma_cong_sub(x * cc, com, x * cc, bt + z * bsk + bh, n);
    }
    let a1 = a0 + rt;
    let b1 = b0 + (t * cc + bt);
    assert(a1 % n == b1 % n) by {
        lemma_cong_add(a0, rt, b0, t * cc + bt, n);
    }
    let a2 = a1 + z * rsk;
    let b2 = b1 + z * (sk * cc + bsk);
    assert(a2 % n == b2 % n) by {
        lemma_cong_add(a1, z * rsk, b1, z * (sk * cc + bsk), n);
    }
    let a3 = a2 + rh;
    let b3 = b2 + (cc * dh + bh);
    assert(a3 % n == b3 % n) by {
        lemma_cong_add(a2, rh, b2, cc * dh + bh, n);
    }
    assert(x * cc - (bt + z * bsk + bh) + (t * cc + bt) + z * (sk * cc + bsk) + (cc * dh
        + bh) == cc * (x + t + z * sk + dh)) by (nonlinear_arith);
    assert(b3 == cc * (x + t + z * sk + dh));
    assert(qq % n == (cc * (x + t + z * sk + dh)) % n);
    // The revealed response sum collapses: rtr - btr ≡ c·dr.
    assert((rtr - btr) % n == (c * dr) % n) by {
        lemma_cong_sub(rtr, btr, c * dr + btr, btr, n);
    }
    // The left pairing argument carries cc·c·k in the exponent.
    assert((qq * c) % n == ((cc * (x + t + z * sk + dh)) * c) % n) by {
        lemma_cong_mul(qq, c, cc * (x + t + z * sk + dh), c, n);
    }
    assert((cc * (rtr - btr)) % n == (cc * (c * dr)) % n) by {
        lemma_cong_mul(cc, rtr - btr, cc, c * dr, n);
    }
    assert((qq * c + cc * (rtr - btr)) % n == ((cc * (x + t + z * sk + dh)) * c + cc * (c
        * dr)) % n) by {
        lemma_cong_add(qq * c, cc * (rtr - btr), (cc * (x + t + z * sk + dh)) * c, cc * (c
            * dr), n);
    }
    assert((cc * (x + t + z * sk + dh)) * c + cc * (c * dr) == cc * c * (x + t + z * sk + dh
        + dr)) by (nonlinear_arith);
    assert(lhs % n == (cc * c * k) % n);
    // The randomized second signature component carries
    // s1·r2·(x + dh + dr + z·sk + t) in the exponent.
    let w = x + dh + dr + z * sk + t;
    assert((upk * s1) % n == ((z * sk) * s1) % n) by {
        lemma_cong_mul(upk, s1, z * sk, s1, n);
    }
    assert((s1 * x + s1 * (dh + dr) + upk * s1) % n == (s1 * x + s1 * (dh + dr) + (z * sk)
        * s1) % n) by {
        lemma_cong_add(s1 * x + s1 * (dh + dr), upk * s1, s1 * x + s1 * (dh + dr), (z * sk)
            * s1, n);
    }
    assert((s2 + s1 * t) % n == (s1 * x + s1 * (dh + dr) + (z * sk) * s1 + s1 * t) % n) by {
        lemma_cong_add(s2, s1 * t, s1 * x + s1 * (dh + dr) + (z * sk) * s1, s1 * t, n);
    }
    assert(s1 * x + s1 * (dh + dr) + (z * sk) * s1 + s1 * t == s1 * (x + dh + dr + z * sk
        + t)) by (nonlinear_arith);
    assert(sp2 % n == ((s1 * w) * r2) % n) by {
        lemma_cong_mul(s2 + s1 * t, r2, s1 * w, r2, n);
    }
    // Both sides of the pairing check carry the logarithm
    // s1·r2·cc·c·(x + t + z·sk + dh + dr).
    assert((sp1 * lhs) % n == ((s1 * r2) * (cc * c * k)) % n) by {
        lemma_cong_mul(sp1, lhs, s1 * r2, cc * c * k, n);
    }
    assert((sp2 * rhs) % n == (((s1 * w) * r2) * (cc * c)) % n) by {
        lemma_cong_mul(sp2, rhs, (s1 * w) * r2, cc * c, n);
    }
    assert(w == k);
    assert((s1 * r2) * (cc * c * (x + t + z * sk + dh + dr)) == ((s1 * (x + t + z * sk + dh
        + dr)) * r2) * (cc * c)) by (nonlinear_arith);
}

/// Law: the credential-linking check of the joint proof accepts an
/// honest prover. Given an honestly generated issuer key, user key,
/// credential signature, reveal proof and joint proof over the same
/// attribute list and bitmap, the pairing equation of `verify_credential`
/// holds under any challenge — so an honest run passes the credential
/// half of `pok_attrs_verify`.
pub proof fn lemma_joint_proof_credential_complete<P: Pairing>(
    proof: AttrsRevealProof<P>,
    pok: PoKAttrs<P>,
    ipk: IssuerPublicKey<P>,
    sig: crate::credentials::CredSignature<P>,
    bitmap: Seq<bool>,
    attrs: Seq<nat>,
    comp: Seq<nat>,
    apk_rep: nat,
    rand_reps: Seq<nat>,
    x: nat,
    z: nat,
    usk: nat,
    upk: nat,
    rr: nat,
    tt: nat,
    bt: nat,
    bsk: nat,
    bs: Seq<nat>,
    battrs: Seq<nat>,
    brands: Seq<nat>,
    c: nat,
)
    requires
        proof.wf(),
        pok.wf(),
        ipk.wf(),
        bitmap.len() == ipk.yy2@.len(),
        attrs.len() == bitmap.len(),
        forall|i: int| 0 <= i < attrs.len() ==> #[trigger] attrs[i] < spec_order::<P>(),
        x < spec_order::<P>(),
        z < spec_order::<P>(),
        usk < spec_order::<P>(),
        c == spec_pok_challenge::<P>(pok.attr_com_reps(), pok.rand_com_reps()),
        ipk.gen2.rep() == 1,
        ipk.xx2.rep() == x,
        ipk.zz2.rep() == z,
        upk == (z * usk) % spec_order::<P>(),
        sig.sigma1.rep() < spec_order::<P>(),
        sig.sigma2.rep() == ((sig.sigma1.rep() * crate::credentials::spec_lin_acc(
            x,
            ipk.yy2_reps(),
            attrs,
            attrs.len(),
            spec_order::<P>(),
        )) % spec_order::<P>() + (upk * sig.sigma1.rep()) % spec_order::<P>())
            % spec_order::<P>(),
        crate::credentials::spec_reveal_rel::<P>(
            proof,
            sig,
            ipk,
            usk,
            attrs,
            bitmap,
            rr,
            tt,
            bt,
            bsk,
            bs,
        ),
        spec_pok_rel::<P>(pok, ipk, apk_rep, comp, rand_reps, bitmap, battrs, brands),
        comp.len() == spec_count(bitmap, true, bitmap.len()),
        forall|i: int|
            0 <= i < bitmap.len() && bitmap[i] ==> #[trigger] comp[spec_count(
                bitmap,
                true,
                i as nat,
            ) as int] == attrs[i],
    ensures
        spec_credential_ok::<P>(c, proof, pok, ipk, bitmap),
{
    <P::ScalarType as ScalarField>::order_facts();
    let nn = spec_order::<P>();
    let n = nn as int;
    let ys = ipk.yy2_reps();
    let len = bitmap.len();
    let cc = spec_compute_challenge::<P>(proof.pok.commitment.rep());
    vstd::arithmetic::div_mod::lemma_mod_bound(
        crate::utils::be_bytes_to_nat(
            crate::hashing::sha512_model(
                <P::G2 as Group<P::ScalarType>>::compress_model(proof.pok.commitment.rep()),
            ),
        ) as int,
        n,
    );
    assert(cc < nn);
    vstd::arithmetic::div_mod::lemma_mod_bound(
        crate::utils::be_bytes_to_nat(
            crate::hashing::sha512_model(
                crate::bls::spec_concat_compressed::<P>(pok.attr_com_reps())
                    + spec_concat_pairs::<P>(pok.rand_com_reps()),
            ),
        ) as int,
        n,
    );
    assert(c < nn);
    let dh = crate::credentials::spec_sel_dot_full(ys, bitmap, false, attrs, len) as int;
    let dr = crate::credentials::spec_sel_dot_full(ys, bitmap, true, attrs, len) as int;
    let bh = crate::credentials::spec_sel_dot(ys, bitmap, false, bs, len) as int;
    let btr = crate::credentials::spec_sel_dot(ys, bitmap, true, battrs, len) as int;
    let resp_h = proof.pok.response_attr_reps();
    let resp_t = pok.attr_resp_reps();
    let rh = crate::credentials::spec_sel_dot(ys, bitmap, false, resp_h, len) as int;
    let rtr = crate::credentials::spec_sel_dot(ys, bitmap, true, resp_t, len) as int;
    let com = proof.pok.commitment.rep() as int;
    let rt = proof.pok.response_t.rep() as int;
    let rsk = proof.pok.response_sk.rep() as int;
    let s1 = sig.sigma1.rep() as int;
    let s2 = sig.sigma2.rep() as int;
    let sp1 = proof.sig.sigma1.rep() as int;
    let sp2 = proof.sig.sigma2.rep() as int;
    let xi = x as int;
    let zi = z as int;
    let cci = cc as int;
    let ci = c as int;
    let bti = bt as int;
    let bski = bsk as int;
    let uski = usk as int;
    let upki = upk as int;
    let rri = rr as int;
    let tti = tt as int;
    // The reveal commitment is congruent to bt + z·bsk + bh.
    let start0 = ((ipk.gen2.rep() * bt) % nn + (ipk.zz2.rep() * bsk) % nn) % nn;
    crate::credentials::lemma_sel_mulsum_as_dot::<P>(start0, ys, bitmap, false, bs, len);
    assert(com % n == (bti + zi * bski + bh) % n) by {
        vstd::arithmetic::div_mod::lemma_small_mod(bt, nn);
        vstd::arithmetic::div_mod::lemma_add_mod_noop(1 * bti, zi * bski, n);
        assert(start0 as int % n == (bti + zi * bski) % n) by {
            vstd::arithmetic::div_mod::lemma_mod_twice((1 * bti + zi * bski), n);
        }
        crate::credentials::lemma_cong_add(start0 as int, bh, bti + zi * bski, bh, n);
        vstd::arithmetic::div_mod::lemma_mod_twice(start0 as int + bh, n);
    }
    // The reveal responses are congruent to their canonical forms.
    assert(rt % n == (tti * cci + bti) % n) by {
        vstd::arithmetic::div_mod::lemma_small_mod(bt, nn);
        vstd::arithmetic::div_mod::lemma_add_mod_noop(tti * cci, bti, n);
        vstd::arithmetic::div_mod::lemma_mod_twice(tti * cci + bti, n);
    }
    assert(rsk % n == (uski * cci + bski) % n) by {
        vstd::arithmetic::div_mod::lemma_small_mod(bsk, nn);
        vstd::arithmetic::div_mod::lemma_add_mod_noop(uski * cci, bski, n);
        vstd::arithmetic::div_mod::lemma_mod_twice(uski * cci + bski, n);
    }
    // The hidden response dot distributes.
    assert forall|i: int|
        0 <= i < len && bitmap[i] == false implies (#[trigger] resp_h[spec_count(
        bitmap,
        false,
        i as nat,
    ) as int]) as int % n == (cci * attrs[i] + bs[spec_count(bitmap, false, i as nat) as int])
        % n by {
        crate::credentials::count_mono_lemma(bitmap, false, (i + 1) as nat, len);
        assert(spec_count(bitmap, false, (i + 1) as nat) == spec_count(bitmap, false, i as nat)
            + 1);
        let j = spec_count(bitmap, false, i as nat) as int;
        assert(resp_h[j] == ((attrs[i] * cc) % nn + bs[j]) % nn);
        vstd::arithmetic::div_mod::lemma_small_mod(bs[j] as nat, nn);
        vstd::arithmetic::div_mod::lemma_add_mod_noop(attrs[i] as int * cci, bs[j] as int, n);
        vstd::arithmetic::div_mod::lemma_mod_twice(attrs[i] as int * cci + bs[j] as int, n);
    }
    crate::credentials::lemma_sel_dot_distributes::<P>(ys, bitmap, false, resp_h, attrs, bs, cc, len);
    assert(rh % n == (cci * dh + bh) % n);
    // The revealed response dot distributes, through the compressed
    // attribute list.
    assert forall|i: int|
        0 <= i < len && bitmap[i] == true implies (#[trigger] resp_t[spec_count(
        bitmap,
        true,
        i as nat,
    ) as int]) as int % n == (ci * attrs[i] + battrs[spec_count(bitmap, true, i as nat) as int])
        % n by {
        crate::credentials::count_mono_lemma(bitmap, true, (i + 1) as nat, len);
        assert(spec_count(bitmap, true, (i + 1) as nat) == spec_count(bitmap, true, i as nat)
            + 1);
        let j = spec_count(bitmap, true, i as nat) as int;
        assert(comp[j] == attrs[i]);
        assert(resp_t[j] == ((comp[j] * c) % nn + battrs[j]) % nn);
        vstd::arithmetic::div_mod::lemma_small_mod(battrs[j] as nat, nn);
        vstd::arithmetic::div_mod::lemma_add_mod_noop(attrs[i] as int * ci, battrs[j] as int, n);
        vstd::arithmetic::div_mod::lemma_mod_twice(attrs[i] as int * ci + battrs[j] as int, n);
    }
    crate::credentials::lemma_sel_dot_distributes::<P>(ys, bitmap, true, resp_t, attrs, battrs, c, len);
    assert(rtr % n == (ci * dr + btr) % n);
    // The blind credential commitment is the blinding dot, reduced.
    crate::credentials::lemma_sel_mulsum_as_dot::<P>(0, ys, bitmap, true, battrs, len);
    let blind = pok.attr_blind_cred_commitment.rep() as int;
    assert(blind % n == btr % n) by {
        vstd::arithmetic::div_mod::lemma_mod_twice(0 + btr, n);
    }
    // The constant accumulator of the verifier.
    let qq = spec_constant_terms::<P>(cc, proof, ipk, bitmap) as int;
    assert(qq % n == (xi * cci - com + rt + zi * rsk + rh) % n) by {
        let q0 = (x * cc) % nn;
        let q1 = (((q0 + nn - proof.pok.commitment.rep()) % (nn as int)) as nat);
        let q2 = (q1 + (ipk.gen2.rep() * proof.pok.response_t.rep()) % nn) % nn;
        let q3 = (q2 + (ipk.zz2.rep() * proof.pok.response_sk.rep()) % nn) % nn;
        crate::credentials::lemma_sel_mulsum_as_dot::<P>(q3, ys, bitmap, false, resp_h, len);
        assert(q1 as int % n == (xi * cci - com) % n) by {
            vstd::arithmetic::div_mod::lemma_mod_twice(q0 as int + n - com, n);
            vstd::arithmetic::div_mod::lemma_mod_add_multiples_vanish(q0 as int - com, n);
            vstd::arithmetic::div_mod::lemma_mod_twice(xi * cci, n);
            crate::credentials::lemma_cong_sub(q0 as int, com, xi * cci, com, n);
            assert((q0 as int - com) % n == (xi * cci - com) % n);
        }
        assert(q2 as int % n == (xi * cci - com + rt) % n) by {
            assert(ipk.gen2.rep() * proof.pok.response_t.rep()
                == proof.pok.response_t.rep());
            vstd::arithmetic::div_mod::lemma_small_mod(proof.pok.response_t.rep(), nn);
            assert(q2 == (q1 + proof.pok.response_t.rep()) % nn);
            vstd::arithmetic::div_mod::lemma_add_mod_noop(q1 as int, rt, n);
            vstd::arithmetic::div_mod::lemma_mod_twice(rt, n);
            assert(q2 as int == (q1 as int + rt % n) % n);
            assert((q1 as int % n + rt % n) % n == (q1 as int + rt) % n);
            vstd::arithmetic::div_mod::lemma_mod_twice(q1 as int, n);
            assert(q1 as int % n == q1 as int) by {
                vstd::arithmetic::div_mod::lemma_small_mod(q1 as nat, nn);
            }
            crate::credentials::lemma_cong_add(q1 as int, rt, xi * cci - com, rt, n);
            vstd::arithmetic::div_mod::lemma_mod_twice(q1 as int + rt, n);
        }
        assert(q3 as int % n == (xi * cci - com + rt + zi * rsk) % n) by {
            assert(q3 == (q2 + (z * proof.pok.response_sk.rep()) % nn) % nn);
            assert(q3 as int == (q2 as int + (zi * rsk) % n) % n);
            assert(q2 as int % n == q2 as int) by {
                vstd::arithmetic::div_mod::lemma_small_mod(q2 as nat, nn);
            }
            vstd::arithmetic::div_mod::lemma_add_mod_noop(q2 as int, zi * rsk, n);
            vstd::arithmetic::div_mod::lemma_mod_twice(zi * rsk, n);
            crate::credentials::lemma_cong_add(q2 as int, zi * rsk, xi * cci - com + rt, zi
                * rsk, n);
            vstd::arithmetic::div_mod::lemma_mod_twice(q2 as int + zi * rsk, n);
        }
        crate::credentials::lemma_cong_add(q3 as int, rh, xi * cci - com + rt + zi * rsk, rh,
            n);
        vstd::arithmetic::div_mod::lemma_mod_twice(q3 as int + rh, n);
    }
    // The verifier's left and right pairing arguments, in canonical form.
    let rev_sum = crate::credentials::spec_sel_mulsum(0, ys, bitmap, true, resp_t, len, nn)
        as int;
    crate::credentials::lemma_sel_mulsum_as_dot::<P>(0, ys, bitmap, true, resp_t, len);
    assert(rev_sum % n == rtr % n) by {
        vstd::arithmetic::div_mod::lemma_mod_twice(0 + rtr, n);
    }
    assert(rev_sum % n == (ci * dr + blind) % n) by {
        crate::credentials::lemma_cong_add(ci * dr, btr, ci * dr, blind, n);
    }
    let b1 = ((rev_sum + n - blind) % n) as int;
    let b2 = (b1 * cci) % n;
    let lhs_constant = (qq * ci) % n;
    let lhs = (lhs_constant + b2) % n;
    let rhs_constant = ((ipk.gen2.rep() * cc) % nn) as int;
    let rhs = (rhs_constant * ci) % n;
    assert(lhs % n == (qq * ci + cci * (rev_sum - blind)) % n) by {
        vstd::arithmetic::div_mod::lemma_mod_twice(rev_sum + n - blind, n);
        vstd::arithmetic::div_mod::lemma_mod_add_multiples_vanish(rev_sum - blind, n);
        assert(b1 == (rev_sum - blind) % n);
        assert(b2 == (cci * (rev_sum - blind)) % n) by {
            vstd::arithmetic::div_mod::lemma_mul_mod_noop_left(rev_sum - blind, cci, n);
            vstd::arithmetic::mul::lemma_mul_is_commutative(rev_sum - blind, cci);
        }
        vstd::arithmetic::div_mod::lemma_mod_twice(qq * ci, n);
        vstd::arithmetic::div_mod::lemma_mod_twice(cci * (rev_sum - blind), n);
        crate::credentials::lemma_cong_add(lhs_constant, b2, qq * ci, cci * (rev_sum - blind),
            n);
        vstd::arithmetic::div_mod::lemma_mod_twice(lhs_constant + b2, n);
    }
    assert(rhs % n == (cci * ci) % n) by {
        vstd::arithmetic::div_mod::lemma_small_mod(cc, nn);
        crate::credentials::lemma_cong_mul(rhs_constant, ci, cci, ci, n);
        vstd::arithmetic::div_mod::lemma_mod_twice(rhs_constant * ci, n);
    }
    // The randomized signature components, in canonical form.
    assert(sp1 % n == (s1 * rri) % n) by {
        vstd::arithmetic::div_mod::lemma_mod_twice(s1 * rri, n);
    }
    assert(sp2 % n == ((s2 + s1 * tti) * rri) % n) by {
        vstd::arithmetic::div_mod::lemma_add_mod_noop_right(s2, s1 * tti, n);
        vstd::arithmetic::div_mod::lemma_mod_twice(s2, n);
        vstd::arithmetic::div_mod::lemma_mul_mod_noop_left(s2 + s1 * tti, rri, n);
        vstd::arithmetic::div_mod::lemma_mod_twice((s2 + s1 * tti) * rri, n);
    }
    // The signed credential, in canonical form over the split dot.
    let ll = crate::credentials::spec_lin_acc(x, ys, attrs, attrs.len(), nn) as int;
    crate::credentials::lemma_lin_acc_as_dot::<P>(x, ys, attrs, attrs.len());
    crate::credentials::lemma_dot_split(ys, bitmap, attrs, len);
    assert(ll % n == (xi + dh + dr) % n) by {
        vstd::arithmetic::div_mod::lemma_mod_twice(xi + dh + dr, n);
    }
    assert(s2 % n == (s1 * xi + s1 * (dh + dr) + upki * s1) % n) by {
        assert((s1 * ll) % n == (s1 * (xi + dh + dr)) % n) by {
            crate::credentials::lemma_cong_mul(s1, ll, s1, xi + dh + dr, n);
        }
        assert(s1 * (xi + dh + dr) == s1 * xi + s1 * (dh + dr)) by (nonlinear_arith);
        vstd::arithmetic::div_mod::lemma_add_mod_noop(s1 * ll, upki * s1, n);
        crate::credentials::lemma_cong_add(s1 * ll, upki * s1, s1 * xi + s1 * (dh + dr), upki
            * s1, n);
        vstd::arithmetic::div_mod::lemma_mod_twice(s1 * ll + upki * s1, n);
    }
    // Balance the pairing equation.
    vstd::arithmetic::div_mod::lemma_mod_twice(zi * uski, n);
    lemma_credential_equation_balances(n, xi, zi, uski, tti, s1, rri, ci, cci, bti, bski, bh,
        blind, dh, dr, upki, s2, sp1, sp2, com, rt, rsk, rh, rev_sum, qq, lhs, rhs);
    assert((sp1 * lhs) % n == (sp2 * rhs) % n);
    assert(spec_credential_ok::<P>(c, proof, pok, ipk, bitmap));
}

/// Whether the array lengths of a joint proof agree with the bitmap and
/// the issuer key.
pub open spec fn spec_pok_lens_ok<P: Pairing>(
    reveal_proof: AttrsRevealProof<P>,
    ctexts: Seq<ElGamalCiphertext<<P as Pairing>::G1>>,
    pok: PoKAttrs<P>,
    ipk: IssuerPublicKey<P>,
    bitmap: Seq<bool>,
) -> bool {
    let count = spec_count(bitmap, true, bitmap.len());
    &&& bitmap.len() == ipk.yy2@.len()
    &&& ctexts.len() == count
    &&& pok.attr_commitments@.len() == count
    &&& pok.rand_commitments@.len() == count
    &&& pok.attr_responses@.len() == count
    &&& pok.rand_responses@.len() == count
    &&& reveal_proof.pok.response_attrs@.len() == spec_count(bitmap, false, bitmap.len())
}

/// I verify a proof of knowledge of attributes that satisfy a
/// confidential identity proof: array lengths are checked first, then
/// the ciphertext equations, then the credential-linking equation, all
/// under the challenge recomputed from the proof's own commitments.
pub fn pok_attrs_verify<P: Pairing>(
    reveal_proof: &AttrsRevealProof<P>,
    ctexts: &[ElGamalCiphertext<<P as Pairing>::G1>],
    pok_attrs: &PoKAttrs<P>,
    cred_issuer_public_key: &IssuerPublicKey<P>,
    asset_issuer_public_key: &ElGamalEncKey<<P as Pairing>::G1>,
    bitmap: &[bool],
) -> (res: Result<(), ZeiError>)
    requires
        reveal_proof.wf(),
        pok_attrs.wf(),
        cred_issuer_public_key.wf(),
        asset_issuer_public_key.0.wf(),
        spec_cts_wf::<P>(ctexts@),
    ensures
        res is Ok <==> spec_pok_lens_ok::<P>(
            *reveal_proof,
            ctexts@,
            *pok_attrs,
            *cred_issuer_public_key,
            bitmap@,
        ) && spec_ciphertexts_ok::<P>(
            spec_pok_challenge::<P>(pok_attrs.attr_com_reps(), pok_attrs.rand_com_reps()),
            ctexts@,
            *pok_attrs,
            asset_issuer_public_key.0.rep(),
        ) && spec_credential_ok::<P>(
            spec_pok_challenge::<P>(pok_attrs.attr_com_reps(), pok_attrs.rand_com_reps()),
            *reveal_proof,
            *pok_attrs,
            *cred_issuer_public_key,
            bitmap@,
        ),
        res == Err::<(), ZeiError>(ZeiError::ParameterError) <==> !spec_pok_lens_ok::<P>(
            *reveal_proof,
            ctexts@,
            *pok_attrs,
            *cred_issuer_public_key,
            bitmap@,
        ),
        res matches Err(e) ==> e == ZeiError::ParameterError
            || e == ZeiError::IdentityRevealVerificationError,
{
    let count = count_bits(bitmap, true);
    let count_hidden = count_bits(bitmap, false);
    if bitmap.len() != cred_issuer_public_key.yy2.len() || ctexts.len() != count
        || pok_attrs.attr_commitments.len() != count || pok_attrs.rand_commitments.len()
        != count || pok_attrs.attr_responses.len() != count || pok_attrs.rand_responses.len()
        != count || reveal_proof.pok.response_attrs.len() != count_hidden {
        return Err(ZeiError::ParameterError);
    }
    let challenge = pok_attrs_challenge::<P>(
        pok_attrs.attr_commitments.as_slice(),
        pok_attrs.rand_commitments.as_slice(),
    );
    match verify_ciphertext::<P>(&challenge, ctexts, pok_attrs, asset_issuer_public_key) {
        Ok(_) => {},
        Err(e) => {
            return Err(e);
        },
    }
    verify_credential::<P>(
        &challenge,
        reveal_proof,
        pok_attrs,
        cred_issuer_public_key,
        bitmap,
    )
}

} // verus!
