//! BLS signatures instantiated over the BLS12-381 backend.

use vstd::prelude::*;

verus! {

use crate::algebra::bls12_381::Bls12381;
use crate::bls::{
    spec_bls_hash_rep, spec_msg_views, spec_order, spec_pair_sum, spec_pk_reps, spec_sig_reps,
    spec_sum_mod, spec_weighted_sum,
};
use crate::errors::ZeiError;
use crate::prng::ChaChaPrng;

pub type BlsSecretKey = crate::bls::BlsSecretKey<Bls12381>;

pub type BlsPublicKey = crate::bls::BlsPublicKey<Bls12381>;

pub type BlsSignature = crate::bls::BlsSignature<Bls12381>;

/// The logarithms of a sequence of borrowed public keys.
pub open spec fn spec_pk_reps_ref(ks: Seq<&BlsPublicKey>) -> Seq<nat> {
    ks.map_values(|k: &BlsPublicKey| k.rep())
}

/// The logarithms of a sequence of borrowed signatures.
pub open spec fn spec_sig_reps_ref(ss: Seq<&BlsSignature>) -> Seq<nat> {
    ss.map_values(|s: &BlsSignature| s.rep())
}

pub open spec fn spec_pks_wf_ref(ks: Seq<&BlsPublicKey>) -> bool {
    forall|i: int| 0 <= i < ks.len() ==> (#[trigger] ks[i]).wf()
}

pub open spec fn spec_sigs_wf_ref(ss: Seq<&BlsSignature>) -> bool {
    forall|i: int| 0 <= i < ss.len() ==> (#[trigger] ss[i]).wf()
}

/// Copies a slice of borrowed public keys into an owned vector.
fn copy_pks(ver_keys: &[&BlsPublicKey]) -> (r: Vec<BlsPublicKey>)
    ensures
        r@.len() == ver_keys@.len(),
        forall|i: int| 0 <= i < r@.len() ==> r@[i] == *(#[trigger] ver_keys@[i]),
{
    let mut r: Vec<BlsPublicKey> = Vec::new();
    let mut i: usize = 0;
    while i < ver_keys.len()
        invariant
            i <= ver_keys@.len(),
            r@.len() == i,
            forall|j: int| 0 <= j < i ==> r@[j] == *(#[trigger] ver_keys@[j]),
        decreases ver_keys@.len() - i,
    {
        r.push(*ver_keys[i]);
        i = i + 1;
    }
    r
}

/// Copies a slice of borrowed signatures into an owned vector.
fn copy_sigs(signatures: &[&BlsSignature]) -> (r: Vec<BlsSignature>)
    ensures
        r@.len() == signatures@.len(),
        forall|i: int| 0 <= i < r@.len() ==> r@[i] == *(#[trigger] signatures@[i]),
{
    let mut r: Vec<BlsSignature> = Vec::new();
    let mut i: usize = 0;
    while i < signatures.len()
        invariant
            i <= signatures@.len(),
            r@.len() == i,
            forall|j: int| 0 <= j < i ==> r@[j] == *(#[trigger] signatures@[j]),
        decreases signatures@.len() - i,
    {
        r.push(*signatures[i]);
        i = i + 1;
    }
    r
}

/// bls key generation function
pub fn bls_gen_keys(prng: &mut ChaChaPrng) -> (r: (BlsSecretKey, BlsPublicKey))
    ensures
        r.0.rep() < spec_order::<Bls12381>(),
        r.1.wf(),
        r.1.rep() == r.0.rep(),
{
    crate::bls::bls_gen_keys::<Bls12381>(prng)
}

/// bls signature function
pub fn bls_sign(signing_key: &BlsSecretKey, message: &[u8]) -> (sig: BlsSignature)
    requires
        signing_key.rep() < spec_order::<Bls12381>(),
    ensures
        sig.wf(),
        sig.rep() == (spec_bls_hash_rep::<Bls12381>(message@) * signing_key.rep())
            % spec_order::<Bls12381>(),
{
    crate::bls::bls_sign::<Bls12381>(signing_key, message)
}

/// bls verification function
pub fn bls_verify(ver_key: &BlsPublicKey, message: &[u8], signature: &BlsSignature) -> (res:
    Result<(), ZeiError>)
    requires
        ver_key.wf(),
        signature.wf(),
    ensures
        res is Ok <==> signature.rep() == (ver_key.rep() * spec_bls_hash_rep::<Bls12381>(
            message@,
        )) % spec_order::<Bls12381>(),
        res matches Err(e) ==> e == ZeiError::SignatureError,
{
    crate::bls::bls_verify::<Bls12381>(ver_key, message, signature)
}

/// aggregate signature (for a single common message)
pub fn bls_aggregate(ver_keys: &[&BlsPublicKey], signatures: &[&BlsSignature]) -> (agg:
    BlsSignature)
    requires
        ver_keys@.len() == signatures@.len(),
        spec_pks_wf_ref(ver_keys@),
        spec_sigs_wf_ref(signatures@),
    ensures
        agg.wf(),
        agg.rep() == spec_weighted_sum::<Bls12381>(
            spec_pk_reps_ref(ver_keys@),
            spec_sig_reps_ref(signatures@),
            ver_keys@.len(),
        ),
{
    let pks = copy_pks(ver_keys);
    let sigs = copy_sigs(signatures);
    proof {
        assert(spec_pk_reps(pks@) =~= spec_pk_reps_ref(ver_keys@));
        assert(spec_sig_reps(sigs@) =~= spec_sig_reps_ref(signatures@));
        assert forall|i: int| 0 <= i < pks@.len() implies (#[trigger] pks@[i]).wf() by {
            assert(ver_keys@[i].wf());
        }
        assert forall|i: int| 0 <= i < sigs@.len() implies (#[trigger] sigs@[i]).wf() by {
            assert(signatures@[i].wf());
        }
    }
    crate::bls::bls_aggregate::<Bls12381>(pks.as_slice(), sigs.as_slice())
}

/// Verification of an aggregated signature for a common message
pub fn bls_verify_aggregated(
    ver_keys: &[&BlsPublicKey],
    message: &[u8],
    agg_signature: &BlsSignature,
) -> (res: Result<(), ZeiError>)
    requires
        spec_pks_wf_ref(ver_keys@),
        agg_signature.wf(),
    ensures
        res is Ok <==> agg_signature.rep() == (spec_weighted_sum::<Bls12381>(
            spec_pk_reps_ref(ver_keys@),
            spec_pk_reps_ref(ver_keys@),
            ver_keys@.len(),
        ) * spec_bls_hash_rep::<Bls12381>(message@)) % spec_order::<Bls12381>(),
        res matches Err(e) ==> e == ZeiError::SignatureError,
{
    let pks = copy_pks(ver_keys);
    proof {
        assert(spec_pk_reps(pks@) =~= spec_pk_reps_ref(ver_keys@));
        assert forall|i: int| 0 <= i < pks@.len() implies (#[trigger] pks@[i]).wf() by {
            assert(ver_keys@[i].wf());
        }
    }
    crate::bls::bls_verify_aggregated::<Bls12381>(pks.as_slice(), message, agg_signature)
}

/// Batch verification of many signatures
pub fn bls_batch_verify(
    ver_keys: &[BlsPublicKey],
    messages: &[&[u8]],
    signatures: &[BlsSignature],
) -> (res: Result<(), ZeiError>)
    requires
        ver_keys@.len() == messages@.len(),
        ver_keys@.len() == signatures@.len(),
        crate::bls::spec_pks_wf(ver_keys@),
        crate::bls::spec_sigs_wf(signatures@),
    ensures
        res is Ok <==> spec_sum_mod::<Bls12381>(spec_sig_reps(signatures@), signatures@.len())
            == spec_pair_sum::<Bls12381>(
            spec_pk_reps(ver_keys@),
            spec_msg_views(messages@),
            ver_keys@.len(),
        ),
        res matches Err(e) ==> e == ZeiError::SignatureError,
{
    crate::bls::bls_batch_verify::<Bls12381>(ver_keys, messages, signatures)
}

/// signature aggregation for (possibly) different messages
pub fn bls_add_signatures(signatures: &[BlsSignature]) -> (sig: BlsSignature)
    requires
        crate::bls::spec_sigs_wf(signatures@),
    ensures
        sig.wf(),
        sig.rep() == spec_sum_mod::<Bls12381>(spec_sig_reps(signatures@), signatures@.len()),
{
    crate::bls::bls_add_signatures::<Bls12381>(signatures)
}

/// verification of an aggregated signatures for different messages
pub fn bls_batch_verify_added_signatures(
    ver_keys: &[BlsPublicKey],
    messages: &[&[u8]],
    signature: &BlsSignature,
) -> (res: Result<(), ZeiError>)
    requires
        ver_keys@.len() == messages@.len(),
        crate::bls::spec_pks_wf(ver_keys@),
        signature.wf(),
    ensures
        res is Ok <==> signature.rep() == spec_pair_sum::<Bls12381>(
            spec_pk_reps(ver_keys@),
            spec_msg_views(messages@),
            ver_keys@.len(),
        ),
        res matches Err(e) ==> e == ZeiError::SignatureError,
{
    crate::bls::bls_batch_verify_added_signatures::<Bls12381>(ver_keys, messages, signature)
}

/// The BLS signature scheme over BLS12-381 as one capability object.
pub struct Bls;

impl Bls {
    pub fn gen_keys(prng: &mut ChaChaPrng) -> (r: (BlsSecretKey, BlsPublicKey))
        ensures
            r.0.rep() < spec_order::<Bls12381>(),
            r.1.wf(),
            r.1.rep() == r.0.rep(),
    {
        bls_gen_keys(prng)
    }

    pub fn sign(sk: &BlsSecretKey, msg: &[u8]) -> (sig: BlsSignature)
        requires
            sk.rep() < spec_order::<Bls12381>(),
        ensures
            sig.wf(),
            sig.rep() == (spec_bls_hash_rep::<Bls12381>(msg@) * sk.rep())
                % spec_order::<Bls12381>(),
    {
        bls_sign(sk, msg)
    }

    pub fn verify(pk: &BlsPublicKey, sig: &BlsSignature, msg: &[u8]) -> (res: Result<
        (),
        ZeiError,
    >)
        requires
            pk.wf(),
            sig.wf(),
        ensures
            res is Ok <==> sig.rep() == (pk.rep() * spec_bls_hash_rep::<Bls12381>(msg@))
                % spec_order::<Bls12381>(),
            res matches Err(e) ==> e == ZeiError::SignatureError,
    {
        bls_verify(pk, msg, sig)
    }

    pub fn aggregate(pks: &[&BlsPublicKey], sigs: &[&BlsSignature]) -> (agg: BlsSignature)
        requires
            pks@.len() == sigs@.len(),
            spec_pks_wf_ref(pks@),
            spec_sigs_wf_ref(sigs@),
        ensures
            agg.wf(),
            agg.rep() == spec_weighted_sum::<Bls12381>(
                spec_pk_reps_ref(pks@),
                spec_sig_reps_ref(sigs@),
                pks@.len(),
            ),
    {
        bls_aggregate(pks, sigs)
    }

    pub fn verify_aggregate(pks: &[&BlsPublicKey], agg_sig: &BlsSignature, msg: &[u8]) -> (res:
        Result<(), ZeiError>)
        requires
            spec_pks_wf_ref(pks@),
            agg_sig.wf(),
        ensures
            res is Ok <==> agg_sig.rep() == (spec_weighted_sum::<Bls12381>(
                spec_pk_reps_ref(pks@),
                spec_pk_reps_ref(pks@),
                pks@.len(),
            ) * spec_bls_hash_rep::<Bls12381>(msg@)) % spec_order::<Bls12381>(),
            res matches Err(e) ==> e == ZeiError::SignatureError,
    {
        bls_verify_aggregated(pks, msg, agg_sig)
    }
}

} // verus!
