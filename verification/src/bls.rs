//! BLS signatures over any pairing-capable backend: signing,
//! verification, rogue-key-resistant aggregation for a common message,
//! and batch verification of independent signatures.
//!
//! A signature on a message is the hash-to-G2 of the message, scaled by
//! the secret scalar. Aggregation for a common message scales each
//! signature by a per-signer coefficient derived from the whole key set,
//! so that no signer can choose a key that cancels the others'
//! contributions; combination of signatures on distinct messages is a
//! plain sum.

use vstd::prelude::*;

verus! {

use crate::algebra::groups::{Group, Pairing, ScalarField, scalar_from_be_bytes_mod_order,
    scalar_sample};
use crate::errors::ZeiError;
use crate::hashing::{sha512, sha512_model};
use crate::prng::ChaChaPrng;
use crate::utils::{be_bytes_to_nat, spec_u64_be_bytes, u64_to_bigendian_u8array, vec_extend};
use vstd::arithmetic::div_mod::{
    lemma_add_mod_noop, lemma_add_mod_noop_right, lemma_mul_mod_noop_left,
    lemma_mul_mod_noop_right, lemma_small_mod,
};
use vstd::arithmetic::mul::{lemma_mul_is_commutative, lemma_mul_is_distributive_add_other_way};

/// A BLS secret key: a scalar.
#[derive(Clone, Copy)]
pub struct BlsSecretKey<P: Pairing>(pub(crate) P::ScalarType);

/// A BLS public key: the G1 generator scaled by the secret scalar.
#[derive(Clone, Copy)]
pub struct BlsPublicKey<P: Pairing>(pub(crate) P::G1);

/// A BLS signature: an element of G2.
#[derive(Clone, Copy)]
pub struct BlsSignature<P: Pairing>(pub(crate) P::G2);

impl<P: Pairing> BlsSecretKey<P> {
    /// The residue of the secret scalar.
    pub closed spec fn rep(&self) -> nat {
        self.0.rep()
    }
}

impl<P: Pairing> BlsPublicKey<P> {
    /// The discrete logarithm of the public key.
    pub closed spec fn rep(&self) -> nat {
        self.0.rep()
    }

    pub closed spec fn wf(&self) -> bool {
        self.0.wf()
    }
}

impl<P: Pairing> BlsSignature<P> {
    /// The discrete logarithm of the signature.
    pub closed spec fn rep(&self) -> nat {
        self.0.rep()
    }

    pub closed spec fn wf(&self) -> bool {
        self.0.wf()
    }

    /// A well-formed signature's logarithm is below the order.
    pub proof fn wf_bound_sig(&self)
        requires
            self.wf(),
        ensures
            self.rep() < spec_order::<P>(),
    {
        self.0.wf_bound();
    }

    /// The compressed bytes of the signature element.
    pub fn to_g2_bytes(&self) -> (r: Vec<u8>)
        requires
            self.wf(),
        ensures
            r@ == <P::G2 as Group<P::ScalarType>>::compress_model(self.rep()),
            r@.len() == <P::G2 as Group<P::ScalarType>>::compressed_len(),
    {
        proof {
            self.0.wf_bound();
        }
        self.0.to_compressed_bytes()
    }

    /// Decodes a signature from the canonical compressed bytes of a G2
    /// element.
    pub fn from_g2_bytes(bytes: &[u8]) -> (r: Option<Self>)
        ensures
            forall|n: nat|
                n < spec_order::<P>() && bytes@ == <P::G2 as Group<
                    P::ScalarType,
                >>::compress_model(n) ==> (r matches Some(s) && s.wf() && s.rep() == n),
    {
        match <P::G2 as Group<P::ScalarType>>::from_compressed_bytes(bytes) {
            Some(g) => Some(BlsSignature(g)),
            None => None,
        }
    }
}

/// The scalar-field order of the backend.
pub open spec fn spec_order<P: Pairing>() -> nat {
    <P::ScalarType as ScalarField>::order()
}

/// The logarithm of the G2 element a message hashes to.
pub open spec fn spec_bls_hash_rep<P: Pairing>(m: Seq<u8>) -> nat {
    <P::G2 as Group<P::ScalarType>>::hash_model(sha512_model(m))
}

/// The logarithms of a sequence of public keys.
pub open spec fn spec_pk_reps<P: Pairing>(ks: Seq<BlsPublicKey<P>>) -> Seq<nat> {
    ks.map_values(|k: BlsPublicKey<P>| k.rep())
}

/// The logarithms of a sequence of signatures.
pub open spec fn spec_sig_reps<P: Pairing>(ss: Seq<BlsSignature<P>>) -> Seq<nat> {
    ss.map_values(|s: BlsSignature<P>| s.rep())
}

/// The byte views of a sequence of messages.
pub open spec fn spec_msg_views(ms: Seq<&[u8]>) -> Seq<Seq<u8>> {
    ms.map_values(|m: &[u8]| m@)
}

pub open spec fn spec_pks_wf<P: Pairing>(ks: Seq<BlsPublicKey<P>>) -> bool {
    forall|i: int| 0 <= i < ks.len() ==> (#[trigger] ks[i]).wf()
}

pub open spec fn spec_sigs_wf<P: Pairing>(ss: Seq<BlsSignature<P>>) -> bool {
    forall|i: int| 0 <= i < ss.len() ==> (#[trigger] ss[i]).wf()
}

/// The concatenation of the compressed encodings of the public keys with
/// the given logarithms, in order.
pub open spec fn spec_concat_compressed<P: Pairing>(reps: Seq<nat>) -> Seq<u8>
    decreases reps.len(),
{
    if reps.len() == 0 {
        Seq::<u8>::empty()
    } else {
        spec_concat_compressed::<P>(reps.drop_last()) + <P::G1 as Group<
            P::ScalarType,
        >>::compress_model(reps.last())
    }
}

/// The rogue-key-resistant coefficient of signer `i` for a key set with
/// the given logarithms: the hash of the signer index and the digest of
/// all compressed keys, folded into the scalar field.
pub open spec fn spec_agg_coeff<P: Pairing>(reps: Seq<nat>, i: u64) -> nat {
    be_bytes_to_nat(
        sha512_model(spec_u64_be_bytes(i) + sha512_model(spec_concat_compressed::<P>(reps))),
    ) % spec_order::<P>()
}

/// The first `k` terms of the coefficient-weighted sum
/// `Σ coeff_i · terms_i`, accumulated modulo the order; the coefficients
/// are derived from the full key set `all`.
pub open spec fn spec_weighted_sum<P: Pairing>(all: Seq<nat>, terms: Seq<nat>, k: nat) -> nat
    decreases k,
{
    if k == 0 {
        0
    } else {
        (spec_weighted_sum::<P>(all, terms, (k - 1) as nat) + (spec_agg_coeff::<P>(
            all,
            (k - 1) as u64,
        ) * terms[k - 1]) % spec_order::<P>()) % spec_order::<P>()
    }
}

/// The first `k` terms of a plain sum, accumulated modulo the order.
pub open spec fn spec_sum_mod<P: Pairing>(terms: Seq<nat>, k: nat) -> nat
    decreases k,
{
    if k == 0 {
        0
    } else {
        (spec_sum_mod::<P>(terms, (k - 1) as nat) + terms[k - 1]) % spec_order::<P>()
    }
}

/// The first `k` terms of the sum of pairings `Σ pairing(pk_i, H(m_i))`,
/// accumulated modulo the order.
pub open spec fn spec_pair_sum<P: Pairing>(pks: Seq<nat>, msgs: Seq<Seq<u8>>, k: nat) -> nat
    decreases k,
{
    if k == 0 {
        0
    } else {
        (spec_pair_sum::<P>(pks, msgs, (k - 1) as nat) + (pks[k - 1] * spec_bls_hash_rep::<P>(
            msgs[k - 1],
        )) % spec_order::<P>()) % spec_order::<P>()
    }
}

/// hash function to G2: the fixed 512-bit hash of the message, mapped
/// into the group.
pub fn bls_hash_message<P: Pairing>(message: &[u8]) -> (r: P::G2)
    ensures
        r.wf(),
        r.rep() == spec_bls_hash_rep::<P>(message@),
        r.rep() < spec_order::<P>(),
{
    let d = sha512(message);
    let r = <P::G2 as Group<P::ScalarType>>::from_hash(d.as_slice());
    r
}

/// bls key generation function
pub fn bls_gen_keys<P: Pairing>(prng: &mut ChaChaPrng) -> (r: (BlsSecretKey<P>, BlsPublicKey<P>))
    ensures
        r.0.rep() < spec_order::<P>(),
        r.1.wf(),
        r.1.rep() == r.0.rep(),
{
    let sec_key = scalar_sample::<P::ScalarType>(prng);
    let base = <P::G1 as Group<P::ScalarType>>::get_base();
    let pub_key = base.mul(&sec_key);
    proof {
        lemma_small_mod(sec_key.rep(), spec_order::<P>());
    }
    (BlsSecretKey(sec_key), BlsPublicKey(pub_key))
}

/// bls signature function
pub fn bls_sign<P: Pairing>(signing_key: &BlsSecretKey<P>, message: &[u8]) -> (sig: BlsSignature<
    P,
>)
    requires
        signing_key.rep() < spec_order::<P>(),
    ensures
        sig.wf(),
        sig.rep() == (spec_bls_hash_rep::<P>(message@) * signing_key.rep()) % spec_order::<P>(),
{
    let hashed = bls_hash_message::<P>(message);
    BlsSignature(hashed.mul(&signing_key.0))
}

/// bls verification function: accepts exactly when the pairing of the
/// base with the signature equals the pairing of the key with the
/// message hash.
pub fn bls_verify<P: Pairing>(
    ver_key: &BlsPublicKey<P>,
    message: &[u8],
    signature: &BlsSignature<P>,
) -> (res: Result<(), ZeiError>)
    requires
        ver_key.wf(),
        signature.wf(),
    ensures
        res is Ok <==> signature.rep() == (ver_key.rep() * spec_bls_hash_rep::<P>(message@))
            % spec_order::<P>(),
        res matches Err(e) ==> e == ZeiError::SignatureError,
{
    let hashed = bls_hash_message::<P>(message);
    let base = <P::G1 as Group<P::ScalarType>>::get_base();
    let a = P::pairing(&base, &signature.0);
    let b = P::pairing(&ver_key.0, &hashed);
    proof {
        signature.0.wf_bound();
        lemma_small_mod(signature.rep(), spec_order::<P>());
        ver_key.0.wf_bound();
    }
    if a.eq_elem(&b) {
        Ok(())
    } else {
        Err(ZeiError::SignatureError)
    }
}

/// hash function to N scalars on the pairing field: one rogue-key
/// coefficient per signer, derived from the signer index and the digest
/// of the whole key set.
pub fn bls_hash_pubkeys_to_scalars<P: Pairing>(ver_keys: &[BlsPublicKey<P>]) -> (r: Vec<
    P::ScalarType,
>)
    requires
        spec_pks_wf(ver_keys@),
    ensures
        r@.len() == ver_keys@.len(),
        forall|i: int|
            0 <= i < r@.len() ==> (#[trigger] r@[i]).rep() == spec_agg_coeff::<P>(
                spec_pk_reps(ver_keys@),
                i as u64,
            ) && r@[i].rep() < spec_order::<P>(),
{
    let mut concat: Vec<u8> = Vec::new();
    let mut idx: usize = 0;
    proof {
        assert(spec_pk_reps(ver_keys@.take(0)) =~= Seq::<nat>::empty());
    }
    while idx < ver_keys.len()
        invariant
            idx <= ver_keys@.len(),
            spec_pks_wf(ver_keys@),
            concat@ == spec_concat_compressed::<P>(spec_pk_reps(ver_keys@.take(idx as int))),
        decreases ver_keys@.len() - idx,
    {
        proof {
            ver_keys@[idx as int].0.wf_bound();
        }
        let cb = ver_keys[idx].0.to_compressed_bytes();
        vec_extend(&mut concat, cb.as_slice());
        proof {
            let pre = spec_pk_reps(ver_keys@.take(idx as int));
            let cur = spec_pk_reps(ver_keys@.take(idx + 1));
            assert(cur.drop_last() =~= pre);
            assert(cur.last() == ver_keys@[idx as int].rep());
        }
        idx = idx + 1;
    }
    proof {
        assert(ver_keys@.take(ver_keys@.len() as int) =~= ver_keys@);
    }
    let hash = sha512(concat.as_slice());
    let mut scalars: Vec<P::ScalarType> = Vec::new();
    let mut i: usize = 0;
    while i < ver_keys.len()
        invariant
            i <= ver_keys@.len(),
            scalars@.len() == i,
            hash@ == sha512_model(spec_concat_compressed::<P>(spec_pk_reps(ver_keys@))),
            forall|j: int|
                0 <= j < i ==> (#[trigger] scalars@[j]).rep() == spec_agg_coeff::<P>(
                    spec_pk_reps(ver_keys@),
                    j as u64,
                ) && scalars@[j].rep() < spec_order::<P>(),
        decreases ver_keys@.len() - i,
    {
        let mut pre: Vec<u8> = Vec::new();
        let ib = u64_to_bigendian_u8array(i as u64);
        vec_extend(&mut pre, ib.as_slice());
        vec_extend(&mut pre, hash.as_slice());
        proof {
            assert(pre@ =~= spec_u64_be_bytes(i as u64) + hash@);
        }
        let d2 = sha512(pre.as_slice());
        let s = scalar_from_be_bytes_mod_order::<P::ScalarType>(d2.as_slice());
        scalars.push(s);
        i = i + 1;
    }
    scalars
}

/// aggregate signature (for a single common message): the sum of the
/// signatures, each scaled by its signer's rogue-key coefficient.
/// Equal array lengths are a caller contract.
pub fn bls_aggregate<P: Pairing>(
    ver_keys: &[BlsPublicKey<P>],
    signatures: &[BlsSignature<P>],
) -> (agg: BlsSignature<P>)
    requires
        ver_keys@.len() == signatures@.len(),
        spec_pks_wf(ver_keys@),
        spec_sigs_wf(signatures@),
    ensures
        agg.wf(),
        agg.rep() == spec_weighted_sum::<P>(
            spec_pk_reps(ver_keys@),
            spec_sig_reps(signatures@),
            ver_keys@.len(),
        ),
{
    let scalars = bls_hash_pubkeys_to_scalars::<P>(ver_keys);
    let mut agg_signature = <P::G2 as Group<P::ScalarType>>::get_identity();
    let mut i: usize = 0;
    while i < signatures.len()
        invariant
            i <= signatures@.len(),
            scalars@.len() == signatures@.len(),
            spec_sigs_wf(signatures@),
            agg_signature.wf(),
            forall|j: int|
                0 <= j < scalars@.len() ==> (#[trigger] scalars@[j]).rep() == spec_agg_coeff::<
                    P,
                >(spec_pk_reps(ver_keys@), j as u64) && scalars@[j].rep() < spec_order::<P>(),
            agg_signature.rep() == spec_weighted_sum::<P>(
                spec_pk_reps(ver_keys@),
                spec_sig_reps(signatures@),
                i as nat,
            ),
        decreases signatures@.len() - i,
    {
        proof {
            signatures@[i as int].0.wf_bound();
        }
        let term = signatures[i].0.mul(&scalars[i]);
        let agg2 = agg_signature.add(&term);
        proof {
            lemma_mul_is_commutative(
                signatures@[i as int].rep() as int,
                scalars@[i as int].rep() as int,
            );
        }
        agg_signature = agg2;
        i = i + 1;
    }
    BlsSignature(agg_signature)
}

/// Verification of an aggregated signature for a common message:
/// recomputes the coefficients, forms the aggregate public key, and runs
/// single-signature verification against it.
pub fn bls_verify_aggregated<P: Pairing>(
    ver_keys: &[BlsPublicKey<P>],
    message: &[u8],
    agg_signature: &BlsSignature<P>,
) -> (res: Result<(), ZeiError>)
    requires
        spec_pks_wf(ver_keys@),
        agg_signature.wf(),
    ensures
        res is Ok <==> agg_signature.rep() == (spec_weighted_sum::<P>(
            spec_pk_reps(ver_keys@),
            spec_pk_reps(ver_keys@),
            ver_keys@.len(),
        ) * spec_bls_hash_rep::<P>(message@)) % spec_order::<P>(),
        res matches Err(e) ==> e == ZeiError::SignatureError,
{
    let scalars = bls_hash_pubkeys_to_scalars::<P>(ver_keys);
    let mut agg_pub_key = <P::G1 as Group<P::ScalarType>>::get_identity();
    let mut i: usize = 0;
    while i < ver_keys.len()
        invariant
            i <= ver_keys@.len(),
            scalars@.len() == ver_keys@.len(),
            spec_pks_wf(ver_keys@),
            agg_pub_key.wf(),
            forall|j: int|
                0 <= j < scalars@.len() ==> (#[trigger] scalars@[j]).rep() == spec_agg_coeff::<
                    P,
                >(spec_pk_reps(ver_keys@), j as u64) && scalars@[j].rep() < spec_order::<P>(),
            agg_pub_key.rep() == spec_weighted_sum::<P>(
                spec_pk_reps(ver_keys@),
                spec_pk_reps(ver_keys@),
                i as nat,
            ),
        decreases ver_keys@.len() - i,
    {
        proof {
            ver_keys@[i as int].0.wf_bound();
        }
        let term = ver_keys[i].0.mul(&scalars[i]);
        let agg2 = agg_pub_key.add(&term);
        proof {
            lemma_mul_is_commutative(
                ver_keys@[i as int].rep() as int,
                scalars@[i as int].rep() as int,
            );
        }
        agg_pub_key = agg2;
        i = i + 1;
    }
    bls_verify::<P>(&BlsPublicKey(agg_pub_key), message, agg_signature)
}

/// signature aggregation for (possibly) different messages: a plain sum,
/// with no coefficients.
pub fn bls_add_signatures<P: Pairing>(signatures: &[BlsSignature<P>]) -> (sig: BlsSignature<P>)
    requires
        spec_sigs_wf(signatures@),
    ensures
        sig.wf(),
        sig.rep() == spec_sum_mod::<P>(spec_sig_reps(signatures@), signatures@.len()),
{
    let mut sig = <P::G2 as Group<P::ScalarType>>::get_identity();
    let mut i: usize = 0;
    while i < signatures.len()
        invariant
            i <= signatures@.len(),
            spec_sigs_wf(signatures@),
            sig.wf(),
            sig.rep() == spec_sum_mod::<P>(spec_sig_reps(signatures@), i as nat),
        decreases signatures@.len() - i,
    {
        proof {
            signatures@[i as int].0.wf_bound();
        }
        sig = sig.add(&signatures[i].0);
        i = i + 1;
    }
    BlsSignature(sig)
}

/// verification of an aggregated signature for different messages:
/// accepts exactly when the pairing of the base with the combined
/// signature equals the sum of the pairings of each key with its
/// message's hash.
pub fn bls_batch_verify_added_signatures<P: Pairing>(
    ver_keys: &[BlsPublicKey<P>],
    messages: &[&[u8]],
    signature: &BlsSignature<P>,
) -> (res: Result<(), ZeiError>)
    requires
        ver_keys@.len() == messages@.len(),
        spec_pks_wf(ver_keys@),
        signature.wf(),
    ensures
        res is Ok <==> signature.rep() == spec_pair_sum::<P>(
            spec_pk_reps(ver_keys@),
            spec_msg_views(messages@),
            ver_keys@.len(),
        ),
        res matches Err(e) ==> e == ZeiError::SignatureError,
{
    let base = <P::G1 as Group<P::ScalarType>>::get_base();
    let a = P::pairing(&base, &signature.0);
    proof {
        signature.0.wf_bound();
        lemma_small_mod(signature.rep(), spec_order::<P>());
    }
    let mut b = <P::Gt as Group<P::ScalarType>>::get_identity();
    let mut i: usize = 0;
    while i < ver_keys.len()
        invariant
            i <= ver_keys@.len(),
            ver_keys@.len() == messages@.len(),
            spec_pks_wf(ver_keys@),
            b.wf(),
            b.rep() == spec_pair_sum::<P>(
                spec_pk_reps(ver_keys@),
                spec_msg_views(messages@),
                i as nat,
            ),
        decreases ver_keys@.len() - i,
    {
        proof {
            ver_keys@[i as int].0.wf_bound();
        }
        let hashed = bls_hash_message::<P>(messages[i]);
        let p = P::pairing(&ver_keys[i].0, &hashed);
        b = b.add(&p);
        i = i + 1;
    }
    if a.eq_elem(&b) {
        Ok(())
    } else {
        Err(ZeiError::SignatureError)
    }
}

/// Batch verification of many signatures on (possibly) distinct
/// messages. Equal array lengths are a caller contract.
pub fn bls_batch_verify<P: Pairing>(
    ver_keys: &[BlsPublicKey<P>],
    messages: &[&[u8]],
    signatures: &[BlsSignature<P>],
) -> (res: Result<(), ZeiError>)
    requires
        ver_keys@.len() == messages@.len(),
        ver_keys@.len() == signatures@.len(),
        spec_pks_wf(ver_keys@),
        spec_sigs_wf(signatures@),
    ensures
        res is Ok <==> spec_sum_mod::<P>(spec_sig_reps(signatures@), signatures@.len())
            == spec_pair_sum::<P>(
            spec_pk_reps(ver_keys@),
            spec_msg_views(messages@),
            ver_keys@.len(),
        ),
        res matches Err(e) ==> e == ZeiError::SignatureError,
{
    let sig = bls_add_signatures(signatures);
    bls_batch_verify_added_signatures(ver_keys, messages, &sig)
}

/// Law: a signature honestly produced with a secret key verifies under
/// the matching public key.
pub proof fn lemma_bls_sign_verifies<P: Pairing>(
    sk: BlsSecretKey<P>,
    pk: BlsPublicKey<P>,
    sig: BlsSignature<P>,
    m: Seq<u8>,
)
    requires
        sk.rep() < spec_order::<P>(),
        pk.rep() == sk.rep(),
        sig.rep() == (spec_bls_hash_rep::<P>(m) * sk.rep()) % spec_order::<P>(),
    ensures
        sig.rep() == (pk.rep() * spec_bls_hash_rep::<P>(m)) % spec_order::<P>(),
{
    lemma_mul_is_commutative(spec_bls_hash_rep::<P>(m) as int, sk.rep() as int);
}

/// Law: an aggregate of honest signatures on a common message verifies
/// under the aggregate public key formed with the same coefficients —
/// the weighted sum of the signatures is the weighted sum of the keys,
/// scaled by the message hash.
pub proof fn lemma_bls_aggregate_verifies<P: Pairing>(
    pks: Seq<nat>,
    sigs: Seq<nat>,
    h: nat,
    k: nat,
)
    requires
        k <= pks.len(),
        pks.len() == sigs.len(),
        h < spec_order::<P>(),
        forall|i: int| 0 <= i < pks.len() ==> #[trigger] pks[i] < spec_order::<P>(),
        forall|i: int|
            0 <= i < sigs.len() ==> #[trigger] sigs[i] == (h * pks[i]) % spec_order::<P>(),
    ensures
        spec_weighted_sum::<P>(pks, sigs, k) == (spec_weighted_sum::<P>(pks, pks, k) * h)
            % spec_order::<P>(),
    decreases k,
{
    let n = spec_order::<P>() as int;
    <P::ScalarType as ScalarField>::order_facts();
    if k == 0 {
        lemma_small_mod(0, n as nat);
        assert(spec_weighted_sum::<P>(pks, sigs, 0) == 0) by {
            reveal_with_fuel(spec_weighted_sum, 2);
        }
        assert(spec_weighted_sum::<P>(pks, pks, 0) == 0) by {
            reveal_with_fuel(spec_weighted_sum, 2);
        }
        assert(spec_weighted_sum::<P>(pks, pks, 0) * h == 0);
        assert(spec_weighted_sum::<P>(pks, sigs, k) == (spec_weighted_sum::<P>(pks, pks, k) * h)
            % spec_order::<P>());
    } else {
        lemma_bls_aggregate_verifies::<P>(pks, sigs, h, (k - 1) as nat);
        let c = spec_agg_coeff::<P>(pks, (k - 1) as u64) as int;
        let s = pks[k - 1] as int;
        let hh = h as int;
        let lp = spec_weighted_sum::<P>(pks, sigs, (k - 1) as nat) as int;
        let ap = spec_weighted_sum::<P>(pks, pks, (k - 1) as nat) as int;
        // The new signature term: (c · ((h·s) % n)) % n == (c·h·s) % n.
        lemma_mul_mod_noop_right(c, hh * s, n);
        // The new key-side term, scaled by h.
        lemma_mul_mod_noop_left(ap + (c * s) % n, hh, n);
        lemma_mul_is_distributive_add_other_way(hh, ap, (c * s) % n);
        lemma_add_mod_noop_right(ap * hh, ((c * s) % n) * hh, n);
        lemma_mul_mod_noop_left(c * s, hh, n);
        assert(c * (hh * s) == c * s * hh) by (nonlinear_arith);
        // Both sides reduce to (ap·h + c·s·h) % n.
        lemma_add_mod_noop(lp, (c * (hh * s)) % n, n);
        lemma_add_mod_noop(ap * hh, c * s * hh, n);
        lemma_add_mod_noop_right(ap * hh, c * s * hh, n);
        vstd::arithmetic::div_mod::lemma_mod_twice(lp, n);
        vstd::arithmetic::div_mod::lemma_mod_twice((c * s * hh) % n, n);
        assert(lp == (ap * hh) % n);
        assert(spec_weighted_sum::<P>(pks, sigs, k) == (lp + (c * (hh * s)) % n) % n);
        assert((lp + (c * s * hh) % n) % n == ((ap * hh) % n + (c * s * hh) % n) % n);
        assert(((ap * hh) % n + (c * s * hh) % n) % n == (ap * hh + c * s * hh) % n);
        assert((spec_weighted_sum::<P>(pks, pks, k) * hh) % n == ((ap + (c * s) % n) % n * hh)
            % n);
        assert(((ap + (c * s) % n) % n * hh) % n == ((ap + (c * s) % n) * hh) % n);
        assert(((ap + (c * s) % n) * hh) % n == (ap * hh + ((c * s) % n) * hh) % n);
        assert((ap * hh + ((c * s) % n) * hh) % n == (ap * hh + (((c * s) % n) * hh) % n) % n);
        assert((((c * s) % n) * hh) % n == (c * s * hh) % n);
        assert((ap * hh + (c * s * hh) % n) % n == (ap * hh + c * s * hh) % n);
        assert(spec_weighted_sum::<P>(pks, sigs, k) == (ap * hh + c * s * hh) % n);
        assert((spec_weighted_sum::<P>(pks, pks, k) * hh) % n == (ap * hh + c * s * hh) % n);
        assert(spec_weighted_sum::<P>(pks, sigs, k) == (spec_weighted_sum::<P>(pks, pks, k)
            * hh) % n);
        assert(spec_weighted_sum::<P>(pks, pks, k) * hh == spec_weighted_sum::<P>(pks, pks, k)
            * h);
        assert(spec_weighted_sum::<P>(pks, sigs, k) == (spec_weighted_sum::<P>(pks, pks, k) * h)
            % spec_order::<P>());
    }
}

/// Law: the plain sum of honest signatures on distinct messages equals
/// the sum of the pairings of each public key with its message's hash.
pub proof fn lemma_bls_batch_verifies<P: Pairing>(
    pks: Seq<nat>,
    msgs: Seq<Seq<u8>>,
    sigs: Seq<nat>,
    k: nat,
)
    requires
        k <= pks.len(),
        pks.len() == sigs.len(),
        pks.len() == msgs.len(),
        forall|i: int| 0 <= i < pks.len() ==> #[trigger] pks[i] < spec_order::<P>(),
        forall|i: int|
            0 <= i < sigs.len() ==> #[trigger] sigs[i] == (spec_bls_hash_rep::<P>(msgs[i])
                * pks[i]) % spec_order::<P>(),
    ensures
        spec_sum_mod::<P>(sigs, k) == spec_pair_sum::<P>(pks, msgs, k),
    decreases k,
{
    if k > 0 {
        lemma_bls_batch_verifies::<P>(pks, msgs, sigs, (k - 1) as nat);
        lemma_mul_is_commutative(spec_bls_hash_rep::<P>(msgs[k - 1]) as int, pks[k - 1] as int);
    }
}

} // verus!
