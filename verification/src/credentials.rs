//! The anonymous-credential engine: issuer keys, attribute signing, and
//! selective-disclosure reveal proofs.
//!
//! A credential signature binds an ordered list of attribute scalars and
//! a user secret to the issuer's keys; a reveal proof randomizes the
//! signature and proves, by a Fiat-Shamir Sigma protocol, knowledge of
//! the hidden attributes. The joint disclosure proof consumes these
//! structures read-only.

use vstd::prelude::*;

verus! {

use crate::algebra::groups::{Group, Pairing, ScalarField, scalar_from_be_bytes_mod_order,
    scalar_sample};
use crate::bls::spec_order;
use crate::errors::ZeiError;
use crate::hashing::{sha512, sha512_model};
use crate::prng::ChaChaPrng;
use crate::utils::be_bytes_to_nat;
use vstd::arithmetic::div_mod::lemma_small_mod;

/// The number of positions below `k` whose bitmap entry equals `sel`.
pub open spec fn spec_count(bitmap: Seq<bool>, sel: bool, k: nat) -> nat
    decreases k,
{
    if k == 0 {
        0
    } else {
        let inc: nat = if bitmap[k - 1] == sel {
            1
        } else {
            0
        };
        spec_count(bitmap, sel, (k - 1) as nat) + inc
    }
}

/// The accumulation `acc = (acc + (ys[i] · vals[j]) % n) % n` over the
/// first `k` positions whose bitmap entry equals `sel`, where `j` counts
/// the selected positions, starting from `start`.
pub open spec fn spec_sel_mulsum(
    start: nat,
    ys: Seq<nat>,
    bitmap: Seq<bool>,
    sel: bool,
    vals: Seq<nat>,
    k: nat,
    n: nat,
) -> nat
    decreases k,
{
    if k == 0 {
        start
    } else {
        let prev = spec_sel_mulsum(start, ys, bitmap, sel, vals, (k - 1) as nat, n);
        if bitmap[k - 1] == sel {
            (prev + (ys[k - 1] * vals[spec_count(bitmap, sel, (k - 1) as nat) as int]) % n) % n
        } else {
            prev
        }
    }
}

/// The unreduced bitmap-selected dot product with count-indexed values:
/// the sum of `ys[i] · vals[j]` over the first `k` positions with bitmap
/// entry `sel`, where `j` counts the selected positions.
pub open spec fn spec_sel_dot(
    ys: Seq<nat>,
    bitmap: Seq<bool>,
    sel: bool,
    vals: Seq<nat>,
    k: nat,
) -> nat
    decreases k,
{
    if k == 0 {
        0
    } else {
        let prev = spec_sel_dot(ys, bitmap, sel, vals, (k - 1) as nat);
        if bitmap[k - 1] == sel {
            prev + ys[k - 1] * vals[spec_count(bitmap, sel, (k - 1) as nat) as int]
        } else {
            prev
        }
    }
}

/// The unreduced bitmap-selected dot product with position-indexed
/// values: the sum of `ys[i] · full[i]` over the first `k` positions
/// with bitmap entry `sel`.
pub open spec fn spec_sel_dot_full(
    ys: Seq<nat>,
    bitmap: Seq<bool>,
    sel: bool,
    full: Seq<nat>,
    k: nat,
) -> nat
    decreases k,
{
    if k == 0 {
        0
    } else {
        let prev = spec_sel_dot_full(ys, bitmap, sel, full, (k - 1) as nat);
        if bitmap[k - 1] == sel {
            prev + ys[k - 1] * full[k - 1]
        } else {
            prev
        }
    }
}

/// Congruent factors have congruent products.
pub proof fn lemma_cong_mul(a1: int, a2: int, b1: int, b2: int, n: int)
    requires
        n > 0,
        a1 % n == b1 % n,
        a2 % n == b2 % n,
    ensures
        (a1 * a2) % n == (b1 * b2) % n,
{
    vstd::arithmetic::div_mod::lemma_mul_mod_noop_general(a1, a2, n);
    vstd::arithmetic::div_mod::lemma_mul_mod_noop_general(b1, b2, n);
}

/// Congruent terms have congruent sums.
pub proof fn lemma_cong_add(a1: int, a2: int, b1: int, b2: int, n: int)
    requires
        n > 0,
        a1 % n == b1 % n,
        a2 % n == b2 % n,
    ensures
        (a1 + a2) % n == (b1 + b2) % n,
{
    vstd::arithmetic::div_mod::lemma_add_mod_noop(a1, a2, n);
    vstd::arithmetic::div_mod::lemma_add_mod_noop(b1, b2, n);
}

/// Congruent terms have congruent differences.
pub proof fn lemma_cong_sub(a1: int, a2: int, b1: int, b2: int, n: int)
    requires
        n > 0,
        a1 % n == b1 % n,
        a2 % n == b2 % n,
    ensures
        (a1 - a2) % n == (b1 - b2) % n,
{
    vstd::arithmetic::div_mod::lemma_sub_mod_noop(a1, a2, n);
    vstd::arithmetic::div_mod::lemma_sub_mod_noop(b1, b2, n);
}

/// A selective accumulation is its start plus the unreduced selective
/// dot, modulo the order.
pub proof fn lemma_sel_mulsum_as_dot<P: Pairing>(
    start: nat,
    ys: Seq<nat>,
    bitmap: Seq<bool>,
    sel: bool,
    vals: Seq<nat>,
    k: nat,
)
    requires
        start < spec_order::<P>(),
        spec_order::<P>() > 1,
        k <= bitmap.len(),
    ensures
        spec_sel_mulsum(start, ys, bitmap, sel, vals, k, spec_order::<P>()) == (start
            + spec_sel_dot(ys, bitmap, sel, vals, k)) % spec_order::<P>(),
    decreases k,
{
    let n = spec_order::<P>() as int;
    if k == 0 {
        lemma_small_mod(start, n as nat);
    } else {
        lemma_sel_mulsum_as_dot::<P>(start, ys, bitmap, sel, vals, (k - 1) as nat);
        let d = spec_sel_dot(ys, bitmap, sel, vals, (k - 1) as nat) as int;
        if bitmap[k - 1] == sel {
            let term = (ys[k - 1] * vals[spec_count(bitmap, sel, (k - 1) as nat) as int]) as int;
            assert(spec_sel_mulsum(start, ys, bitmap, sel, vals, k, spec_order::<P>()) == ((
            start + d) % n + term % n) % n);
            vstd::arithmetic::div_mod::lemma_add_mod_noop(start + d, term, n);
            assert(((start + d) % n + term % n) % n == (start + d + term) % n);
            assert(spec_sel_dot(ys, bitmap, sel, vals, k) == d + term);
        } else {
            assert(spec_sel_mulsum(start, ys, bitmap, sel, vals, k, spec_order::<P>()) == (
            start + d) % n);
            assert(spec_sel_dot(ys, bitmap, sel, vals, k) == d);
        }
    }
}

/// An unreduced positionwise accumulation is its start plus the
/// unreduced dot, modulo the order.
pub proof fn lemma_lin_acc_as_dot<P: Pairing>(start: nat, ys: Seq<nat>, vals: Seq<nat>, k: nat)
    requires
        start < spec_order::<P>(),
        spec_order::<P>() > 1,
        k <= ys.len(),
    ensures
        spec_lin_acc(start, ys, vals, k, spec_order::<P>()) == (start + spec_sel_dot_full(
            ys,
            Seq::new(ys.len(), |i: int| true),
            true,
            vals,
            k,
        )) % spec_order::<P>(),
    decreases k,
{
    let n = spec_order::<P>() as int;
    let bm = Seq::new(ys.len(), |i: int| true);
    if k == 0 {
        lemma_small_mod(start, n as nat);
    } else {
        lemma_lin_acc_as_dot::<P>(start, ys, vals, (k - 1) as nat);
        let d = spec_sel_dot_full(ys, bm, true, vals, (k - 1) as nat) as int;
        let term = (ys[k - 1] * vals[k - 1]) as int;
        assert(spec_lin_acc(start, ys, vals, k, spec_order::<P>()) == ((start + d) % n + term
            % n) % n);
        vstd::arithmetic::div_mod::lemma_add_mod_noop(start + d, term, n);
        assert(((start + d) % n + term % n) % n == (start + d + term) % n);
        assert(spec_sel_dot_full(ys, bm, true, vals, k) == d + term);
    }
}

/// If each selected response is congruent to the challenge times the
/// attribute plus a blinding, the selective response dot is congruent to
/// the challenge times the attribute dot plus the blinding dot.
pub proof fn lemma_sel_dot_distributes<P: Pairing>(
    ys: Seq<nat>,
    bitmap: Seq<bool>,
    sel: bool,
    resp: Seq<nat>,
    full: Seq<nat>,
    betas: Seq<nat>,
    cfac: nat,
    k: nat,
)
    requires
        spec_order::<P>() > 1,
        k <= bitmap.len(),
        forall|i: int|
            0 <= i < k && bitmap[i] == sel ==> (#[trigger] resp[spec_count(
                bitmap,
                sel,
                i as nat,
            ) as int]) % spec_order::<P>() == (cfac * full[i] + betas[spec_count(
                bitmap,
                sel,
                i as nat,
            ) as int]) % spec_order::<P>(),
    ensures
        (spec_sel_dot(ys, bitmap, sel, resp, k) as int) % (spec_order::<P>() as int) == (
        cfac as int * (spec_sel_dot_full(ys, bitmap, sel, full, k) as int) + (spec_sel_dot(
            ys,
            bitmap,
            sel,
            betas,
            k,
        ) as int)) % (spec_order::<P>() as int),
    decreases k,
{
    let n = spec_order::<P>() as int;
    if k > 0 {
        lemma_sel_dot_distributes::<P>(ys, bitmap, sel, resp, full, betas, cfac, (k - 1) as nat);
        let dprev = spec_sel_dot(ys, bitmap, sel, resp, (k - 1) as nat) as int;
        let fprev = spec_sel_dot_full(ys, bitmap, sel, full, (k - 1) as nat) as int;
        let bprev = spec_sel_dot(ys, bitmap, sel, betas, (k - 1) as nat) as int;
        let cf = cfac as int;
        if bitmap[k - 1] == sel {
            let j = spec_count(bitmap, sel, (k - 1) as nat) as int;
            let y = ys[k - 1] as int;
            let f = full[k - 1] as int;
            let b = betas[j] as int;
            assert((resp[j] as int) % n == (cf * f + b) % n);
            assert((y * resp[j]) % n == (y * (cf * f + b)) % n) by {
                lemma_cong_mul(y, resp[j] as int, y, cf * f + b, n);
            }
            lemma_cong_add(dprev, y * resp[j], cf * fprev + bprev, y * (cf * f + b), n);
            assert(cf * fprev + bprev + y * (cf * f + b) == cf * (fprev + y * f) + (bprev + y
                * b)) by (nonlinear_arith);
            assert(spec_sel_dot(ys, bitmap, sel, resp, k) == dprev + y * (resp[j] as int));
            assert(spec_sel_dot_full(ys, bitmap, sel, full, k) == fprev + y * f);
            assert(spec_sel_dot(ys, bitmap, sel, betas, k) == bprev + y * b);
        } else {
            assert(spec_sel_dot(ys, bitmap, sel, resp, k) == dprev);
            assert(spec_sel_dot_full(ys, bitmap, sel, full, k) == fprev);
            assert(spec_sel_dot(ys, bitmap, sel, betas, k) == bprev);
        }
        vstd::arithmetic::mul::lemma_mul_nonnegative(
            cf,
            spec_sel_dot_full(ys, bitmap, sel, full, k) as int,
        );
        assert((spec_sel_dot(ys, bitmap, sel, resp, k) as int) % n == (cf * (
        spec_sel_dot_full(ys, bitmap, sel, full, k) as int) + (spec_sel_dot(
            ys,
            bitmap,
            sel,
            betas,
            k,
        ) as int)) % n);
    } else {
        lemma_small_mod(0, spec_order::<P>());
        assert(spec_sel_dot(ys, bitmap, sel, resp, 0) == 0);
        assert(spec_sel_dot_full(ys, bitmap, sel, full, 0) == 0);
        assert(spec_sel_dot(ys, bitmap, sel, betas, 0) == 0);
    }
}

/// A full dot product splits into its bitmap-hidden and bitmap-revealed
/// parts.
pub proof fn lemma_dot_split(ys: Seq<nat>, bitmap: Seq<bool>, vals: Seq<nat>, k: nat)
    requires
        k <= ys.len(),
        k <= bitmap.len(),
    ensures
        spec_sel_dot_full(ys, Seq::new(ys.len(), |i: int| true), true, vals, k)
            == spec_sel_dot_full(ys, bitmap, false, vals, k) + spec_sel_dot_full(
            ys,
            bitmap,
            true,
            vals,
            k,
        ),
    decreases k,
{
    if k > 0 {
        lemma_dot_split(ys, bitmap, vals, (k - 1) as nat);
    }
}

/// The accumulation `acc = (acc + (ys[i] · vals[i]) % n) % n` over the
/// first `k` positions, starting from `start`.
pub open spec fn spec_lin_acc(start: nat, ys: Seq<nat>, vals: Seq<nat>, k: nat, n: nat) -> nat
    decreases k,
{
    if k == 0 {
        start
    } else {
        (spec_lin_acc(start, ys, vals, (k - 1) as nat, n) + (ys[k - 1] * vals[k - 1]) % n) % n
    }
}

/// The residues of a sequence of scalars.
pub open spec fn spec_scalar_reps<S: ScalarField>(v: Seq<S>) -> Seq<nat> {
    v.map_values(|s: S| s.rep())
}

/// The logarithms of a sequence of G2 elements.
pub open spec fn spec_g2_reps<P: Pairing>(v: Seq<<P as Pairing>::G2>) -> Seq<nat> {
    v.map_values(|g: P::G2| g.rep())
}

/// A credential issuer's public key: generators of both source groups,
/// the key elements, and one G2 element per attribute position.
pub struct IssuerPublicKey<P: Pairing> {
    pub gen1: P::G1,
    pub zz1: P::G1,
    pub gen2: P::G2,
    pub xx2: P::G2,
    pub zz2: P::G2,
    pub yy2: Vec<P::G2>,
}

impl<P: Pairing> IssuerPublicKey<P> {
    pub open spec fn wf(&self) -> bool {
        &&& self.gen1.wf()
        &&& self.zz1.wf()
        &&& self.gen2.wf()
        &&& self.xx2.wf()
        &&& self.zz2.wf()
        &&& forall|i: int| 0 <= i < self.yy2@.len() ==> (#[trigger] self.yy2@[i]).wf()
    }

    /// The logarithms of the per-attribute elements.
    pub open spec fn yy2_reps(&self) -> Seq<nat> {
        spec_g2_reps::<P>(self.yy2@)
    }
}

/// A credential issuer's secret key.
pub struct IssuerSecretKey<P: Pairing> {
    pub x: P::ScalarType,
    pub z: P::ScalarType,
    pub y: Vec<P::ScalarType>,
}

impl<P: Pairing> IssuerSecretKey<P> {
    pub open spec fn wf(&self) -> bool {
        &&& self.x.rep() < spec_order::<P>()
        &&& self.z.rep() < spec_order::<P>()
        &&& forall|i: int|
            0 <= i < self.y@.len() ==> (#[trigger] self.y@[i]).rep() < spec_order::<P>()
    }

    pub open spec fn y_reps(&self) -> Seq<nat> {
        spec_scalar_reps(self.y@)
    }
}

/// A credential signature: a pair of G1 elements.
pub struct CredSignature<P: Pairing> {
    pub sigma1: P::G1,
    pub sigma2: P::G1,
}

/// The Sigma-protocol part of a reveal proof: a commitment and the
/// responses for the randomizer, the user secret, and each hidden
/// attribute, in position order.
pub struct CredPoK<P: Pairing> {
    pub commitment: P::G2,
    pub response_t: P::ScalarType,
    pub response_sk: P::ScalarType,
    pub response_attrs: Vec<P::ScalarType>,
}

impl<P: Pairing> CredPoK<P> {
    pub open spec fn wf(&self) -> bool {
        &&& self.commitment.wf()
        &&& self.response_t.rep() < spec_order::<P>()
        &&& self.response_sk.rep() < spec_order::<P>()
        &&& forall|i: int|
            0 <= i < self.response_attrs@.len() ==> (#[trigger] self.response_attrs@[i]).rep()
                < spec_order::<P>()
    }

    pub open spec fn response_attr_reps(&self) -> Seq<nat> {
        spec_scalar_reps(self.response_attrs@)
    }
}

/// A selective-disclosure reveal proof: a randomized credential
/// signature and a proof of knowledge of the hidden attributes.
pub struct AttrsRevealProof<P: Pairing> {
    pub sig: CredSignature<P>,
    pub pok: CredPoK<P>,
}

impl<P: Pairing> AttrsRevealProof<P> {
    pub open spec fn wf(&self) -> bool {
        &&& self.sig.sigma1.wf()
        &&& self.sig.sigma2.wf()
        &&& self.pok.wf()
    }
}

/// The Fiat-Shamir challenge of the credential protocol: the digest of
/// the commitment's compressed bytes, folded into the scalar field.
pub open spec fn spec_compute_challenge<P: Pairing>(com_rep: nat) -> nat {
    be_bytes_to_nat(
        sha512_model(<P::G2 as Group<P::ScalarType>>::compress_model(com_rep)),
    ) % spec_order::<P>()
}

/// I compute the credential protocol's Fiat-Shamir challenge from the
/// reveal proof's commitment.
pub fn compute_challenge<P: Pairing>(commitment: &P::G2) -> (c: P::ScalarType)
    requires
        commitment.wf(),
    ensures
        c.rep() == spec_compute_challenge::<P>(commitment.rep()),
        c.rep() < spec_order::<P>(),
{
    proof {
        commitment.wf_bound();
    }
    let bytes = commitment.to_compressed_bytes();
    let d = sha512(bytes.as_slice());
    scalar_from_be_bytes_mod_order::<P::ScalarType>(d.as_slice())
}

/// Generates an issuer key pair for `num_attrs` attribute positions.
pub fn gen_issuer_keys<P: Pairing>(prng: &mut ChaChaPrng, num_attrs: usize) -> (r: (
    IssuerPublicKey<P>,
    IssuerSecretKey<P>,
))
    ensures
        r.0.wf(),
        r.1.wf(),
        r.0.gen1.rep() == 1,
        r.0.gen2.rep() == 1,
        r.0.xx2.rep() == r.1.x.rep(),
        r.0.zz1.rep() == r.1.z.rep(),
        r.0.zz2.rep() == r.1.z.rep(),
        r.0.yy2@.len() == num_attrs,
        r.1.y@.len() == num_attrs,
        r.0.yy2_reps() == r.1.y_reps(),
{
    let x = scalar_sample::<P::ScalarType>(prng);
    let z = scalar_sample::<P::ScalarType>(prng);
    let gen1 = <P::G1 as Group<P::ScalarType>>::get_base();
    let gen2 = <P::G2 as Group<P::ScalarType>>::get_base();
    let xx2 = gen2.mul(&x);
    let zz1 = gen1.mul(&z);
    let zz2 = gen2.mul(&z);
    proof {
        lemma_small_mod(x.rep(), spec_order::<P>());
        lemma_small_mod(z.rep(), spec_order::<P>());
    }
    let mut y: Vec<P::ScalarType> = Vec::new();
    let mut yy2: Vec<P::G2> = Vec::new();
    let mut i: usize = 0;
    while i < num_attrs
        invariant
            i <= num_attrs,
            y@.len() == i,
            yy2@.len() == i,
            gen2.wf(),
            gen2.rep() == 1,
            forall|j: int| 0 <= j < i ==> (#[trigger] y@[j]).rep() < spec_order::<P>(),
            forall|j: int| 0 <= j < i ==> (#[trigger] yy2@[j]).wf(),
            forall|j: int| 0 <= j < i ==> (#[trigger] yy2@[j]).rep() == y@[j].rep(),
        decreases num_attrs - i,
    {
        let yi = scalar_sample::<P::ScalarType>(prng);
        let yy2i = gen2.mul(&yi);
        proof {
            lemma_small_mod(yi.rep(), spec_order::<P>());
        }
        y.push(yi);
        yy2.push(yy2i);
        i = i + 1;
    }
    let ipk = IssuerPublicKey::<P> { gen1, zz1, gen2, xx2, zz2, yy2 };
    let isk = IssuerSecretKey::<P> { x, z, y };
    proof {
        assert(ipk.yy2_reps() =~= isk.y_reps());
    }
    (ipk, isk)
}

/// Generates a user key pair under an issuer's public key: a random
/// secret scalar and the public element `zz1 · sk`.
pub fn gen_user_keys<P: Pairing>(prng: &mut ChaChaPrng, issuer_pk: &IssuerPublicKey<P>) -> (r: (
    P::G1,
    P::ScalarType,
))
    requires
        issuer_pk.wf(),
    ensures
        r.1.rep() < spec_order::<P>(),
        r.0.wf(),
        r.0.rep() == (issuer_pk.zz1.rep() * r.1.rep()) % spec_order::<P>(),
{
    let sk = scalar_sample::<P::ScalarType>(prng);
    let pk = issuer_pk.zz1.mul(&sk);
    (pk, sk)
}

/// I sign a user's attribute list: `sigma1` is a random multiple of the
/// G1 generator, and `sigma2` folds the issuer secret, the attributes
/// and the user's public element under the same randomizer.
pub fn issuer_sign<P: Pairing>(
    prng: &mut ChaChaPrng,
    issuer_sk: &IssuerSecretKey<P>,
    user_pk: &P::G1,
    attrs: Vec<P::ScalarType>,
) -> (sig: CredSignature<P>)
    requires
        issuer_sk.wf(),
        user_pk.wf(),
        attrs@.len() == issuer_sk.y@.len(),
        forall|i: int| 0 <= i < attrs@.len() ==> (#[trigger] attrs@[i]).rep() < spec_order::<P>(),
    ensures
        sig.sigma1.wf(),
        sig.sigma2.wf(),
        sig.sigma1.rep() < spec_order::<P>(),
        sig.sigma2.rep() == ((sig.sigma1.rep() * spec_lin_acc(
            issuer_sk.x.rep(),
            issuer_sk.y_reps(),
            spec_scalar_reps(attrs@),
            attrs@.len(),
            spec_order::<P>(),
        )) % spec_order::<P>() + (user_pk.rep() * sig.sigma1.rep()) % spec_order::<P>())
            % spec_order::<P>(),
{
    let u = scalar_sample::<P::ScalarType>(prng);
    let gen1 = <P::G1 as Group<P::ScalarType>>::get_base();
    let sigma1 = gen1.mul(&u);
    proof {
        lemma_small_mod(u.rep(), spec_order::<P>());
    }
    let mut acc = issuer_sk.x;
    let mut i: usize = 0;
    while i < attrs.len()
        invariant
            i <= attrs@.len(),
            attrs@.len() == issuer_sk.y@.len(),
            issuer_sk.wf(),
            forall|j: int|
                0 <= j < attrs@.len() ==> (#[trigger] attrs@[j]).rep() < spec_order::<P>(),
            acc.rep() == spec_lin_acc(
                issuer_sk.x.rep(),
                issuer_sk.y_reps(),
                spec_scalar_reps(attrs@),
                i as nat,
                spec_order::<P>(),
            ),
            acc.rep() < spec_order::<P>() || i == 0,
            i == 0 ==> acc.rep() == issuer_sk.x.rep(),
        decreases attrs@.len() - i,
    {
        let term = issuer_sk.y[i].mul(&attrs[i]);
        acc = acc.add(&term);
        i = i + 1;
    }
    let sigma2 = sigma1.mul(&acc).add(&user_pk.mul(&u));
    CredSignature::<P> { sigma1, sigma2 }
}

/// All the relations that an honest reveal proof satisfies, given the
/// randomizers `rr`, `tt` and the blinding residues `bt`, `bsk`, `bs`
/// (one per hidden position) that built it.
pub open spec fn spec_reveal_rel<P: Pairing>(
    proof: AttrsRevealProof<P>,
    sig: CredSignature<P>,
    issuer_pk: IssuerPublicKey<P>,
    user_sk_rep: nat,
    attr_reps: Seq<nat>,
    bitmap: Seq<bool>,
    rr: nat,
    tt: nat,
    bt: nat,
    bsk: nat,
    bs: Seq<nat>,
) -> bool {
    let n = spec_order::<P>();
    let cc = spec_compute_challenge::<P>(proof.pok.commitment.rep());
    &&& rr < n
    &&& tt < n
    &&& bt < n
    &&& bsk < n
    &&& bs.len() == spec_count(bitmap, false, bitmap.len())
    &&& forall|j: int| 0 <= j < bs.len() ==> #[trigger] bs[j] < n
    &&& proof.sig.sigma1.rep() == (sig.sigma1.rep() * rr) % n
    &&& proof.sig.sigma2.rep() == (((sig.sigma2.rep() + (sig.sigma1.rep() * tt) % n) % n) * rr)
        % n
    &&& proof.pok.commitment.rep() == spec_sel_mulsum(
        ((issuer_pk.gen2.rep() * bt) % n + (issuer_pk.zz2.rep() * bsk) % n) % n,
        issuer_pk.yy2_reps(),
        bitmap,
        false,
        bs,
        bitmap.len(),
        n,
    )
    &&& proof.pok.response_t.rep() == ((tt * cc) % n + bt) % n
    &&& proof.pok.response_sk.rep() == ((user_sk_rep * cc) % n + bsk) % n
    &&& proof.pok.response_attrs@.len() == spec_count(bitmap, false, bitmap.len())
    &&& forall|i: int|
        0 <= i < bitmap.len() && !bitmap[i] ==> (#[trigger] proof.pok.response_attr_reps()[
            spec_count(bitmap, false, i as nat) as int
        ]) == ((attr_reps[i] * cc) % n + bs[spec_count(bitmap, false, i as nat) as int]) % n
}

/// I produce a reveal proof for the attribute positions marked `true` in
/// the bitmap: the credential signature is randomized, and a Fiat-Shamir
/// proof of knowledge covers the randomizer, the user secret and each
/// hidden attribute. The proof is related to its inputs by
/// `spec_reveal_rel` for the randomizers drawn inside.
pub fn reveal_attrs<P: Pairing>(
    prng: &mut ChaChaPrng,
    user_sk: &P::ScalarType,
    issuer_pk: &IssuerPublicKey<P>,
    sig: &CredSignature<P>,
    attrs: &[P::ScalarType],
    bitmap: &[bool],
) -> (proof: AttrsRevealProof<P>)
    requires
        issuer_pk.wf(),
        sig.sigma1.wf(),
        sig.sigma2.wf(),
        user_sk.rep() < spec_order::<P>(),
        attrs@.len() == bitmap@.len(),
        bitmap@.len() == issuer_pk.yy2@.len(),
        forall|i: int| 0 <= i < attrs@.len() ==> (#[trigger] attrs@[i]).rep() < spec_order::<P>(),
    ensures
        proof.wf(),
        exists|rr: nat, tt: nat, bt: nat, bsk: nat, bs: Seq<nat>|
            spec_reveal_rel::<P>(
                proof,
                *sig,
                *issuer_pk,
                user_sk.rep(),
                spec_scalar_reps(attrs@),
                bitmap@,
                rr,
                tt,
                bt,
                bsk,
                bs,
            ),
{
    proof {
        <P::ScalarType as ScalarField>::order_facts();
    }
    let n_attrs = bitmap.len();
    let r = scalar_sample::<P::ScalarType>(prng);
    let t = scalar_sample::<P::ScalarType>(prng);
    let beta_t = scalar_sample::<P::ScalarType>(prng);
    let beta_sk = scalar_sample::<P::ScalarType>(prng);
    let sigma1 = sig.sigma1.mul(&r);
    let sigma2 = sig.sigma2.add(&sig.sigma1.mul(&t)).mul(&r);
    let mut com = issuer_pk.gen2.mul(&beta_t).add(&issuer_pk.zz2.mul(&beta_sk));
    let ghost com_start = com.rep();
    let mut betas: Vec<P::ScalarType> = Vec::new();
    let mut i: usize = 0;
    while i < n_attrs
        invariant
            n_attrs == bitmap@.len(),
            i <= bitmap@.len(),
            bitmap@.len() == issuer_pk.yy2@.len(),
            issuer_pk.wf(),
            com.wf(),
            betas@.len() == spec_count(bitmap@, false, i as nat),
            forall|j: int|
                0 <= j < betas@.len() ==> (#[trigger] betas@[j]).rep() < spec_order::<P>(),
            com.rep() == spec_sel_mulsum(
                com_start,
                issuer_pk.yy2_reps(),
                bitmap@,
                false,
                spec_scalar_reps(betas@),
                i as nat,
                spec_order::<P>(),
            ),
        decreases bitmap@.len() - i,
    {
        if !bitmap[i] {
            let b = scalar_sample::<P::ScalarType>(prng);
            proof {
                assert(spec_scalar_reps(betas@.push(b)).drop_last() =~= spec_scalar_reps(
                    betas@,
                ));
            }
            let term = issuer_pk.yy2[i].mul(&b);
            com = com.add(&term);
            betas.push(b);
            proof {
                assert(spec_scalar_reps(betas@)[spec_count(bitmap@, false, i as nat) as int]
                    == b.rep());
            }
        }
        proof {
            sel_mulsum_grow_lemma::<P>(
                com_start,
                issuer_pk.yy2_reps(),
                bitmap@,
                false,
                spec_scalar_reps(betas@),
                i as nat,
            );
        }
        i = i + 1;
    }
    let cc = compute_challenge::<P>(&com);
    let response_t = t.mul(&cc).add(&beta_t);
    let response_sk = user_sk.mul(&cc).add(&beta_sk);
    let mut response_attrs: Vec<P::ScalarType> = Vec::new();
    let mut k: usize = 0;
    while k < n_attrs
        invariant
            n_attrs == bitmap@.len(),
            k <= bitmap@.len(),
            bitmap@.len() == attrs@.len(),
            spec_order::<P>() > 1,
            cc.rep() < spec_order::<P>(),
            betas@.len() == spec_count(bitmap@, false, bitmap@.len()),
            forall|j: int|
                0 <= j < betas@.len() ==> (#[trigger] betas@[j]).rep() < spec_order::<P>(),
            forall|j: int|
                0 <= j < attrs@.len() ==> (#[trigger] attrs@[j]).rep() < spec_order::<P>(),
            response_attrs@.len() == spec_count(bitmap@, false, k as nat),
            forall|j: int|
                0 <= j < response_attrs@.len() ==> (#[trigger] response_attrs@[j]).rep()
                    < spec_order::<P>(),
            forall|i2: int|
                0 <= i2 < k && !bitmap@[i2] ==> (#[trigger] spec_scalar_reps(response_attrs@)[
                    spec_count(bitmap@, false, i2 as nat) as int
                ]) == ((attrs@[i2].rep() * cc.rep()) % spec_order::<P>() + spec_scalar_reps(
                    betas@,
                )[spec_count(bitmap@, false, i2 as nat) as int]) % spec_order::<P>(),
        decreases bitmap@.len() - k,
    {
        proof {
            count_mono_lemma(bitmap@, false, (k + 1) as nat, bitmap@.len());
            assert forall|i2: int| 0 <= i2 < k implies #[trigger] spec_count(
                bitmap@,
                false,
                (i2 + 1) as nat,
            ) <= spec_count(bitmap@, false, k as nat) by {
                count_mono_lemma(bitmap@, false, (i2 + 1) as nat, k as nat);
            }
        }
        let ghost old_resps = response_attrs@;
        if !bitmap[k] {
            proof {
                assert(spec_count(bitmap@, false, (k + 1) as nat) == spec_count(
                    bitmap@,
                    false,
                    k as nat,
                ) + 1);
            }
            let j = response_attrs.len();
            let resp = attrs[k].mul(&cc).add(&betas[j]);
            response_attrs.push(resp);
            proof {
                assert(spec_scalar_reps(response_attrs@).drop_last() =~= spec_scalar_reps(
                    old_resps,
                ));
                assert(spec_scalar_reps(response_attrs@)[spec_count(
                    bitmap@,
                    false,
                    k as nat,
                ) as int] == resp.rep());
                assert(spec_scalar_reps(betas@)[j as int] == betas@[j as int].rep());
            }
        }
        proof {
            let n = spec_order::<P>();
            assert forall|i2: int|
                0 <= i2 < k + 1 && !bitmap@[i2] implies (#[trigger] spec_scalar_reps(
                response_attrs@,
            )[spec_count(bitmap@, false, i2 as nat) as int]) == ((attrs@[i2].rep() * cc.rep())
                % n + spec_scalar_reps(betas@)[spec_count(bitmap@, false, i2 as nat) as int])
                % n by {
                if i2 < k {
                    count_mono_lemma(bitmap@, false, (i2 + 1) as nat, k as nat);
                    assert(spec_count(bitmap@, false, (i2 + 1) as nat) == spec_count(
                        bitmap@,
                        false,
                        i2 as nat,
                    ) + 1);
                    let c2 = spec_count(bitmap@, false, i2 as nat) as int;
                    assert(spec_scalar_reps(old_resps)[c2] == ((attrs@[i2].rep() * cc.rep())
                        % n + spec_scalar_reps(betas@)[c2]) % n);
                    assert(spec_scalar_reps(response_attrs@)[c2] == spec_scalar_reps(
                        old_resps,
                    )[c2]);
                }
            }
        }
        k = k + 1;
    }
    let proof_out = AttrsRevealProof::<P> {
        sig: CredSignature::<P> { sigma1, sigma2 },
        pok: CredPoK::<P> {
            commitment: com,
            response_t,
            response_sk,
            response_attrs,
        },
    };
    proof {
        let ghost rr = r.rep();
        let ghost tt = t.rep();
        let ghost bt = beta_t.rep();
        let ghost bsk = beta_sk.rep();
        let ghost bs = spec_scalar_reps(betas@);
        assert(spec_reveal_rel::<P>(
            proof_out,
            *sig,
            *issuer_pk,
            user_sk.rep(),
            spec_scalar_reps(attrs@),
            bitmap@,
            rr,
            tt,
            bt,
            bsk,
            bs,
        ));
    }
    proof_out
}


/// The acceptance condition of a direct credential reveal verification:
/// one pairing equation over the issuer key, the revealed attributes and
/// the reveal proof.
pub open spec fn spec_cred_verify_ok<P: Pairing>(
    ipk: IssuerPublicKey<P>,
    attr_reps: Seq<nat>,
    bitmap: Seq<bool>,
    proof: AttrsRevealProof<P>,
) -> bool {
    let n = spec_order::<P>();
    let cc = spec_compute_challenge::<P>(proof.pok.commitment.rep());
    let q = crate::identity::spec_constant_terms::<P>(cc, proof, ipk, bitmap);
    let rev_sum = spec_sel_mulsum(0, ipk.yy2_reps(), bitmap, true, attr_reps, bitmap.len(), n);
    let lhs = (q + ((rev_sum * cc) % n)) % n;
    let rhs = (ipk.gen2.rep() * cc) % n;
    (proof.sig.sigma1.rep() * lhs) % n == (proof.sig.sigma2.rep() * rhs) % n
}

/// I verify a credential reveal proof directly against the revealed
/// attribute values, one per bitmap-true position.
pub fn cred_verify<P: Pairing>(
    issuer_pk: &IssuerPublicKey<P>,
    attrs: &[P::ScalarType],
    bitmap: &[bool],
    proof: &AttrsRevealProof<P>,
) -> (res: Result<(), ZeiError>)
    requires
        issuer_pk.wf(),
        proof.wf(),
        bitmap@.len() == issuer_pk.yy2@.len(),
        forall|i: int| 0 <= i < attrs@.len() ==> (#[trigger] attrs@[i]).rep() < spec_order::<P>(),
    ensures
        res is Ok <==> attrs@.len() == spec_count(bitmap@, true, bitmap@.len())
            && proof.pok.response_attrs@.len() == spec_count(bitmap@, false, bitmap@.len())
            && spec_cred_verify_ok::<P>(
            *issuer_pk,
            spec_scalar_reps(attrs@),
            bitmap@,
            *proof,
        ),
        res matches Err(e) ==> e == ZeiError::ParameterError
            || e == ZeiError::IdentityRevealVerificationError,
        res == Err::<(), ZeiError>(ZeiError::ParameterError) <==> !(attrs@.len() == spec_count(
            bitmap@,
            true,
            bitmap@.len(),
        ) && proof.pok.response_attrs@.len() == spec_count(bitmap@, false, bitmap@.len())),
{
    proof {
        <P::ScalarType as ScalarField>::order_facts();
    }
    let n_attrs = bitmap.len();
    let count_revealed = crate::identity::count_bits(bitmap, true);
    let count_hidden = crate::identity::count_bits(bitmap, false);
    if attrs.len() != count_revealed || proof.pok.response_attrs.len() != count_hidden {
        return Err(ZeiError::ParameterError);
    }
    let cc = compute_challenge::<P>(&proof.pok.commitment);
    let q = crate::identity::constant_terms_addition::<P>(&cc, proof, issuer_pk, bitmap);
    let mut rev_sum = <P::G2 as Group<P::ScalarType>>::get_identity();
    let mut i: usize = 0;
    while i < n_attrs
        invariant
            n_attrs == bitmap@.len(),
            i <= bitmap@.len(),
            bitmap@.len() == issuer_pk.yy2@.len(),
            issuer_pk.wf(),
            attrs@.len() == spec_count(bitmap@, true, bitmap@.len()),
            forall|j: int|
                0 <= j < attrs@.len() ==> (#[trigger] attrs@[j]).rep() < spec_order::<P>(),
            rev_sum.wf(),
            rev_sum.rep() == spec_sel_mulsum(
                0,
                issuer_pk.yy2_reps(),
                bitmap@,
                true,
                spec_scalar_reps(attrs@),
                i as nat,
                spec_order::<P>(),
            ),
        decreases bitmap@.len() - i,
    {
        proof {
            count_mono_lemma(bitmap@, true, (i + 1) as nat, bitmap@.len());
        }
        if bitmap[i] {
            let idx = crate::identity::count_bits_prefix(bitmap, true, i);
            rev_sum = rev_sum.add(&issuer_pk.yy2[i].mul(&attrs[idx]));
        }
        i = i + 1;
    }
    let lhs = q.add(&rev_sum.mul(&cc));
    let rhs = issuer_pk.gen2.mul(&cc);
    let a = P::pairing(&proof.sig.sigma1, &lhs);
    let b = P::pairing(&proof.sig.sigma2, &rhs);
    if a.eq_elem(&b) {
        Ok(())
    } else {
        Err(ZeiError::IdentityRevealVerificationError)
    }
}

/// Counting selected positions is monotone in the prefix length.
pub proof fn count_mono_lemma(bitmap: Seq<bool>, sel: bool, k1: nat, k2: nat)
    requires
        k1 <= k2 <= bitmap.len(),
    ensures
        spec_count(bitmap, sel, k1) <= spec_count(bitmap, sel, k2),
    decreases k2 - k1,
{
    if k1 < k2 {
        count_mono_lemma(bitmap, sel, k1, (k2 - 1) as nat);
    }
}

/// Growing the value list beyond the consumed prefix does not change a
/// selective accumulation.
pub proof fn sel_mulsum_grow_lemma<P: Pairing>(
    start: nat,
    ys: Seq<nat>,
    bitmap: Seq<bool>,
    sel: bool,
    vals: Seq<nat>,
    k: nat,
)
    requires
        k <= bitmap.len(),
        spec_count(bitmap, sel, k) <= vals.len(),
    ensures
        forall|vals2: Seq<nat>|
            vals2.len() >= spec_count(bitmap, sel, k) && (forall|j: int|
                0 <= j < spec_count(bitmap, sel, k) ==> vals2[j] == vals[j])
                ==> #[trigger] spec_sel_mulsum(
                start,
                ys,
                bitmap,
                sel,
                vals2,
                k,
                spec_order::<P>(),
            ) == spec_sel_mulsum(start, ys, bitmap, sel, vals, k, spec_order::<P>()),
    decreases k,
{
    let n = spec_order::<P>();
    let cnt = spec_count(bitmap, sel, k);
    if k == 0 {
        assert forall|vals2: Seq<nat>|
            vals2.len() >= cnt && (forall|j: int| 0 <= j < cnt ==> vals2[j] == vals[j])
                implies #[trigger] spec_sel_mulsum(start, ys, bitmap, sel, vals2, k, n)
            == spec_sel_mulsum(start, ys, bitmap, sel, vals, k, n) by {
            assert(spec_sel_mulsum(start, ys, bitmap, sel, vals2, 0, n) == start);
        }
    } else {
        let cntp = spec_count(bitmap, sel, (k - 1) as nat);
        count_mono_lemma(bitmap, sel, (k - 1) as nat, k);
        sel_mulsum_grow_lemma::<P>(start, ys, bitmap, sel, vals, (k - 1) as nat);
        assert forall|vals2: Seq<nat>|
            vals2.len() >= cnt && (forall|j: int| 0 <= j < cnt ==> vals2[j] == vals[j])
                implies #[trigger] spec_sel_mulsum(start, ys, bitmap, sel, vals2, k, n)
            == spec_sel_mulsum(start, ys, bitmap, sel, vals, k, n) by {
            assert(spec_sel_mulsum(start, ys, bitmap, sel, vals2, (k - 1) as nat, n)
                == spec_sel_mulsum(start, ys, bitmap, sel, vals, (k - 1) as nat, n));
            if bitmap[k - 1] == sel {
                assert(cnt == cntp + 1);
                assert(vals2[cntp as int] == vals[cntp as int]);
            }
        }
    }
}

} // verus!
