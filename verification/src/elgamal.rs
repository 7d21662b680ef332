//! ElGamal encryption on the exponent, over any group backend.
//!
//! A ciphertext of plaintext exponent `m` under key `pk` with randomness
//! `r` is the pair `(base·r, base·m + pk·r)`. The scheme is additively
//! homomorphic on the exponent; plaintext recovery is only tractable by
//! bounded brute-force search, so decryption takes an explicit range and
//! costs one group operation per candidate.

use vstd::prelude::*;

verus! {

use crate::algebra::groups::{Group, ScalarField, scalar_sample};
use crate::errors::ZeiError;
use crate::prng::ChaChaPrng;
use vstd::arithmetic::div_mod::{
    lemma_add_mod_noop_right, lemma_mod_add_multiples_vanish, lemma_mod_bound,
    lemma_mul_mod_noop_left, lemma_small_mod, lemma_sub_mod_noop,
};
use vstd::arithmetic::mul::{lemma_mul_is_associative, lemma_mul_is_commutative,
    lemma_mul_is_distributive_add};

/// An ElGamal encryption key: `base · sk` for the decryption key `sk`.
#[derive(Clone, Copy)]
pub struct ElGamalEncKey<G>(pub G);

impl<G: Copy> ElGamalEncKey<G> {
    pub fn get_point(&self) -> (r: G)
        ensures
            r == self.0,
    {
        self.0
    }

    pub fn get_point_ref(&self) -> (r: &G)
        ensures
            r == &self.0,
    {
        &self.0
    }
}

/// An ElGamal decryption key: a scalar.
#[derive(Clone, Copy)]
pub struct ElGamalDecKey<S>(pub(crate) S);

impl<S: ScalarField> ElGamalDecKey<S> {
    /// The residue of the decryption scalar.
    pub closed spec fn rep(&self) -> nat {
        self.0.rep()
    }

    /// The decryption scalar itself.
    pub fn get_scalar(&self) -> (r: S)
        ensures
            r.rep() == self.rep(),
    {
        self.0
    }
}

/// An ElGamal ciphertext: `e1 = base·r`, `e2 = base·m + pk·r`.
#[derive(Clone, Copy)]
pub struct ElGamalCiphertext<G> {
    pub e1: G,
    pub e2: G,
}

/// The logarithm of `base·i` for a base with logarithm `b`, modulo `n`.
pub open spec fn spec_exp_rep(b: nat, i: nat, n: nat) -> nat {
    (b * i) % n
}

/// The residue that decryption recovers from a ciphertext with component
/// logarithms `e1`, `e2` under the key residue `k`, modulo `n`: the
/// logarithm of `e2 - e1·k`.
pub open spec fn spec_decrypt_rep(e1: nat, e2: nat, k: nat, n: nat) -> int {
    (e2 + n - (e1 * k) % n) % (n as int)
}

/// Generates an ElGamal key pair over `base`: a random decryption scalar
/// and the matching encryption key `base · sk`.
pub fn elgamal_key_gen<S: ScalarField, G: Group<S>>(prng: &mut ChaChaPrng, base: &G) -> (r: (
    ElGamalDecKey<S>,
    ElGamalEncKey<G>,
))
    requires
        base.wf(),
    ensures
        r.0.rep() < S::order(),
        (r.1).0.wf(),
        (r.1).0.rep() == (base.rep() * r.0.rep()) % S::order(),
{
    let secret_key = ElGamalDecKey(scalar_sample::<S>(prng));
    let public_key = ElGamalEncKey(base.mul(&secret_key.0));
    (secret_key, public_key)
}

/// I return an ElGamal ciphertext pair as (r*G, m*G + r*PK), where G is a
/// curve base point.
pub fn elgamal_encrypt<S: ScalarField, G: Group<S>>(
    base: &G,
    m: &S,
    r: &S,
    pub_key: &ElGamalEncKey<G>,
) -> (ct: ElGamalCiphertext<G>)
    requires
        base.wf(),
        pub_key.0.wf(),
        m.rep() < S::order(),
        r.rep() < S::order(),
    ensures
        ct.e1.wf(),
        ct.e2.wf(),
        ct.e1.rep() == (base.rep() * r.rep()) % S::order(),
        ct.e2.rep() == (base.rep() * m.rep() + pub_key.0.rep() * r.rep()) % S::order(),
{
    let e1 = base.mul(r);
    let e2 = base.mul(m).add(&pub_key.0.mul(r));
    proof {
        S::order_facts();
        let n = S::order() as int;
        let x = base.rep() * m.rep();
        let y = pub_key.0.rep() * r.rep();
        lemma_mul_mod_noop_left(x as int, 1, n);
        // ((x % n) + (y % n)) % n == (x + y) % n
        vstd::arithmetic::div_mod::lemma_add_mod_noop(x as int, y as int, n);
    }
    ElGamalCiphertext::<G> { e1, e2 }
}

/// I verify that ctext encrypts m: accepts exactly when
/// `base·m + e1·sk == e2`.
pub fn elgamal_verify<S: ScalarField, G: Group<S>>(
    base: &G,
    m: &S,
    ctext: &ElGamalCiphertext<G>,
    sec_key: &ElGamalDecKey<S>,
) -> (res: Result<(), ZeiError>)
    requires
        base.wf(),
        ctext.e1.wf(),
        ctext.e2.wf(),
        m.rep() < S::order(),
        sec_key.rep() < S::order(),
    ensures
        res is Ok <==> (base.rep() * m.rep() + ctext.e1.rep() * sec_key.rep()) % S::order()
            == ctext.e2.rep(),
        res matches Err(e) ==> e == ZeiError::ElGamalVerificationError,
{
    let lhs = base.mul(m).add(&ctext.e1.mul(&sec_key.0));
    proof {
        S::order_facts();
        let n = S::order() as int;
        vstd::arithmetic::div_mod::lemma_add_mod_noop(
            (base.rep() * m.rep()) as int,
            (ctext.e1.rep() * sec_key.rep()) as int,
            n,
        );
        lemma_mod_bound((base.rep() * m.rep() + ctext.e1.rep() * sec_key.rep()) as int, n);
    }
    if lhs.eq_elem(&ctext.e2) {
        Ok(())
    } else {
        Err(ZeiError::ElGamalVerificationError)
    }
}

/// ElGamal decryption: returns the group element `e2 - e1·sk`, which for
/// an honest ciphertext is `base·m`.
pub fn elgamal_decrypt_elem<S: ScalarField, G: Group<S>>(
    ctext: &ElGamalCiphertext<G>,
    sec_key: &ElGamalDecKey<S>,
) -> (r: G)
    requires
        ctext.e1.wf(),
        ctext.e2.wf(),
        sec_key.rep() < S::order(),
    ensures
        r.wf(),
        r.rep() == spec_decrypt_rep(
            ctext.e1.rep(),
            ctext.e2.rep(),
            sec_key.rep(),
            S::order(),
        ),
{
    ctext.e2.sub(&ctext.e1.mul(&sec_key.0))
}

/// I search the exponent by brute force: the least `i` in
/// `[lower_bound, upper_bound)` with `base·i == encoded`, or a
/// decryption error when no exponent in the range matches.
pub fn brute_force<S: ScalarField, G: Group<S>>(
    base: &G,
    encoded: &G,
    lower_bound: u64,
    upper_bound: u64,
) -> (res: Result<u64, ZeiError>)
    requires
        base.wf(),
        encoded.wf(),
    ensures
        match res {
            Ok(i) => lower_bound <= i < upper_bound && spec_exp_rep(base.rep(), i as nat, S::order())
                == encoded.rep() && (forall|j: u64|
                lower_bound <= j < i ==> #[trigger] spec_exp_rep(base.rep(), j as nat, S::order()) != encoded.rep()),
            Err(e) => e == ZeiError::ElGamalDecryptionError && (forall|j: u64|
                lower_bound <= j < upper_bound ==> #[trigger] spec_exp_rep(base.rep(), j as nat, S::order())
                    != encoded.rep()),
        },
{
    proof {
        S::order_facts();
    }
    let mut b = base.mul(&S::from_u64(lower_bound));
    let mut i: u64 = lower_bound;
    while i < upper_bound
        invariant
            base.wf(),
            encoded.wf(),
            b.wf(),
            lower_bound <= i,
            i <= upper_bound || i == lower_bound,
            S::order() > 0x1_0000_0000_0000_0000,
            b.rep() == spec_exp_rep(base.rep(), i as nat, S::order()),
            forall|j: u64|
                lower_bound <= j < i ==> #[trigger] spec_exp_rep(base.rep(), j as nat, S::order()) != encoded.rep(),
        decreases upper_bound - i,
    {
        if b.eq_elem(encoded) {
            return Ok(i);
        }
        let b2 = b.add(base);
        proof {
            let n = S::order() as int;
            base.wf_bound();
            lemma_small_mod(base.rep(), S::order());
            vstd::arithmetic::div_mod::lemma_add_mod_noop(
                (base.rep() * i) as int,
                base.rep() as int,
                n,
            );
            lemma_mul_is_distributive_add(base.rep() as int, i as int, 1);
            assert(base.rep() * (i + 1) == base.rep() * i + base.rep());
        }
        b = b2;
        i = i + 1;
    }
    Err(ZeiError::ElGamalDecryptionError)
}

/// I decrypt an ElGamal ciphertext on the exponent via brute force in the
/// range [lower_bound..upper_bound). Cost is one group operation per
/// candidate exponent.
pub fn elgamal_decrypt_hinted<S: ScalarField, G: Group<S>>(
    base: &G,
    ctext: &ElGamalCiphertext<G>,
    sec_key: &ElGamalDecKey<S>,
    lower_bound: u64,
    upper_bound: u64,
) -> (res: Result<u64, ZeiError>)
    requires
        base.wf(),
        ctext.e1.wf(),
        ctext.e2.wf(),
        sec_key.rep() < S::order(),
    ensures
        match res {
            Ok(i) => lower_bound <= i < upper_bound && spec_exp_rep(base.rep(), i as nat, S::order())
                == spec_decrypt_rep(
                ctext.e1.rep(),
                ctext.e2.rep(),
                sec_key.rep(),
                S::order(),
            ) && (forall|j: u64|
                lower_bound <= j < i ==> #[trigger] spec_exp_rep(base.rep(), j as nat, S::order()) != spec_decrypt_rep(
                    ctext.e1.rep(),
                    ctext.e2.rep(),
                    sec_key.rep(),
                    S::order(),
                )),
            Err(e) => e == ZeiError::ElGamalDecryptionError && (forall|j: u64|
                lower_bound <= j < upper_bound ==> #[trigger] spec_exp_rep(base.rep(), j as nat, S::order())
                    != spec_decrypt_rep(
                    ctext.e1.rep(),
                    ctext.e2.rep(),
                    sec_key.rep(),
                    S::order(),
                )),
        },
{
    let encoded = elgamal_decrypt_elem(ctext, sec_key);
    brute_force::<S, G>(base, &encoded, lower_bound, upper_bound)
}

/// I decrypt an ElGamal ciphertext on the exponent via brute force.
/// Fails with a decryption error if the value is not in [0..2^32).
pub fn elgamal_decrypt<S: ScalarField, G: Group<S>>(
    base: &G,
    ctext: &ElGamalCiphertext<G>,
    sec_key: &ElGamalDecKey<S>,
) -> (res: Result<u64, ZeiError>)
    requires
        base.wf(),
        ctext.e1.wf(),
        ctext.e2.wf(),
        sec_key.rep() < S::order(),
    ensures
        match res {
            Ok(i) => i < 0x1_0000_0000 && spec_exp_rep(base.rep(), i as nat, S::order()) == spec_decrypt_rep(
                ctext.e1.rep(),
                ctext.e2.rep(),
                sec_key.rep(),
                S::order(),
            ) && (forall|j: u64|
                j < i ==> #[trigger] spec_exp_rep(base.rep(), j as nat, S::order()) != spec_decrypt_rep(
                    ctext.e1.rep(),
                    ctext.e2.rep(),
                    sec_key.rep(),
                    S::order(),
                )),
            Err(e) => e == ZeiError::ElGamalDecryptionError && (forall|j: u64|
                j < 0x1_0000_0000 ==> #[trigger] spec_exp_rep(base.rep(), j as nat, S::order()) != spec_decrypt_rep(
                    ctext.e1.rep(),
                    ctext.e2.rep(),
                    sec_key.rep(),
                    S::order(),
                )),
        },
{
    elgamal_decrypt_hinted::<S, G>(base, ctext, sec_key, 0, (u32::MAX as u64) + 1)
}

/// I decrypt an ElGamal ciphertext on the exponent via brute force and
/// return the recovered exponent as a scalar.
pub fn elgamal_decrypt_as_scalar<S: ScalarField, G: Group<S>>(
    base: &G,
    ctext: &ElGamalCiphertext<G>,
    sec_key: &ElGamalDecKey<S>,
) -> (res: Result<S, ZeiError>)
    requires
        base.wf(),
        ctext.e1.wf(),
        ctext.e2.wf(),
        sec_key.rep() < S::order(),
    ensures
        res matches Ok(s) ==> s.rep() < 0x1_0000_0000 && (base.rep() * s.rep()) % S::order()
            == spec_decrypt_rep(ctext.e1.rep(), ctext.e2.rep(), sec_key.rep(), S::order()),
        res matches Err(e) ==> e == ZeiError::ElGamalDecryptionError && (forall|j: u64|
            j < 0x1_0000_0000 ==> #[trigger] spec_exp_rep(base.rep(), j as nat, S::order()) != spec_decrypt_rep(
                ctext.e1.rep(),
                ctext.e2.rep(),
                sec_key.rep(),
                S::order(),
            )),
{
    match elgamal_decrypt(base, ctext, sec_key) {
        Ok(i) => Ok(S::from_u64(i)),
        Err(e) => Err(e),
    }
}

/// Law: brute-force decryption of an honest ciphertext over the
/// generator recovers exactly the plaintext exponent — a candidate
/// exponent matches the decrypted element precisely when it equals the
/// plaintext, so a search range containing the plaintext returns it and
/// one not containing it must fail.
pub proof fn lemma_decrypt_hinted_exact<S: ScalarField, G: Group<S>>(
    base: G,
    m: S,
    r: S,
    sk: S,
    pk: G,
    ct: ElGamalCiphertext<G>,
    j: u64,
)
    requires
        base.wf(),
        base.rep() == 1,
        m.rep() < S::order(),
        r.rep() < S::order(),
        sk.rep() < S::order(),
        pk.rep() == (base.rep() * sk.rep()) % S::order(),
        ct.e1.rep() == (base.rep() * r.rep()) % S::order(),
        ct.e2.rep() == (base.rep() * m.rep() + pk.rep() * r.rep()) % S::order(),
    ensures
        spec_exp_rep(base.rep(), j as nat, S::order()) == spec_decrypt_rep(
            ct.e1.rep(),
            ct.e2.rep(),
            sk.rep(),
            S::order(),
        ) <==> j == m.rep(),
{
    S::order_facts();
    lemma_elgamal_encrypt_verify(base, m, r, sk, pk, ct);
    lemma_small_mod(m.rep(), S::order());
    lemma_small_mod(j as nat, S::order());
    assert(1 * m.rep() == m.rep());
    assert(1 * (j as nat) == j as nat);
}

/// Law: a ciphertext honestly encrypted to `pk = base·sk` verifies
/// against its plaintext, and decryption recovers the element `base·m`.
pub proof fn lemma_elgamal_encrypt_verify<S: ScalarField, G: Group<S>>(
    base: G,
    m: S,
    r: S,
    sk: S,
    pk: G,
    ct: ElGamalCiphertext<G>,
)
    requires
        base.wf(),
        m.rep() < S::order(),
        r.rep() < S::order(),
        sk.rep() < S::order(),
        pk.rep() == (base.rep() * sk.rep()) % S::order(),
        ct.e1.rep() == (base.rep() * r.rep()) % S::order(),
        ct.e2.rep() == (base.rep() * m.rep() + pk.rep() * r.rep()) % S::order(),
    ensures
        (base.rep() * m.rep() + ct.e1.rep() * sk.rep()) % S::order() == ct.e2.rep(),
        spec_decrypt_rep(ct.e1.rep(), ct.e2.rep(), sk.rep(), S::order()) == (base.rep()
            * m.rep()) % S::order(),
{
    S::order_facts();
    let n = S::order() as int;
    let b = base.rep() as int;
    let mm = m.rep() as int;
    let rr = r.rep() as int;
    let k = sk.rep() as int;
    // The cross terms agree: ((b·k)%n)·r ≡ b·k·r ≡ ((b·r)%n)·k (mod n).
    lemma_mul_mod_noop_left(b * k, rr, n);
    lemma_mul_mod_noop_left(b * rr, k, n);
    lemma_mul_is_associative(b, k, rr);
    lemma_mul_is_associative(b, rr, k);
    lemma_mul_is_commutative(k, rr);
    assert(b * k * rr == b * rr * k);
    let a1 = ((b * k) % n) * rr;
    let a2 = ((b * rr) % n) * k;
    assert(a1 % n == a2 % n);
    // Verification: (b·m + e1·k) % n == e2.
    lemma_add_mod_noop_right(b * mm, a2, n);
    lemma_add_mod_noop_right(b * mm, a1, n);
    assert((b * mm + a2) % n == (b * mm + a1) % n);
    // Decryption: subtracting the shared mask recovers b·m.
    let x = b * mm;
    lemma_mod_bound(a1, n);
    lemma_mod_bound((x + a1) % n - a1 % n, n);
    lemma_mod_add_multiples_vanish((x + a1) % n - a1 % n, n);
    lemma_sub_mod_noop(x + a1, a1, n);
    vstd::arithmetic::div_mod::lemma_mod_twice(x + a1, n);
    assert(((x + a1) % n - a1 % n) % n == x % n);
    assert(spec_decrypt_rep(ct.e1.rep(), ct.e2.rep(), sk.rep(), S::order()) == ((x + a1) % n
        + n - a2 % n) % n);
}

} // verus!
