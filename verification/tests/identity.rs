use zei::algebra::bls12_381::{BLSScalar, Bls12381, BLSG1};
use zei::algebra::groups::{scalar_sample, Group, ScalarField};
use zei::credentials::{gen_issuer_keys, gen_user_keys, issuer_sign, reveal_attrs};
use zei::elgamal::{elgamal_encrypt, elgamal_key_gen};
use zei::errors::ZeiError;
use zei::identity::{pok_attrs_prove, pok_attrs_verify};
use zei::prng::ChaChaPrng;

struct RevealCase {
    ipk: zei::credentials::IssuerPublicKey<Bls12381>,
    asset_pk: zei::elgamal::ElGamalEncKey<BLSG1>,
    proof: zei::credentials::AttrsRevealProof<Bls12381>,
    ctext: zei::elgamal::ElGamalCiphertext<BLSG1>,
    pok: zei::identity::PoKAttrs<Bls12381>,
}

fn honest_case() -> RevealCase {
    let mut prng = ChaChaPrng::from_seed([0u8; 32]);
    let (ipk, isk) = gen_issuer_keys::<Bls12381>(&mut prng, 3);

    let (_asset_sk, asset_pk) =
        elgamal_key_gen::<BLSScalar, BLSG1>(&mut prng, &BLSG1::get_base());

    let (upk, usk) = gen_user_keys::<Bls12381>(&mut prng, &ipk);

    let attr1 = scalar_sample::<BLSScalar>(&mut prng);
    let attr2 = scalar_sample::<BLSScalar>(&mut prng);
    let attr3 = scalar_sample::<BLSScalar>(&mut prng);

    let signature = issuer_sign::<Bls12381>(&mut prng, &isk, &upk, vec![attr1, attr2, attr3]);

    let proof = reveal_attrs::<Bls12381>(
        &mut prng,
        &usk,
        &ipk,
        &signature,
        &[attr1, attr2, attr3],
        &[false, true, false],
    );

    let rand = scalar_sample::<BLSScalar>(&mut prng);
    let ctext = elgamal_encrypt(&BLSG1::get_base(), &attr2, &rand, &asset_pk);
    let pok = pok_attrs_prove::<Bls12381>(
        &mut prng,
        &[attr2],
        &ipk,
        &asset_pk,
        &[rand],
        &[false, true, false],
    )
    .unwrap();

    RevealCase { ipk, asset_pk, proof, ctext, pok }
}

#[test]
fn identity_one_confidential_reveal() {
    let case = honest_case();
    let vrfy = pok_attrs_verify::<Bls12381>(
        &case.proof,
        &[case.ctext],
        &case.pok,
        &case.ipk,
        &case.asset_pk,
        &[false, true, false],
    );
    assert_eq!(Ok(()), vrfy);
}

#[test]
fn identity_tampered_response_fails() {
    let mut case = honest_case();
    let one = BLSScalar::from_u32(1);
    case.pok.attr_responses[0] = case.pok.attr_responses[0].add(&one);
    let vrfy = pok_attrs_verify::<Bls12381>(
        &case.proof,
        &[case.ctext],
        &case.pok,
        &case.ipk,
        &case.asset_pk,
        &[false, true, false],
    );
    assert_eq!(Err(ZeiError::IdentityRevealVerificationError), vrfy);

    let mut case2 = honest_case();
    case2.pok.rand_responses[0] = case2.pok.rand_responses[0].add(&one);
    let vrfy2 = pok_attrs_verify::<Bls12381>(
        &case2.proof,
        &[case2.ctext],
        &case2.pok,
        &case2.ipk,
        &case2.asset_pk,
        &[false, true, false],
    );
    assert_eq!(Err(ZeiError::IdentityRevealVerificationError), vrfy2);
}

#[test]
fn identity_tampered_commitment_fails() {
    let mut case = honest_case();
    case.pok.attr_commitments[0] = case.pok.attr_commitments[0].add(&BLSG1::get_base());
    let vrfy = pok_attrs_verify::<Bls12381>(
        &case.proof,
        &[case.ctext],
        &case.pok,
        &case.ipk,
        &case.asset_pk,
        &[false, true, false],
    );
    assert_eq!(Err(ZeiError::IdentityRevealVerificationError), vrfy);

    let mut case2 = honest_case();
    case2.pok.attr_blind_cred_commitment =
        case2.pok.attr_blind_cred_commitment.add(&case2.ipk.gen2);
    let vrfy2 = pok_attrs_verify::<Bls12381>(
        &case2.proof,
        &[case2.ctext],
        &case2.pok,
        &case2.ipk,
        &case2.asset_pk,
        &[false, true, false],
    );
    assert_eq!(Err(ZeiError::IdentityRevealVerificationError), vrfy2);
}

#[test]
fn identity_mismatched_bitmap_fails() {
    let case = honest_case();
    // same cardinality, different position: the credential linking breaks
    let vrfy = pok_attrs_verify::<Bls12381>(
        &case.proof,
        &[case.ctext],
        &case.pok,
        &case.ipk,
        &case.asset_pk,
        &[true, false, false],
    );
    assert!(vrfy.is_err());

    // different cardinality: a parameter error
    let case2 = honest_case();
    let vrfy2 = pok_attrs_verify::<Bls12381>(
        &case2.proof,
        &[case2.ctext],
        &case2.pok,
        &case2.ipk,
        &case2.asset_pk,
        &[true, true, false],
    );
    assert_eq!(Err(ZeiError::ParameterError), vrfy2);
}

#[test]
fn identity_prove_rejects_count_mismatch() {
    let mut prng = ChaChaPrng::from_seed([0u8; 32]);
    let (ipk, _isk) = gen_issuer_keys::<Bls12381>(&mut prng, 3);
    let (_sk, asset_pk) = elgamal_key_gen::<BLSScalar, BLSG1>(&mut prng, &BLSG1::get_base());
    let a = scalar_sample::<BLSScalar>(&mut prng);
    let r = scalar_sample::<BLSScalar>(&mut prng);
    // two attributes supplied for one true position
    let res = pok_attrs_prove::<Bls12381>(
        &mut prng,
        &[a, a],
        &ipk,
        &asset_pk,
        &[r],
        &[false, true, false],
    );
    assert!(matches!(res, Err(ZeiError::ParameterError)));
}
