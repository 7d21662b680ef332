use zei::algebra::bls12_381::{BLSScalar, BLSG1, BLSG2, BLSGt};
use zei::algebra::groups::{Group, ScalarField};
use zei::algebra::ristretto::{RistrettoElement, RistrettoScalar};
use zei::elgamal::{
    elgamal_decrypt_as_scalar, elgamal_decrypt_hinted, elgamal_encrypt, elgamal_key_gen,
    elgamal_verify,
};
use zei::errors::ZeiError;
use zei::prng::ChaChaPrng;

fn verification<S: ScalarField, G: Group<S>>() {
    let mut prng = ChaChaPrng::from_seed([0u8; 32]);
    let base = G::get_base();

    let (secret_key, public_key) = elgamal_key_gen::<S, G>(&mut prng, &base);

    let m = S::from_u32(100u32);
    let r = zei::algebra::groups::scalar_sample::<S>(&mut prng);
    let ctext = elgamal_encrypt::<S, G>(&base, &m, &r, &public_key);
    assert_eq!(Ok(()), elgamal_verify::<S, G>(&base, &m, &ctext, &secret_key));

    let wrong_m = S::from_u32(99u32);
    let err = elgamal_verify(&base, &wrong_m, &ctext, &secret_key)
        .err()
        .unwrap();
    assert_eq!(ZeiError::ElGamalVerificationError, err);
}

fn decryption<S: ScalarField, G: Group<S>>() {
    let mut prng = ChaChaPrng::from_seed([0u8; 32]);
    let base = G::get_base();

    let (secret_key, public_key) = elgamal_key_gen::<S, G>(&mut prng, &base);

    let mu32 = 100u32;
    let m = S::from_u32(mu32);
    let r = zei::algebra::groups::scalar_sample::<S>(&mut prng);
    let ctext = elgamal_encrypt(&base, &m, &r, &public_key);
    assert_eq!(Ok(()), elgamal_verify(&base, &m, &ctext, &secret_key));

    let recovered = elgamal_decrypt_as_scalar(&base, &ctext, &secret_key).unwrap();
    assert!(m.eq_scalar(&recovered));
    assert_eq!(
        mu32 as u64,
        elgamal_decrypt_hinted(&base, &ctext, &secret_key, 0, 200).unwrap()
    );

    let err = elgamal_decrypt_hinted(&base, &ctext, &secret_key, 0, 50)
        .err()
        .unwrap();
    assert_eq!(ZeiError::ElGamalDecryptionError, err);

    let err = elgamal_decrypt_hinted(&base, &ctext, &secret_key, 200, 300)
        .err()
        .unwrap();
    assert_eq!(ZeiError::ElGamalDecryptionError, err);

    let m = S::from_u64(u64::MAX);
    let ctext = elgamal_encrypt(&base, &m, &r, &public_key);
    assert_eq!(Ok(()), elgamal_verify(&base, &m, &ctext, &secret_key));

    let err = elgamal_decrypt_hinted(&base, &ctext, &secret_key, 200, 300)
        .err()
        .unwrap();
    assert_eq!(ZeiError::ElGamalDecryptionError, err);
}

fn serialize_to_text<S: ScalarField, G: Group<S>>() {
    let mut prng = ChaChaPrng::from_seed([0u8; 32]);
    let base = G::get_base();

    let (secret_key, public_key) = elgamal_key_gen::<S, G>(&mut prng, &base);

    // key serialization through the textual form
    let sk_round = zei::serialization::scalar_text_round_trip::<S>(&secret_key.get_scalar());
    assert!(secret_key.get_scalar().eq_scalar(&sk_round));

    let pk_round = zei::serialization::group_text_round_trip::<S, G>(&public_key.get_point());
    assert!(public_key.get_point().eq_elem(&pk_round));

    // ciphertext serialization: textual form of both components
    let m = S::from_u32(100u32);
    let r = zei::algebra::groups::scalar_sample::<S>(&mut prng);
    let ctext = elgamal_encrypt(&base, &m, &r, &public_key);
    let t1 = zei::serialization::group_to_text::<S, G>(&ctext.e1);
    let t2 = zei::serialization::group_to_text::<S, G>(&ctext.e2);
    let d1: G = zei::serialization::group_from_text::<S, G>(t1.as_slice()).unwrap();
    let d2: G = zei::serialization::group_from_text::<S, G>(t2.as_slice()).unwrap();
    assert!(ctext.e1.eq_elem(&d1));
    assert!(ctext.e2.eq_elem(&d2));
}

fn serialize_to_bytes<S: ScalarField, G: Group<S>>() {
    let mut prng = ChaChaPrng::from_seed([0u8; 32]);
    let base = G::get_base();

    let (secret_key, public_key) = elgamal_key_gen::<S, G>(&mut prng, &base);

    // key serialization through the raw byte form
    let sk_bytes = secret_key.get_scalar().to_bytes();
    let sk_round = S::from_bytes(sk_bytes.as_slice()).unwrap();
    assert!(secret_key.get_scalar().eq_scalar(&sk_round));

    let pk_bytes = public_key.get_point().to_compressed_bytes();
    let pk_round = G::from_compressed_bytes(pk_bytes.as_slice()).unwrap();
    assert!(public_key.get_point().eq_elem(&pk_round));

    // ciphertext serialization through the raw byte form
    let m = S::from_u32(100u32);
    let r = zei::algebra::groups::scalar_sample::<S>(&mut prng);
    let ctext = elgamal_encrypt(&base, &m, &r, &public_key);
    let bytes = zei::serialization::elgamal_ciphertext_to_bytes(&ctext);
    let ctext_de =
        zei::serialization::elgamal_ciphertext_from_bytes::<S, G>(bytes.as_slice()).unwrap();
    assert!(ctext.e1.eq_elem(&ctext_de.e1));
    assert!(ctext.e2.eq_elem(&ctext_de.e2));

    // malformed input is rejected
    assert!(matches!(
        zei::serialization::elgamal_ciphertext_from_bytes::<S, G>(&bytes.as_slice()[1..]),
        Err(ZeiError::DeserializationError)
    ));
}

#[test]
fn verify() {
    verification::<RistrettoScalar, RistrettoElement>();
    verification::<BLSScalar, BLSG1>();
    verification::<BLSScalar, BLSG2>();
    verification::<BLSScalar, BLSGt>();
}

#[test]
fn decrypt() {
    decryption::<RistrettoScalar, RistrettoElement>();
    decryption::<BLSScalar, BLSG1>();
    decryption::<BLSScalar, BLSG2>();
    decryption::<BLSScalar, BLSGt>();
}

#[test]
fn to_json() {
    serialize_to_text::<RistrettoScalar, RistrettoElement>();
    serialize_to_text::<BLSScalar, BLSG1>();
    serialize_to_text::<BLSScalar, BLSG2>();
}

#[test]
fn to_message_pack() {
    serialize_to_bytes::<RistrettoScalar, RistrettoElement>();
    serialize_to_bytes::<BLSScalar, BLSG1>();
    serialize_to_bytes::<BLSScalar, BLSG2>();
}
