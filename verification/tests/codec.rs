use zei::algebra::groups::{scalar_sample, Group, ScalarField};
use zei::algebra::ristretto::{RistrettoElement, RistrettoScalar};
use zei::b64::{b64_decode, b64_encode};
use zei::hashing::sha512;
use zei::prng::ChaChaPrng;

#[test]
fn base64_known_vectors() {
    assert_eq!(b"TWFu".to_vec(), b64_encode(b"Man"));
    assert_eq!(b"TWE=".to_vec(), b64_encode(b"Ma"));
    assert_eq!(b"TQ==".to_vec(), b64_encode(b"M"));
    assert_eq!(b"".to_vec(), b64_encode(b""));
    assert_eq!(b"aGVsbG8gd29ybGQ=".to_vec(), b64_encode(b"hello world"));

    assert_eq!(b"Man".to_vec(), b64_decode(b"TWFu").unwrap());
    assert_eq!(b"Ma".to_vec(), b64_decode(b"TWE=").unwrap());
    assert_eq!(b"M".to_vec(), b64_decode(b"TQ==").unwrap());
    assert_eq!(b"hello world".to_vec(), b64_decode(b"aGVsbG8gd29ybGQ=").unwrap());

    // malformed inputs are rejected
    assert!(b64_decode(b"TWF").is_none());
    assert!(b64_decode(b"T!==").is_none());
    // non-canonical trailing bits are rejected
    assert!(b64_decode(b"TR==").is_none());
}

#[test]
fn base64_round_trips() {
    let mut data: Vec<u8> = Vec::new();
    for i in 0..100u32 {
        let e = b64_encode(data.as_slice());
        let d = b64_decode(e.as_slice()).unwrap();
        assert_eq!(data, d);
        data.push((i * 37 + 11) as u8);
    }
}

#[test]
fn sha512_known_vector() {
    // the SHA-512 digest of the empty string
    let d = sha512(b"");
    assert_eq!(64, d.len());
    assert_eq!(0xcf, d[0]);
    assert_eq!(0x83, d[1]);
    assert_eq!(0xe1, d[2]);
    assert_eq!(0x35, d[3]);
    // distinct inputs give distinct digests
    let d2 = sha512(b"x");
    assert_ne!(d, d2);
}

#[test]
fn prng_is_deterministic() {
    let mut a = ChaChaPrng::from_seed([0u8; 32]);
    let mut b = ChaChaPrng::from_seed([0u8; 32]);
    let sa = scalar_sample::<RistrettoScalar>(&mut a);
    let sb = scalar_sample::<RistrettoScalar>(&mut b);
    assert!(sa.eq_scalar(&sb));
    let mut c = ChaChaPrng::from_seed([1u8; 32]);
    let sc = scalar_sample::<RistrettoScalar>(&mut c);
    assert!(!sa.eq_scalar(&sc));
}

#[test]
fn ristretto_scalar_codec() {
    let mut prng = ChaChaPrng::from_seed([0u8; 32]);
    let s = scalar_sample::<RistrettoScalar>(&mut prng);
    let bytes = s.to_bytes();
    assert_eq!(32, bytes.len());
    let back = RistrettoScalar::from_bytes(bytes.as_slice()).unwrap();
    assert!(s.eq_scalar(&back));
    // a non-canonical encoding is rejected
    assert!(RistrettoScalar::from_bytes(&[0xFFu8; 32]).is_none());
    // textual form
    let round = zei::serialization::scalar_text_round_trip::<RistrettoScalar>(&s);
    assert!(s.eq_scalar(&round));
}

#[test]
fn ristretto_group_ops() {
    let base = RistrettoElement::get_base();
    let id = RistrettoElement::get_identity();
    assert!(!base.eq_elem(&id));
    let two = RistrettoScalar::from_u32(2);
    assert!(base.add(&base).eq_elem(&base.mul(&two)));
    assert!(base.sub(&base).eq_elem(&id));
    let round =
        zei::algebra::groups::group_codec_round_trip::<RistrettoScalar, RistrettoElement>(&base);
    assert!(base.eq_elem(&round));
    // hashing to the group depends on the digest
    let d1 = sha512(b"one input");
    let d2 = sha512(b"two input");
    let p1 = RistrettoElement::from_hash(d1.as_slice());
    let p2 = RistrettoElement::from_hash(d2.as_slice());
    assert!(!p1.eq_elem(&p2));
}

#[test]
fn ristretto_ciphertext_bytes() {
    let mut prng = ChaChaPrng::from_seed([0u8; 32]);
    let base = RistrettoElement::get_base();
    let (_sk, pk) = zei::elgamal::elgamal_key_gen::<RistrettoScalar, RistrettoElement>(
        &mut prng,
        &base,
    );
    let m = RistrettoScalar::from_u32(100);
    let r = scalar_sample::<RistrettoScalar>(&mut prng);
    let ct = zei::elgamal::elgamal_encrypt(&base, &m, &r, &pk);
    let bytes = ct.zei_to_bytes();
    assert_eq!(64, bytes.len());
    let back =
        zei::elgamal::ElGamalCiphertext::<RistrettoElement>::zei_from_bytes(bytes.as_slice())
            .unwrap();
    assert!(ct.e1.eq_elem(&back.e1));
    assert!(ct.e2.eq_elem(&back.e2));
}
