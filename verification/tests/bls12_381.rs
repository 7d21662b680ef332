use zei::algebra::bls12_381::{BLSScalar, Bls12381, BLSG1, BLSG2, BLSGt};
use zei::algebra::groups::{scalar_sample, Group, Pairing, ScalarField};
use zei::credentials::{
    cred_verify, gen_issuer_keys, gen_user_keys, issuer_sign, reveal_attrs,
};
use zei::prng::ChaChaPrng;

#[test]
fn test_scalar_ops() {
    let mut prng = ChaChaPrng::from_seed([0u8; 32]);
    let a = scalar_sample::<BLSScalar>(&mut prng);
    let b = scalar_sample::<BLSScalar>(&mut prng);
    let zero = BLSScalar::from_u32(0);
    let one = BLSScalar::from_u32(1);

    // addition and multiplication agree with small constants
    let two = BLSScalar::from_u32(2);
    assert!(one.add(&one).eq_scalar(&two));
    assert!(BLSScalar::from_u32(6).eq_scalar(&BLSScalar::from_u32(2).mul(
        &BLSScalar::from_u32(3)
    )));
    assert!(BLSScalar::from_u64(1 << 40).eq_scalar(&BLSScalar::from_u32(1 << 20).mul(
        &BLSScalar::from_u32(1 << 20)
    )));

    // commutativity and identities
    assert!(a.add(&b).eq_scalar(&b.add(&a)));
    assert!(a.mul(&b).eq_scalar(&b.mul(&a)));
    assert!(a.add(&zero).eq_scalar(&a));
    assert!(a.mul(&one).eq_scalar(&a));

    // subtraction and inversion undo
    assert!(a.add(&b).sub(&b).eq_scalar(&a));
    let c = a.add(&one);  // nonzero with overwhelming probability
    assert!(c.mul(&c.inv()).eq_scalar(&one));
}

#[test]
fn scalar_deser() {
    let mut prng = ChaChaPrng::from_seed([0u8; 32]);
    let a = scalar_sample::<BLSScalar>(&mut prng);
    let bytes = a.to_bytes();
    assert_eq!(32, bytes.len());
    let back = BLSScalar::from_bytes(bytes.as_slice()).unwrap();
    assert!(a.eq_scalar(&back));

    // a short byte string is rejected
    assert!(BLSScalar::from_bytes(&bytes.as_slice()[1..]).is_none());
    // a value at or above the field order is rejected: 32 0xFF bytes
    let big = [0xFFu8; 32];
    assert!(BLSScalar::from_bytes(&big).is_none());
}

fn group_codec<G: Group<BLSScalar>>() {
    let mut prng = ChaChaPrng::from_seed([7u8; 32]);
    let s = scalar_sample::<BLSScalar>(&mut prng);
    let p = G::get_base().mul(&s);
    let q = zei::algebra::groups::group_codec_round_trip::<BLSScalar, G>(&p);
    assert!(p.eq_elem(&q));
    let t = zei::serialization::group_text_round_trip::<BLSScalar, G>(&p);
    assert!(p.eq_elem(&t));
}

#[test]
fn verification_g1() {
    group_codec::<BLSG1>();
    // hashing to the group depends on the digest: two messages map to
    // distinct elements
    let h1 = zei::bls::bls_hash_message::<Bls12381>(b"a message");
    let h2 = zei::bls::bls_hash_message::<Bls12381>(b"another message");
    assert!(!h1.eq_elem(&h2));
}

#[test]
fn decryption_g1() {
    // the identity and the base differ, and scalar multiples compose
    let base = BLSG1::get_base();
    let id = BLSG1::get_identity();
    assert!(!base.eq_elem(&id));
    let two = BLSScalar::from_u32(2);
    let three = BLSScalar::from_u32(3);
    let six = BLSScalar::from_u32(6);
    assert!(base.mul(&two).mul(&three).eq_elem(&base.mul(&six)));
    assert!(base.mul(&two).sub(&base).eq_elem(&base));
}

#[test]
fn to_json_g1() {
    let base = BLSG1::get_base();
    let text = zei::serialization::group_to_text::<BLSScalar, BLSG1>(&base);
    // base64 of 48 bytes is 64 characters
    assert_eq!(64, text.len());
    let back: BLSG1 =
        zei::serialization::group_from_text::<BLSScalar, BLSG1>(text.as_slice()).unwrap();
    assert!(base.eq_elem(&back));
    assert!(zei::serialization::group_from_text::<BLSScalar, BLSG1>(b"!!!not base64!!!")
        .is_err());
}

#[test]
fn to_message_pack_g1() {
    let mut prng = ChaChaPrng::from_seed([3u8; 32]);
    let s = scalar_sample::<BLSScalar>(&mut prng);
    let p = BLSG1::get_base().mul(&s);
    let bytes = p.to_compressed_bytes();
    assert_eq!(48, bytes.len());
    let back = BLSG1::from_compressed_bytes(bytes.as_slice()).unwrap();
    assert!(p.eq_elem(&back));
    assert!(BLSG1::from_compressed_bytes(&bytes.as_slice()[1..]).is_none());
}

#[test]
fn verification_g2() {
    group_codec::<BLSG2>();
}

#[test]
fn decryption_g2() {
    let base = BLSG2::get_base();
    let id = BLSG2::get_identity();
    assert!(!base.eq_elem(&id));
    let two = BLSScalar::from_u32(2);
    assert!(base.add(&base).eq_elem(&base.mul(&two)));
}

#[test]
fn to_json_g2() {
    let base = BLSG2::get_base();
    let text = zei::serialization::group_to_text::<BLSScalar, BLSG2>(&base);
    let back: BLSG2 =
        zei::serialization::group_from_text::<BLSScalar, BLSG2>(text.as_slice()).unwrap();
    assert!(base.eq_elem(&back));
}

#[test]
fn to_message_pack_g2() {
    let mut prng = ChaChaPrng::from_seed([4u8; 32]);
    let s = scalar_sample::<BLSScalar>(&mut prng);
    let p = BLSG2::get_base().mul(&s);
    let bytes = p.to_compressed_bytes();
    assert_eq!(96, bytes.len());
    let back = BLSG2::from_compressed_bytes(bytes.as_slice()).unwrap();
    assert!(p.eq_elem(&back));
}

#[test]
fn verification_gt() {
    // bilinearity: e(a·P, b·Q) == e(P, Q)^(a·b)
    let a = BLSScalar::from_u32(5);
    let b = BLSScalar::from_u32(7);
    let ab = BLSScalar::from_u32(35);
    let p = BLSG1::get_base().mul(&a);
    let q = BLSG2::get_base().mul(&b);
    let lhs = Bls12381::pairing(&p, &q);
    let rhs = BLSGt::get_base().mul(&ab);
    assert!(lhs.eq_elem(&rhs));
}

#[test]
fn decryption_gt() {
    let base = BLSGt::get_base();
    let id = BLSGt::get_identity();
    assert!(!base.eq_elem(&id));
    let two = BLSScalar::from_u32(2);
    assert!(base.add(&base).eq_elem(&base.mul(&two)));
    assert!(base.add(&base).sub(&base).eq_elem(&base));
}

#[test]
fn to_json_gt() {
    let base = BLSGt::get_base();
    let text = zei::serialization::group_to_text::<BLSScalar, BLSGt>(&base);
    let back: BLSGt =
        zei::serialization::group_from_text::<BLSScalar, BLSGt>(text.as_slice()).unwrap();
    assert!(base.eq_elem(&back));
}

#[test]
fn to_message_pack_gt() {
    let mut prng = ChaChaPrng::from_seed([5u8; 32]);
    let s = scalar_sample::<BLSScalar>(&mut prng);
    let p = BLSGt::get_base().mul(&s);
    let bytes = p.to_compressed_bytes();
    assert_eq!(576, bytes.len());
    let back = BLSGt::from_compressed_bytes(bytes.as_slice()).unwrap();
    assert!(p.eq_elem(&back));
}

fn credential_reveal(num_attrs: usize, bitmap: &[bool]) {
    let mut prng = ChaChaPrng::from_seed([0u8; 32]);
    let (ipk, isk) = gen_issuer_keys::<Bls12381>(&mut prng, num_attrs);
    let (upk, usk) = gen_user_keys::<Bls12381>(&mut prng, &ipk);
    let mut attrs: Vec<BLSScalar> = Vec::new();
    for _ in 0..num_attrs {
        attrs.push(scalar_sample::<BLSScalar>(&mut prng));
    }
    let sig = issuer_sign::<Bls12381>(&mut prng, &isk, &upk, attrs.clone());
    let proof = reveal_attrs::<Bls12381>(&mut prng, &usk, &ipk, &sig, attrs.as_slice(), bitmap);
    let revealed: Vec<BLSScalar> = attrs
        .iter()
        .zip(bitmap.iter())
        .filter(|(_, b)| **b)
        .map(|(a, _)| *a)
        .collect();
    assert_eq!(
        Ok(()),
        cred_verify::<Bls12381>(&ipk, revealed.as_slice(), bitmap, &proof)
    );

    // a wrong revealed attribute must not verify
    if revealed.len() > 0 {
        let mut wrong = revealed.clone();
        wrong[0] = wrong[0].add(&BLSScalar::from_u32(1));
        assert!(cred_verify::<Bls12381>(&ipk, wrong.as_slice(), bitmap, &proof).is_err());
    }
}

#[test]
fn single_attribute() {
    credential_reveal(1, &[true]);
}

#[test]
fn two_attributes() {
    credential_reveal(2, &[true, false]);
    credential_reveal(2, &[false, true]);
    credential_reveal(2, &[true, true]);
}

#[test]
fn ten_attributes() {
    let bitmap = [
        true, false, true, false, true, false, true, false, true, false,
    ];
    credential_reveal(10, &bitmap);
}

#[test]
fn to_json_credential_structures() {
    let mut prng = ChaChaPrng::from_seed([0u8; 32]);
    let (ipk, _isk) = gen_issuer_keys::<Bls12381>(&mut prng, 3);
    // the issuer key elements round-trip through the textual form
    let t = zei::serialization::group_text_round_trip::<BLSScalar, BLSG2>(&ipk.xx2);
    assert!(ipk.xx2.eq_elem(&t));
    let t = zei::serialization::group_text_round_trip::<BLSScalar, BLSG2>(&ipk.zz2);
    assert!(ipk.zz2.eq_elem(&t));
    for y in ipk.yy2.iter() {
        let t = zei::serialization::group_text_round_trip::<BLSScalar, BLSG2>(y);
        assert!(y.eq_elem(&t));
    }
}

#[test]
fn to_msg_pack_credential_structures() {
    let mut prng = ChaChaPrng::from_seed([0u8; 32]);
    let (ipk, isk) = gen_issuer_keys::<Bls12381>(&mut prng, 3);
    let (upk, usk) = gen_user_keys::<Bls12381>(&mut prng, &ipk);
    let attrs = vec![
        scalar_sample::<BLSScalar>(&mut prng),
        scalar_sample::<BLSScalar>(&mut prng),
        scalar_sample::<BLSScalar>(&mut prng),
    ];
    let sig = issuer_sign::<Bls12381>(&mut prng, &isk, &upk, attrs.clone());
    let proof = reveal_attrs::<Bls12381>(
        &mut prng,
        &usk,
        &ipk,
        &sig,
        attrs.as_slice(),
        &[false, true, false],
    );
    // the reveal proof's components round-trip through the raw form
    let b = proof.sig.sigma1.to_compressed_bytes();
    assert!(proof
        .sig
        .sigma1
        .eq_elem(&BLSG1::from_compressed_bytes(b.as_slice()).unwrap()));
    let b = proof.pok.commitment.to_compressed_bytes();
    assert!(proof
        .pok
        .commitment
        .eq_elem(&BLSG2::from_compressed_bytes(b.as_slice()).unwrap()));
    let b = proof.pok.response_t.to_bytes();
    assert!(proof
        .pok
        .response_t
        .eq_scalar(&BLSScalar::from_bytes(b.as_slice()).unwrap()));
}
