use zei::algebra::bls12_381::Bls12381;
use zei::bls::{
    bls_aggregate, bls_batch_verify, bls_gen_keys, bls_sign, bls_verify, bls_verify_aggregated,
};
use zei::errors::ZeiError;
use zei::prng::ChaChaPrng;

#[test]
fn bls_signatures() {
    let mut prng = ChaChaPrng::from_seed([1u8; 32]);
    let (sk, pk) = bls_gen_keys::<Bls12381>(&mut prng);

    let message = b"this is a message";

    let signature = bls_sign::<Bls12381>(&sk, message);

    assert_eq!(Ok(()), bls_verify::<Bls12381>(&pk, message, &signature));
    assert_eq!(
        Err(ZeiError::SignatureError),
        bls_verify::<Bls12381>(&pk, b"wrong message", &signature)
    )
}

#[test]
fn bls_aggregated_signatures() {
    let mut prng = ChaChaPrng::from_seed([1u8; 32]);
    let (sk1, pk1) = bls_gen_keys::<Bls12381>(&mut prng);
    let (sk2, pk2) = bls_gen_keys::<Bls12381>(&mut prng);
    let (sk3, pk3) = bls_gen_keys::<Bls12381>(&mut prng);

    let message = b"this is a message";

    let signature1 = bls_sign::<Bls12381>(&sk1, message);
    let signature2 = bls_sign::<Bls12381>(&sk2, message);
    let signature3 = bls_sign::<Bls12381>(&sk3, message);

    let keys = [pk1, pk2, pk3];

    let agg_signature =
        bls_aggregate::<Bls12381>(&keys, &[signature1, signature2, signature3]);

    assert_eq!(
        Ok(()),
        bls_verify_aggregated::<Bls12381>(&keys, message, &agg_signature)
    );

    // a different key set must not verify the aggregate
    let mut prng2 = ChaChaPrng::from_seed([9u8; 32]);
    let (_, pk4) = bls_gen_keys::<Bls12381>(&mut prng2);
    let wrong_keys = [pk1, pk2, pk4];
    assert_eq!(
        Err(ZeiError::SignatureError),
        bls_verify_aggregated::<Bls12381>(&wrong_keys, message, &agg_signature)
    );

    // a tampered aggregate must not verify
    let bad_agg = bls_aggregate::<Bls12381>(&keys, &[signature1, signature3, signature2]);
    assert_eq!(
        Err(ZeiError::SignatureError),
        bls_verify_aggregated::<Bls12381>(&keys, message, &bad_agg)
    );
}

#[test]
fn bls_batching() {
    let mut prng = ChaChaPrng::from_seed([1u8; 32]);
    let (sk1, pk1) = bls_gen_keys::<Bls12381>(&mut prng);
    let (sk2, pk2) = bls_gen_keys::<Bls12381>(&mut prng);
    let (sk3, pk3) = bls_gen_keys::<Bls12381>(&mut prng);

    let message1 = b"this is a message";
    let message2 = b"this is another message";
    let message3 = b"this is an additional message";

    let signature1 = bls_sign::<Bls12381>(&sk1, message1);
    let signature2 = bls_sign::<Bls12381>(&sk2, message2);
    let signature3 = bls_sign::<Bls12381>(&sk3, message3);

    let keys = [pk1, pk2, pk3];
    let messages = [&message1[..], &message2[..], &message3[..]];
    let sigs = [signature1, signature2, signature3];

    assert_eq!(Ok(()), bls_batch_verify::<Bls12381>(&keys, &messages, &sigs));

    let new_message3 = b"this message has not been signed";

    let messages = [&message1[..], &message2[..], &new_message3[..]];

    assert_eq!(
        Err(ZeiError::SignatureError),
        bls_batch_verify::<Bls12381>(&keys, &messages, &sigs)
    );
}

#[test]
fn bls_api_and_signature_bytes() {
    let mut prng = ChaChaPrng::from_seed([2u8; 32]);
    let (sk, pk) = zei::bls_sig::bls_gen_keys(&mut prng);
    let msg = b"an api message";
    let sig = zei::bls_sig::bls_sign(&sk, msg);
    assert_eq!(Ok(()), zei::bls_sig::bls_verify(&pk, msg, &sig));
    assert_eq!(Ok(()), zei::bls_sig::Bls::verify(&pk, &sig, msg));

    // aggregation through the borrowing interface
    let (sk2, pk2) = zei::bls_sig::Bls::gen_keys(&mut prng);
    let sig2 = zei::bls_sig::Bls::sign(&sk2, msg);
    let agg = zei::bls_sig::bls_aggregate(&[&pk, &pk2], &[&sig, &sig2]);
    assert_eq!(
        Ok(()),
        zei::bls_sig::bls_verify_aggregated(&[&pk, &pk2], msg, &agg)
    );
    assert_eq!(
        Ok(()),
        zei::bls_sig::Bls::verify_aggregate(&[&pk, &pk2], &agg, msg)
    );

    // the raw signature codec round-trips
    let round = zei::serialization::bls_signature_round_trip::<Bls12381>(&sig);
    assert_eq!(Ok(()), zei::bls_sig::bls_verify(&pk, msg, &round));
    let bytes = zei::serialization::bls_signature_to_bytes::<Bls12381>(&sig);
    let decoded =
        zei::serialization::bls_signature_from_bytes::<Bls12381>(bytes.as_slice()).unwrap();
    assert_eq!(Ok(()), zei::bls_sig::bls_verify(&pk, msg, &decoded));
    assert!(
        zei::serialization::bls_signature_from_bytes::<Bls12381>(&bytes.as_slice()[1..])
            .is_err()
    );
}
