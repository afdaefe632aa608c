use bls_sig::api::dst;
use bls_sig::{
    aggregate_public_keys, aggregate_serialized_signatures, aggregate_signatures,
    aggregate_verify, fast_aggregate_verify, AggregatePublicKey, AggregateSignature, BlstError,
    ErrorStatus, PublicKey, SecretKey, Signature,
};
use rand_chacha::rand_core::{RngCore, SeedableRng};
use rand_chacha::ChaCha20Rng;

fn gen_key(rng: &mut ChaCha20Rng) -> SecretKey {
    let mut ikm = [0u8; 32];
    rng.fill_bytes(&mut ikm);
    SecretKey::key_gen(&ikm, &[]).unwrap()
}

/// The fixed scenario: a zero seed, ten derived keys, ten random messages of
/// one to 64 bytes, individual and aggregate verification, and a reversed
/// key order that must fail.
#[test]
fn test_aggregate() {
    let num_msgs = 10;
    let tag = dst();

    let seed = [0u8; 32];
    let mut rng = ChaCha20Rng::from_seed(seed);

    let sks: Vec<SecretKey> = (0..num_msgs).map(|_| gen_key(&mut rng)).collect();
    let pks: Vec<PublicKey> = sks.iter().map(|sk| sk.sk_to_pk()).collect();
    let pks_rev: Vec<PublicKey> = sks.iter().rev().map(|sk| sk.sk_to_pk()).collect();

    let pk_comp = pks[0].compress();
    let pk_uncomp = PublicKey::uncompress(&pk_comp);
    assert!(pk_uncomp.is_ok());

    let mut msgs: Vec<Vec<u8>> = Vec::new();
    for _ in 0..num_msgs {
        let msg_len = (rng.next_u64() & 0x3F) + 1;
        let mut msg = vec![0u8; msg_len as usize];
        rng.fill_bytes(&mut msg);
        msgs.push(msg);
    }

    let sigs: Vec<Signature> = sks
        .iter()
        .zip(msgs.iter())
        .map(|(sk, m)| sk.sign(m, &tag, &[]))
        .collect();

    for ((sig, msg), pk) in sigs.iter().zip(msgs.iter()).zip(pks.iter()) {
        assert!(sig.verify(true, msg, &tag, &[], pk, true).is_ok());
    }

    // swapped key/message pairing must not verify
    let mut any_bad = false;
    for ((sig, msg), pk) in sigs.iter().zip(msgs.iter()).zip(pks.iter().rev()) {
        if sig.verify(true, msg, &tag, &[], pk, true).is_err() {
            any_bad = true;
        }
    }
    assert!(any_bad);

    let agg = AggregateSignature::aggregate(&sigs, true).unwrap();
    let agg_sig = agg.to_signature();

    assert!(agg_sig.aggregate_verify(false, &msgs, &tag, &pks, false).is_ok());
    assert!(aggregate_verify(&msgs, &pks, &agg_sig, None, None));

    // reversed public key order must fail
    assert!(agg_sig.aggregate_verify(false, &msgs, &tag, &pks_rev, false).is_err());
    assert!(!aggregate_verify(&msgs, &pks_rev, &agg_sig, None, None));
}

#[test]
fn test_aggregate_verify_iff_each_verifies() {
    // matched lists: the aggregate verdict agrees with the conjunction of
    // the individual ones, and breaks under permutation
    let tag = dst();
    let mut rng = ChaCha20Rng::from_seed([11u8; 32]);
    let sks: Vec<SecretKey> = (0..4).map(|_| gen_key(&mut rng)).collect();
    let pks: Vec<PublicKey> = sks.iter().map(|sk| sk.sk_to_pk()).collect();
    let msgs: Vec<Vec<u8>> = (0..4u8).map(|i| vec![i + 1; 9]).collect();
    let sigs: Vec<Signature> = sks
        .iter()
        .zip(msgs.iter())
        .map(|(sk, m)| sk.sign(m, &tag, &[]))
        .collect();

    let all_ok = sigs
        .iter()
        .zip(msgs.iter())
        .zip(pks.iter())
        .all(|((s, m), pk)| s.verify(false, m, &tag, &[], pk, false).is_ok());
    assert!(all_ok);
    let agg = AggregateSignature::aggregate(&sigs, false).unwrap().to_signature();
    assert!(aggregate_verify(&msgs, &pks, &agg, None, None));

    // replace one signature: its own check fails and so does the aggregate
    let mut sigs_bad: Vec<Signature> = Vec::new();
    for (i, sk) in sks.iter().enumerate() {
        if i == 2 {
            sigs_bad.push(sk.sign(b"forged", &tag, &[]));
        } else {
            sigs_bad.push(sk.sign(&msgs[i], &tag, &[]));
        }
    }
    assert!(sigs_bad[2].verify(false, &msgs[2], &tag, &[], &pks[2], false).is_err());
    let agg_bad = AggregateSignature::aggregate(&sigs_bad, false).unwrap().to_signature();
    assert!(!aggregate_verify(&msgs, &pks, &agg_bad, None, None));
}

#[test]
fn test_empty_aggregation_is_type_mismatch() {
    let no_pks: Vec<PublicKey> = Vec::new();
    let no_sigs: Vec<Signature> = Vec::new();
    assert!(matches!(
        aggregate_public_keys(&no_pks, None),
        Err(ErrorStatus::Blst(BlstError::AggrTypeMismatch))
    ));
    assert!(matches!(
        aggregate_signatures(&no_sigs, None),
        Err(ErrorStatus::Blst(BlstError::AggrTypeMismatch))
    ));
    assert_eq!(
        AggregatePublicKey::aggregate(&no_pks, false).err(),
        Some(BlstError::AggrTypeMismatch)
    );
    assert_eq!(
        AggregateSignature::aggregate(&no_sigs, false).err(),
        Some(BlstError::AggrTypeMismatch)
    );
}

#[test]
fn test_mismatched_lists_fail_verification() {
    let tag = dst();
    let mut rng = ChaCha20Rng::from_seed([12u8; 32]);
    let sk = gen_key(&mut rng);
    let sig = sk.sign(b"m", &tag, &[]);
    let pks = vec![sk.sk_to_pk()];
    let msgs: Vec<Vec<u8>> = vec![b"m".to_vec(), b"n".to_vec()];
    assert_eq!(
        sig.aggregate_verify(false, &msgs, &tag, &pks, false),
        Err(BlstError::VerifyFail)
    );
    assert!(!aggregate_verify(&msgs, &pks, &sig, None, None));
    let no_msgs: Vec<Vec<u8>> = Vec::new();
    let no_pks: Vec<PublicKey> = Vec::new();
    assert!(!aggregate_verify(&no_msgs, &no_pks, &sig, None, None));
}

#[test]
fn test_reversal_law_functions() {
    // the verified order-insensitivity statements, exercised on real points
    let tag = dst();
    let mut rng = ChaCha20Rng::from_seed([17u8; 32]);
    let sks: Vec<SecretKey> = (0..7).map(|_| gen_key(&mut rng)).collect();
    let pks: Vec<PublicKey> = sks.iter().map(|sk| sk.sk_to_pk()).collect();
    let sigs: Vec<Signature> = sks.iter().map(|sk| sk.sign(b"law", &tag, &[])).collect();

    let (f, r) = bls_sig::sig::aggregate_in_either_direction(&sigs);
    assert_eq!(f.to_signature(), r.to_signature());
    assert_eq!(
        f.to_signature(),
        AggregateSignature::aggregate(&sigs, false).unwrap().to_signature()
    );

    let (pf, pr) = bls_sig::keys::aggregate_keys_in_either_direction(&pks);
    assert_eq!(pf.to_public_key(), pr.to_public_key());
    assert_eq!(
        pf.to_public_key(),
        AggregatePublicKey::aggregate(&pks, false).unwrap().to_public_key()
    );
}

#[test]
fn test_aggregation_order_insensitive() {
    // aggregating in any order yields the bitwise-identical point
    let tag = dst();
    let mut rng = ChaCha20Rng::from_seed([13u8; 32]);
    let sks: Vec<SecretKey> = (0..5).map(|_| gen_key(&mut rng)).collect();
    let sigs: Vec<Signature> = sks.iter().map(|sk| sk.sign(b"same", &tag, &[])).collect();
    let sigs_rev: Vec<Signature> = sks
        .iter()
        .rev()
        .map(|sk| sk.sign(b"same", &tag, &[]))
        .collect();

    let a = AggregateSignature::aggregate(&sigs, false).unwrap().to_signature();
    let b = AggregateSignature::aggregate(&sigs_rev, false).unwrap().to_signature();
    assert_eq!(a.compress(), b.compress());

    let pks: Vec<PublicKey> = sks.iter().map(|sk| sk.sk_to_pk()).collect();
    let pks_rev: Vec<PublicKey> = sks.iter().rev().map(|sk| sk.sk_to_pk()).collect();
    let pa = aggregate_public_keys(&pks, None).unwrap();
    let pb = aggregate_public_keys(&pks_rev, None).unwrap();
    assert_eq!(pa, pb);
    // the sum is a new point, not any of its inputs
    for pk in pks.iter() {
        assert_ne!(&pa, pk);
    }
}

#[test]
fn test_aggregate_serialized_matches_typed() {
    let tag = dst();
    let mut rng = ChaCha20Rng::from_seed([14u8; 32]);
    let sks: Vec<SecretKey> = (0..3).map(|_| gen_key(&mut rng)).collect();
    let sigs: Vec<Signature> = sks.iter().map(|sk| sk.sign(b"w", &tag, &[])).collect();
    let raw: Vec<Vec<u8>> = sigs.iter().map(|s| s.compress()).collect();

    let typed = aggregate_signatures(&sigs, None).unwrap();
    let parsed = aggregate_serialized_signatures(&raw, None).unwrap();
    assert_eq!(typed, parsed);

    let mut bad = raw.clone();
    bad[1] = vec![1u8; 5];
    assert!(matches!(
        aggregate_serialized_signatures(&bad, None),
        Err(ErrorStatus::Blst(BlstError::BadEncoding))
    ));
}

#[test]
fn test_fast_aggregate_verify() {
    let tag = dst();
    let mut rng = ChaCha20Rng::from_seed([15u8; 32]);
    let sks: Vec<SecretKey> = (0..6).map(|_| gen_key(&mut rng)).collect();
    let pks: Vec<PublicKey> = sks.iter().map(|sk| sk.sk_to_pk()).collect();
    let msg = b"one message for everyone";
    let sigs: Vec<Signature> = sks.iter().map(|sk| sk.sign(msg, &tag, &[])).collect();
    let agg = AggregateSignature::aggregate(&sigs, false).unwrap().to_signature();

    assert!(fast_aggregate_verify(msg, &pks, &agg, None));
    assert!(agg.fast_aggregate_verify(false, msg, &tag, &pks).is_ok());

    let combined = aggregate_public_keys(&pks, None).unwrap();
    assert!(agg
        .fast_aggregate_verify_pre_aggregated(false, msg, &tag, &combined)
        .is_ok());

    assert!(!fast_aggregate_verify(b"another message", &pks, &agg, None));
    let no_pks: Vec<PublicKey> = Vec::new();
    assert_eq!(
        agg.fast_aggregate_verify(false, msg, &tag, &no_pks),
        Err(BlstError::AggrTypeMismatch)
    );
    assert!(!fast_aggregate_verify(msg, &no_pks, &agg, None));
}

#[test]
fn test_add_in_place() {
    let tag = dst();
    let mut rng = ChaCha20Rng::from_seed([16u8; 32]);
    let sks: Vec<SecretKey> = (0..3).map(|_| gen_key(&mut rng)).collect();
    let sigs: Vec<Signature> = sks.iter().map(|sk| sk.sign(b"x", &tag, &[])).collect();

    let whole = AggregateSignature::aggregate(&sigs, false).unwrap().to_signature();

    let mut acc = AggregateSignature::from_signature(&sigs[0]);
    acc.add_signature(&sigs[1], true).unwrap();
    let tail = AggregateSignature::from_signature(&sigs[2]);
    acc.add_aggregate(&tail);
    assert_eq!(acc.to_signature(), whole);

    let pks: Vec<PublicKey> = sks.iter().map(|sk| sk.sk_to_pk()).collect();
    let whole_pk = aggregate_public_keys(&pks, None).unwrap();
    let mut pacc = AggregatePublicKey::from_public_key(&pks[0]);
    pacc.add_public_key(&pks[1], true).unwrap();
    pacc.add_public_key(&pks[2], false).unwrap();
    assert_eq!(pacc.to_public_key(), whole_pk);
}
