use bls_sig::api::dst;
use bls_sig::{
    aggregate_with_randomness, breakdown, mult_public_keys, mult_signatures, num_bits,
    pippenger_window_size, verify_multiple_aggregate_signatures, AggregatePublicKey,
    AggregateSignature, BlstError, ErrorStatus, PkAndSerializedSig, PublicKey, SecretKey,
    Signature, SignatureSet,
};
use rand_chacha::rand_core::{RngCore, SeedableRng};
use rand_chacha::ChaCha20Rng;

fn gen_key(rng: &mut ChaCha20Rng) -> SecretKey {
    let mut ikm = [0u8; 32];
    rng.fill_bytes(&mut ikm);
    SecretKey::key_gen(&ikm, &[]).unwrap()
}

fn scalar_of(v: u64) -> Vec<u8> {
    let mut b = v.to_le_bytes().to_vec();
    b.resize(32, 0);
    b
}

#[test]
fn test_multiple_agg_sigs() {
    let tag = dst();
    let num_pks_per_sig = 5;
    let num_sigs = 4;

    let mut rng = ChaCha20Rng::from_seed([0u8; 32]);

    let mut msgs: Vec<Vec<u8>> = Vec::new();
    let mut sigs: Vec<Signature> = Vec::new();
    let mut pks: Vec<PublicKey> = Vec::new();
    let mut rands: Vec<Vec<u8>> = Vec::new();
    for _ in 0..num_sigs {
        let sks_i: Vec<SecretKey> = (0..num_pks_per_sig).map(|_| gen_key(&mut rng)).collect();
        let pks_i: Vec<PublicKey> = sks_i.iter().map(|sk| sk.sk_to_pk()).collect();

        let msg_len = (rng.next_u64() & 0x3F) + 1;
        let mut msg = vec![0u8; msg_len as usize];
        rng.fill_bytes(&mut msg);

        let sigs_i: Vec<Signature> = sks_i.iter().map(|sk| sk.sign(&msg, &tag, &[])).collect();
        for (s, pk) in sigs_i.iter().zip(pks_i.iter()) {
            assert!(s.verify(true, &msg, &tag, &[], pk, true).is_ok());
        }

        let agg_i = AggregateSignature::aggregate(&sigs_i, false).unwrap();
        sigs.push(agg_i.to_signature());
        let agg_pk_i = AggregatePublicKey::aggregate(&pks_i, false).unwrap();
        pks.push(agg_pk_i.to_public_key());
        msgs.push(msg);

        let mut v = rng.next_u64();
        while v == 0 {
            v = rng.next_u64();
        }
        rands.push(scalar_of(v));
    }

    let result = Signature::verify_multiple_aggregate_signatures(
        &msgs, &tag, &pks, false, &sigs, true, &rands, 64,
    );
    assert!(result.is_ok());

    // reversed messages, keys or signatures must fail
    let msgs_rev: Vec<Vec<u8>> = msgs.iter().rev().cloned().collect();
    let result = Signature::verify_multiple_aggregate_signatures(
        &msgs_rev, &tag, &pks, false, &sigs, true, &rands, 64,
    );
    assert!(result.is_err());
}

#[test]
fn test_verify_multiple_sets() {
    let tag = dst();
    let mut rng = ChaCha20Rng::from_seed([21u8; 32]);
    let mut sets: Vec<SignatureSet> = Vec::new();
    for i in 0..3u8 {
        let sk = gen_key(&mut rng);
        let msg = vec![i; 8];
        let sig = sk.sign(&msg, &tag, &[]);
        sets.push(SignatureSet { msg, pk: sk.sk_to_pk(), sig });
    }
    assert!(verify_multiple_aggregate_signatures(&sets, Some(true), Some(true)));

    // swap one message out of correspondence
    let tampered = SignatureSet {
        msg: b"tampered".to_vec(),
        pk: PublicKey::deserialize(&sets[0].pk.compress()).unwrap(),
        sig: Signature::deserialize(&sets[0].sig.compress()).unwrap(),
    };
    let mut bad_sets = sets;
    bad_sets[0] = tampered;
    assert!(!verify_multiple_aggregate_signatures(&bad_sets, Some(true), Some(true)));

    let empty: Vec<SignatureSet> = Vec::new();
    assert!(!verify_multiple_aggregate_signatures(&empty, None, None));
}

#[test]
fn test_msm_matches_serial_sum() {
    // the weighted sum equals one-by-one multiplication and addition, both
    // below and above the parallel threshold of the bucket method
    let tag = dst();
    for &n in &[4usize, 40usize] {
        let mut rng = ChaCha20Rng::from_seed([n as u8; 32]);
        let sks: Vec<SecretKey> = (0..n).map(|_| gen_key(&mut rng)).collect();
        let pks: Vec<PublicKey> = sks.iter().map(|sk| sk.sk_to_pk()).collect();
        let sigs: Vec<Signature> = sks.iter().map(|sk| sk.sign(b"msm", &tag, &[])).collect();

        let mut scalars: Vec<u8> = Vec::new();
        for _ in 0..n {
            let mut v = rng.next_u64();
            while v == 0 {
                v = rng.next_u64();
            }
            scalars.extend_from_slice(&v.to_le_bytes());
        }

        let fast = mult_public_keys(&pks, &scalars, 64).to_public_key();
        let mut naive: Option<AggregatePublicKey> = None;
        for i in 0..n {
            let one = vec![PublicKey::deserialize(&pks[i].compress()).unwrap()];
            let weighted = mult_public_keys(&one, &scalars[i * 8..(i + 1) * 8].to_vec(), 64);
            match naive.as_mut() {
                None => naive = Some(weighted),
                Some(acc) => acc.add_aggregate(&weighted),
            }
        }
        assert_eq!(naive.unwrap().to_public_key(), fast);

        let fast_sig = mult_signatures(&sigs, &scalars, 64).to_signature();
        let mut naive_sig: Option<AggregateSignature> = None;
        for i in 0..n {
            let one = vec![Signature::deserialize(&sigs[i].compress()).unwrap()];
            let weighted = mult_signatures(&one, &scalars[i * 8..(i + 1) * 8].to_vec(), 64);
            match naive_sig.as_mut() {
                None => naive_sig = Some(weighted),
                Some(acc) => acc.add_aggregate(&weighted),
            }
        }
        assert_eq!(naive_sig.unwrap().to_signature(), fast_sig);
    }
}

#[test]
fn test_aggregate_with_randomness() {
    let tag = dst();
    let mut rng = ChaCha20Rng::from_seed([31u8; 32]);
    let mut sets: Vec<PkAndSerializedSig> = Vec::new();
    for i in 0..4u8 {
        let sk = gen_key(&mut rng);
        let sig = sk.sign(&[i; 6], &tag, &[]);
        sets.push(PkAndSerializedSig { pk: sk.sk_to_pk(), sig: sig.compress() });
    }
    let out = aggregate_with_randomness(&sets).unwrap();
    assert!(out.pk.validate().is_ok());
    assert!(out.sig.subgroup_check());

    let empty: Vec<PkAndSerializedSig> = Vec::new();
    assert!(matches!(
        aggregate_with_randomness(&empty),
        Err(ErrorStatus::Blst(BlstError::AggrTypeMismatch))
    ));

    // a malformed serialized signature is rejected while unzipping
    let sk = gen_key(&mut rng);
    let bad = vec![PkAndSerializedSig { pk: sk.sk_to_pk(), sig: vec![9u8; 10] }];
    assert!(matches!(
        aggregate_with_randomness(&bad),
        Err(ErrorStatus::Blst(BlstError::BadEncoding))
    ));

    // the identity signature is rejected by the mandatory infinity check
    let mut inf = vec![0u8; 96];
    inf[0] = 0xc0;
    let infbad = vec![PkAndSerializedSig { pk: sk.sk_to_pk(), sig: inf }];
    assert!(matches!(
        aggregate_with_randomness(&infbad),
        Err(ErrorStatus::Blst(BlstError::PkIsInfinity))
    ));
}

#[test]
fn test_msm_parameters() {
    assert_eq!(num_bits(0), 0);
    assert_eq!(num_bits(1), 1);
    assert_eq!(num_bits(2), 2);
    assert_eq!(num_bits(2000), 11);

    assert_eq!(pippenger_window_size(32), 3);
    assert_eq!(pippenger_window_size(2000), 8);
    assert_eq!(pippenger_window_size(1 << 20), 17);

    assert_eq!(breakdown(160, 8, 4), (1, 21, 8));
    assert_eq!(breakdown(64, 8, 16), (1, 10, 7));
    assert_eq!(breakdown(255, 8, 2), (1, 29, 9));
}
