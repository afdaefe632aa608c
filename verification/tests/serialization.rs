use bls_sig::{BlstError, ErrorStatus, PublicKey, SecretKey, Signature};
use rand_chacha::rand_core::{RngCore, SeedableRng};
use rand_chacha::ChaCha20Rng;

fn gen_key(rng: &mut ChaCha20Rng) -> SecretKey {
    let mut ikm = [0u8; 32];
    rng.fill_bytes(&mut ikm);
    SecretKey::key_gen(&ikm, &[]).unwrap()
}

#[test]
fn test_serialization() {
    let seed = [0u8; 32];
    let mut rng = ChaCha20Rng::from_seed(seed);

    let sk = gen_key(&mut rng);
    let sk2 = gen_key(&mut rng);

    let pk = sk.sk_to_pk();
    let pk_comp = pk.compress();
    let pk_ser = pk.serialize();
    assert_eq!(pk_comp.len(), 48);
    assert_eq!(pk_ser.len(), 96);
    assert_ne!(pk_comp[0] & 0x80, 0);
    assert_eq!(pk_ser[0] & 0x80, 0);

    let pk_uncomp = PublicKey::uncompress(&pk_comp);
    assert!(pk_uncomp.is_ok());
    assert_eq!(pk_uncomp.unwrap(), pk);

    let pk_deser = PublicKey::deserialize(&pk_ser);
    assert!(pk_deser.is_ok());
    assert_eq!(pk_deser.unwrap(), pk);

    let pk2 = sk2.sk_to_pk();
    let pk_comp2 = pk2.compress();
    let pk_ser2 = pk2.serialize();

    let pk_uncomp2 = PublicKey::uncompress(&pk_comp2);
    assert!(pk_uncomp2.is_ok());
    assert_eq!(pk_uncomp2.unwrap(), pk2);

    let pk_deser2 = PublicKey::deserialize(&pk_ser2);
    assert!(pk_deser2.is_ok());
    assert_eq!(pk_deser2.unwrap(), pk2);

    assert_ne!(pk, pk2);
    assert_ne!(PublicKey::uncompress(&pk_comp).unwrap(), pk2);
    assert_ne!(PublicKey::uncompress(&pk_comp2).unwrap(), pk);
}

#[test]
fn test_signature_round_trip() {
    let mut rng = ChaCha20Rng::from_seed([9u8; 32]);
    let sk = gen_key(&mut rng);
    let sig = sk.sign(b"round trip", b"BLS_SIG_BLS12381G2_XMD:SHA-256_SSWU_RO_POP_", &[]);

    let comp = sig.compress();
    let ser = sig.serialize();
    assert_eq!(comp.len(), 96);
    assert_eq!(ser.len(), 192);

    assert_eq!(Signature::uncompress(&comp).unwrap(), sig);
    assert_eq!(Signature::deserialize(&ser).unwrap(), sig);

    // the verified round-trip statements, exercised on real points
    assert_eq!(bls_sig::sig::sig_serialized_round_trip(&sig), sig);
    assert_eq!(bls_sig::keys::pk_serialized_round_trip(&sk.sk_to_pk()), sk.sk_to_pk());
}

#[test]
fn test_secret_key_round_trip() {
    let mut rng = ChaCha20Rng::from_seed([5u8; 32]);
    let sk = gen_key(&mut rng);
    let bytes = sk.to_bytes();
    assert_eq!(bytes.len(), 32);
    let back = SecretKey::from_bytes(&bytes).unwrap();
    assert_eq!(back.to_bytes(), bytes);
}

#[test]
fn test_bad_encodings_rejected() {
    // wrong lengths
    assert_eq!(PublicKey::deserialize(&[0u8; 47]), Err(BlstError::BadEncoding));
    assert_eq!(Signature::deserialize(&[0u8; 95]), Err(BlstError::BadEncoding));
    assert!(SecretKey::from_bytes(&[1u8; 31]).is_err());
    // compressed length with the compressed flag clear
    assert_eq!(PublicKey::deserialize(&[0u8; 48]), Err(BlstError::BadEncoding));
    // uncompressed length with the compressed flag set
    let mut bad = vec![0u8; 96];
    bad[0] = 0x80;
    assert_eq!(PublicKey::deserialize(&bad), Err(BlstError::BadEncoding));
    // the zero scalar is not a valid secret key
    assert_eq!(
        SecretKey::from_bytes(&[0u8; 32]).err(),
        Some(BlstError::BadEncoding)
    );
}

#[test]
fn test_garbage_compressed_bytes_rejected() {
    let mut garbage = vec![0xffu8; 48];
    garbage[0] = 0xff;
    let r = PublicKey::uncompress(&garbage);
    assert!(matches!(
        r,
        Err(BlstError::BadEncoding) | Err(BlstError::PointNotOnCurve)
    ));
}

#[test]
fn test_key_gen_minimum_length() {
    // 31 bytes of key material fail, 32 succeed deterministically
    assert_eq!(SecretKey::key_gen(&[7u8; 31], &[]).err(), Some(BlstError::BadEncoding));
    let a = SecretKey::key_gen(&[7u8; 32], &[]).unwrap();
    let b = SecretKey::key_gen(&[7u8; 32], &[]).unwrap();
    assert_eq!(a.to_bytes(), b.to_bytes());
    let c = SecretKey::key_gen(&[7u8; 32], b"info").unwrap();
    assert_ne!(a.to_bytes(), c.to_bytes());
}

#[test]
fn test_key_gen_variants_share_length_rule() {
    assert!(SecretKey::key_gen_v3(&[1u8; 31], &[]).is_err());
    assert!(SecretKey::key_gen_v4_5(&[1u8; 31], &[], &[]).is_err());
    assert!(SecretKey::key_gen_v5(&[1u8; 31], &[], &[]).is_err());
    assert!(SecretKey::derive_master_eip2333(&[1u8; 31]).is_err());
    assert!(SecretKey::key_gen_v3(&[1u8; 32], &[]).is_ok());
    assert!(SecretKey::key_gen_v4_5(&[1u8; 32], &[], &[]).is_ok());
    assert!(SecretKey::key_gen_v5(&[1u8; 32], &[], &[]).is_ok());
}

#[test]
fn test_eip2333_derivation_deterministic() {
    let master = SecretKey::derive_master_eip2333(&[3u8; 32]).unwrap();
    let c1 = master.derive_child_eip2333(42);
    let c2 = master.derive_child_eip2333(42);
    let c3 = master.derive_child_eip2333(43);
    assert_eq!(c1.to_bytes(), c2.to_bytes());
    assert_ne!(c1.to_bytes(), c3.to_bytes());
}

#[test]
fn test_hex_round_trips() {
    let mut rng = ChaCha20Rng::from_seed([6u8; 32]);
    let sk = gen_key(&mut rng);
    let pk = sk.sk_to_pk();
    let sig = sk.sign(b"hex", b"BLS_SIG_BLS12381G2_XMD:SHA-256_SSWU_RO_POP_", &[]);

    let sk_hex = sk.to_hex();
    assert!(sk_hex.starts_with("0x"));
    assert_eq!(SecretKey::from_hex(&sk_hex).unwrap().to_bytes(), sk.to_bytes());

    let pk_hex = pk.to_hex(None);
    assert_eq!(pk_hex.len(), 2 + 96);
    assert_eq!(PublicKey::from_hex(&pk_hex, None).unwrap(), pk);
    let pk_hex_unc = pk.to_hex(Some(false));
    assert_eq!(pk_hex_unc.len(), 2 + 192);
    assert_eq!(PublicKey::from_hex(&pk_hex_unc, None).unwrap(), pk);

    let sig_hex = sig.to_hex(None);
    assert_eq!(Signature::from_hex(&sig_hex, None, None).unwrap(), sig);

    // without the prefix the digits decode just the same
    assert_eq!(PublicKey::from_hex(&pk_hex[2..], None).unwrap(), pk);
}

#[test]
fn test_hex_exact_value() {
    // the scalar one is a valid secret key; its hex form is pinned exactly
    let mut one = vec![0u8; 32];
    one[31] = 1;
    let sk = SecretKey::from_bytes(&one).unwrap();
    assert_eq!(
        sk.to_hex(),
        "0x0000000000000000000000000000000000000000000000000000000000000001"
    );
    let back = SecretKey::from_hex(
        "0x0000000000000000000000000000000000000000000000000000000000000001",
    )
    .unwrap();
    assert_eq!(back.to_bytes(), one);
    // uppercase digits decode to the same bytes
    let upper = SecretKey::from_hex(
        "0x0000000000000000000000000000000000000000000000000000000000000001"
            .to_uppercase()
            .replace("0X", "0x")
            .as_str(),
    );
    assert!(upper.is_ok());
}

#[test]
fn test_invalid_hex_rejected() {
    assert!(matches!(
        SecretKey::from_hex("0xzz"),
        Err(ErrorStatus::InvalidHex)
    ));
    assert!(matches!(
        PublicKey::from_hex("abc", None),
        Err(ErrorStatus::InvalidHex)
    ));
    match SecretKey::from_hex("nothex") {
        Err(st) => assert_eq!(st.as_str(), "INVALID_HEX"),
        Ok(_) => panic!("junk hex must not parse"),
    }
}
