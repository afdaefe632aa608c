use bls_sig::api::dst;
use bls_sig::{verify, BlstError, PublicKey, SecretKey, Signature};
use rand_chacha::rand_core::{RngCore, SeedableRng};
use rand_chacha::ChaCha20Rng;

fn gen_key(rng: &mut ChaCha20Rng) -> SecretKey {
    let mut ikm = [0u8; 32];
    rng.fill_bytes(&mut ikm);
    SecretKey::key_gen(&ikm, &[]).unwrap()
}

#[test]
fn test_sign() {
    let ikm: [u8; 32] = [
        0x93, 0xad, 0x7e, 0x65, 0xde, 0xad, 0x05, 0x2a, 0x08, 0x3a, 0x91, 0x0c, 0x8b, 0x72, 0x85,
        0x91, 0x46, 0x4c, 0xca, 0x56, 0x60, 0x5b, 0xb0, 0x56, 0xed, 0xfe, 0x2b, 0x60, 0xa6, 0x3c,
        0x48, 0x99,
    ];

    let sk = SecretKey::key_gen(&ikm, &[]).unwrap();
    let pk = sk.sk_to_pk();

    let tag = b"BLS_SIG_BLS12381G2_XMD:SHA-256_SSWU_RO_NUL_";
    let msg = b"hello foo";
    let sig = sk.sign(msg, tag, &[]);

    assert!(sig.verify(true, msg, tag, &[], &pk, true).is_ok());
}

#[test]
fn test_sign_verify_many() {
    let mut rng = ChaCha20Rng::from_seed([7u8; 32]);
    for i in 0..4u8 {
        let sk = gen_key(&mut rng);
        let pk = sk.sk_to_pk();
        let msg = vec![i; (i as usize) + 5];
        let sig = sk.sign(&msg, &dst(), &[]);
        assert!(verify(&msg, &pk, &sig, Some(true), Some(true)));
    }
}

#[test]
fn test_verify_wrong_key_fails() {
    let mut rng = ChaCha20Rng::from_seed([1u8; 32]);
    let sk = gen_key(&mut rng);
    let other = gen_key(&mut rng);
    let msg = b"a message";
    let sig = sk.sign(msg, &dst(), &[]);
    assert!(verify(msg, &sk.sk_to_pk(), &sig, None, None));
    assert!(!verify(msg, &other.sk_to_pk(), &sig, None, None));
}

#[test]
fn test_verify_wrong_message_fails() {
    let mut rng = ChaCha20Rng::from_seed([2u8; 32]);
    let sk = gen_key(&mut rng);
    let sig = sk.sign(b"signed message", &dst(), &[]);
    assert!(!verify(b"other message", &sk.sk_to_pk(), &sig, None, None));
}

#[test]
fn test_verify_wrong_tag_fails() {
    let mut rng = ChaCha20Rng::from_seed([3u8; 32]);
    let sk = gen_key(&mut rng);
    let pk = sk.sk_to_pk();
    let msg = b"tagged";
    let sig = sk.sign(msg, b"BLS_SIG_BLS12381G2_XMD:SHA-256_SSWU_RO_NUL_", &[]);
    // the fixed tag of `verify` differs from the tag used to sign
    assert!(!verify(msg, &pk, &sig, None, None));
    assert!(sig
        .verify(false, msg, b"BLS_SIG_BLS12381G2_XMD:SHA-256_SSWU_RO_NUL_", &[], &pk, false)
        .is_ok());
}

#[test]
fn test_infinity_signature_checks() {
    let mut inf = vec![0u8; 96];
    inf[0] = 0xc0;
    let sig = Signature::deserialize(&inf).unwrap();
    // the identity decodes, sits in the subgroup, and only the infinity
    // check rejects it
    assert!(sig.subgroup_check());
    assert!(sig.validate(false).is_ok());
    assert_eq!(sig.validate(true), Err(BlstError::PkIsInfinity));
}

#[test]
fn test_infinity_public_key_rejected() {
    let mut inf = vec![0u8; 48];
    inf[0] = 0xc0;
    let pk = PublicKey::deserialize(&inf).unwrap();
    assert_eq!(pk.validate(), Err(BlstError::PkIsInfinity));
}

#[test]
fn test_validate_rejects_out_of_group() {
    // a point on the curve but outside the prime-order subgroup would be
    // PointNotInGroup; a key derived honestly always validates
    let mut rng = ChaCha20Rng::from_seed([4u8; 32]);
    let pk = gen_key(&mut rng).sk_to_pk();
    assert!(pk.validate().is_ok());
    assert!(pk.key_validate().is_ok());
}
