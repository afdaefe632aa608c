use bls_sig::{
    blst_error_to_reason, blst_error_to_str, shuffle_list, uniq, unshuffle_list, BlstError,
    ErrorStatus, ShufflingErrorCode, SHUFFLE_ROUNDS,
};

#[test]
fn test_uniq() {
    let empty: Vec<Vec<u8>> = Vec::new();
    assert!(uniq(&empty));
    assert!(uniq(&vec![b"one".to_vec()]));
    assert!(uniq(&vec![b"one".to_vec(), b"two".to_vec()]));
    assert!(!uniq(&vec![b"one".to_vec(), b"one".to_vec()]));
    assert!(uniq(&vec![b"a".to_vec(), b"b".to_vec(), b"c".to_vec(), b"d".to_vec()]));
    assert!(!uniq(&vec![
        b"a".to_vec(),
        b"b".to_vec(),
        b"c".to_vec(),
        b"a".to_vec(),
    ]));
    // a prefix is not the full string
    assert!(uniq(&vec![b"ab".to_vec(), b"abc".to_vec(), b"abcd".to_vec()]));
}

#[test]
fn test_shuffle_round_trip() {
    let seed = [42u8; 32];
    let input: Vec<u32> = (0..100u32).collect();
    let rounds = SHUFFLE_ROUNDS as i32;

    let shuffled = shuffle_list(input.clone(), &seed, rounds).unwrap();
    assert_eq!(shuffled.len(), input.len());
    assert_ne!(shuffled, input);

    // a permutation: the sorted contents agree
    let mut sorted = shuffled.clone();
    sorted.sort();
    assert_eq!(sorted, input);

    let back = unshuffle_list(shuffled.clone(), &seed, rounds).unwrap();
    assert_eq!(back, input);

    let forth = shuffle_list(unshuffle_list(input.clone(), &seed, rounds).unwrap(), &seed, rounds)
        .unwrap();
    assert_eq!(forth, input);
}

#[test]
fn test_shuffle_is_deterministic_and_seed_sensitive() {
    let input: Vec<u32> = (0..50u32).collect();
    let a = shuffle_list(input.clone(), &[1u8; 32], 90).unwrap();
    let b = shuffle_list(input.clone(), &[1u8; 32], 90).unwrap();
    let c = shuffle_list(input.clone(), &[2u8; 32], 90).unwrap();
    assert_eq!(a, b);
    assert_ne!(a, c);
}

#[test]
fn test_shuffle_edge_cases() {
    let seed = [0u8; 32];
    // zero rounds: unchanged, even before any other validation
    assert_eq!(shuffle_list(vec![3, 1, 2], &[0u8; 5], 0).unwrap(), vec![3, 1, 2]);
    // zero or one element: unchanged
    assert_eq!(shuffle_list(Vec::new(), &seed, 90).unwrap(), Vec::<u32>::new());
    assert_eq!(shuffle_list(vec![7], &[0u8; 5], 90).unwrap(), vec![7]);
    // wrong seed length
    assert_eq!(
        shuffle_list(vec![1, 2, 3], &[0u8; 31], 90),
        Err(ShufflingErrorCode::InvalidSeedLength)
    );
    // rounds out of the byte range
    assert_eq!(
        shuffle_list(vec![1, 2, 3], &seed, 256),
        Err(ShufflingErrorCode::InvalidNumberOfRounds)
    );
    assert_eq!(
        shuffle_list(vec![1, 2, 3], &seed, -1),
        Err(ShufflingErrorCode::InvalidNumberOfRounds)
    );
    // one round shuffles two elements deterministically
    let two = shuffle_list(vec![10, 20], &seed, 1).unwrap();
    let mut sorted = two.clone();
    sorted.sort();
    assert_eq!(sorted, vec![10, 20]);
}

#[test]
fn test_shuffling_error_messages() {
    assert_eq!(
        ShufflingErrorCode::InvalidSeedLength.message(),
        "Shuffling seed must be 32 bytes long"
    );
    assert_eq!(
        ShufflingErrorCode::InvalidActiveIndicesLength.message(),
        "ActiveIndices must fit in a u32"
    );
    assert_eq!(
        ShufflingErrorCode::InvalidNumberOfRounds.message(),
        "Rounds must be between 0 and 255"
    );
}

#[test]
fn test_error_strings() {
    assert_eq!(blst_error_to_str(BlstError::BadEncoding), "BLST_BAD_ENCODING");
    assert_eq!(blst_error_to_str(BlstError::PointNotOnCurve), "BLST_POINT_NOT_ON_CURVE");
    assert_eq!(blst_error_to_str(BlstError::PointNotInGroup), "BLST_POINT_NOT_IN_GROUP");
    assert_eq!(blst_error_to_str(BlstError::PkIsInfinity), "BLST_PK_IS_INFINITY");
    assert_eq!(blst_error_to_str(BlstError::AggrTypeMismatch), "BLST_AGGR_TYPE_MISMATCH");
    assert_eq!(blst_error_to_str(BlstError::VerifyFail), "BLST_VERIFY_FAIL");
    assert_eq!(blst_error_to_str(BlstError::BadScalar), "BLST_BAD_SCALAR");

    assert_eq!(blst_error_to_reason(BlstError::BadEncoding), "Invalid encoding");
    assert_eq!(blst_error_to_reason(BlstError::VerifyFail), "Verification failed");
    assert_eq!(blst_error_to_reason(BlstError::PkIsInfinity), "Public key is infinity");

    assert_eq!(ErrorStatus::Blst(BlstError::VerifyFail).as_str(), "BLST_VERIFY_FAIL");
    assert_eq!(ErrorStatus::InvalidHex.as_str(), "INVALID_HEX");
    assert_eq!(ErrorStatus::Other("NAPI_ERROR".to_string()).as_str(), "NAPI_ERROR");
}
