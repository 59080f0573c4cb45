use scoria_core::integrity::{
    blake3_hash, digests_equal, hash, hash_chunked, hash_parallel, keccak256, merkle_proof,
    merkle_root, sha3_256, verify, verify_digests, verify_merkle, Blake3IntegrityChecker,
    IntegrityError,
};

fn from_hex(s: &str) -> [u8; 32] {
    let mut out = [0u8; 32];
    for i in 0..32 {
        out[i] = u8::from_str_radix(&s[2 * i..2 * i + 2], 16).unwrap();
    }
    out
}

fn to_hex(b: &[u8]) -> String {
    b.iter().map(|x| format!("{:02x}", x)).collect()
}

#[test]
fn blake3_of_empty_input() {
    assert_eq!(
        hash(b""),
        from_hex("af1349b9f5f9a1a6a0404dea36dcc9499bcb25c9adc112b7cc9a93cae41f3262")
    );
}

#[test]
fn keccak_and_sha3_of_empty_input() {
    assert_eq!(
        keccak256(b""),
        from_hex("c5d2460186f7233c927e7db2dcc703c0e500b653ca82273b7bfad8045d85a470")
    );
    assert_eq!(
        sha3_256(b""),
        from_hex("a7ffc6f8bf1ed76651c14756a061d662f580ff4de43b49fa82d80a4b80f8434a")
    );
}

#[test]
fn test_hash_consistency() {
    let checker = Blake3IntegrityChecker::new();
    let data = b"SCORIA AI integrity test";
    let hash1 = checker.compute_file_hash(data);
    let hash2 = checker.compute_file_hash(data);
    assert_eq!(hash1, hash2);
    assert_eq!(hash1, hash(data));
}

#[test]
fn chunked_and_parallel_hashing_match_sequential() {
    let data: Vec<u8> = (0..10_000u32).map(|i| (i * 31 % 251) as u8).collect();
    let whole = hash(&data);
    for chunk in [1usize, 7, 64, 1024, 4096, 9_999, 10_000, 50_000] {
        assert_eq!(hash_chunked(&data, chunk), whole);
    }
    assert_eq!(hash_parallel(&data), whole);
    assert_eq!(blake3_hash(&data), whole);
    assert_eq!(hash_chunked(b"", 3), hash(b""));
}

#[test]
fn test_tamper_detection() {
    let checker = Blake3IntegrityChecker::new();
    let original = b"Original data".to_vec();
    let original_hash = checker.compute_file_hash(&original);
    let mut tampered = original.clone();
    tampered.extend_from_slice(b"modified");
    match checker.verify_file(&tampered, &original_hash) {
        Err(IntegrityError::HashMismatch { expected, actual }) => {
            assert_eq!(expected, to_hex(&original_hash));
            assert_eq!(actual, to_hex(&hash(&tampered)));
        }
        _ => panic!("Tamper detection failed"),
    }
    assert!(checker.verify_file(&original, &original_hash).is_ok());
}

#[test]
fn verify_reports_both_digests() {
    let expected = hash(b"v1");
    match verify(b"v0", &expected) {
        Err(IntegrityError::HashMismatch { expected: e, actual: a }) => {
            assert_eq!(e.len(), 64);
            assert_eq!(e, to_hex(&expected));
            assert_eq!(a, to_hex(&hash(b"v0")));
        }
        _ => panic!("mismatch not reported"),
    }
    assert!(verify(b"v1", &expected).is_ok());
}

#[test]
fn zero_chunk_size_is_refused() {
    assert!(matches!(
        Blake3IntegrityChecker::with_chunk_size(0),
        Err(IntegrityError::InvalidChunkSize(0))
    ));
    let c = Blake3IntegrityChecker::with_chunk_size(5).ok().unwrap();
    assert_eq!(c.compute_file_hash(b"hello world"), hash(b"hello world"));
}

#[test]
fn anchored_digest_is_checked() {
    let checker = Blake3IntegrityChecker::new();
    let digest = hash(b"model");
    let mut account = vec![9u8; 32];
    account.extend_from_slice(&digest);
    account.extend_from_slice(&[1, 2, 3]);
    assert!(checker.verify_on_chain(&account, &digest).is_ok());
    let other = hash(b"other");
    assert!(matches!(
        checker.verify_on_chain(&account, &other),
        Err(IntegrityError::HashMismatch { .. })
    ));
    assert!(matches!(
        checker.verify_on_chain(&account[..63], &digest),
        Err(IntegrityError::ChainVerificationFailed)
    ));
}

#[test]
fn challenge_response_binds_digest() {
    let checker = Blake3IntegrityChecker::new();
    let (root, proof) = checker.generate_proof(b"data", b"challenge");
    assert_eq!(root, hash(b"data"));
    let mut joined = b"challenge".to_vec();
    joined.extend_from_slice(&root);
    assert_eq!(proof, hash(&joined));
}

#[test]
fn multi_digest_check() {
    let data = b"SCORIAAI";
    assert!(verify_digests(data, &hash(data), &sha3_256(data)));
    assert!(!verify_digests(data, &hash(data), &keccak256(data)));
    assert!(!verify_digests(data, &hash(b"x"), &sha3_256(data)));
}

#[test]
fn merkle_root_of_small_lists() {
    let a = hash(b"a");
    let b = hash(b"b");
    let c = hash(b"c");
    let pair = |l: &[u8; 32], r: &[u8; 32]| {
        let mut v = l.to_vec();
        v.extend_from_slice(r);
        hash(&v)
    };
    assert!(matches!(merkle_root(&vec![]), Err(IntegrityError::InvalidLength)));
    assert_eq!(merkle_root(&vec![a]).ok().unwrap(), a);
    assert_eq!(merkle_root(&vec![a, b]).ok().unwrap(), pair(&a, &b));
    let zero = [0u8; 32];
    assert_eq!(
        merkle_root(&vec![a, b, c]).ok().unwrap(),
        pair(&pair(&a, &b), &pair(&c, &zero))
    );
}

#[test]
fn merkle_proofs_verify_for_every_position() {
    for n in 1..=9usize {
        let leaves: Vec<[u8; 32]> = (0..n).map(|i| hash(&[i as u8])).collect();
        let root = merkle_root(&leaves).ok().unwrap();
        for i in 0..n {
            let path = merkle_proof(&leaves, i).ok().unwrap();
            assert!(verify_merkle(&leaves[i], &path, &root, i));
            let wrong_leaf = hash(b"intruder");
            assert!(!verify_merkle(&wrong_leaf, &path, &root, i));
        }
        assert!(matches!(merkle_proof(&leaves, n), Err(IntegrityError::InvalidLength)));
    }
}

#[test]
fn digest_equality() {
    let a = hash(b"a");
    let mut b = a;
    assert!(digests_equal(&a, &b));
    b[31] ^= 1;
    assert!(!digests_equal(&a, &b));
}
