use scoria_core::integrity::{hash, hash_parallel};
use scoria_core::prover::{
    generate_proof, parse_proof, validate_updates, verify, verify_proof, ProverError,
    PROOF_FORMAT_VERSION, PROOF_LEN,
};

#[test]
fn accelerated_and_portable_proofs_agree() {
    let model = hash(b"multiplier");
    let input = [3u8, 11];
    let output = [33u8];
    let fast = generate_proof(&model, &input, &output, false, true);
    let portable = generate_proof(&model, &input, &output, false, false);
    assert_eq!(fast.bytes, portable.bytes);
    for p in [&fast, &portable] {
        assert!(verify(&p.bytes, &model, &hash(&input), Some(&hash(&output))));
        assert!(verify_proof(p));
    }
}

#[test]
fn proof_bytes_have_versioned_format() {
    let model = hash(b"multiplier");
    let proof = generate_proof(&model, b"in", b"out", false, false);
    assert_eq!(proof.bytes.len(), PROOF_LEN);
    assert_eq!(proof.bytes[0], PROOF_FORMAT_VERSION);
    let mut joined = model.to_vec();
    joined.extend_from_slice(&hash(b"in"));
    joined.extend_from_slice(&hash(b"out"));
    assert_eq!(parse_proof(&proof.bytes).ok().unwrap(), hash(&joined));
    assert_eq!(hash_parallel(&joined), hash(&joined));
}

#[test]
fn private_output_is_zeroed() {
    let model = hash(b"m");
    let proof = generate_proof(&model, b"in", b"secret output", true, true);
    assert_eq!(proof.public_inputs.output_digest, [0u8; 32]);
    assert!(verify(&proof.bytes, &model, &hash(b"in"), None));
    assert!(!verify(&proof.bytes, &model, &hash(b"in"), Some(&hash(b"secret output"))));
}

#[test]
fn proof_rejects_other_public_inputs() {
    let model = hash(b"multiplier");
    let proof = generate_proof(&model, b"11", b"121", false, false);
    assert!(!verify(&proof.bytes, &model, &hash(b"12"), Some(&hash(b"121"))));
    assert!(!verify(&proof.bytes, &hash(b"other"), &hash(b"11"), Some(&hash(b"121"))));
    let mut bad = proof.bytes.clone();
    bad[5] ^= 1;
    assert!(!verify(&bad, &model, &hash(b"11"), Some(&hash(b"121"))));
}

#[test]
fn unsupported_format_is_rejected() {
    let model = hash(b"m");
    let mut proof = generate_proof(&model, b"i", b"o", false, false).bytes;
    proof[0] = 2;
    assert!(matches!(parse_proof(&proof), Err(ProverError::SerializationError)));
    assert!(matches!(parse_proof(&[]), Err(ProverError::SerializationError)));
    assert!(matches!(parse_proof(&proof[..32]), Err(ProverError::SerializationError)));
    assert!(!verify(&proof, &model, &hash(b"i"), Some(&hash(b"o"))));
}

#[test]
fn batch_validation_keeps_valid_proofs() {
    let model = hash(b"multiplier");
    let mut proofs = Vec::new();
    for i in 0..10u8 {
        let mut p = generate_proof(&model, &[i], &[i * 2], false, i % 2 == 0);
        if i % 3 == 0 {
            p.bytes[10] ^= 0xff;
        }
        proofs.push(p);
    }
    let kept = validate_updates(proofs);
    let inputs: Vec<[u8; 32]> = kept.iter().map(|p| p.public_inputs.input_digest).collect();
    let expected: Vec<[u8; 32]> = [1u8, 2, 4, 5, 7, 8].iter().map(|i| hash(&[*i])).collect();
    assert_eq!(inputs, expected);
}
