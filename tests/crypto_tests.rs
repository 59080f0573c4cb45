use scoria_core::crypto::{assemble_blob, AesError, Aes256GcmProvider, KdfCost, MIN_BLOB_LEN};

#[test]
fn test_full_encryption_cycle() {
    let aes = Aes256GcmProvider::new();
    let plaintext = b"SCORIA AI confidential model parameters";
    let password = "strong_password_!@#";

    let ciphertext = aes.encrypt(plaintext, password, b"auth_data").ok().expect("Encryption failed");
    let decrypted = aes.decrypt(&ciphertext, password, b"auth_data").ok().expect("Decryption failed");

    assert_eq!(plaintext.to_vec(), decrypted);
}

#[test]
fn test_tamper_protection() {
    let aes = Aes256GcmProvider::new();
    let plaintext = b"Critical security data";
    let mut ciphertext = aes.encrypt(plaintext, "password", b"aad").ok().expect("Encryption failed");

    ciphertext[30] ^= 0x01;

    let result = aes.decrypt(&ciphertext, "password", b"aad");
    assert!(matches!(result, Err(AesError::DecryptionFailed)));
}

#[test]
fn blob_layout_and_confidentiality() {
    let aes = Aes256GcmProvider::new();
    let plaintext = b"weights weights weights";
    let blob = aes.encrypt(plaintext, "pw", b"").ok().unwrap();
    assert_eq!(blob.len(), plaintext.len() + MIN_BLOB_LEN);
    assert_ne!(&blob[28..28 + plaintext.len()], &plaintext[..]);
}

#[test]
fn tampered_tag_and_nonce_fail() {
    let aes = Aes256GcmProvider::new();
    let blob = aes.encrypt(b"x", "pw", b"ad").ok().unwrap();
    let last = blob.len() - 1;
    for pos in [16usize, last] {
        let mut t = blob.clone();
        t[pos] ^= 0x80;
        assert!(matches!(aes.decrypt(&t, "pw", b"ad"), Err(AesError::DecryptionFailed)));
    }
}

#[test]
fn wrong_secret_or_aad_fails() {
    let aes = Aes256GcmProvider::new();
    let blob = aes.encrypt(b"model", "right", b"ad").ok().unwrap();
    assert!(matches!(aes.decrypt(&blob, "wrong", b"ad"), Err(AesError::DecryptionFailed)));
    assert!(matches!(aes.decrypt(&blob, "right", b"other"), Err(AesError::DecryptionFailed)));
}

#[test]
fn short_blob_is_rejected() {
    let aes = Aes256GcmProvider::new();
    assert!(matches!(aes.decrypt(&[0u8; 43], "pw", b""), Err(AesError::InvalidLength)));
    assert!(matches!(aes.decrypt(&[], "pw", b""), Err(AesError::InvalidLength)));
}

#[test]
fn empty_plaintext_round_trips() {
    let aes = Aes256GcmProvider::new();
    let blob = aes.encrypt(b"", "", b"").ok().unwrap();
    assert_eq!(blob.len(), MIN_BLOB_LEN);
    assert_eq!(aes.decrypt(&blob, "", b"").ok().unwrap(), Vec::<u8>::new());
}

#[test]
fn kdf_cost_is_tunable() {
    let cheap = KdfCost { mem_cost: 64, time_cost: 1, lanes: 1 };
    let fast = Aes256GcmProvider::with_kdf_cost(cheap).unwrap();
    let blob = fast.encrypt(b"payload", "pw", b"ad").ok().unwrap();
    assert_eq!(fast.decrypt(&blob, "pw", b"ad").ok().unwrap(), b"payload".to_vec());
    // A provider at another cost derives another key.
    let default = Aes256GcmProvider::new();
    assert!(matches!(default.decrypt(&blob, "pw", b"ad"), Err(AesError::DecryptionFailed)));
    assert!(Aes256GcmProvider::with_kdf_cost(KdfCost { mem_cost: 7, time_cost: 1, lanes: 1 }).is_none());
    assert!(Aes256GcmProvider::with_kdf_cost(KdfCost { mem_cost: 64, time_cost: 0, lanes: 1 }).is_none());
    assert!(Aes256GcmProvider::with_kdf_cost(KdfCost { mem_cost: 64, time_cost: 1, lanes: 0 }).is_none());
    assert!(Aes256GcmProvider::with_kdf_cost(KdfCost { mem_cost: 64, time_cost: 1, lanes: 9 }).is_none());
}

#[test]
fn every_bit_flip_is_detected() {
    let fast = Aes256GcmProvider::with_kdf_cost(KdfCost { mem_cost: 8, time_cost: 1, lanes: 1 }).unwrap();
    let blob = fast.encrypt(b"ab", "pw", b"").ok().unwrap();
    for pos in 0..blob.len() {
        for bit in 0..8 {
            let mut t = blob.clone();
            t[pos] ^= 1 << bit;
            assert!(matches!(fast.decrypt(&t, "pw", b""), Err(AesError::DecryptionFailed)));
        }
    }
}

#[test]
fn blob_starts_with_salt_and_nonce() {
    let fast = Aes256GcmProvider::with_kdf_cost(KdfCost { mem_cost: 8, time_cost: 1, lanes: 1 }).unwrap();
    let salt = [7u8; 16];
    let nonce = [9u8; 12];
    let blob = fast.encrypt_with(b"abc", "pw", b"", &salt, &nonce).ok().unwrap();
    assert_eq!(&blob[..16], &salt[..]);
    assert_eq!(&blob[16..28], &nonce[..]);
    assert_eq!(blob.len(), 3 + MIN_BLOB_LEN);
    assert_eq!(fast.decrypt(&blob, "pw", b"").ok().unwrap(), b"abc".to_vec());
    // Same inputs, same blob.
    assert_eq!(fast.encrypt_with(b"abc", "pw", b"", &salt, &nonce).ok().unwrap(), blob);
}

#[test]
fn blob_parts_are_concatenated() {
    let blob = assemble_blob(&[1u8; 16], &[2u8; 12], &[3, 4, 5]);
    let mut expected = vec![1u8; 16];
    expected.extend_from_slice(&[2u8; 12]);
    expected.extend_from_slice(&[3, 4, 5]);
    assert_eq!(blob, expected);
}
