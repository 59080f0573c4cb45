use scoria_core::crypto::{AesError, Aes256GcmProvider};
use scoria_core::integrity::hash;
use scoria_core::loader::{
    check_cached, decrypt_model, CachedModel, ModelLoader, ModelLoaderError, ModelRequest,
    RetryPolicy,
};

const TEST_MODEL_DATA: &[u8] = b"SCORIA AI test model data v1.0";

fn remote(version: u64, data: &[u8]) -> ModelRequest {
    ModelRequest { version, expected_digest: Some(hash(data)) }
}

#[test]
fn test_load_valid_local_model() {
    let mut loader = ModelLoader::new(8);
    let request = ModelRequest { version: 0, expected_digest: None };
    let result = loader.install("test", &request, TEST_MODEL_DATA.to_vec(), 0);
    assert!(result.is_ok());
    let handle = result.ok().unwrap();
    assert_eq!(handle.data, TEST_MODEL_DATA);
    assert_eq!(handle.digest, hash(TEST_MODEL_DATA));
}

#[test]
fn test_load_invalid_hash_model() {
    let mut loader = ModelLoader::new(8);
    let result = loader.install("test", &remote(1, TEST_MODEL_DATA), b"corrupted data".to_vec(), 0);
    assert!(matches!(result, Err(ModelLoaderError::InvalidHash)));
    assert!(loader.cached("test", 0).is_none());
}

#[test]
fn test_malformed_model_rejection() {
    let mut loader = ModelLoader::new(8).with_integrity_check(true);
    let result = loader.install(
        "malformed_model",
        &remote(1, b"valid data"),
        b"malformed content".to_vec(),
        0,
    );
    assert!(matches!(result, Err(ModelLoaderError::ValidationFailed)));
}

#[test]
fn test_cache_behavior() {
    let mut loader = ModelLoader::new(8);
    let request = remote(1, TEST_MODEL_DATA);
    let first = loader.install("cached_model", &request, TEST_MODEL_DATA.to_vec(), 0);
    assert!(first.is_ok());
    let record = loader.cached("cached_model", 5).unwrap();
    assert_eq!(record.version, 1);
    assert!(matches!(check_cached(&record, &request, TEST_MODEL_DATA), Ok(true)));
    // A newer declared version is not served from the cache.
    assert!(matches!(check_cached(&record, &remote(2, TEST_MODEL_DATA), TEST_MODEL_DATA), Ok(false)));
}

#[test]
fn test_version_rollback_protection() {
    let mut loader = ModelLoader::new(8);
    let first = loader.install("versioned_model", &remote(1, b"v1"), b"v1".to_vec(), 0);
    assert!(first.is_ok());
    let second = loader.install("versioned_model", &remote(1, b"v0"), b"v0".to_vec(), 1);
    assert!(matches!(second, Err(ModelLoaderError::VersionConflict)));
    let older = loader.install("versioned_model", &remote(0, b"v0"), b"v0".to_vec(), 2);
    assert!(matches!(older, Err(ModelLoaderError::VersionConflict)));
    let newer = loader.install("versioned_model", &remote(2, b"v2"), b"v2".to_vec(), 3);
    assert_eq!(newer.ok().unwrap().version, 2);
}

#[test]
fn test_cache_poisoning_protection() {
    let mut loader = ModelLoader::new(8);
    let request = remote(1, TEST_MODEL_DATA);
    assert!(loader.install("secure_model", &request, TEST_MODEL_DATA.to_vec(), 0).is_ok());
    let record = loader.cached("secure_model", 1).unwrap();
    let corrupted = b"corrupted";
    assert!(matches!(
        check_cached(&record, &request, corrupted),
        Err(ModelLoaderError::CacheIntegrityFailure)
    ));
}

#[test]
fn test_concurrent_loading() {
    let mut loader = ModelLoader::new(16);
    for i in 0..10 {
        let name = format!("concurrent_model_{}", i);
        let r = loader.install(&name, &remote(1, TEST_MODEL_DATA), TEST_MODEL_DATA.to_vec(), i);
        assert!(r.is_ok());
    }
    for i in 0..10 {
        assert!(loader.cached(&format!("concurrent_model_{}", i), 20).is_some());
    }
}

#[test]
fn test_network_failure_retry() {
    let loader = ModelLoader::new(4).with_retries(3);
    let policy = loader.retry_policy();
    assert_eq!(policy.next_retry(0).ok(), Some(100));
    assert_eq!(policy.next_retry(1).ok(), Some(200));
    assert_eq!(policy.next_retry(2).ok(), Some(400));
    assert!(matches!(policy.next_retry(3), Err(ModelLoaderError::NetworkFailure)));
}

#[test]
fn backoff_saturates() {
    let policy = RetryPolicy { max_retries: 100, base_backoff_ms: u64::MAX / 2 + 1 };
    assert_eq!(policy.next_retry(0).ok(), Some(u64::MAX / 2 + 1));
    assert_eq!(policy.next_retry(1).ok(), Some(u64::MAX));
    assert_eq!(policy.next_retry(50).ok(), Some(u64::MAX));
}

#[test]
fn test_large_model_handling() {
    let mut loader = ModelLoader::new(2);
    let large = vec![0u8; 10 * 1024 * 1024];
    let request = ModelRequest { version: 1, expected_digest: Some(hash(&large)) };
    let handle = loader.install("large_model", &request, large, 0).ok().unwrap();
    assert_eq!(handle.data.len(), 10 * 1024 * 1024);
}

#[test]
fn encrypted_model_is_decrypted_then_installed() {
    let aes = Aes256GcmProvider::new();
    let blob = aes.encrypt(TEST_MODEL_DATA, "secret", b"model").ok().unwrap();
    let bytes = decrypt_model(&aes, &blob, "secret", b"model").ok().unwrap();
    let mut loader = ModelLoader::new(2);
    let handle = loader.install("enc", &remote(3, TEST_MODEL_DATA), bytes, 0).ok().unwrap();
    assert_eq!(handle.data, TEST_MODEL_DATA);
    assert!(matches!(
        decrypt_model(&aes, &blob[..40], "secret", b"model"),
        Err(ModelLoaderError::Decryption(AesError::InvalidLength))
    ));
}

#[test]
fn evicted_record_is_not_served() {
    let mut loader = ModelLoader::new(1);
    assert!(loader.install("a", &remote(1, b"a"), b"a".to_vec(), 0).is_ok());
    assert!(loader.install("b", &remote(1, b"b"), b"b".to_vec(), 1).is_ok());
    assert!(loader.cached("a", 2).is_none());
    let rec: CachedModel = loader.cached("b", 2).unwrap();
    assert_eq!(rec.digest, hash(b"b"));
}

#[test]
fn encrypted_model_opens_with_digest() {
    let aes = Aes256GcmProvider::new();
    let blob = aes.encrypt(TEST_MODEL_DATA, "key", b"").ok().unwrap();
    let (digest, data) = scoria_core::loader::open_encrypted_model(&aes, &blob, "key", b"").ok().unwrap();
    assert_eq!(data, TEST_MODEL_DATA);
    assert_eq!(digest, hash(TEST_MODEL_DATA));
}
