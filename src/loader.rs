//! The decisions of model loading: when a cached model may be served, when fetched
//! bytes may be installed, and how failed fetches are retried.
//!
//! The caller does the fetching and keeps the model bytes in its backing store; the
//! loader keeps, per model name, the version and digest that were verified.

use vstd::prelude::*;
use vstd::string::StringSliceAdditionalSpecFns;
use crate::cache::{
    effective_ttl, get_result, inserted, keys_unique, lemma_inserted_found, EntryView, LRUCache,
};
use crate::crypto::{decrypt_result, AesError, Aes256GcmProvider};
use crate::integrity::{blake3_of, digests_equal, hash};

verus! {

/// Errors of model loading.
#[derive(PartialEq, Eq, Structural)]
pub enum ModelLoaderError {
    /// The fetched bytes do not have the expected digest.
    InvalidHash,
    /// Fetching failed and the retry budget is spent.
    NetworkFailure,
    /// The fetched bytes do not have the expected digest, with strict checking on.
    ValidationFailed,
    /// The declared version is not above the version already held.
    VersionConflict,
    /// The stored bytes of a cached model no longer have their recorded digest.
    CacheIntegrityFailure,
    /// The encrypted model could not be decrypted.
    Decryption(AesError),
}

/// What the loader records of an installed model.
#[derive(Clone, Copy)]
pub struct CachedModel {
    pub version: u64,
    pub digest: [u8; 32],
}

/// What a load asks for: a declared version and, for remote content, its expected digest.
#[derive(Clone, Copy)]
pub struct ModelRequest {
    pub version: u64,
    pub expected_digest: Option<[u8; 32]>,
}

/// A verified model.
pub struct ModelHandle {
    pub version: u64,
    pub digest: [u8; 32],
    pub data: Vec<u8>,
}

/// Whether a request accepts a model with `digest`: one without expectation accepts any.
pub open spec fn digest_accepted(expected: Option<[u8; 32]>, digest: Seq<u8>) -> bool {
    match expected {
        Some(e) => e@ == digest,
        None => true,
    }
}

/// What checking a cached record against its stored bytes yields: the integrity failure
/// when the bytes lost their digest, else whether the record serves the request (its
/// version is at least the declared one and its digest is the expected one).
pub open spec fn cached_outcome(record: CachedModel, request: ModelRequest, stored: Seq<u8>) -> Result<
    bool,
    ModelLoaderError,
> {
    if blake3_of(stored) != record.digest@ {
        Err(ModelLoaderError::CacheIntegrityFailure)
    } else {
        Ok(record.version >= request.version && digest_accepted(request.expected_digest, record.digest@))
    }
}

/// What installing fetched bytes with digest `digest` yields, given what the cache holds
/// under the name: a digest mismatch, else a version conflict with the held version,
/// else success.
pub open spec fn install_outcome(
    held: Option<CachedModel>,
    request: ModelRequest,
    digest: Seq<u8>,
    strict: bool,
) -> Result<(), ModelLoaderError> {
    if !digest_accepted(request.expected_digest, digest) {
        if strict {
            Err(ModelLoaderError::ValidationFailed)
        } else {
            Err(ModelLoaderError::InvalidHash)
        }
    } else {
        match held {
            Some(p) => if request.version <= p.version {
                Err(ModelLoaderError::VersionConflict)
            } else {
                Ok(())
            },
            None => Ok(()),
        }
    }
}

/// The delay before retry number `attempt + 1`: the base delay doubled `attempt` times,
/// saturating at the largest value.
pub open spec fn backoff_delay(base: u64, attempt: nat) -> u64
    decreases attempt,
{
    if attempt == 0 {
        base
    } else {
        let d = backoff_delay(base, (attempt - 1) as nat);
        if d > u64::MAX / 2 {
            u64::MAX
        } else {
            (2 * d) as u64
        }
    }
}

/// Rollback rejection: once a version is installed under a name, installing bytes for
/// that name whose declared version is not greater fails with `VersionConflict`.
pub proof fn lemma_rollback_rejected(
    s: Seq<EntryView<CachedModel>>,
    name: Seq<char>,
    installed: CachedModel,
    installed_at: u64,
    capacity: usize,
    later: u64,
    request: ModelRequest,
    digest: Seq<u8>,
    strict: bool,
)
    requires
        keys_unique(s),
        s.len() <= capacity,
        capacity > 0,
        request.version <= installed.version,
        digest_accepted(request.expected_digest, digest),
    ensures
        install_outcome(
            get_result(inserted(s, name, installed, None, installed_at, capacity), name, later),
            request,
            digest,
            strict,
        ) == Err::<(), ModelLoaderError>(ModelLoaderError::VersionConflict),
{
    lemma_inserted_found(s, name, installed, None, installed_at, capacity);
}

/// Cache poisoning detection: stored bytes that no longer have the digest recorded when
/// they were installed are reported as `CacheIntegrityFailure`, whatever the request.
pub proof fn lemma_poisoning_detected(record: CachedModel, request: ModelRequest, stored: Seq<u8>)
    requires
        blake3_of(stored) != record.digest@,
    ensures
        cached_outcome(record, request, stored) == Err::<bool, ModelLoaderError>(
            ModelLoaderError::CacheIntegrityFailure,
        ),
{
}

/// Whether the stored bytes of a cached model still have their recorded digest, and if
/// so whether the record serves `request`.
pub fn check_cached(record: &CachedModel, request: &ModelRequest, stored: &[u8]) -> (r: Result<
    bool,
    ModelLoaderError,
>)
    ensures
        r == cached_outcome(*record, *request, stored@),
{
    let actual = hash(stored);
    if !digests_equal(&actual, &record.digest) {
        return Err(ModelLoaderError::CacheIntegrityFailure);
    }
    let accepted = match &request.expected_digest {
        Some(e) => digests_equal(e, &record.digest),
        None => true,
    };
    Ok(record.version >= request.version && accepted)
}

/// Retry policy for fetches: a bounded number of retries with exponential backoff.
#[derive(Clone, Copy)]
pub struct RetryPolicy {
    pub max_retries: u32,
    pub base_backoff_ms: u64,
}

impl RetryPolicy {
    /// After failed attempt number `attempt` (from zero): the delay before the next try,
    /// or `NetworkFailure` once `max_retries` retries are spent.
    pub fn next_retry(&self, attempt: u32) -> (r: Result<u64, ModelLoaderError>)
        ensures
            attempt < self.max_retries ==> r == Ok::<u64, ModelLoaderError>(
                backoff_delay(self.base_backoff_ms, attempt as nat),
            ),
            attempt >= self.max_retries ==> r == Err::<u64, ModelLoaderError>(
                ModelLoaderError::NetworkFailure,
            ),
    {
        if attempt >= self.max_retries {
            return Err(ModelLoaderError::NetworkFailure);
        }
        let mut d: u64 = self.base_backoff_ms;
        let mut i: u32 = 0;
        while i < attempt
            invariant
                i <= attempt,
                d == backoff_delay(self.base_backoff_ms, i as nat),
            decreases attempt - i,
        {
            d = if d > u64::MAX / 2 {
                u64::MAX
            } else {
                2 * d
            };
            i = i + 1;
        }
        Ok(d)
    }
}

/// Tracks verified models by name, with rollback protection.
pub struct ModelLoader {
    cache: LRUCache<CachedModel>,
    strict: bool,
    retry: RetryPolicy,
}

impl ModelLoader {
    /// Records held, from least to most recently used.
    pub closed spec fn records(&self) -> Seq<EntryView<CachedModel>> {
        self.cache@
    }

    /// Most records held.
    pub closed spec fn spec_capacity(&self) -> usize {
        self.cache.spec_capacity()
    }

    /// Whether a digest mismatch is reported as `ValidationFailed`.
    pub closed spec fn spec_strict(&self) -> bool {
        self.strict
    }

    /// The retry policy.
    pub closed spec fn spec_retry(&self) -> RetryPolicy {
        self.retry
    }

    pub closed spec fn wf(&self) -> bool {
        &&& self.cache.wf()
        &&& self.cache.spec_default_ttl() is None
    }

    /// A loader that holds records of up to `capacity` models, with three retries from
    /// a 100 ms backoff and lenient digest reporting.
    pub fn new(capacity: usize) -> (r: Self)
        ensures
            r.wf(),
            r.records() == Seq::<EntryView<CachedModel>>::empty(),
            r.spec_capacity() == capacity,
            !r.spec_strict(),
            r.spec_retry() == (RetryPolicy { max_retries: 3, base_backoff_ms: 100 }),
    {
        ModelLoader {
            cache: LRUCache::new(capacity, None),
            strict: false,
            retry: RetryPolicy { max_retries: 3, base_backoff_ms: 100 },
        }
    }

    /// The same loader with `retries` retries per fetch.
    pub fn with_retries(self, retries: u32) -> (r: Self)
        requires
            self.wf(),
        ensures
            r.wf(),
            r.records() == self.records(),
            r.spec_capacity() == self.spec_capacity(),
            r.spec_strict() == self.spec_strict(),
            r.spec_retry() == (RetryPolicy { max_retries: retries, ..self.spec_retry() }),
    {
        let retry = RetryPolicy { max_retries: retries, base_backoff_ms: self.retry.base_backoff_ms };
        ModelLoader { cache: self.cache, strict: self.strict, retry }
    }

    /// The same loader, reporting digest mismatches as `ValidationFailed` when `strict`.
    pub fn with_integrity_check(self, strict: bool) -> (r: Self)
        requires
            self.wf(),
        ensures
            r.wf(),
            r.records() == self.records(),
            r.spec_capacity() == self.spec_capacity(),
            r.spec_strict() == strict,
            r.spec_retry() == self.spec_retry(),
    {
        ModelLoader { cache: self.cache, strict, retry: self.retry }
    }

    /// The retry policy.
    pub fn retry_policy(&self) -> (r: RetryPolicy)
        ensures
            r == self.spec_retry(),
    {
        self.retry
    }

    /// The record held for `name` at time `now`, made the most recently used.
    pub fn cached(&mut self, name: &str, now: u64) -> (r: Option<CachedModel>)
        requires
            old(self).wf(),
        ensures
            final(self).wf(),
            r == get_result(old(self).records(), name@, now),
            final(self).spec_capacity() == old(self).spec_capacity(),
            final(self).spec_strict() == old(self).spec_strict(),
            final(self).spec_retry() == old(self).spec_retry(),
    {
        match self.cache.get_at(name, now) {
            Some(r) => Some(*r),
            None => None,
        }
    }

    /// Installs fetched (and, if need be, decrypted) bytes under `name` at time `now`,
    /// after checking their digest against the request and their declared version
    /// against the version held; nothing is installed on failure.
    pub fn install(&mut self, name: &str, request: &ModelRequest, fetched: Vec<u8>, now: u64) -> (r:
        Result<ModelHandle, ModelLoaderError>)
        requires
            old(self).wf(),
        ensures
            final(self).wf(),
            final(self).spec_capacity() == old(self).spec_capacity(),
            final(self).spec_strict() == old(self).spec_strict(),
            final(self).spec_retry() == old(self).spec_retry(),
            ({
                let outcome = install_outcome(
                    get_result(old(self).records(), name@, now),
                    *request,
                    blake3_of(fetched@),
                    old(self).spec_strict(),
                );
                &&& outcome is Ok ==> {
                    &&& r matches Ok(h) && h.version == request.version && h.digest@ == blake3_of(
                        fetched@,
                    ) && h.data@ == fetched@
                    &&& final(self).records() == inserted(
                        old(self).records(),
                        name@,
                        CachedModel { version: request.version, digest: r->Ok_0.digest },
                        None,
                        now,
                        old(self).spec_capacity(),
                    )
                }
                &&& outcome matches Err(e) ==> r == Err::<ModelHandle, ModelLoaderError>(e)
                    && final(self).records() == old(self).records()
            }),
    {
        let digest = hash(fetched.as_slice());
        let accepted = match &request.expected_digest {
            Some(e) => digests_equal(e, &digest),
            None => true,
        };
        if !accepted {
            if self.strict {
                return Err(ModelLoaderError::ValidationFailed);
            } else {
                return Err(ModelLoaderError::InvalidHash);
            }
        }
        match self.cache.peek_at(name, now) {
            Some(p) => {
                if request.version <= p.version {
                    return Err(ModelLoaderError::VersionConflict);
                }
            },
            None => {},
        }
        let record = CachedModel { version: request.version, digest };
        self.cache.insert_at(name, record, None, now);
        assert(effective_ttl(None, self.cache.spec_default_ttl()) == None::<u64>);
        Ok(ModelHandle { version: request.version, digest, data: fetched })
    }
}

/// Decrypts an encrypted model blob; a failure becomes `Decryption` with the cause.
pub fn decrypt_model(provider: &Aes256GcmProvider, blob: &[u8], password: &str, aad: &[u8]) -> (r:
    Result<Vec<u8>, ModelLoaderError>)
    requires
        provider.wf(),
    ensures
        match decrypt_result(blob@, password.spec_bytes(), aad@, provider.spec_cost()) {
            Ok(p) => r matches Ok(v) && v@ == p,
            Err(e) => r == Err::<Vec<u8>, ModelLoaderError>(ModelLoaderError::Decryption(e)),
        },
{
    match provider.decrypt(blob, password, aad) {
        Ok(p) => Ok(p),
        Err(e) => Err(ModelLoaderError::Decryption(e)),
    }
}

/// Decrypts an encrypted model and computes the digest of the plaintext, which the
/// caller checks against the expected or anchored digest before trusting the model.
pub fn open_encrypted_model(
    provider: &Aes256GcmProvider,
    blob: &[u8],
    password: &str,
    aad: &[u8],
) -> (r: Result<([u8; 32], Vec<u8>), ModelLoaderError>)
    requires
        provider.wf(),
    ensures
        match decrypt_result(blob@, password.spec_bytes(), aad@, provider.spec_cost()) {
            Ok(p) => r matches Ok((d, v)) && v@ == p && d@ == blake3_of(p),
            Err(e) => r == Err::<([u8; 32], Vec<u8>), ModelLoaderError>(
                ModelLoaderError::Decryption(e),
            ),
        },
{
    let data = decrypt_model(provider, blob, password, aad)?;
    let digest = hash(data.as_slice());
    Ok((digest, data))
}

} // verus!
