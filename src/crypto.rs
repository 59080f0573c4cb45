//! Password-based authenticated encryption of model blobs.
//!
//! A blob is laid out as `[16-byte salt][12-byte nonce][ciphertext][16-byte tag]`.
//! The key is derived from the secret and the salt with Argon2id; the cipher is
//! AES-256-GCM. The aes-gcm crate probes the processor once per process and runs
//! on AES-NI where the processor has it, else on its portable code, with the same
//! results either way.

use vstd::prelude::*;
use vstd::string::StringSliceAdditionalSpecFns;

verus! {

/// Bytes of the key-derivation salt at the head of a blob.
pub const SALT_LEN: usize = 16;

/// Bytes of the nonce that follows the salt.
pub const NONCE_LEN: usize = 12;

/// Bytes of the authentication tag at the end of a blob.
pub const TAG_LEN: usize = 16;

/// The shortest well-formed blob: header and tag around an empty ciphertext.
pub const MIN_BLOB_LEN: usize = 44;

/// Default Argon2id memory cost, in KiB.
pub const KDF_MEMORY_KIB: u32 = 19456;

/// Default Argon2id passes over memory.
pub const KDF_TIME_COST: u32 = 3;

/// Default Argon2id lanes.
pub const KDF_LANES: u32 = 4;

/// Most memory, in KiB, that a key derivation may be given.
pub const KDF_MAX_MEMORY_KIB: u32 = 0x20_0000;

/// Most lanes that a key derivation may be given.
pub const KDF_MAX_LANES: u32 = 0x00FF_FFFF;

/// Bytes of the derived key.
pub const KEY_LEN: u32 = 32;

/// The largest message, and the largest associated data, that AES-GCM takes.
pub const GCM_MAX_INPUT: u64 = 0x10_0000_0000;

/// The Argon2id (version 0x13) output for a password, a salt and the cost parameters.
pub uninterp spec fn argon2id_key(
    pwd: Seq<u8>,
    salt: Seq<u8>,
    mem_cost: u32,
    time_cost: u32,
    lanes: u32,
    hash_length: u32,
) -> Seq<u8>;

/// What AES-256-GCM decryption of ciphertext-and-tag `ct` under a key, a nonce and
/// associated data yields: the plaintext, or nothing when authentication fails.
pub uninterp spec fn gcm_open(key: Seq<u8>, nonce: Seq<u8>, aad: Seq<u8>, ct: Seq<u8>) -> Option<
    Seq<u8>,
>;

/// Relies on argon2::hash_raw (Argon2id, version 0x13, parallel lanes): it fails exactly
/// when a length is out of the crate's bounds, and otherwise yields `hash_length` bytes.
#[verifier::external_body]
fn argon2id_hash(
    pwd: &[u8],
    salt: &[u8],
    mem_cost: u32,
    time_cost: u32,
    lanes: u32,
    hash_length: u32,
) -> (r: Option<Vec<u8>>)
    requires
        1 <= lanes <= 0x00FF_FFFF,
        8 * lanes <= mem_cost <= 0x20_0000,
        time_cost >= 1,
        hash_length >= 4,
    ensures
        r is Some <==> (pwd@.len() <= u32::MAX && 8 <= salt@.len() <= u32::MAX),
        r matches Some(k) ==> k@ == argon2id_key(
            pwd@,
            salt@,
            mem_cost,
            time_cost,
            lanes,
            hash_length,
        ) && k@.len() == hash_length,
{
    let config = argon2::Config {
        variant: argon2::Variant::Argon2id,
        version: argon2::Version::Version13,
        mem_cost,
        time_cost,
        lanes,
        thread_mode: argon2::ThreadMode::Parallel,
        secret: &[],
        ad: &[],
        hash_length,
    };
    argon2::hash_raw(pwd, salt, &config).ok()
}

/// Relies on aes_gcm's Aead::encrypt for Aes256Gcm: it fails exactly when the message or
/// the associated data is over the GCM limit; otherwise it yields ciphertext and tag,
/// which decryption under the same key, nonce and associated data turns back into the
/// message.
#[verifier::external_body]
fn gcm_seal(key: &[u8], nonce: &[u8; 12], aad: &[u8], msg: &[u8]) -> (r: Option<Vec<u8>>)
    requires
        key@.len() == 32,
    ensures
        r is Some <==> (msg@.len() <= GCM_MAX_INPUT && aad@.len() <= GCM_MAX_INPUT),
        r matches Some(c) ==> c@.len() == msg@.len() + 16 && gcm_open(key@, nonce@, aad@, c@)
            == Some(msg@),
{
    let cipher = <aes_gcm::Aes256Gcm as aes_gcm::aead::KeyInit>::new(
        aes_gcm::Key::<aes_gcm::Aes256Gcm>::from_slice(key),
    );
    let nonce = aes_gcm::aead::generic_array::GenericArray::from_slice(nonce);
    aes_gcm::aead::Aead::encrypt(&cipher, nonce, aes_gcm::aead::Payload { msg, aad }).ok()
}

/// Relies on aes_gcm's Aead::decrypt for Aes256Gcm: the plaintext, or nothing when the
/// tag does not authenticate.
#[verifier::external_body]
fn gcm_unseal(key: &[u8], nonce: &[u8], aad: &[u8], ct: &[u8]) -> (r: Option<Vec<u8>>)
    requires
        key@.len() == 32,
        nonce@.len() == 12,
    ensures
        match gcm_open(key@, nonce@, aad@, ct@) {
            Some(p) => r matches Some(v) && v@ == p,
            None => r is None,
        },
{
    let cipher = <aes_gcm::Aes256Gcm as aes_gcm::aead::KeyInit>::new(
        aes_gcm::Key::<aes_gcm::Aes256Gcm>::from_slice(key),
    );
    let nonce = aes_gcm::aead::generic_array::GenericArray::from_slice(nonce);
    aes_gcm::aead::Aead::decrypt(&cipher, nonce, aes_gcm::aead::Payload { msg: ct, aad }).ok()
}

/// Relies on rand::random: a value from the thread-local generator, seeded from the
/// operating system; nothing is promised of it.
pub assume_specification<T>[ rand::random::<T> ]() -> (r: T)
    where
        rand::distributions::Standard: rand::distributions::Distribution<T>,
;

/// Errors of encryption and decryption.
#[derive(PartialEq, Eq, Structural)]
pub enum AesError {
    EncryptionFailed,
    /// The tag did not authenticate; no plaintext is exposed.
    DecryptionFailed,
    /// The blob is shorter than header and tag.
    InvalidLength,
    KeyDerivationFailed,
    InvalidKeyLength,
}

/// Cost parameters of the Argon2id key derivation.
#[derive(Clone, Copy)]
pub struct KdfCost {
    /// Memory, in KiB.
    pub mem_cost: u32,
    /// Passes over memory.
    pub time_cost: u32,
    /// Parallel lanes.
    pub lanes: u32,
}

/// Costs that the key derivation takes.
pub open spec fn cost_valid(c: KdfCost) -> bool {
    &&& 1 <= c.lanes <= KDF_MAX_LANES
    &&& 8 * c.lanes <= c.mem_cost <= KDF_MAX_MEMORY_KIB
    &&& c.time_cost >= 1
}

/// The key derived from a secret and a salt at cost `c`.
pub open spec fn derived_key(secret: Seq<u8>, salt: Seq<u8>, c: KdfCost) -> Seq<u8> {
    argon2id_key(secret, salt, c.mem_cost, c.time_cost, c.lanes, KEY_LEN)
}

/// The salt of a blob.
pub open spec fn blob_salt(blob: Seq<u8>) -> Seq<u8> {
    blob.subrange(0, 16)
}

/// The nonce of a blob.
pub open spec fn blob_nonce(blob: Seq<u8>) -> Seq<u8> {
    blob.subrange(16, 28)
}

/// Ciphertext and tag of a blob.
pub open spec fn blob_sealed(blob: Seq<u8>) -> Seq<u8> {
    blob.subrange(28, blob.len() as int)
}

/// What decrypting `blob` with `secret` and `aad`, at key-derivation cost `c`, yields.
pub open spec fn decrypt_result(blob: Seq<u8>, secret: Seq<u8>, aad: Seq<u8>, c: KdfCost) -> Result<
    Seq<u8>,
    AesError,
> {
    if blob.len() < MIN_BLOB_LEN {
        Err(AesError::InvalidLength)
    } else if secret.len() > u32::MAX {
        Err(AesError::KeyDerivationFailed)
    } else {
        match gcm_open(
            derived_key(secret, blob_salt(blob), c),
            blob_nonce(blob),
            aad,
            blob_sealed(blob),
        ) {
            Some(p) => Ok(p),
            None => Err(AesError::DecryptionFailed),
        }
    }
}

/// `blob` is an encryption of `plaintext` under `secret` and `aad` at cost `c`: some salt
/// and nonce, then what the cipher produced under the key derived from that salt.
pub open spec fn sealed_form(
    blob: Seq<u8>,
    secret: Seq<u8>,
    aad: Seq<u8>,
    c: KdfCost,
    plaintext: Seq<u8>,
) -> bool {
    &&& blob.len() == plaintext.len() + MIN_BLOB_LEN
    &&& gcm_open(derived_key(secret, blob_salt(blob), c), blob_nonce(blob), aad, blob_sealed(blob))
        == Some(plaintext)
}

/// Round trip: whatever `encrypt` produces from a plaintext, a secret and associated
/// data, `decrypt` with the same secret and associated data returns that plaintext.
pub proof fn lemma_round_trip(
    blob: Seq<u8>,
    secret: Seq<u8>,
    aad: Seq<u8>,
    c: KdfCost,
    plaintext: Seq<u8>,
)
    requires
        sealed_form(blob, secret, aad, c, plaintext),
        secret.len() <= u32::MAX,
    ensures
        decrypt_result(blob, secret, aad, c) == Ok::<Seq<u8>, AesError>(plaintext),
{
}

/// The blob laid out from its parts: salt, nonce, then ciphertext and tag.
pub fn assemble_blob(salt: &[u8; 16], nonce: &[u8; 12], sealed: &[u8]) -> (r: Vec<u8>)
    ensures
        r@ == salt@ + nonce@ + sealed@,
{
    let mut out: Vec<u8> = Vec::new();
    let mut i: usize = 0;
    while i < 16
        invariant
            i <= 16,
            salt@.len() == 16,
            out@ == salt@.subrange(0, i as int),
        decreases 16 - i,
    {
        out.push(salt[i]);
        assert(out@ =~= salt@.subrange(0, i + 1));
        i = i + 1;
    }
    let mut i: usize = 0;
    while i < 12
        invariant
            i <= 12,
            salt@.len() == 16,
            nonce@.len() == 12,
            out@ == salt@ + nonce@.subrange(0, i as int),
        decreases 12 - i,
    {
        out.push(nonce[i]);
        assert(out@ =~= salt@ + nonce@.subrange(0, i + 1));
        i = i + 1;
    }
    let mut i: usize = 0;
    while i < sealed.len()
        invariant
            i <= sealed@.len(),
            salt@.len() == 16,
            nonce@.len() == 12,
            out@ == salt@ + nonce@ + sealed@.subrange(0, i as int),
        decreases sealed@.len() - i,
    {
        out.push(sealed[i]);
        assert(out@ =~= salt@ + nonce@ + sealed@.subrange(0, i + 1));
        i = i + 1;
    }
    assert(salt@ + nonce@.subrange(0, 12) =~= salt@ + nonce@);
    assert(sealed@.subrange(0, sealed@.len() as int) =~= sealed@);
    out
}

/// AES-256-GCM with Argon2id key derivation.
pub struct Aes256GcmProvider {
    cost: KdfCost,
}

impl Aes256GcmProvider {
    /// The key-derivation cost.
    pub closed spec fn spec_cost(&self) -> KdfCost {
        self.cost
    }

    pub open spec fn wf(&self) -> bool {
        cost_valid(self.spec_cost())
    }

    /// A provider with the default key-derivation cost (19 MiB, three passes, four
    /// lanes); the cipher backend is chosen by the aes-gcm crate on first use.
    pub fn new() -> (r: Self)
        ensures
            r.wf(),
            r.spec_cost() == (KdfCost {
                mem_cost: KDF_MEMORY_KIB,
                time_cost: KDF_TIME_COST,
                lanes: KDF_LANES,
            }),
    {
        Aes256GcmProvider {
            cost: KdfCost { mem_cost: KDF_MEMORY_KIB, time_cost: KDF_TIME_COST, lanes: KDF_LANES },
        }
    }

    /// A provider with key-derivation cost `cost`, or `None` when Argon2id does not take it.
    pub fn with_kdf_cost(cost: KdfCost) -> (r: Option<Self>)
        ensures
            cost_valid(cost) ==> (r matches Some(p) && p.wf() && p.spec_cost() == cost),
            !cost_valid(cost) ==> r is None,
    {
        if cost.lanes < 1 || cost.lanes > KDF_MAX_LANES || cost.mem_cost < 8 * cost.lanes
            || cost.mem_cost > KDF_MAX_MEMORY_KIB || cost.time_cost < 1 {
            None
        } else {
            Some(Aes256GcmProvider { cost })
        }
    }

    /// The key-derivation cost.
    pub fn kdf_cost(&self) -> (r: KdfCost)
        ensures
            r == self.spec_cost(),
    {
        self.cost
    }

    /// The key for `secret` and `salt`.
    fn derive_key(&self, secret: &[u8], salt: &[u8]) -> (r: Result<Vec<u8>, AesError>)
        requires
            self.wf(),
            salt@.len() == 16,
        ensures
            secret@.len() > u32::MAX ==> r == Err::<Vec<u8>, AesError>(AesError::KeyDerivationFailed),
            secret@.len() <= u32::MAX ==> (r matches Ok(k) && k@ == derived_key(
                secret@,
                salt@,
                self.spec_cost(),
            ) && k@.len() == 32),
    {
        match argon2id_hash(
            secret,
            salt,
            self.cost.mem_cost,
            self.cost.time_cost,
            self.cost.lanes,
            KEY_LEN,
        ) {
            Some(k) => Ok(k),
            None => Err(AesError::KeyDerivationFailed),
        }
    }

    /// Encrypts `plaintext` under a key derived from `password` and a fresh random salt,
    /// with a fresh random nonce, authenticating `aad` too.
    pub fn encrypt(&self, plaintext: &[u8], password: &str, aad: &[u8]) -> (r: Result<
        Vec<u8>,
        AesError,
    >)
        requires
            self.wf(),
        ensures
            password.spec_bytes().len() > u32::MAX ==> r == Err::<Vec<u8>, AesError>(
                AesError::KeyDerivationFailed,
            ),
            password.spec_bytes().len() <= u32::MAX && (plaintext@.len() > GCM_MAX_INPUT
                || aad@.len() > GCM_MAX_INPUT) ==> r == Err::<Vec<u8>, AesError>(
                AesError::EncryptionFailed,
            ),
            password.spec_bytes().len() <= u32::MAX && plaintext@.len() <= GCM_MAX_INPUT
                && aad@.len() <= GCM_MAX_INPUT ==> r is Ok,
            r matches Ok(blob) ==> sealed_form(
                blob@,
                password.spec_bytes(),
                aad@,
                self.spec_cost(),
                plaintext@,
            ),
    {
        let salt: [u8; 16] = rand::random::<[u8; 16]>();
        let nonce: [u8; 12] = rand::random::<[u8; 12]>();
        self.encrypt_with(plaintext, password, aad, &salt, &nonce)
    }

    /// Encrypts `plaintext` under a key derived from `password` and `salt`, with `nonce`,
    /// authenticating `aad` too: the blob is the salt, the nonce, then the cipher's output.
    /// Each salt and nonce is to be used once; `encrypt` draws them at random.
    pub fn encrypt_with(
        &self,
        plaintext: &[u8],
        password: &str,
        aad: &[u8],
        salt: &[u8; 16],
        nonce: &[u8; 12],
    ) -> (r: Result<Vec<u8>, AesError>)
        requires
            self.wf(),
        ensures
            password.spec_bytes().len() > u32::MAX ==> r == Err::<Vec<u8>, AesError>(
                AesError::KeyDerivationFailed,
            ),
            password.spec_bytes().len() <= u32::MAX && (plaintext@.len() > GCM_MAX_INPUT
                || aad@.len() > GCM_MAX_INPUT) ==> r == Err::<Vec<u8>, AesError>(
                AesError::EncryptionFailed,
            ),
            password.spec_bytes().len() <= u32::MAX && plaintext@.len() <= GCM_MAX_INPUT
                && aad@.len() <= GCM_MAX_INPUT ==> r is Ok,
            r matches Ok(blob) ==> blob_salt(blob@) == salt@ && blob_nonce(blob@) == nonce@,
            r matches Ok(blob) ==> sealed_form(
                blob@,
                password.spec_bytes(),
                aad@,
                self.spec_cost(),
                plaintext@,
            ),
    {
        let secret = password.as_bytes();
        let key = self.derive_key(secret, salt.as_slice())?;
        let sealed = match gcm_seal(key.as_slice(), nonce, aad, plaintext) {
            Some(c) => c,
            None => {
                return Err(AesError::EncryptionFailed);
            },
        };
        let out = assemble_blob(salt, nonce, sealed.as_slice());
        assert(blob_salt(out@) =~= salt@);
        assert(blob_nonce(out@) =~= nonce@);
        assert(blob_sealed(out@) =~= sealed@);
        Ok(out)
    }

    /// Decrypts a blob produced by `encrypt` with the same password and associated data;
    /// fails closed on a short blob or a tag that does not authenticate.
    pub fn decrypt(&self, ciphertext: &[u8], password: &str, aad: &[u8]) -> (r: Result<
        Vec<u8>,
        AesError,
    >)
        requires
            self.wf(),
        ensures
            match decrypt_result(ciphertext@, password.spec_bytes(), aad@, self.spec_cost()) {
                Ok(p) => r matches Ok(v) && v@ == p,
                Err(e) => r == Err::<Vec<u8>, AesError>(e),
            },
    {
        if ciphertext.len() < MIN_BLOB_LEN {
            return Err(AesError::InvalidLength);
        }
        let secret = password.as_bytes();
        let salt = &ciphertext[0..SALT_LEN];
        let nonce = &ciphertext[SALT_LEN..SALT_LEN + NONCE_LEN];
        let sealed = &ciphertext[SALT_LEN + NONCE_LEN..ciphertext.len()];
        let key = self.derive_key(secret, salt)?;
        match gcm_unseal(key.as_slice(), nonce, aad, sealed) {
            Some(p) => Ok(p),
            None => Err(AesError::DecryptionFailed),
        }
    }
}

} // verus!
