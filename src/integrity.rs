//! Content digests, digest checks and Merkle proofs over version histories.

use vstd::prelude::*;

verus! {

/// The BLAKE3 digest of a byte sequence.
pub uninterp spec fn blake3_of(data: Seq<u8>) -> Seq<u8>;

/// The bytes that a BLAKE3 hasher has absorbed since it was created.
pub uninterp spec fn blake3_absorbed(h: blake3::Hasher) -> Seq<u8>;

#[verifier::external_type_specification]
#[verifier::external_body]
pub struct ExBlake3Hasher(blake3::Hasher);

/// Relies on blake3::Hasher::new: a fresh hasher has absorbed nothing.
pub assume_specification[ blake3::Hasher::new ]() -> (r: blake3::Hasher)
    ensures
        blake3_absorbed(r) == Seq::<u8>::empty(),
;

/// Relies on blake3::Hasher::update: the input is appended to what the hasher absorbed.
#[verifier::external_body]
pub(crate) fn blake3_update(h: &mut blake3::Hasher, data: &[u8])
    ensures
        blake3_absorbed(*final(h)) == blake3_absorbed(*old(h)) + data@,
{
    h.update(data);
}

/// Relies on blake3::Hasher::finalize: the digest of all absorbed input; the hasher is left as it is.
#[verifier::external_body]
pub(crate) fn blake3_finalize(h: &blake3::Hasher) -> (r: [u8; 32])
    ensures
        r@ == blake3_of(blake3_absorbed(*h)),
{
    h.finalize().into()
}

/// Digest of `data`.
pub fn hash(data: &[u8]) -> (r: [u8; 32])
    ensures
        r@ == blake3_of(data@),
{
    let mut h = blake3::Hasher::new();
    blake3_update(&mut h, data);
    assert(Seq::<u8>::empty() + data@ =~= data@);
    blake3_finalize(&h)
}

/// Relies on blake3::Hasher::update_rayon: like `update`, with the input split over worker threads;
/// the crate documents that the output is the same as with `update`.
#[verifier::external_body]
pub(crate) fn blake3_update_parallel(h: &mut blake3::Hasher, data: &[u8])
    ensures
        blake3_absorbed(*final(h)) == blake3_absorbed(*old(h)) + data@,
{
    h.update_rayon(data);
}

/// Digest of `data`, absorbed by worker threads in parallel.
pub fn hash_parallel(data: &[u8]) -> (r: [u8; 32])
    ensures
        r@ == blake3_of(data@),
{
    let mut h = blake3::Hasher::new();
    blake3_update_parallel(&mut h, data);
    assert(Seq::<u8>::empty() + data@ =~= data@);
    blake3_finalize(&h)
}

/// Consecutive chunks of `size` bytes of `data`, the last one possibly shorter.
pub open spec fn chunks_of(data: Seq<u8>, size: nat) -> Seq<Seq<u8>>
    decreases data.len(),
{
    if data.len() == 0 {
        Seq::empty()
    } else if size == 0 || data.len() <= size {
        seq![data]
    } else {
        seq![data.subrange(0, size as int)] + chunks_of(data.subrange(size as int, data.len() as int), size)
    }
}

/// The chunks joined in order.
pub open spec fn joined(chunks: Seq<Seq<u8>>) -> Seq<u8>
    decreases chunks.len(),
{
    if chunks.len() == 0 {
        Seq::empty()
    } else {
        chunks[0] + joined(chunks.drop_first())
    }
}

/// Hash determinism under chunking: the chunks of `data` of any size, joined in their
/// fixed order, are `data` again, so absorbing them one by one digests `data`.
pub proof fn lemma_chunks_rejoin(data: Seq<u8>, size: nat)
    ensures
        joined(chunks_of(data, size)) == data,
    decreases data.len(),
{
    if data.len() == 0 {
    } else if size == 0 || data.len() <= size {
        let c = seq![data];
        assert(c.drop_first() =~= Seq::<Seq<u8>>::empty());
        assert(joined(c.drop_first()) == Seq::<u8>::empty());
        assert(joined(c) == c[0] + joined(c.drop_first()));
        assert(data + Seq::<u8>::empty() =~= data);
    } else {
        let head = data.subrange(0, size as int);
        let tail = data.subrange(size as int, data.len() as int);
        lemma_chunks_rejoin(tail, size);
        let c = seq![head] + chunks_of(tail, size);
        assert(c.drop_first() =~= chunks_of(tail, size));
        assert(chunks_of(data, size) == c);
        assert(joined(c) == c[0] + joined(c.drop_first()));
        assert(head + tail =~= data);
    }
}

/// Digest of `data`, fed to the hasher in consecutive chunks of `chunk_size` bytes
/// (the last one may be shorter), in order.
pub fn hash_chunked(data: &[u8], chunk_size: usize) -> (r: [u8; 32])
    requires
        chunk_size > 0,
    ensures
        r@ == blake3_of(data@),
        r@ == blake3_of(joined(chunks_of(data@, chunk_size as nat))),
{
    proof {
        lemma_chunks_rejoin(data@, chunk_size as nat);
    }
    let mut h = blake3::Hasher::new();
    let mut start: usize = 0;
    assert(data@.subrange(0, 0) =~= Seq::<u8>::empty());
    while start < data.len()
        invariant
            start <= data@.len(),
            chunk_size > 0,
            blake3_absorbed(h) == data@.subrange(0, start as int),
        decreases data@.len() - start,
    {
        let end: usize = if data.len() - start > chunk_size {
            start + chunk_size
        } else {
            data.len()
        };
        blake3_update(&mut h, &data[start..end]);
        assert(data@.subrange(0, start as int) + data@.subrange(start as int, end as int)
            =~= data@.subrange(0, end as int));
        start = end;
    }
    assert(data@.subrange(0, data@.len() as int) =~= data@);
    blake3_finalize(&h)
}

/// Digest of `left` followed by `right`.
fn hash_pair(left: &[u8; 32], right: &[u8; 32]) -> (r: [u8; 32])
    ensures
        r@ == node_digest(left@, right@),
{
    let mut h = blake3::Hasher::new();
    blake3_update(&mut h, left.as_slice());
    blake3_update(&mut h, right.as_slice());
    assert(Seq::<u8>::empty() + left@ + right@ =~= left@ + right@);
    blake3_finalize(&h)
}

/// Thirty-two zero bytes: the filler that pairs with an odd trailing node.
pub open spec fn zero_digest() -> Seq<u8> {
    Seq::new(32, |i: int| 0u8)
}

/// Digest of an inner Merkle node.
pub open spec fn node_digest(left: Seq<u8>, right: Seq<u8>) -> Seq<u8> {
    blake3_of(left + right)
}

/// The views of a sequence of fixed-width digests.
pub open spec fn digests_view(v: Seq<[u8; 32]>) -> Seq<Seq<u8>> {
    v.map_values(|d: [u8; 32]| d@)
}

/// The level above `level`: adjacent pairs folded left to right, an odd trailing node
/// paired with the zero filler.
pub open spec fn next_level(level: Seq<Seq<u8>>) -> Seq<Seq<u8>> {
    Seq::new(
        ((level.len() + 1) / 2) as nat,
        |j: int|
            node_digest(
                level[2 * j],
                if 2 * j + 1 < level.len() {
                    level[2 * j + 1]
                } else {
                    zero_digest()
                },
            ),
    )
}

/// Merkle root of a non-empty level.
pub open spec fn root_of(level: Seq<Seq<u8>>) -> Seq<u8>
    decreases level.len(),
{
    if level.len() <= 1 {
        level[0]
    } else {
        root_of(next_level(level))
    }
}

/// The node that pairs with position `i` of `level`.
pub open spec fn sibling_of(level: Seq<Seq<u8>>, i: int) -> Seq<u8> {
    if i % 2 == 0 {
        if i + 1 < level.len() {
            level[i + 1]
        } else {
            zero_digest()
        }
    } else {
        level[i - 1]
    }
}

/// Sibling path of position `i`, from the leaves up to just below the root.
pub open spec fn proof_of(level: Seq<Seq<u8>>, i: int) -> Seq<Seq<u8>>
    decreases level.len(),
{
    if level.len() <= 1 {
        Seq::empty()
    } else {
        seq![sibling_of(level, i)] + proof_of(next_level(level), i / 2)
    }
}

/// One step up: `cur` is a left child when `index` is even, a right child otherwise.
pub open spec fn climb(cur: Seq<u8>, sibling: Seq<u8>, index: int) -> Seq<u8> {
    if index % 2 == 0 {
        node_digest(cur, sibling)
    } else {
        node_digest(sibling, cur)
    }
}

/// The root that a leaf at `index` and a sibling path lead to.
pub open spec fn fold_path(leaf: Seq<u8>, path: Seq<Seq<u8>>, index: int) -> Seq<u8>
    decreases path.len(),
{
    if path.len() == 0 {
        leaf
    } else {
        fold_path(climb(leaf, path[0], index), path.drop_first(), index / 2)
    }
}

/// Merkle consistency: for every non-empty list of digests and every position in it,
/// the leaf at that position, its sibling path and the list's root check out.
pub proof fn lemma_merkle_consistent(level: Seq<Seq<u8>>, i: int)
    requires
        0 <= i < level.len(),
    ensures
        fold_path(level[i], proof_of(level, i), i) == root_of(level),
    decreases level.len(),
{
    if level.len() > 1 {
        let up = next_level(level);
        assert(climb(level[i], sibling_of(level, i), i) == up[i / 2]);
        lemma_merkle_consistent(up, i / 2);
        let path = proof_of(level, i);
        assert(path.drop_first() =~= proof_of(up, i / 2));
    }
}

/// Errors of the integrity checks.
pub enum IntegrityError {
    /// The input has a length that the operation cannot take (an empty list,
    /// a position past its end, a record too short to hold a digest).
    InvalidLength,
    /// The computed digest differs from the expected one; both are given in hex.
    HashMismatch { expected: String, actual: String },
    /// The externally anchored record does not hold a well-formed digest.
    ChainVerificationFailed,
    /// A chunk size of zero was asked for.
    InvalidChunkSize(usize),
}

/// The level above `level`, computed.
fn build_next_level(level: &Vec<[u8; 32]>) -> (r: Vec<[u8; 32]>)
    requires
        level@.len() >= 1,
    ensures
        digests_view(r@) == next_level(digests_view(level@)),
        r@.len() < level@.len() || level@.len() == 1,
        r@.len() >= 1,
{
    let n = level.len();
    let mut out: Vec<[u8; 32]> = Vec::new();
    let zero: [u8; 32] = [0u8; 32];
    assert(zero@ =~= zero_digest());
    let half: usize = n / 2 + n % 2;
    assert(half == (n + 1) / 2);
    let mut j: usize = 0;
    while j < half
        invariant
            n == level@.len(),
            n >= 1,
            half == (n + 1) / 2,
            j <= half,
            zero@ == zero_digest(),
            out@.len() == j,
            forall|k: int|
                0 <= k < j ==> #[trigger] digests_view(out@)[k] == next_level(
                    digests_view(level@),
                )[k],
        decreases half - j,
    {
        let l = 2 * j;
        let node = if l + 1 < n {
            hash_pair(&level[l], &level[l + 1])
        } else {
            hash_pair(&level[l], &zero)
        };
        let ghost lv = digests_view(level@);
        assert(lv[l as int] == level@[l as int]@);
        assert(l + 1 < n ==> lv[l + 1] == level@[l + 1]@);
        assert(node@ == next_level(lv)[j as int]);
        let ghost prev = out@;
        out.push(node);
        assert(out@ == prev.push(node));
        assert(digests_view(out@)[j as int] == node@);
        assert forall|k: int| 0 <= k < j + 1 implies #[trigger] digests_view(out@)[k] == next_level(
            lv,
        )[k] by {
            if k < j {
                assert(digests_view(out@)[k] == digests_view(prev)[k]);
            }
        }
        j = j + 1;
    }
    assert(digests_view(out@) =~= next_level(digests_view(level@)));
    out
}

/// Merkle root of an ordered list of digests: adjacent pairs are folded left to right,
/// an odd trailing digest is folded with the zero filler; one digest is its own root.
pub fn merkle_root(versions: &Vec<[u8; 32]>) -> (r: Result<[u8; 32], IntegrityError>)
    ensures
        versions@.len() == 0 ==> r is Err && r->Err_0 is InvalidLength,
        versions@.len() > 0 ==> r is Ok && r->Ok_0@ == root_of(digests_view(versions@)),
{
    if versions.len() == 0 {
        return Err(IntegrityError::InvalidLength);
    }
    if versions.len() == 1 {
        return Ok(versions[0]);
    }
    let mut level = build_next_level(versions);
    while level.len() > 1
        invariant
            level@.len() >= 1,
            root_of(digests_view(level@)) == root_of(digests_view(versions@)),
        decreases level@.len(),
    {
        level = build_next_level(&level);
    }
    Ok(level[0])
}

/// Sibling path of the digest at `index`, from the leaves up.
pub fn merkle_proof(versions: &Vec<[u8; 32]>, index: usize) -> (r: Result<
    Vec<[u8; 32]>,
    IntegrityError,
>)
    ensures
        index >= versions@.len() ==> r is Err && r->Err_0 is InvalidLength,
        index < versions@.len() ==> r is Ok && digests_view(r->Ok_0@) == proof_of(
            digests_view(versions@),
            index as int,
        ),
{
    if index >= versions.len() {
        return Err(IntegrityError::InvalidLength);
    }
    let mut proof: Vec<[u8; 32]> = Vec::new();
    if versions.len() == 1 {
        assert(digests_view(proof@) =~= proof_of(digests_view(versions@), index as int));
        return Ok(proof);
    }
    let zero: [u8; 32] = [0u8; 32];
    let sib = if index % 2 == 0 {
        if index + 1 < versions.len() {
            versions[index + 1]
        } else {
            zero
        }
    } else {
        versions[index - 1]
    };
    proof.push(sib);
    let mut level = build_next_level(versions);
    let mut cur: usize = index / 2;
    assert(zero@ =~= zero_digest());
    assert(digests_view(proof@) + proof_of(digests_view(level@), cur as int) =~= proof_of(
        digests_view(versions@),
        index as int,
    ));
    while level.len() > 1
        invariant
            cur < level@.len(),
            zero@ == zero_digest(),
            digests_view(proof@) + proof_of(digests_view(level@), cur as int) == proof_of(
                digests_view(versions@),
                index as int,
            ),
        decreases level@.len(),
    {
        let ghost old_proof = digests_view(proof@);
        let ghost old_level = digests_view(level@);
        let ghost old_cur = cur as int;
        let sib = if cur % 2 == 0 {
            if cur + 1 < level.len() {
                level[cur + 1]
            } else {
                zero
            }
        } else {
            level[cur - 1]
        };
        assert(sib@ == sibling_of(old_level, old_cur));
        proof.push(sib);
        level = build_next_level(&level);
        cur = cur / 2;
        assert(digests_view(proof@) =~= old_proof.push(sib@));
        assert(proof_of(old_level, old_cur) == seq![sib@] + proof_of(next_level(old_level), old_cur / 2));
        assert(old_proof.push(sib@) + proof_of(digests_view(level@), cur as int) =~= old_proof + (
        seq![sib@] + proof_of(next_level(old_level), old_cur / 2)));
    }
    assert(digests_view(proof@) =~= digests_view(proof@) + proof_of(digests_view(level@), cur as int));
    Ok(proof)
}

/// Whether `proof` leads `leaf`, at position `index`, up to `root`.
pub fn verify_merkle(leaf: &[u8; 32], proof: &Vec<[u8; 32]>, root: &[u8; 32], index: usize) -> (r:
    bool)
    ensures
        r == (fold_path(leaf@, digests_view(proof@), index as int) == root@),
{
    let mut cur: [u8; 32] = *leaf;
    let mut idx: usize = index;
    let mut k: usize = 0;
    assert(digests_view(proof@).skip(0) =~= digests_view(proof@));
    while k < proof.len()
        invariant
            k <= proof@.len(),
            fold_path(cur@, digests_view(proof@).skip(k as int), idx as int) == fold_path(
                leaf@,
                digests_view(proof@),
                index as int,
            ),
        decreases proof@.len() - k,
    {
        let ghost rest = digests_view(proof@).skip(k as int);
        assert(rest[0] == proof@[k as int]@);
        assert(rest.drop_first() =~= digests_view(proof@).skip(k + 1));
        cur = if idx % 2 == 0 {
            hash_pair(&cur, &proof[k])
        } else {
            hash_pair(&proof[k], &cur)
        };
        idx = idx / 2;
        k = k + 1;
    }
    assert(digests_view(proof@).skip(k as int) =~= Seq::<Seq<u8>>::empty());
    digests_equal(&cur, root)
}

/// Whether two digests are equal, compared byte by byte.
pub fn digests_equal(a: &[u8; 32], b: &[u8; 32]) -> (r: bool)
    ensures
        r == (a@ == b@),
{
    let mut i: usize = 0;
    while i < 32
        invariant
            i <= 32,
            a@.len() == 32,
            b@.len() == 32,
            forall|j: int| 0 <= j < i ==> a@[j] == b@[j],
        decreases 32 - i,
    {
        if a[i] != b[i] {
            return false;
        }
        i = i + 1;
    }
    assert(a@ =~= b@);
    true
}

/// The lower-case hex digit of a value below sixteen.
pub open spec fn hex_digit(n: int) -> char {
    seq!['0', '1', '2', '3', '4', '5', '6', '7', '8', '9', 'a', 'b', 'c', 'd', 'e', 'f'][n]
}

/// Lower-case hex text of a byte sequence: two digits per byte, the high one first.
pub open spec fn hex_of(b: Seq<u8>) -> Seq<char>
    decreases b.len(),
{
    if b.len() == 0 {
        Seq::empty()
    } else {
        hex_of(b.drop_last()) + seq![hex_digit(b.last() as int / 16), hex_digit(b.last() as int % 16)]
    }
}

/// Relies on hex::encode: two lower-case digits per byte, high nibble first.
#[verifier::external_body]
fn to_hex(b: &[u8]) -> (r: String)
    ensures
        r@ == hex_of(b@),
{
    hex::encode(b)
}

/// The SHA3-256 digest of a byte sequence.
pub uninterp spec fn sha3_256_of(data: Seq<u8>) -> Seq<u8>;

/// The Keccak-256 digest of a byte sequence, as EVM chains compute it.
pub uninterp spec fn keccak256_of(data: Seq<u8>) -> Seq<u8>;

/// Relies on sha3::Sha3_256's Digest::digest: the SHA3-256 digest of the input.
#[verifier::external_body]
fn sha3_digest(data: &[u8]) -> (r: [u8; 32])
    ensures
        r@ == sha3_256_of(data@),
{
    <sha3::Sha3_256 as sha3::Digest>::digest(data).into()
}

/// Relies on sha3::Keccak256's Digest::digest: the Keccak-256 digest of the input.
#[verifier::external_body]
fn keccak_digest(data: &[u8]) -> (r: [u8; 32])
    ensures
        r@ == keccak256_of(data@),
{
    <sha3::Keccak256 as sha3::Digest>::digest(data).into()
}

/// BLAKE3 digest of `data`: the content-addressing digest.
pub fn blake3_hash(data: &[u8]) -> (r: [u8; 32])
    ensures
        r@ == blake3_of(data@),
{
    hash(data)
}

/// Keccak-256 digest of `data`.
pub fn keccak256(data: &[u8]) -> (r: [u8; 32])
    ensures
        r@ == keccak256_of(data@),
{
    keccak_digest(data)
}

/// SHA3-256 digest of `data`.
pub fn sha3_256(data: &[u8]) -> (r: [u8; 32])
    ensures
        r@ == sha3_256_of(data@),
{
    sha3_digest(data)
}

/// Whether `data` carries both the given BLAKE3 and the given SHA3-256 digest.
pub fn verify_digests(data: &[u8], blake3_digest: &[u8; 32], sha3_digest_expected: &[u8; 32]) -> (r:
    bool)
    ensures
        r == (blake3_of(data@) == blake3_digest@ && sha3_256_of(data@) == sha3_digest_expected@),
{
    let b = hash(data);
    let s = sha3_digest(data);
    digests_equal(&b, blake3_digest) && digests_equal(&s, sha3_digest_expected)
}

/// `Ok` when `actual` equals `expected`, else the mismatch with both digests in hex.
fn compare_digests(expected: &[u8; 32], actual: &[u8; 32]) -> (r: Result<(), IntegrityError>)
    ensures
        r is Ok <==> expected@ == actual@,
        expected@ != actual@ ==> (r matches Err(IntegrityError::HashMismatch { expected: e, actual: a })
            && e@ == hex_of(expected@) && a@ == hex_of(actual@)),
{
    if digests_equal(expected, actual) {
        Ok(())
    } else {
        Err(IntegrityError::HashMismatch { expected: to_hex(expected), actual: to_hex(actual) })
    }
}

/// `Ok` when `data` has the digest `expected`, else the mismatch with both digests in hex.
pub fn verify(data: &[u8], expected: &[u8; 32]) -> (r: Result<(), IntegrityError>)
    ensures
        r is Ok <==> blake3_of(data@) == expected@,
        blake3_of(data@) != expected@ ==> (r matches Err(
            IntegrityError::HashMismatch { expected: e, actual: a },
        ) && e@ == hex_of(expected@) && a@ == hex_of(blake3_of(data@))),
{
    let actual = hash(data);
    compare_digests(expected, &actual)
}

/// Bytes of an anchored account record before the digest it holds.
pub const ANCHOR_DIGEST_OFFSET: usize = 32;

/// The digest held in an anchored account record, if the record is long enough.
pub open spec fn anchored_digest(account_data: Seq<u8>) -> Option<Seq<u8>> {
    if account_data.len() < 64 {
        None
    } else {
        Some(account_data.subrange(32, 64))
    }
}

/// Content hashing with fixed-size chunks, and the checks built on it.
pub struct Blake3IntegrityChecker {
    chunk_size: usize,
}

impl Blake3IntegrityChecker {
    /// The chunk size that the checker hashes with.
    pub closed spec fn spec_chunk_size(&self) -> usize {
        self.chunk_size
    }

    /// A checker that hashes in chunks of one mebibyte.
    pub fn new() -> (r: Self)
        ensures
            r.spec_chunk_size() == 1024 * 1024,
    {
        Blake3IntegrityChecker { chunk_size: 1024 * 1024 }
    }

    /// A checker that hashes in chunks of `chunk_size` bytes; zero is refused.
    pub fn with_chunk_size(chunk_size: usize) -> (r: Result<Self, IntegrityError>)
        ensures
            chunk_size == 0 ==> r matches Err(IntegrityError::InvalidChunkSize(0)),
            chunk_size > 0 ==> r is Ok && r->Ok_0.spec_chunk_size() == chunk_size,
    {
        if chunk_size == 0 {
            Err(IntegrityError::InvalidChunkSize(chunk_size))
        } else {
            Ok(Blake3IntegrityChecker { chunk_size })
        }
    }

    /// Digest of a file's contents, hashed chunk by chunk in order; the same as `hash`.
    pub fn compute_file_hash(&self, contents: &[u8]) -> (r: [u8; 32])
        ensures
            r@ == blake3_of(contents@),
    {
        if self.chunk_size == 0 {
            hash(contents)
        } else {
            hash_chunked(contents, self.chunk_size)
        }
    }

    /// `Ok` when a file's contents have the digest `expected_hash`, else the mismatch.
    pub fn verify_file(&self, contents: &[u8], expected_hash: &[u8; 32]) -> (r: Result<
        (),
        IntegrityError,
    >)
        ensures
            r is Ok <==> blake3_of(contents@) == expected_hash@,
            blake3_of(contents@) != expected_hash@ ==> (r matches Err(
                IntegrityError::HashMismatch { expected: e, actual: a },
            ) && e@ == hex_of(expected_hash@) && a@ == hex_of(blake3_of(contents@))),
    {
        let actual = self.compute_file_hash(contents);
        compare_digests(expected_hash, &actual)
    }

    /// Checks a computed digest against the one held in an anchored account record
    /// (bytes 32 to 64 of its data).
    pub fn verify_on_chain(&self, account_data: &[u8], computed_hash: &[u8; 32]) -> (r: Result<
        (),
        IntegrityError,
    >)
        ensures
            anchored_digest(account_data@) is None ==> r matches Err(
                IntegrityError::ChainVerificationFailed,
            ),
            anchored_digest(account_data@) is Some ==> {
                let stored = anchored_digest(account_data@)->Some_0;
                &&& r is Ok <==> stored == computed_hash@
                &&& stored != computed_hash@ ==> (r matches Err(
                    IntegrityError::HashMismatch { expected: e, actual: a },
                ) && e@ == hex_of(stored) && a@ == hex_of(computed_hash@))
            },
    {
        if account_data.len() < 64 {
            return Err(IntegrityError::ChainVerificationFailed);
        }
        let mut stored: [u8; 32] = [0u8; 32];
        let mut i: usize = 0;
        while i < 32
            invariant
                i <= 32,
                account_data@.len() >= 64,
                stored@.len() == 32,
                forall|j: int| 0 <= j < i ==> stored@[j] == account_data@[32 + j],
            decreases 32 - i,
        {
            stored[i] = account_data[ANCHOR_DIGEST_OFFSET + i];
            i = i + 1;
        }
        assert(stored@ =~= account_data@.subrange(32, 64));
        compare_digests(&stored, computed_hash)
    }

    /// Digest of `data`, and a response to `challenge` bound to it: the digest of the
    /// challenge followed by the data's digest.
    pub fn generate_proof(&self, data: &[u8], challenge: &[u8]) -> (r: ([u8; 32], [u8; 32]))
        ensures
            r.0@ == blake3_of(data@),
            r.1@ == blake3_of(challenge@ + blake3_of(data@)),
    {
        let root = hash(data);
        let mut h = blake3::Hasher::new();
        blake3_update(&mut h, challenge);
        blake3_update(&mut h, root.as_slice());
        assert(Seq::<u8>::empty() + challenge@ + root@ =~= challenge@ + root@);
        (root, blake3_finalize(&h))
    }
}

} // verus!
