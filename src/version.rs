//! The append-only history of a model's versions, chained by parent and committed to
//! by a Merkle root over the version digests.

use vstd::prelude::*;
use crate::integrity::{
    digests_view, merkle_proof, merkle_root, proof_of, root_of, IntegrityError,
};

verus! {

/// One version of a model.
#[derive(Clone, Copy)]
pub struct ModelVersionRecord {
    pub version: u64,
    pub hash: [u8; 32],
    pub parent: Option<u64>,
    pub created_at: i64,
}

/// Why a record cannot follow another.
#[derive(PartialEq, Eq, Structural)]
pub enum LineageError {
    /// The record's version is not above its parent's.
    VersionOrderViolation,
    /// The record does not name the parent's version (or names one where none exists).
    ParentMismatch,
}

/// What checking `child` against `parent` yields.
pub open spec fn lineage_outcome(child: ModelVersionRecord, parent: ModelVersionRecord) -> Result<
    (),
    LineageError,
> {
    if parent.version >= child.version {
        Err(LineageError::VersionOrderViolation)
    } else if child.parent != Some(parent.version) {
        Err(LineageError::ParentMismatch)
    } else {
        Ok(())
    }
}

/// Each record names the one before it as parent and has a greater version; the first
/// has no parent.
pub open spec fn chained(s: Seq<ModelVersionRecord>) -> bool {
    &&& s.len() > 0 ==> s[0].parent is None
    &&& forall|i: int|
        0 < i < s.len() ==> #[trigger] s[i].parent == Some(s[i - 1].version) && s[i].version
            > s[i - 1].version
}

/// The digests of a history, in order.
pub open spec fn hashes_of(s: Seq<ModelVersionRecord>) -> Seq<Seq<u8>> {
    Seq::new(s.len(), |i: int| s[i].hash@)
}

/// Versions only grow along a chained history.
pub proof fn lemma_versions_increase(s: Seq<ModelVersionRecord>, i: int, j: int)
    requires
        chained(s),
        0 <= i < j < s.len(),
    ensures
        s[i].version < s[j].version,
    decreases j - i,
{
    assert(s[j].parent == Some(s[j - 1].version));
    if i < j - 1 {
        lemma_versions_increase(s, i, j - 1);
    }
}

impl ModelVersionRecord {
    /// Checks that this record may follow `parent`.
    pub fn validate_lineage(&self, parent: &ModelVersionRecord) -> (r: Result<(), LineageError>)
        ensures
            r == lineage_outcome(*self, *parent),
    {
        if parent.version >= self.version {
            return Err(LineageError::VersionOrderViolation);
        }
        match self.parent {
            Some(p) => if p == parent.version {
                Ok(())
            } else {
                Err(LineageError::ParentMismatch)
            },
            None => Err(LineageError::ParentMismatch),
        }
    }
}

/// An append-only, chained history of versions.
pub struct VersionLog {
    records: Vec<ModelVersionRecord>,
}

impl View for VersionLog {
    type V = Seq<ModelVersionRecord>;

    closed spec fn view(&self) -> Seq<ModelVersionRecord> {
        self.records@
    }
}

impl VersionLog {
    pub open spec fn wf(&self) -> bool {
        chained(self@)
    }

    /// An empty history.
    pub fn new() -> (r: Self)
        ensures
            r.wf(),
            r@ == Seq::<ModelVersionRecord>::empty(),
    {
        VersionLog { records: Vec::new() }
    }

    /// Number of versions.
    pub fn len(&self) -> (r: usize)
        ensures
            r == self@.len(),
    {
        self.records.len()
    }

    /// The newest version, if any.
    pub fn latest_version(&self) -> (r: Option<u64>)
        ensures
            self@.len() == 0 ==> r is None,
            self@.len() > 0 ==> r == Some(self@.last().version),
    {
        if self.records.len() == 0 {
            None
        } else {
            Some(self.records[self.records.len() - 1].version)
        }
    }

    /// Appends `record` when it follows the newest version (or, as the first, has no
    /// parent); otherwise the history is unchanged.
    pub fn append(&mut self, record: ModelVersionRecord) -> (r: Result<(), LineageError>)
        requires
            old(self).wf(),
        ensures
            final(self).wf(),
            old(self)@.len() == 0 ==> r == (if record.parent is None {
                Ok::<(), LineageError>(())
            } else {
                Err(LineageError::ParentMismatch)
            }),
            old(self)@.len() > 0 ==> r == lineage_outcome(record, old(self)@.last()),
            r is Ok ==> final(self)@ == old(self)@.push(record),
            r is Err ==> final(self)@ == old(self)@,
    {
        let n = self.records.len();
        if n == 0 {
            if record.parent.is_some() {
                return Err(LineageError::ParentMismatch);
            }
        } else {
            record.validate_lineage(&self.records[n - 1])?;
        }
        let ghost before = self@;
        self.records.push(record);
        assert(forall|i: int| 0 <= i < before.len() ==> self@[i] == before[i]);
        Ok(())
    }

    /// The digests of the history, in order.
    pub fn hashes(&self) -> (r: Vec<[u8; 32]>)
        ensures
            digests_view(r@) == hashes_of(self@),
            r@.len() == self@.len(),
    {
        let mut out: Vec<[u8; 32]> = Vec::new();
        let mut i: usize = 0;
        while i < self.records.len()
            invariant
                i <= self@.len(),
                digests_view(out@) == hashes_of(self@).subrange(0, i as int),
                out@.len() == i,
            decreases self@.len() - i,
        {
            let ghost prev = out@;
            out.push(self.records[i].hash);
            assert(digests_view(out@)[i as int] == hashes_of(self@)[i as int]);
            assert(forall|k: int| 0 <= k < i ==> digests_view(out@)[k] == digests_view(prev)[k]);
            assert(digests_view(out@) =~= hashes_of(self@).subrange(0, i + 1));
            i = i + 1;
        }
        assert(hashes_of(self@).subrange(0, i as int) =~= hashes_of(self@));
        out
    }

    /// Merkle root over the version digests; an empty history has none.
    pub fn root(&self) -> (r: Result<[u8; 32], IntegrityError>)
        ensures
            self@.len() == 0 ==> r matches Err(IntegrityError::InvalidLength),
            self@.len() > 0 ==> (r matches Ok(d) && d@ == root_of(hashes_of(self@))),
    {
        let h = self.hashes();
        merkle_root(&h)
    }

    /// Sibling path of version number `index` (by position) in the history.
    pub fn inclusion_path(&self, index: usize) -> (r: Result<Vec<[u8; 32]>, IntegrityError>)
        ensures
            index >= self@.len() ==> r matches Err(IntegrityError::InvalidLength),
            index < self@.len() ==> (r matches Ok(p) && digests_view(p@) == proof_of(
                hashes_of(self@),
                index as int,
            )),
    {
        let h = self.hashes();
        merkle_proof(&h, index)
    }
}

} // verus!
