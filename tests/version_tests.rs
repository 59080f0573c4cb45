use scoria_core::integrity::verify_merkle;
use scoria_core::version::{LineageError, ModelVersionRecord, VersionLog};

fn record(version: u64, parent: Option<u64>, tag: u8) -> ModelVersionRecord {
    ModelVersionRecord { version, hash: [tag; 32], parent, created_at: version as i64 * 10 }
}

#[test]
fn lineage_validation() {
    let parent = record(1, None, 1);
    assert!(record(2, Some(1), 2).validate_lineage(&parent).is_ok());
    assert!(matches!(
        record(1, Some(1), 2).validate_lineage(&parent),
        Err(LineageError::VersionOrderViolation)
    ));
    assert!(matches!(
        record(3, Some(2), 2).validate_lineage(&parent),
        Err(LineageError::ParentMismatch)
    ));
}

#[test]
fn history_is_chained_and_committed() {
    let mut log = VersionLog::new();
    assert!(matches!(log.append(record(1, Some(0), 1)), Err(LineageError::ParentMismatch)));
    assert!(log.append(record(1, None, 1)).is_ok());
    assert!(log.append(record(3, Some(1), 2)).is_ok());
    assert!(matches!(log.append(record(2, Some(3), 3)), Err(LineageError::VersionOrderViolation)));
    assert!(log.append(record(4, Some(3), 3)).is_ok());
    assert_eq!(log.len(), 3);
    assert_eq!(log.latest_version(), Some(4));
    let root = log.root().ok().unwrap();
    let hashes = log.hashes();
    for i in 0..3 {
        let path = log.inclusion_path(i).ok().unwrap();
        assert!(verify_merkle(&hashes[i], &path, &root, i));
    }
    assert!(VersionLog::new().root().is_err());
}
