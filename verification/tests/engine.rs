use rrd_store::engine::{validate_idempotency, PhysicalStoreEvidence, RrflowMxStore, StorageProfile};
use rrd_store::keyspaces::Durability;
use rrd_store::Error;

#[test]
fn committed_writes_are_read_back_at_the_newest_sequence() {
    let mut store = RrflowMxStore::new();
    let mut transaction = store.begin_transaction();
    assert_eq!(transaction.snapshot_sequence(), 0);
    transaction.put(b"b".to_vec(), b"2".to_vec());
    transaction.put(b"a".to_vec(), b"1".to_vec());
    assert_eq!(transaction.get(&store, b"a"), Some(b"1".to_vec()));
    let commit = transaction.commit(&mut store, Durability::Authoritative).unwrap();
    assert_eq!(commit.snapshot_sequence, 0);
    assert_eq!(commit.mutation_count, 2);
    assert_eq!(commit.first_sequence, Some(1));
    assert_eq!(commit.last_sequence, Some(2));

    let reader = store.begin_transaction();
    assert_eq!(reader.snapshot_sequence(), 2);
    assert_eq!(reader.get(&store, b"a"), Some(b"1".to_vec()));
    assert_eq!(reader.get(&store, b"b"), Some(b"2".to_vec()));
    assert_eq!(reader.get(&store, b"c"), None);
}

#[test]
fn first_committer_wins_and_the_loser_leaves_the_store_unchanged() {
    let mut store = RrflowMxStore::new();
    let mut first = store.begin_transaction();
    let mut second = store.begin_transaction();
    first.put(b"k".to_vec(), b"first".to_vec());
    second.put(b"k".to_vec(), b"second".to_vec());
    first.commit(&mut store, Durability::Buffered).unwrap();
    let refused = second.commit(&mut store, Durability::Buffered);
    assert!(matches!(
        refused,
        Err(Error::TransactionConflict { snapshot_sequence: 0, conflicting_sequence: 1 })
    ));
    assert_eq!(store.begin_transaction().get(&store, b"k"), Some(b"first".to_vec()));
}

#[test]
fn snapshots_do_not_see_later_commits_and_deletes_hide_values() {
    let mut store = RrflowMxStore::new();
    let mut writer = store.begin_transaction();
    writer.put(b"k".to_vec(), b"v1".to_vec());
    writer.commit(&mut store, Durability::Authoritative).unwrap();
    let old_reader = store.begin_transaction();
    let mut deleter = store.begin_transaction();
    deleter.delete(b"k".to_vec());
    assert_eq!(deleter.get(&store, b"k"), None);
    deleter.commit(&mut store, Durability::Authoritative).unwrap();
    assert_eq!(old_reader.get(&store, b"k"), Some(b"v1".to_vec()));
    assert_eq!(store.begin_transaction().get(&store, b"k"), None);
}

#[test]
fn scans_are_ordered_bounded_and_see_pending_writes() {
    let mut store = RrflowMxStore::new();
    let mut writer = store.begin_transaction();
    for key in [b"c", b"a", b"e", b"b"] {
        writer.put(key.to_vec(), key.to_vec());
    }
    writer.commit(&mut store, Durability::Authoritative).unwrap();
    let mut reader = store.begin_transaction();
    reader.put(b"d".to_vec(), b"d".to_vec());
    reader.delete(b"b".to_vec());
    let rows = reader.scan(&store, b"a", b"e", 10);
    let keys: Vec<Vec<u8>> = rows.iter().map(|(k, _)| k.clone()).collect();
    assert_eq!(keys, vec![b"a".to_vec(), b"c".to_vec(), b"d".to_vec()]);
    assert_eq!(reader.scan(&store, b"a", b"z", 2).len(), 2);
}

#[test]
fn empty_and_rolled_back_transactions_change_nothing() {
    let mut store = RrflowMxStore::new();
    let empty = store.begin_transaction();
    let commit = empty.commit(&mut store, Durability::Authoritative).unwrap();
    assert_eq!(commit.mutation_count, 0);
    assert_eq!(commit.first_sequence, None);
    let mut discarded = store.begin_transaction();
    discarded.put(b"x".to_vec(), b"y".to_vec());
    let rollback = discarded.rollback();
    assert_eq!(rollback.discarded_mutations, 1);
    assert_eq!(store.begin_transaction().snapshot_sequence(), 0);
}

#[test]
fn idempotency_keys_and_digests_are_checked() {
    let digest = "ab".repeat(32);
    assert!(validate_idempotency("client-1:op.2_x", &digest).is_ok());
    assert!(matches!(validate_idempotency("", &digest), Err(Error::Substrate(m)) if m == "invalid idempotency key"));
    assert!(validate_idempotency(&"k".repeat(129), &digest).is_err());
    assert!(validate_idempotency("has space", &digest).is_err());
    assert!(matches!(
        validate_idempotency("key", "ABC"),
        Err(Error::Substrate(m)) if m == "operation digest must be lowercase SHA-256"
    ));
}

#[test]
fn the_process_local_profile_reports_logical_evidence_only() {
    let profile = StorageProfile::rrflow_mx();
    assert_eq!(profile.backend_name(), "rrflow_mx");
    let evidence = profile.physical_store_evidence();
    assert_eq!(evidence.backend, "rrflow_mx");
    assert_eq!(evidence.evidence_level, "logical_only");
    assert_eq!(evidence.physical_sequence, None);
    assert_eq!(evidence.segment_io_bytes_read, None);
    assert_eq!(evidence, PhysicalStoreEvidence::logical_only("rrflow_mx"));
    assert_eq!(profile.engine().observe_count(), 0);
}
