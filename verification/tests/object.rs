use rrd_store::digest::sha256_hex;
use rrd_store::object::{
    canonical_key, is_digest, stage_action, LocalObjectStore, MemoryObjectStore, ObjectInventoryState, ObjectReference, StageAction,
    TargetVerdict,
};
use rrd_store::Error;

#[test]
fn memory_objects_keep_the_same_content_address_and_receipt_boundary() {
    let mut store = MemoryObjectStore::new();
    let verified = store.put(b"memory canonical bytes").unwrap();
    assert_eq!(verified.receipt.backend, "memory");
    let reference = ObjectReference {
        sha256: sha256_hex(b"memory canonical bytes"),
        length: b"memory canonical bytes".len() as u64,
        receipt: verified.receipt.clone(),
    };
    assert_eq!(store.get(&reference).unwrap(), b"memory canonical bytes");
    assert_eq!(store.verify(&verified.sha256).unwrap(), verified);

    let removed = store.reclaim_orphans(&vec![reference.sha256.clone()]).unwrap();
    assert_eq!(removed, vec![reference.sha256.clone()]);
    assert!(matches!(store.verify(&reference.sha256), Err(Error::ObjectMissing(_))));
}

#[test]
fn memory_put_is_content_addressed_and_idempotent() {
    let mut store = MemoryObjectStore::new();
    let first = store.put(b"canonical bytes").unwrap();
    let second = store.put(b"canonical bytes").unwrap();
    assert_eq!(first, second);
    assert_eq!(first.sha256, sha256_hex(b"canonical bytes"));
    assert_eq!(first.length, 15);
    assert_eq!(first.receipt.etag.as_deref(), Some(first.sha256.as_str()));
    assert_eq!(first.receipt.version, None);
    assert_eq!(
        first.receipt.key,
        format!("objects/sha256/{}/{}", &first.sha256[..2], first.sha256)
    );
    let inventory = store.inventory(&Vec::new()).unwrap();
    assert_eq!(inventory.entries.len(), 1);
    assert_eq!(inventory.entries[0].state, ObjectInventoryState::Orphan);
    let inventory = store.inventory(&vec![first.sha256.clone()]).unwrap();
    assert_eq!(inventory.entries[0].state, ObjectInventoryState::Reachable);
    assert_eq!(inventory.entries[0].length, 15);
}

#[test]
fn memory_verified_stream_is_bounded_content_addressed_and_fail_closed() {
    let mut store = MemoryObjectStore::new();
    let bytes = vec![0x3c; 192 * 1024 + 9];
    let sha256 = sha256_hex(&bytes);
    let streamed = store.put_verified_stream(&sha256, bytes.len() as u64, &bytes).unwrap();
    assert_eq!(streamed, store.put(&bytes).unwrap());

    let wrong = "11".repeat(32);
    assert!(matches!(
        store.put_verified_stream(&wrong, bytes.len() as u64, &bytes),
        Err(Error::ObjectCorrupt { .. })
    ));
    assert!(matches!(store.verify(&wrong), Err(Error::ObjectMissing(_))));
    assert!(matches!(
        store.put_verified_stream(&sha256, bytes.len() as u64, &bytes[..bytes.len() - 1]),
        Err(Error::ObjectLengthMismatch { expected, actual }) if expected == bytes.len() as u64 && actual == expected - 1
    ));
}

#[test]
fn memory_reclamation_removes_only_named_candidates() {
    let mut store = MemoryObjectStore::new();
    let retained = store.put(b"retained").unwrap();
    let orphan = store.put(b"orphan").unwrap();
    let absent = "22".repeat(32);
    let removed = store.reclaim_orphans(&vec![absent, orphan.sha256.clone()]).unwrap();
    assert_eq!(removed, vec![orphan.sha256.clone()]);
    assert!(store.verify(&retained.sha256).is_ok());
    assert!(store.verify(&orphan.sha256).is_err());
}

#[test]
fn memory_get_refuses_foreign_receipts_and_wrong_lengths() {
    let mut store = MemoryObjectStore::new();
    let verified = store.put(b"payload").unwrap();
    let mut reference = ObjectReference { sha256: verified.sha256.clone(), length: 7, receipt: verified.receipt.clone() };
    assert_eq!(store.get(&reference).unwrap(), b"payload");
    reference.length = 8;
    assert!(matches!(store.get(&reference), Err(Error::ObjectLengthMismatch { expected: 8, actual: 7 })));
    reference.length = 7;
    reference.receipt.backend = "local".into();
    assert!(matches!(store.get(&reference), Err(Error::Object(_))));
    reference.sha256 = "not-a-digest".into();
    assert!(matches!(store.get(&reference), Err(Error::Object(_))));
}

#[test]
fn canonical_keys_bucket_by_the_first_two_digits() {
    let sha = "ab".repeat(32);
    assert_eq!(canonical_key(&sha).unwrap(), format!("objects/sha256/ab/{sha}"));
    assert!(is_digest(&sha));
    assert!(!is_digest(&"AB".repeat(32)));
    assert!(matches!(canonical_key("abc"), Err(Error::Object(_))));
}

#[test]
fn local_objects_classify_corrupt_reachable_and_orphan_files() {
    let sha = "cd".repeat(32);
    let reachable = vec![sha.clone()];
    assert_eq!(LocalObjectStore::inventory_state(&sha, &sha, &reachable), ObjectInventoryState::Reachable);
    assert_eq!(LocalObjectStore::inventory_state(&sha, &sha, &Vec::new()), ObjectInventoryState::Orphan);
    let other = "ef".repeat(32);
    assert_eq!(
        LocalObjectStore::inventory_state(&sha, &other, &reachable),
        ObjectInventoryState::Corrupt { actual_sha256: other.clone() }
    );
    let store = LocalObjectStore::new("/var/objects".into());
    assert_eq!(store.root(), "/var/objects");
    assert_eq!(store.object_path(&sha).unwrap(), format!("/var/objects/objects/sha256/cd/{sha}"));
    let verified = LocalObjectStore::verified(&sha, &sha, 5).unwrap();
    assert_eq!(verified.receipt.backend, "local");
    assert!(matches!(LocalObjectStore::verified(&sha, &other, 5), Err(Error::ObjectCorrupt { .. })));
}

#[test]
fn a_commit_confirms_each_referenced_object_against_the_tier() {
    let mut store = MemoryObjectStore::new();
    let verified = store.put(b"staged object").unwrap();
    let reference = ObjectReference { sha256: verified.sha256.clone(), length: verified.length, receipt: verified.receipt.clone() };
    rrd_store::ds::confirm_object_references(&store, &vec![reference.clone()]).unwrap();
    rrd_store::ds::confirm_object_references(&store, &vec![]).unwrap();

    let mut longer = reference.clone();
    longer.length += 1;
    assert!(matches!(
        rrd_store::ds::confirm_object_references(&store, &vec![reference.clone(), longer]),
        Err(Error::ObjectLengthMismatch { expected: 14, actual: 13 })
    ));
    let mut foreign = reference.clone();
    foreign.receipt.backend = "s3".into();
    assert!(matches!(rrd_store::ds::confirm_object_references(&store, &vec![foreign]), Err(Error::Object(_))));
    let mut missing = reference.clone();
    missing.sha256 = sha256_hex(b"never staged");
    assert!(matches!(rrd_store::ds::confirm_object_references(&store, &vec![missing]), Err(Error::ObjectMissing(_))));
}

#[test]
fn a_staged_object_is_published_by_what_is_at_its_target() {
    assert_eq!(stage_action(TargetVerdict::Absent), StageAction::Publish);
    assert_eq!(stage_action(TargetVerdict::Intact), StageAction::DropStage);
    assert_eq!(stage_action(TargetVerdict::Corrupt), StageAction::QuarantineThenPublish);
}
