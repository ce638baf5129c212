use rrd_store::digest::sha256_hex;
use rrd_store::engine::RrflowMxStore;
use rrd_store::function::FunctionInvocationReceiptRecord;
use rrd_store::repository::function::{decode_receipt, encode_receipt, FunctionCatalogueRepository};
use rrd_store::Error;

fn receipt(invocation_id: &str, json: &str) -> FunctionInvocationReceiptRecord {
    FunctionInvocationReceiptRecord {
        format_version: 1,
        invocation_id: invocation_id.into(),
        runtime_commit_sha256: None,
        receipt_sha256: "ab".repeat(32),
        canonical_receipt_sha256: sha256_hex(json.as_bytes()),
        canonical_receipt_json: json.into(),
    }
}

#[test]
fn a_committed_receipt_is_read_back_by_its_invocation() {
    let mut store = RrflowMxStore::new();
    let repository = FunctionCatalogueRepository::new();
    let first = receipt("invocation-1", r#"{"ok":true}"#);
    assert_eq!(repository.invocation_receipt(&store, "instance-a", "invocation-1").unwrap(), None);
    repository.commit_standalone_receipt(&mut store, "instance-a", &first).unwrap();
    assert_eq!(repository.invocation_receipt(&store, "instance-a", "invocation-1").unwrap(), Some(first.clone()));
    assert_eq!(repository.invocation_receipt(&store, "instance-b", "invocation-1").unwrap(), None);
    let sequence = store.begin_transaction().snapshot_sequence();
    repository.commit_standalone_receipt(&mut store, "instance-a", &first).unwrap();
    assert_eq!(store.begin_transaction().snapshot_sequence(), sequence);
}

#[test]
fn an_invocation_is_bound_to_one_receipt_only() {
    let mut store = RrflowMxStore::new();
    let repository = FunctionCatalogueRepository::new();
    repository.commit_standalone_receipt(&mut store, "instance-a", &receipt("invocation-1", "1")).unwrap();
    assert!(matches!(
        repository.commit_standalone_receipt(&mut store, "instance-a", &receipt("invocation-1", "2")),
        Err(Error::FunctionConstraint(_))
    ));
    assert_eq!(
        repository.invocation_receipt(&store, "instance-a", "invocation-1").unwrap(),
        Some(receipt("invocation-1", "1"))
    );
}

#[test]
fn invalid_receipts_and_identities_are_refused() {
    let mut store = RrflowMxStore::new();
    let repository = FunctionCatalogueRepository::new();
    let mut with_commit = receipt("invocation-1", "1");
    with_commit.runtime_commit_sha256 = Some("cd".repeat(32));
    assert!(matches!(
        repository.commit_standalone_receipt(&mut store, "instance-a", &with_commit),
        Err(Error::FunctionConstraint(_))
    ));
    assert!(repository.commit_standalone_receipt(&mut store, "bad instance", &receipt("invocation-1", "1")).is_err());
    let mut wrong_digest = receipt("invocation-1", "1");
    wrong_digest.canonical_receipt_sha256 = "00".repeat(32);
    assert!(repository.commit_standalone_receipt(&mut store, "instance-a", &wrong_digest).is_err());
    assert!(matches!(repository.invocation_receipt(&store, "", "x"), Err(Error::FunctionConstraint(_))));
    assert_eq!(store.begin_transaction().snapshot_sequence(), 0);
}

#[test]
fn receipts_round_trip_through_their_stored_form() {
    let mut with_commit = receipt("invocation-2", "[1]");
    with_commit.runtime_commit_sha256 = Some("ef".repeat(32));
    for record in [receipt("invocation-1", "{}"), with_commit] {
        assert_eq!(decode_receipt(&encode_receipt(&record)).unwrap(), record);
    }
    assert!(matches!(decode_receipt(b"junk"), Err(Error::Codec(_))));
}
