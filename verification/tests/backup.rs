use rrd_store::archive::LogicalArchiveInventory;
use rrd_store::backup::{
    decide_backup_prune, deny_pruned_identity_reuse, sorted_backup_ids, validate_entries, validate_label,
    validate_ordered_backup_ids, validate_prune_plan, validate_prune_receipts, validate_relative_archive,
    validate_relative_catalogue_manifest, validate_relative_object_manifest, BackupCatalogue, BackupCoverage, BackupEntry,
    BackupPruneDecision, BackupPrunePlan, BackupPruneReceipt, object_manifest_inventory, validate_object_manifest, ObjectPayloadEntry,
    ObjectPayloadManifest,
};
use rrd_store::Error;

fn inventory() -> LogicalArchiveInventory {
    LogicalArchiveInventory {
        format_version: 1,
        contract_version: 1,
        archive_sha256: "aa".repeat(32),
        action_count: 0,
        standalone_claims: 0,
        runtime_commits: 0,
        runtime_mutations: 0,
        payload_bytes: 0,
        claim_sequence: 0,
        runtime_cursor: 0,
        runtime_audit_sha256: None,
    }
}

fn entry(id_byte: &str, created_at: u64) -> BackupEntry {
    let backup_id = id_byte.repeat(64);
    BackupEntry {
        backup_id: backup_id.clone(),
        label: "nightly".into(),
        created_at,
        archive_file: format!("archives/{backup_id}.rrd-archive"),
        archive: inventory(),
        object_manifest_file: None,
        object_manifest: None,
        catalogue_manifest_file: None,
        catalogue_manifest: None,
        claims: BackupCoverage::Included,
        typed_runtime: BackupCoverage::Included,
        catalogues: BackupCoverage::Excluded,
        object_payloads: BackupCoverage::ReferencedOnly,
        projections: BackupCoverage::RebuildRequired,
        invocation_telemetry: BackupCoverage::Excluded,
        snapshot_leases: BackupCoverage::Excluded,
        application_complete: false,
    }
}

fn catalogue(backups: Vec<BackupEntry>) -> BackupCatalogue {
    BackupCatalogue {
        format_version: 1,
        revision: 1,
        catalogue_sha256: "cc".repeat(32),
        backups,
        prune_receipts: Vec::new(),
    }
}

#[test]
fn labels_paths_and_identities_are_canonical() {
    assert!(validate_label("nightly-2024_01.a").is_ok());
    assert!(matches!(validate_label(""), Err(Error::Archive(_))));
    assert!(validate_label("has space").is_err());
    assert!(validate_relative_archive("archives/x.rrd-archive").is_ok());
    assert!(validate_relative_archive("archives/../x.rrd-archive").is_err());
    assert!(validate_relative_archive("other/x.rrd-archive").is_err());
    assert!(validate_relative_object_manifest("object-manifests/x.rrd-objects.json").is_ok());
    assert!(validate_relative_catalogue_manifest("catalogue-manifests/x.rrd-catalogues.json").is_ok());
    assert!(validate_relative_catalogue_manifest("catalogue-manifests/a/x.rrd-catalogues.json").is_err());
    let a = "1".repeat(64);
    let b = "2".repeat(64);
    assert!(validate_ordered_backup_ids(&[a.clone(), b.clone()], "retained").is_ok());
    assert!(validate_ordered_backup_ids(&[b.clone(), a.clone()], "retained").is_err());
    assert!(validate_ordered_backup_ids(&[a.clone(), a.clone()], "retained").is_err());
    assert_eq!(sorted_backup_ids(vec![b.clone(), a.clone()]), vec![a.clone(), b.clone()]);
    assert_eq!(sorted_backup_ids(vec![b.clone(), a.clone(), b.clone()]), vec![a, b.clone(), b]);
}

#[test]
fn catalogue_entries_are_ordered_by_time_then_identity() {
    assert!(validate_entries(&[entry("1", 10), entry("2", 10), entry("0", 11)]).is_ok());
    assert!(validate_entries(&[entry("2", 10), entry("1", 10)]).is_err());
    assert!(validate_entries(&[entry("1", 10), entry("1", 11)]).is_err());
    let mut broken = entry("3", 12);
    broken.projections = BackupCoverage::Included;
    assert!(validate_entries(&[broken]).is_err());
}

#[test]
fn prune_plans_partition_and_record_a_receipt() {
    let current = catalogue(vec![entry("1", 10), entry("2", 11), entry("3", 12)]);
    let plan = BackupPrunePlan {
        expected_catalogue_sha256: "cc".repeat(32),
        retained_backup_ids: vec!["1".repeat(64), "3".repeat(64)],
        prune_candidate_backup_ids: vec!["2".repeat(64)],
    };
    assert!(validate_prune_plan(&plan).is_ok());
    let request = "dd".repeat(32);
    let decision = decide_backup_prune(current.clone(), &plan, request.clone()).unwrap();
    let BackupPruneDecision::Apply { catalogue: next, pruned_backup_ids } = decision else {
        panic!("a new request is applied");
    };
    assert_eq!(pruned_backup_ids, vec!["2".repeat(64)]);
    assert_eq!(next.revision, 2);
    assert_eq!(next.backups.iter().map(|e| e.backup_id.clone()).collect::<Vec<_>>(), vec!["1".repeat(64), "3".repeat(64)]);
    assert_eq!(next.prune_receipts.len(), 1);
    assert_eq!(next.prune_receipts[0].request_sha256, request);
    assert!(validate_prune_receipts(&next.prune_receipts).is_ok());
    assert!(deny_pruned_identity_reuse(&next, &"2".repeat(64)).is_err());
    assert!(deny_pruned_identity_reuse(&next, &"4".repeat(64)).is_ok());

    let replay = decide_backup_prune(next, &plan, request).unwrap();
    assert_eq!(replay, BackupPruneDecision::Replay { pruned_backup_ids: vec!["2".repeat(64)] });
}

#[test]
fn prune_plans_must_name_the_current_catalogue_and_cover_it() {
    let current = catalogue(vec![entry("1", 10), entry("2", 11)]);
    let stale = BackupPrunePlan {
        expected_catalogue_sha256: "ee".repeat(32),
        retained_backup_ids: vec!["1".repeat(64)],
        prune_candidate_backup_ids: vec!["2".repeat(64)],
    };
    assert!(decide_backup_prune(current.clone(), &stale, "dd".repeat(32)).is_err());
    let partial = BackupPrunePlan {
        expected_catalogue_sha256: "cc".repeat(32),
        retained_backup_ids: Vec::new(),
        prune_candidate_backup_ids: vec!["2".repeat(64)],
    };
    assert!(decide_backup_prune(current, &partial, "dd".repeat(32)).is_err());
    let empty = BackupPrunePlan {
        expected_catalogue_sha256: "cc".repeat(32),
        retained_backup_ids: Vec::new(),
        prune_candidate_backup_ids: Vec::new(),
    };
    assert!(validate_prune_plan(&empty).is_err());
    let receipt = BackupPruneReceipt {
        request_sha256: "dd".repeat(32),
        expected_catalogue_sha256: "cc".repeat(32),
        retained_backup_ids: Vec::new(),
        removed_backups: Vec::new(),
    };
    assert!(validate_prune_receipts(&[receipt]).is_err());
}

fn object_entry(content: &[u8]) -> ObjectPayloadEntry {
    ObjectPayloadEntry { sha256: rrd_store::digest::sha256_hex(content), length: content.len() as u64 }
}

#[test]
fn object_manifests_are_ordered_content_addresses_with_a_summed_inventory() {
    let mut objects = vec![object_entry(b"first"), object_entry(b"second payload")];
    objects.sort_by(|a, b| a.sha256.cmp(&b.sha256));
    let manifest = ObjectPayloadManifest { format_version: 1, objects };
    validate_object_manifest(&manifest).unwrap();
    let inventory = object_manifest_inventory(&manifest, b"{\"objects\":2}").unwrap();
    assert_eq!(inventory.format_version, 1);
    assert_eq!(inventory.object_count, 2);
    assert_eq!(inventory.payload_bytes, 5 + 14);
    assert_eq!(inventory.manifest_sha256, rrd_store::digest::sha256_hex(b"{\"objects\":2}"));

    let mut reversed = manifest.clone();
    reversed.objects.reverse();
    assert!(matches!(validate_object_manifest(&reversed), Err(Error::Archive(_))));
    let mut duplicated = manifest.clone();
    duplicated.objects.push(manifest.objects[1].clone());
    assert!(validate_object_manifest(&duplicated).is_err());
    let mut bad_address = manifest.clone();
    bad_address.objects[0].sha256 = "XY".repeat(32);
    assert!(validate_object_manifest(&bad_address).is_err());
    let mut wrong_version = manifest.clone();
    wrong_version.format_version = 2;
    assert!(matches!(validate_object_manifest(&wrong_version), Err(Error::Archive(_))));
    let mut huge = manifest.clone();
    huge.objects[0].length = u64::MAX;
    assert!(matches!(object_manifest_inventory(&huge, b"{}"), Err(Error::Archive(_))));
}
