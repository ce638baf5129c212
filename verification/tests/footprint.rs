use rrd_store::footprint::{classify, summarize_footprint, FootprintBytes, FootprintFile};
use rrd_store::Error;

fn file(relative: &str, apparent: u64, allocated: Option<u64>) -> FootprintFile {
    FootprintFile { relative: relative.into(), apparent, allocated }
}

fn class<'a>(by_class: &'a [(String, FootprintBytes)], name: &str) -> &'a FootprintBytes {
    &by_class.iter().find(|(class, _)| class == name).unwrap().1
}

#[test]
fn footprint_separates_sparse_length_and_allocated_blocks() {
    let footprint = summarize_footprint(&vec![file("0.jnl", 16 * 1_024 * 1_024, Some(4096))]).unwrap();
    assert_eq!(footprint.apparent_bytes, 16 * 1_024 * 1_024);
    assert_eq!(footprint.files, 1);
    assert_eq!(class(&footprint.by_class, "journal").files, 1);
    assert!(footprint.allocated_bytes.unwrap() < footprint.apparent_bytes);
    assert_eq!(footprint.allocated_bytes_source.as_deref(), Some("unix_st_blocks_times_512"));
}

#[test]
fn footprint_attributes_canonical_storage_classes() {
    let mut files: Vec<FootprintFile> = [
        "wal/1.wal",
        "segments/a.seg",
        "keyspaces/1/tables/0",
        "manifests/a.json",
        "checkpoints/pin",
        "lock",
    ]
    .iter()
    .map(|relative| file(relative, 1, None))
    .collect();
    files.sort_by(|a, b| a.relative.cmp(&b.relative));
    let footprint = summarize_footprint(&files).unwrap();
    assert_eq!(footprint.files, 6);
    for name in ["wal", "segment", "table", "manifest", "checkpoint", "metadata"] {
        assert_eq!(class(&footprint.by_class, name).files, 1, "{name}");
    }
    let names: Vec<&str> = footprint.by_class.iter().map(|(name, _)| name.as_str()).collect();
    assert_eq!(names, vec!["checkpoint", "manifest", "metadata", "segment", "table", "wal"]);
    assert_eq!(footprint.allocated_bytes, None);
    assert_eq!(footprint.allocated_bytes_source, None);
}

#[test]
fn classes_follow_extension_then_directory_then_name() {
    assert_eq!(classify(b"tables/x.wal"), "wal");
    assert_eq!(classify(b"a/b/0.jnl"), "journal");
    assert_eq!(classify(b"CURRENT"), "manifest");
    assert_eq!(classify(b"./version"), "manifest");
    assert_eq!(classify(b".wal"), "metadata");
    assert_eq!(classify(b"tables//checkpoints/x"), "table");
    assert_eq!(classify(b""), "metadata");
}

#[test]
fn allocation_is_known_only_while_every_file_reports_it() {
    let mut bytes = FootprintBytes::default();
    bytes.add_file(10, Some(4096)).unwrap();
    bytes.add_file(5, None).unwrap();
    assert_eq!(bytes, FootprintBytes { apparent_bytes: 15, allocated_bytes: None, files: 2 });
    bytes.add_file(5, Some(4096)).unwrap();
    assert_eq!(bytes.allocated_bytes, None);

    let mut late = FootprintBytes::default();
    late.add_file(1, None).unwrap();
    late.add_file(1, Some(512)).unwrap();
    assert_eq!(late.allocated_bytes, None);
}

#[test]
fn overflowing_counts_are_refused() {
    let mut bytes = FootprintBytes { apparent_bytes: u64::MAX, allocated_bytes: None, files: 1 };
    assert!(matches!(bytes.add_file(1, None), Err(Error::Substrate(m)) if m == "storage footprint byte count overflowed"));
    assert_eq!(bytes.apparent_bytes, u64::MAX);
    assert!(summarize_footprint(&vec![file("a", u64::MAX, None), file("b", 1, None)]).is_err());
}
