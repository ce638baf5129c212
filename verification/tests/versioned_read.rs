use rrd_store::engine::RrflowMxStore;
use rrd_store::keyspaces::Durability;
use rrd_store::versioned_read::{
    checked_add, MeteredRead, PathCounters, RuntimeReadAccessPath, RuntimeReadBudget,
    RUNTIME_VERSIONED_READ_CONTRACT_VERSION,
};
use rrd_store::Error;

#[test]
fn budgets_must_be_positive() {
    assert!(matches!(RuntimeReadBudget::new(0), Err(Error::Substrate(_))));
    assert_eq!(RuntimeReadBudget::new(3).unwrap().max_keys, 3);
}

#[test]
fn counters_add_until_the_first_overflow() {
    let mut counters = PathCounters::zero();
    counters.add(1, 2, 3, 4, 5).unwrap();
    assert_eq!(counters, PathCounters { point_reads: 1, range_scans: 2, keys_examined: 3, values_decoded: 4, decoded_bytes: 5 });
    assert!(matches!(counters.add(1, u64::MAX, 1, 1, 1), Err(Error::SequenceOverflow)));
    assert_eq!(counters.point_reads, 2);
    assert_eq!(counters.range_scans, 2);
    assert_eq!(counters.keys_examined, 3);
    assert_eq!(checked_add(u64::MAX, 1), Err(Error::SequenceOverflow));
    assert_eq!(checked_add(2, 3), Ok(5));
}

#[test]
fn metered_reads_charge_each_path_and_stop_at_the_budget() {
    let mut store = RrflowMxStore::new();
    let mut writer = store.begin_transaction();
    writer.put(b"a".to_vec(), b"11".to_vec());
    writer.put(b"b".to_vec(), b"222".to_vec());
    writer.put(b"c".to_vec(), b"3".to_vec());
    writer.commit(&mut store, Durability::Authoritative).unwrap();
    let reader = store.begin_transaction();

    let mut read = MeteredRead::new(RuntimeReadBudget::new(3).unwrap());
    assert_eq!(read.with_path(RuntimeReadAccessPath::RecordVersions), RuntimeReadAccessPath::ReadStamp);
    assert_eq!(read.read_key(&reader, &store, b"a").unwrap(), Some(b"11".to_vec()));
    let rows = read.scan_range(&reader, &store, b"b", b"z", 10).unwrap();
    assert_eq!(rows.len(), 2);
    assert!(matches!(
        read.read_key(&reader, &store, b"a"),
        Err(Error::RuntimeReadBudgetExceeded { limit: 3, observed: 4 })
    ));
    let evidence = read.finish(());
    assert_eq!(evidence.contract_version, RUNTIME_VERSIONED_READ_CONTRACT_VERSION);
    assert_eq!(evidence.keys_examined, 3);
    assert_eq!(evidence.point_reads, 1);
    assert_eq!(evidence.range_scans, 1);
    assert_eq!(evidence.decoded_bytes, 6);
    assert_eq!(evidence.paths.len(), 1);
    assert_eq!(evidence.paths[0].path, RuntimeReadAccessPath::RecordVersions);
    assert!(evidence.validate().is_ok());
}

#[test]
fn a_scan_past_the_budget_is_refused() {
    let mut store = RrflowMxStore::new();
    let mut writer = store.begin_transaction();
    for key in [b"a", b"b", b"c"] {
        writer.put(key.to_vec(), key.to_vec());
    }
    writer.commit(&mut store, Durability::Authoritative).unwrap();
    let reader = store.begin_transaction();
    let mut read = MeteredRead::new(RuntimeReadBudget::new(2).unwrap());
    assert!(matches!(
        read.scan_range(&reader, &store, b"a", b"z", 10),
        Err(Error::RuntimeReadBudgetExceeded { limit: 2, observed: 3 })
    ));
}

#[test]
fn a_refused_charge_leaves_the_reader_unchanged() {
    let mut read = MeteredRead::new(RuntimeReadBudget::new(5).unwrap());
    read.record(u64::MAX, 0, 2, 0, 0).unwrap();
    assert!(matches!(read.record(1, 0, 0, 0, 0), Err(Error::SequenceOverflow)));
    read.with_path(RuntimeReadAccessPath::ClaimVersions);
    read.record(0, 1, 1, 1, 7).unwrap();
    let evidence = read.finish(());
    assert_eq!(evidence.point_reads, u64::MAX);
    assert_eq!(evidence.keys_examined, 3);
    assert_eq!(evidence.paths.len(), 2);
    assert_eq!(evidence.paths[0].path, RuntimeReadAccessPath::ReadStamp);
    assert_eq!(evidence.paths[0].keys_examined, 2);
    assert_eq!(evidence.paths[1].path, RuntimeReadAccessPath::ClaimVersions);
    assert_eq!(evidence.paths[1].decoded_bytes, 7);
    assert!(evidence.validate().is_ok());
}
