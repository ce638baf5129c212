use rrd_store::migration_archive::read_migration_archive;
use rrd_store::Error;
use sha2::{Digest, Sha256};

fn names() -> Vec<Vec<u8>> {
    vec![b"claims".to_vec(), b"system".to_vec()]
}

fn record(out: &mut Vec<u8>, space: u16, key: &[u8], value: &[u8]) {
    out.push(1);
    out.extend_from_slice(&space.to_be_bytes());
    out.extend_from_slice(&(key.len() as u32).to_be_bytes());
    out.extend_from_slice(&(value.len() as u64).to_be_bytes());
    out.extend_from_slice(key);
    out.extend_from_slice(value);
}

fn archive(records: &[(u16, &[u8], &[u8])], counts: &[u64]) -> Vec<u8> {
    let mut out = b"RRDMIG01".to_vec();
    out.extend_from_slice(&1u16.to_be_bytes());
    out.extend_from_slice(&0u16.to_be_bytes());
    out.extend_from_slice(&2u16.to_be_bytes());
    for name in names() {
        out.extend_from_slice(&(name.len() as u16).to_be_bytes());
        out.extend_from_slice(&name);
    }
    let mut payload = 0u64;
    for (space, key, value) in records {
        record(&mut out, *space, key, value);
        payload += (key.len() + value.len()) as u64;
    }
    let digest = Sha256::digest(&out);
    out.push(0xff);
    out.extend_from_slice(&(records.len() as u64).to_be_bytes());
    out.extend_from_slice(&payload.to_be_bytes());
    for count in counts {
        out.extend_from_slice(&count.to_be_bytes());
    }
    out.extend_from_slice(&digest);
    out
}

#[test]
fn an_authenticated_archive_reads_back_its_records() {
    let bytes = archive(&[(0, b"a", b"1"), (0, b"b", b"22"), (1, b"a", b"")], &[2, 1]);
    let read = read_migration_archive(&bytes, &names()).unwrap();
    assert_eq!(read.records.len(), 3);
    assert_eq!((read.records[1].space, read.records[1].key.clone(), read.records[1].value.clone()), (0, b"b".to_vec(), b"22".to_vec()));
    assert_eq!(read.inventory.entries, 3);
    assert_eq!(read.inventory.payload_bytes, 6);
    assert_eq!(read.inventory.keyspace_counts, vec![2, 1]);
    assert_eq!(read.inventory.format_version, 1);
    let digest = Sha256::digest(&bytes[..bytes.len() - 49 - 16]);
    let expected: String = digest.iter().map(|b| format!("{b:02x}")).collect();
    assert_eq!(read.inventory.archive_sha256, expected);
}

#[test]
fn malformed_archives_are_refused() {
    let unordered = archive(&[(0, b"b", b"1"), (0, b"a", b"2")], &[2, 0]);
    assert!(matches!(read_migration_archive(&unordered, &names()), Err(Error::Migration(_))));
    let backwards = archive(&[(1, b"a", b"1"), (0, b"b", b"2")], &[1, 1]);
    assert!(matches!(read_migration_archive(&backwards, &names()), Err(Error::Migration(_))));
    let miscounted = archive(&[(0, b"a", b"1")], &[0, 1]);
    assert!(matches!(read_migration_archive(&miscounted, &names()), Err(Error::Migration(_))));
    let mut tampered = archive(&[(0, b"a", b"1")], &[1, 0]);
    let at = tampered.len() - 50 - 16 - 1;
    tampered[at] ^= 1;
    assert!(matches!(read_migration_archive(&tampered, &names()), Err(Error::Migration(_))));
    let mut trailing = archive(&[], &[0, 0]);
    trailing.push(0);
    assert!(matches!(read_migration_archive(&trailing, &names()), Err(Error::Migration(_))));
    let good = archive(&[], &[0, 0]);
    assert!(read_migration_archive(&good, &names()).is_ok());
    assert!(matches!(read_migration_archive(&good, &vec![b"claims".to_vec()]), Err(Error::Migration(_))));
    assert!(matches!(read_migration_archive(&good[..good.len() - 1], &names()), Err(Error::Migration(_))));
}
