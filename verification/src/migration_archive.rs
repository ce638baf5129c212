//! The byte layout of a migration archive, and its authenticated reading.
//!
//! An archive opens with the magic `RRDMIG01`, the version, zero flags and
//! the names of the keyspaces in their canonical order; then come records,
//! each a tag, a keyspace ordinal and the lengths of a key and a value
//! followed by their bytes, in nondecreasing keyspace order and strictly
//! ascending key order within a keyspace. A footer tag closes the records,
//! followed by the record count, the payload byte count, the count of each
//! keyspace and the SHA-256 of everything before the footer tag.

use crate::bytes::{bytes_lt, hex, hex_text, lex_lt, push_all};
use crate::digest::{sha256, sha256_digest};
use crate::error::{text, Error, Result};
use crate::migration::MigrationInventory;
use vstd::prelude::*;

verus! {

/// The archive format version.
pub const MIGRATION_ARCHIVE_VERSION: u16 = 1;

/// The tag that opens a record.
pub const RECORD_TAG: u8 = 1;

/// The tag that opens the footer.
pub const FOOTER_TAG: u8 = 255;

/// The longest key a record may carry.
pub const MAX_KEY_BYTES: u64 = 1048576;

/// The longest value a record may carry.
pub const MAX_VALUE_BYTES: u64 = 8388608;

/// The magic bytes `RRDMIG01`.
pub open spec fn migration_magic() -> Seq<u8> {
    seq![82u8, 82u8, 68u8, 77u8, 73u8, 71u8, 48u8, 49u8]
}

/// The two big-endian bytes of `n < 65536`.
pub open spec fn two_bytes(n: int) -> Seq<u8> {
    seq![(n / 256) as u8, (n % 256) as u8]
}

/// The length-prefixed names, in order.
pub open spec fn names_bytes(names: Seq<Seq<u8>>) -> Seq<u8>
    decreases names.len(),
{
    if names.len() == 0 {
        Seq::empty()
    } else {
        names_bytes(names.drop_last()) + two_bytes(names.last().len() as int) + names.last()
    }
}

/// The header of an archive of keyspaces `names`.
pub open spec fn migration_header(names: Seq<Seq<u8>>) -> Seq<u8> {
    migration_magic() + seq![0u8, 1u8, 0u8, 0u8] + two_bytes(names.len() as int) + names_bytes(names)
}

/// The unsigned integer of the two big-endian bytes at `p`.
pub open spec fn u16_at(b: Seq<u8>, p: int) -> int {
    b[p] * 256 + b[p + 1]
}

/// The unsigned integer of the four big-endian bytes at `p`.
pub open spec fn u32_at(b: Seq<u8>, p: int) -> int {
    ((b[p] * 256 + b[p + 1]) * 256 + b[p + 2]) * 256 + b[p + 3]
}

/// The unsigned integer of the eight big-endian bytes at `p`.
pub open spec fn u64_at(b: Seq<u8>, p: int) -> int {
    ((((((b[p] * 256 + b[p + 1]) * 256 + b[p + 2]) * 256 + b[p + 3]) * 256 + b[p + 4]) * 256 + b[p + 5]) * 256
        + b[p + 6]) * 256 + b[p + 7]
}

/// One record: its keyspace ordinal, key and value.
pub type RecordView = (int, Seq<u8>, Seq<u8>);

/// The records from position `pos` up to the footer tag, given the keyspace
/// count, the previous record's keyspace and key, and the record and
/// payload counts so far: the records, the footer tag's position and the
/// final counts; none where a record is malformed, out of order or
/// overflows a count, or no footer tag follows.
pub open spec fn parse_records(b: Seq<u8>, pos: int, spaces: int, last: Option<(int, Seq<u8>)>, entries: int, payload: int)
    -> Option<(Seq<RecordView>, int, int, int)>
    decreases b.len() - pos,
{
    if pos < 0 || pos >= b.len() {
        None
    } else if b[pos] == FOOTER_TAG {
        Some((Seq::empty(), pos, entries, payload))
    } else if b[pos] != RECORD_TAG || pos + 15 > b.len() {
        None
    } else {
        let space = u16_at(b, pos + 1);
        let klen = u32_at(b, pos + 3);
        let vlen = u64_at(b, pos + 7);
        if space >= spaces || (last matches Some((ls, _)) && space < ls) || klen == 0 || klen > MAX_KEY_BYTES
            || vlen > MAX_VALUE_BYTES || pos + 15 + klen + vlen > b.len() {
            None
        } else {
            let key = b.subrange(pos + 15, pos + 15 + klen);
            let value = b.subrange(pos + 15 + klen, pos + 15 + klen + vlen);
            if (last matches Some((ls, lk)) && ls == space && !lex_lt(lk, key)) || entries + 1 > u64::MAX
                || payload + klen + vlen > u64::MAX {
                None
            } else {
                match parse_records(b, pos + 15 + klen + vlen, spaces, Some((space, key)), entries + 1, payload + klen + vlen) {
                    Some((rs, footer, e, p)) => Some((seq![(space, key, value)] + rs, footer, e, p)),
                    None => None,
                }
            }
        }
    }
}

/// How many records of keyspace `space` there are.
pub open spec fn space_count(rs: Seq<RecordView>, space: int) -> int
    decreases rs.len(),
{
    if rs.len() == 0 {
        0
    } else {
        space_count(rs.drop_last(), space) + if rs.last().0 == space { 1int } else { 0int }
    }
}

/// The footer at `footer` declares the counts and the digest of what
/// precedes it, and ends the archive.
pub open spec fn footer_ok(b: Seq<u8>, footer: int, spaces: int, rs: Seq<RecordView>, entries: int, payload: int) -> bool {
    &&& b.len() == footer + 49 + 8 * spaces
    &&& u64_at(b, footer + 1) == entries
    &&& u64_at(b, footer + 9) == payload
    &&& forall|i: int| 0 <= i < spaces ==> #[trigger] u64_at(b, footer + 17 + 8 * i) == space_count(rs, i)
    &&& b.subrange(footer + 17 + 8 * spaces, b.len() as int) == sha256_digest(b.take(footer))
}

/// What an archive of keyspaces `names` holds: its records, record count,
/// payload byte count and digest; none where it is not exactly such an
/// authenticated archive.
pub open spec fn parse_migration_archive(b: Seq<u8>, names: Seq<Seq<u8>>) -> Option<(Seq<RecordView>, int, int, Seq<u8>)> {
    let h = migration_header(names);
    if b.len() < h.len() || b.take(h.len() as int) != h {
        None
    } else {
        match parse_records(b, h.len() as int, names.len() as int, None, 0, 0) {
            None => None,
            Some((rs, footer, e, p)) => if footer_ok(b, footer, names.len() as int, rs, e, p) {
                Some((rs, e, p, sha256_digest(b.take(footer))))
            } else {
                None
            },
        }
    }
}

/// One record of a migration archive.
#[derive(Debug, Clone, PartialEq, Eq)]
pub struct MigrationRecord {
    pub space: usize,
    pub key: Vec<u8>,
    pub value: Vec<u8>,
}

/// An authenticated migration archive: its inventory and its records.
#[derive(Debug, Clone, PartialEq, Eq)]
pub struct MigrationArchive {
    pub inventory: MigrationInventory,
    pub records: Vec<MigrationRecord>,
}

/// The view of the records read.
pub open spec fn record_views(rs: Seq<MigrationRecord>) -> Seq<RecordView> {
    rs.map_values(|r: MigrationRecord| (r.space as int, r.key@, r.value@))
}

/// The view of the previous record's keyspace and key.
pub open spec fn last_view(last: Option<(usize, Vec<u8>)>) -> Option<(int, Seq<u8>)> {
    match last {
        Some((ls, lk)) => Some((ls as int, lk@)),
        None => None,
    }
}

/// The view of each name's bytes.
pub open spec fn name_views(names: Seq<Vec<u8>>) -> Seq<Seq<u8>> {
    names.map_values(|n: Vec<u8>| n@)
}

/// The header of an archive of keyspaces `names`.
fn header_of(names: &Vec<Vec<u8>>) -> (h: Vec<u8>)
    requires
        names@.len() < 65536,
        forall|i: int| 0 <= i < names@.len() ==> (#[trigger] names@[i])@.len() < 65536,
    ensures
        h@ == migration_header(name_views(names@)),
{
    let mut h: Vec<u8> = Vec::new();
    h.push(82);
    h.push(82);
    h.push(68);
    h.push(77);
    h.push(73);
    h.push(71);
    h.push(48);
    h.push(49);
    h.push(0);
    h.push(1);
    h.push(0);
    h.push(0);
    let count = names.len();
    h.push((count / 256) as u8);
    h.push((count % 256) as u8);
    let ghost start = migration_magic() + seq![0u8, 1u8, 0u8, 0u8] + two_bytes(names@.len() as int);
    assert(h@ =~= start);
    let mut i: usize = 0;
    while i < names.len()
        invariant
            i <= names@.len(),
            names@.len() < 65536,
            forall|j: int| 0 <= j < names@.len() ==> (#[trigger] names@[j])@.len() < 65536,
            h@ == start + names_bytes(name_views(names@).take(i as int)),
        decreases names@.len() - i,
    {
        let name = &names[i];
        let length = name.len();
        h.push((length / 256) as u8);
        h.push((length % 256) as u8);
        push_all(&mut h, name.as_slice());
        proof {
            let v = name_views(names@);
            assert(v.take(i + 1).drop_last() =~= v.take(i as int));
            assert(v.take(i + 1).last() == name@);
        }
        i = i + 1;
        assert(h@ =~= start + names_bytes(name_views(names@).take(i as int)));
    }
    assert(name_views(names@).take(i as int) =~= name_views(names@));
    h
}

/// Whether `bytes` begins with `prefix`.
fn starts_with(bytes: &[u8], prefix: &Vec<u8>) -> (b: bool)
    ensures
        b == (prefix@.len() <= bytes@.len() && bytes@.take(prefix@.len() as int) == prefix@),
{
    if prefix.len() > bytes.len() {
        return false;
    }
    let mut i: usize = 0;
    while i < prefix.len()
        invariant
            i <= prefix@.len() <= bytes@.len(),
            bytes@.take(i as int) == prefix@.take(i as int),
        decreases prefix@.len() - i,
    {
        if bytes[i] != prefix[i] {
            assert(bytes@.take(prefix@.len() as int)[i as int] != prefix@[i as int]);
            return false;
        }
        assert(bytes@.take(i + 1) =~= bytes@.take(i as int).push(bytes@[i as int]));
        assert(prefix@.take(i + 1) =~= prefix@.take(i as int).push(prefix@[i as int]));
        i = i + 1;
    }
    assert(prefix@.take(i as int) =~= prefix@);
    true
}

/// The integer of the two big-endian bytes at `p`.
fn read_u16_at(bytes: &[u8], p: usize) -> (v: u64)
    requires
        p + 2 <= bytes@.len(),
    ensures
        v == u16_at(bytes@, p as int),
{
    (bytes[p] as u64) * 256 + bytes[p + 1] as u64
}

/// The integer of the four big-endian bytes at `p`.
fn read_u32_at(bytes: &[u8], p: usize) -> (v: u64)
    requires
        p + 4 <= bytes@.len(),
    ensures
        v == u32_at(bytes@, p as int),
{
    let mut v: u64 = bytes[p] as u64;
    v = v * 256 + bytes[p + 1] as u64;
    v = v * 256 + bytes[p + 2] as u64;
    v = v * 256 + bytes[p + 3] as u64;
    v
}

/// The integer of the eight big-endian bytes at `p`.
fn read_u64_at(bytes: &[u8], p: usize) -> (v: u64)
    requires
        p + 8 <= bytes@.len(),
    ensures
        v == u64_at(bytes@, p as int),
{
    let mut v: u64 = bytes[p] as u64;
    assert(v < 0x100);
    v = v * 256 + bytes[p + 1] as u64;
    assert(v < 0x10000);
    v = v * 256 + bytes[p + 2] as u64;
    assert(v < 0x1000000);
    v = v * 256 + bytes[p + 3] as u64;
    assert(v < 0x100000000);
    v = v * 256 + bytes[p + 4] as u64;
    assert(v < 0x10000000000);
    v = v * 256 + bytes[p + 5] as u64;
    assert(v < 0x1000000000000);
    v = v * 256 + bytes[p + 6] as u64;
    assert(v < 0x100000000000000);
    v = v * 256 + bytes[p + 7] as u64;
    v
}

/// A copy of `bytes[start..end]`.
fn copy_range(bytes: &[u8], start: usize, end: usize) -> (c: Vec<u8>)
    requires
        start <= end <= bytes@.len(),
    ensures
        c@ == bytes@.subrange(start as int, end as int),
{
    let mut c: Vec<u8> = Vec::new();
    let mut i: usize = start;
    while i < end
        invariant
            start <= i <= end <= bytes@.len(),
            c@ == bytes@.subrange(start as int, i as int),
        decreases end - i,
    {
        c.push(bytes[i]);
        i = i + 1;
        assert(c@ =~= bytes@.subrange(start as int, i as int));
    }
    c
}

/// Records never outnumber themselves per keyspace.
proof fn lemma_space_count_bounded(rs: Seq<RecordView>, space: int)
    ensures
        0 <= space_count(rs, space) <= rs.len(),
    decreases rs.len(),
{
    if rs.len() > 0 {
        lemma_space_count_bounded(rs.drop_last(), space);
    }
}

/// The refusal of an archive that is not exactly an authenticated archive.
fn malformed(message: &str) -> (e: Error)
    ensures
        e is Migration,
{
    Error::Migration(text(message))
}

/// Reads an authenticated migration archive of keyspaces `names`: its
/// records and inventory, or a migration error where the bytes are not
/// exactly such an archive.
pub fn read_migration_archive(bytes: &[u8], names: &Vec<Vec<u8>>) -> (r: Result<MigrationArchive>)
    requires
        names@.len() < 65536,
        forall|i: int| 0 <= i < names@.len() ==> (#[trigger] names@[i])@.len() < 65536,
    ensures
        match parse_migration_archive(bytes@, name_views(names@)) {
            None => r matches Err(e) && e is Migration,
            Some((rs, entries, payload, digest)) => r matches Ok(a) && {
                &&& record_views(a.records@) == rs
                &&& a.inventory.format_version == MIGRATION_ARCHIVE_VERSION
                &&& a.inventory.entries == entries
                &&& a.inventory.payload_bytes == payload
                &&& a.inventory.archive_sha256@ == hex_text(digest)
                &&& a.inventory.keyspace_counts@ == Seq::new(names@.len(), |i: int| space_count(rs, i) as u64)
            },
        },
{
    let ghost b = bytes@;
    let ghost nv = name_views(names@);
    let n = bytes.len();
    let header = header_of(names);
    if !starts_with(bytes, &header) {
        return Err(malformed("archive header does not match its keyspaces"));
    }
    let spaces = names.len();
    let mut pos: usize = header.len();
    let mut last: Option<(usize, Vec<u8>)> = None;
    let mut entries: u64 = 0;
    let mut payload: u64 = 0;
    let mut records: Vec<MigrationRecord> = Vec::new();
    let mut counts: Vec<u64> = Vec::new();
    let mut k: usize = 0;
    while k < spaces
        invariant
            k <= spaces,
            counts@.len() == k,
            forall|j: int| 0 <= j < k ==> counts@[j] == 0,
        decreases spaces - k,
    {
        counts.push(0);
        k = k + 1;
    }
    let ghost whole = parse_records(b, header@.len() as int, spaces as int, None, 0, 0);
    assert(record_views(records@) =~= Seq::<RecordView>::empty());
    while pos < n && bytes[pos] != FOOTER_TAG
        invariant
            b == bytes@,
            n == b.len(),
            spaces == names@.len(),
            header@ == migration_header(name_views(names@)),
            header@.len() <= b.len() && b.take(header@.len() as int) == header@,
            whole == parse_records(b, header@.len() as int, spaces as int, None, 0, 0),
            header@.len() <= pos <= n,
            whole == match parse_records(b, pos as int, spaces as int, last_view(last), entries as int, payload as int) {
                Some((rs, footer, e, p)) => Some((record_views(records@) + rs, footer, e, p)),
                None => None::<(Seq<RecordView>, int, int, int)>,
            },
            entries == records@.len(),
            counts@.len() == spaces,
            forall|j: int| 0 <= j < spaces ==> #[trigger] counts@[j] == space_count(record_views(records@), j),
            last matches Some((ls, _)) ==> ls < spaces,
        decreases n - pos,
    {
        if bytes[pos] != RECORD_TAG || n - pos < 15 {
            return Err(malformed("archive record is truncated or carries an unknown tag"));
        }
        let space = read_u16_at(bytes, pos + 1);
        let klen = read_u32_at(bytes, pos + 3);
        let vlen = read_u64_at(bytes, pos + 7);
        let out_of_order = match &last {
            Some((ls, _)) => space < *ls as u64,
            None => false,
        };
        if space >= spaces as u64 || out_of_order {
            return Err(malformed("archive keyspace ordinal is invalid"));
        }
        if klen == 0 || klen > MAX_KEY_BYTES || vlen > MAX_VALUE_BYTES || ((n - pos - 15) as u64) < klen + vlen {
            return Err(malformed("archive key/value length exceeds limits or the archive"));
        }
        let key_start = pos + 15;
        let key_end = key_start + klen as usize;
        let value_end = key_end + vlen as usize;
        let key = copy_range(bytes, key_start, key_end);
        let value = copy_range(bytes, key_end, value_end);
        let unordered = match &last {
            Some((ls, lk)) => *ls as u64 == space && !bytes_lt(lk.as_slice(), key.as_slice()),
            None => false,
        };
        if unordered {
            return Err(malformed("archive keys are not strictly ordered"));
        }
        if entries == u64::MAX || payload > u64::MAX - (klen + vlen) {
            return Err(malformed("archive counter overflow"));
        }
        let space_index = space as usize;
        proof {
            lemma_space_count_bounded(record_views(records@), space as int);
        }
        let count = counts[space_index];
        counts.set(space_index, count + 1);
        let ghost before = record_views(records@);
        records.push(MigrationRecord { space: space_index, key, value: copy_range(bytes, key_end, value_end) });
        proof {
            assert(record_views(records@) =~= before.push((space as int, b.subrange(key_start as int, key_end as int),
                b.subrange(key_end as int, value_end as int))));
            assert(record_views(records@).drop_last() =~= before);
            assert forall|j: int| 0 <= j < spaces implies #[trigger] counts@[j] == space_count(record_views(records@), j) by {
            }
            match parse_records(b, value_end as int, spaces as int, Some((space as int, b.subrange(key_start as int, key_end as int))),
                entries + 1, payload + klen + vlen) {
                Some((rs, footer, e, p)) => {
                    assert(before + (seq![(space as int, b.subrange(key_start as int, key_end as int),
                        b.subrange(key_end as int, value_end as int))] + rs) =~= record_views(records@) + rs);
                },
                None => {},
            }
        }
        last = Some((space_index, records[records.len() - 1].key.clone()));
        assert(last matches Some((_, lk)) && lk@ == b.subrange(key_start as int, key_end as int));
        entries = entries + 1;
        payload = payload + (klen + vlen);
        pos = value_end;
    }
    if pos >= n {
        return Err(malformed("archive is truncated"));
    }
    let footer = pos;
    proof {
        assert(record_views(records@) + Seq::<RecordView>::empty() =~= record_views(records@));
    }
    if n - footer < 49 || (n - footer - 49) / 8 != spaces || (n - footer - 49) % 8 != 0 {
        return Err(malformed("archive footer is truncated or followed by trailing bytes"));
    }
    let declared_entries = read_u64_at(bytes, footer + 1);
    let declared_bytes = read_u64_at(bytes, footer + 9);
    if declared_entries != entries || declared_bytes != payload {
        return Err(malformed("archive footer or SHA-256 does not match"));
    }
    let mut i: usize = 0;
    while i < spaces
        invariant
            b == bytes@,
            n == b.len(),
            n == footer + 49 + 8 * spaces,
            spaces == names@.len(),
            header@ == migration_header(name_views(names@)),
            header@.len() <= b.len() && b.take(header@.len() as int) == header@,
            whole == parse_records(b, header@.len() as int, spaces as int, None, 0, 0),
            whole == Some((record_views(records@), footer as int, entries as int, payload as int)),
            forall|j: int| 0 <= j < spaces ==> #[trigger] counts@[j] == space_count(record_views(records@), j),
            i <= spaces,
            counts@.len() == spaces,
            forall|j: int| 0 <= j < i ==> #[trigger] u64_at(b, footer + 17 + 8 * j) == counts@[j],
        decreases spaces - i,
    {
        let declared = read_u64_at(bytes, footer + 17 + 8 * i);
        if declared != counts[i] {
            return Err(malformed("archive footer or SHA-256 does not match"));
        }
        i = i + 1;
    }
    let hashed = copy_range(bytes, 0, footer);
    let digest = sha256(hashed.as_slice());
    let declared_digest = copy_range(bytes, footer + 17 + 8 * spaces, n);
    if !crate::bytes::bytes_eq(digest.as_slice(), declared_digest.as_slice()) {
        return Err(malformed("archive footer or SHA-256 does not match"));
    }
    proof {
        assert(hashed@ =~= b.take(footer as int));
        assert(Seq::new(names@.len(), |j: int| space_count(record_views(records@), j) as u64) =~= counts@);
    }
    let archive_sha256 = hex(digest.as_slice());
    Ok(MigrationArchive {
        inventory: MigrationInventory {
            format_version: MIGRATION_ARCHIVE_VERSION,
            archive_sha256,
            entries,
            payload_bytes: payload,
            keyspace_counts: counts,
        },
        records,
    })
}

} // verus!
