//! Materialized control state and its hash-chained journal, kept in the
//! system space of the store and advanced one authoritative transaction at
//! a time.

use crate::control::{
    control_page_intact, entry_fits, verify_control_page,
    is_valid_control_batch, transition_keys, validate_control_batch, control_tail_consistent, entry_parts, entry_record_bytes, entry_verifies, is_control_key, is_valid_transition,
    opt_bytes_view, opt_string_view, validate_control_key, verify_control_tail, ControlJournalEntry, ControlTransition,
};
use crate::digest::sha256_hex_text;
use crate::engine::{bytes_opt, RrflowMxStore, RrflowMxTransaction};
use crate::error::{Error, Result};
use crate::function::{opt_str, utf8};
use crate::key_codec::{KeyCodec, KeyPartValue};
use crate::keyspaces::{self, spec_space_key, spec_space_key_value, Durability, Space, SystemEntry, META};
use crate::repository::common::{checked_key, decimal, get, is_space_key, lemma_is_space_key, parse_u64, put_sequence, read_sequence, scan_space_from};
use vstd::prelude::*;
use vstd::utf8::*;

verus! {

broadcast use {encode_utf8_decode_utf8, encode_utf8_valid_utf8, decode_utf8_encode_utf8};

/// The key the materialized state of control key `key` is stored under.
pub open spec fn control_value_key(key: Seq<char>) -> Seq<u8> {
    spec_space_key(Space::System, seq![KeyPartValue::U8(SystemEntry::ControlValue.spec_tag()), KeyPartValue::Text(key)])
}

/// The key of the journal's sequence watermark.
pub open spec fn journal_sequence_key() -> Seq<u8> {
    spec_space_key(Space::System, seq![KeyPartValue::U8(SystemEntry::ControlJournalSequence.spec_tag())])
}

/// The key of the digest of the journal's last entry.
pub open spec fn journal_digest_key() -> Seq<u8> {
    spec_space_key(Space::System, seq![KeyPartValue::U8(SystemEntry::ControlJournalLastDigest.spec_tag())])
}

/// The key journal entry `sequence` is stored under.
pub open spec fn journal_entry_key(sequence: u64) -> Seq<u8> {
    spec_space_key(Space::System, seq![KeyPartValue::U8(SystemEntry::ControlJournalEntry.spec_tag()), KeyPartValue::U64(sequence)])
}

/// The newest committed value of `key` in `store`.
pub open spec fn newest(store: RrflowMxStore, key: Seq<u8>) -> Option<Seq<u8>> {
    store.read_at(key, store.sequence() as int)
}

/// A stored watermark: 0 where none is stored, none where it is no numeral.
pub open spec fn stored_watermark(stored: Option<Seq<u8>>) -> Option<u64> {
    match stored {
        None => Some(0),
        Some(bytes) => parse_u64(bytes),
    }
}

/// A stored digest: absent where none is stored, none where it is not UTF-8.
pub open spec fn stored_digest(stored: Option<Seq<u8>>) -> Option<Option<Seq<char>>> {
    match stored {
        None => Some(None),
        Some(bytes) => if valid_utf8(bytes) { Some(Some(decode_utf8(bytes))) } else { None },
    }
}

/// The journal's tail entry `sequence` is stored, decodes, and agrees with
/// the advertised digest; an empty journal has no digest.
pub open spec fn tail_intact(store: RrflowMxStore, sequence: u64, digest: Option<Seq<char>>) -> bool {
    if sequence == 0 {
        control_tail_consistent(0, digest, None)
    } else {
        match newest(store, journal_entry_key(sequence)) {
            None => false,
            Some(bytes) => exists|e: ControlJournalEntry|
                #[trigger] entry_record_bytes(e) == bytes && control_tail_consistent(sequence, digest, Some(e)),
        }
    }
}

/// The journal's watermark and last digest, when the stored journal is intact.
pub open spec fn journal_tail(store: RrflowMxStore) -> Option<(u64, Option<Seq<char>>)> {
    match (stored_watermark(newest(store, journal_sequence_key())), stored_digest(newest(store, journal_digest_key()))) {
        (Some(n), Some(d)) => if tail_intact(store, n, d) { Some((n, d)) } else { None },
        _ => None,
    }
}

/// `e` is the journal entry that commits `t` as entry `sequence` after the
/// entry whose digest is `previous`.
pub open spec fn commits(e: ControlJournalEntry, t: ControlTransition, sequence: u64, previous: Option<Seq<char>>) -> bool {
    &&& e.sequence == sequence
    &&& e.key@ == t.key@
    &&& opt_string_view(e.before_sha256) == match t.expected {
        Some(v) => Some(sha256_hex_text(v@)),
        None => None::<Seq<char>>,
    }
    &&& opt_bytes_view(e.replacement) == opt_bytes_view(t.replacement)
    &&& e.at == t.at
    &&& e.actor@ == t.actor@
    &&& e.action@ == t.action@
    &&& e.request_id@ == t.request_id@
    &&& e.operation_id@ == t.operation_id@
    &&& opt_string_view(e.previous_digest) == previous
    &&& entry_verifies(e)
}

/// Distinct tuples of the system space have distinct keys.
proof fn lemma_system_keys_distinct(a: Seq<KeyPartValue>, b: Seq<KeyPartValue>)
    requires
        a != b,
    ensures
        spec_space_key(Space::System, a) != spec_space_key(Space::System, b),
{
    if spec_space_key(Space::System, a) == spec_space_key(Space::System, b) {
        let ka = spec_space_key_value(Space::System, a);
        let kb = spec_space_key_value(Space::System, b);
        crate::key_codec::lemma_encode_injective(ka, kb);
        assert(ka.parts.skip(1) =~= a);
        assert(kb.parts.skip(1) =~= b);
    }
}

/// The four keys one commit writes are distinct.
proof fn lemma_commit_keys_distinct(key: Seq<char>, sequence: u64)
    ensures
        control_value_key(key) != journal_entry_key(sequence),
        control_value_key(key) != journal_sequence_key(),
        control_value_key(key) != journal_digest_key(),
        journal_entry_key(sequence) != journal_sequence_key(),
        journal_entry_key(sequence) != journal_digest_key(),
        journal_sequence_key() != journal_digest_key(),
{
    let v = seq![KeyPartValue::U8(SystemEntry::ControlValue.spec_tag()), KeyPartValue::Text(key)];
    let j = seq![KeyPartValue::U8(SystemEntry::ControlJournalEntry.spec_tag()), KeyPartValue::U64(sequence)];
    let s = seq![KeyPartValue::U8(SystemEntry::ControlJournalSequence.spec_tag())];
    let d = seq![KeyPartValue::U8(SystemEntry::ControlJournalLastDigest.spec_tag())];
    assert(v[0] != j[0]);
    assert(v.len() != s.len());
    assert(v.len() != d.len());
    assert(j.len() != s.len());
    assert(j.len() != d.len());
    assert(s[0] != d[0]);
    lemma_system_keys_distinct(v, j);
    lemma_system_keys_distinct(v, s);
    lemma_system_keys_distinct(v, d);
    lemma_system_keys_distinct(j, s);
    lemma_system_keys_distinct(j, d);
    lemma_system_keys_distinct(s, d);
}

/// The digest entry `i` of a batch names as its predecessor: the journal's
/// last digest for the first, the digest of the entry before it otherwise.
pub open spec fn chained_previous(last: Option<Seq<char>>, entries: Seq<ControlJournalEntry>, i: int) -> Option<Seq<char>> {
    if i == 0 { last } else { Some(entries[i - 1].digest@) }
}

/// A transition expects a state its key does not hold in `store`.
pub open spec fn mismatched(store: RrflowMxStore, t: ControlTransition) -> bool {
    newest(store, control_value_key(t.key@)) != opt_bytes_view(t.expected)
}

/// `k` is the state key of one of the first transitions of a batch, or the
/// key of the journal entry that commits it.
pub open spec fn batch_key(k: Seq<u8>, transitions: Seq<ControlTransition>, entries: Seq<ControlJournalEntry>) -> bool {
    exists|j: int| 0 <= j < transitions.len() && j < entries.len()
        && (k == control_value_key(#[trigger] transitions[j].key@) || k == journal_entry_key(entries[j].sequence))
}

/// Distinct control keys have distinct state keys.
proof fn lemma_value_keys_distinct(transitions: Seq<ControlTransition>, j: int, i: int)
    requires
        is_valid_control_batch(transitions),
        0 <= j < i < transitions.len(),
    ensures
        control_value_key(transitions[j].key@) != control_value_key(transitions[i].key@),
{
    let keys = transition_keys(transitions);
    assert(keys[j] == transitions[j].key@);
    assert(keys[i] == transitions[i].key@);
    assert(keys[j] != keys[i]);
    lemma_system_keys_distinct(
        seq![KeyPartValue::U8(SystemEntry::ControlValue.spec_tag()), KeyPartValue::Text(transitions[j].key@)],
        seq![KeyPartValue::U8(SystemEntry::ControlValue.spec_tag()), KeyPartValue::Text(transitions[i].key@)],
    );
}

/// Distinct sequences have distinct journal-entry keys.
proof fn lemma_entry_keys_distinct(a: u64, b: u64)
    requires
        a != b,
    ensures
        journal_entry_key(a) != journal_entry_key(b),
{
    lemma_system_keys_distinct(
        seq![KeyPartValue::U8(SystemEntry::ControlJournalEntry.spec_tag()), KeyPartValue::U64(a)],
        seq![KeyPartValue::U8(SystemEntry::ControlJournalEntry.spec_tag()), KeyPartValue::U64(b)],
    );
}

/// No state or journal-entry key is the watermark or the digest key.
proof fn lemma_tail_keys_distinct()
    ensures
        forall|key: Seq<char>| #[trigger] control_value_key(key) != journal_sequence_key() && control_value_key(key) != journal_digest_key(),
        forall|s: u64| #[trigger] journal_entry_key(s) != journal_sequence_key() && journal_entry_key(s) != journal_digest_key(),
{
    assert forall|key: Seq<char>| #[trigger] control_value_key(key) != journal_sequence_key() && control_value_key(key) != journal_digest_key() by {
        lemma_commit_keys_distinct(key, 0);
    }
    assert forall|s: u64| #[trigger] journal_entry_key(s) != journal_sequence_key() && journal_entry_key(s) != journal_digest_key() by {
        lemma_commit_keys_distinct(Seq::<char>::empty(), s);
    }
}

/// One more committed transition adds its state key and entry key.
proof fn lemma_batch_key_step(k: Seq<u8>, transitions: Seq<ControlTransition>, entries: Seq<ControlJournalEntry>, i: int)
    requires
        0 <= i < transitions.len(),
        entries.len() == i + 1,
    ensures
        batch_key(k, transitions.take(i + 1), entries) == (batch_key(k, transitions.take(i), entries.drop_last())
            || k == control_value_key(transitions[i].key@) || k == journal_entry_key(entries[i].sequence)),
{
    let now = transitions.take(i + 1);
    let before = transitions.take(i);
    if batch_key(k, now, entries) {
        let j = choose|j: int| 0 <= j < now.len() && j < entries.len()
            && (k == control_value_key(#[trigger] now[j].key@) || k == journal_entry_key(entries[j].sequence));
        if j < i {
            assert(before[j] == now[j]);
            assert(entries.drop_last()[j] == entries[j]);
        }
    }
    if batch_key(k, before, entries.drop_last()) {
        let j = choose|j: int| 0 <= j < before.len() && j < entries.drop_last().len()
            && (k == control_value_key(#[trigger] before[j].key@) || k == journal_entry_key(entries.drop_last()[j].sequence));
        assert(now[j] == before[j]);
        assert(entries.drop_last()[j] == entries[j]);
    }
    if k == control_value_key(transitions[i].key@) || k == journal_entry_key(entries[i].sequence) {
        assert(now[i] == transitions[i]);
    }
}

/// The next transition's state key and entry key are not yet written.
proof fn lemma_fresh_batch_keys(
    transitions: Seq<ControlTransition>,
    entries: Seq<ControlJournalEntry>,
    i: int,
    base: u64,
    writes: Map<Seq<u8>, Option<Seq<u8>>>,
)
    requires
        is_valid_control_batch(transitions),
        0 <= i < transitions.len(),
        entries.len() == i,
        forall|j: int| 0 <= j < i ==> (#[trigger] entries[j]).sequence == base + 1 + j,
        base + 1 + i <= u64::MAX,
        forall|k: Seq<u8>| #[trigger] writes.contains_key(k) <==> batch_key(k, transitions.take(i), entries),
    ensures
        !writes.contains_key(control_value_key(transitions[i].key@)),
        !writes.contains_key(journal_entry_key((base + 1 + i) as u64)),
{
    let before = transitions.take(i);
    let vk = control_value_key(transitions[i].key@);
    let ek = journal_entry_key((base + 1 + i) as u64);
    if writes.contains_key(vk) {
        let j = choose|j: int| 0 <= j < before.len() && j < entries.len()
            && (vk == control_value_key(#[trigger] before[j].key@) || vk == journal_entry_key(entries[j].sequence));
        assert(before[j] == transitions[j]);
        lemma_value_keys_distinct(transitions, j, i);
        lemma_commit_keys_distinct(transitions[i].key@, entries[j].sequence);
    }
    if writes.contains_key(ek) {
        let j = choose|j: int| 0 <= j < before.len() && j < entries.len()
            && (ek == control_value_key(#[trigger] before[j].key@) || ek == journal_entry_key(entries[j].sequence));
        assert(before[j] == transitions[j]);
        assert(entries[j].sequence == base + 1 + j);
        lemma_entry_keys_distinct(entries[j].sequence, (base + 1 + i) as u64);
        lemma_commit_keys_distinct(transitions[j].key@, (base + 1 + i) as u64);
    }
}

/// One more transition of a batch keeps the bookkeeping of its writes:
/// their number, which keys they touch, and the values they stage.
proof fn lemma_batch_step(
    transitions: Seq<ControlTransition>,
    entries: Seq<ControlJournalEntry>,
    entry: ControlJournalEntry,
    i: int,
    base: u64,
    before: Map<Seq<u8>, Option<Seq<u8>>>,
    after: Map<Seq<u8>, Option<Seq<u8>>>,
)
    requires
        is_valid_control_batch(transitions),
        0 <= i < transitions.len(),
        entries.len() == i,
        base + 1 + i <= u64::MAX,
        forall|j: int| 0 <= j < i ==> (#[trigger] entries[j]).sequence == base + 1 + j,
        entry.sequence == base + 1 + i,
        before.dom().finite(),
        before.dom().len() == 2 * i,
        forall|k: Seq<u8>| #[trigger] before.contains_key(k) <==> batch_key(k, transitions.take(i), entries),
        forall|j: int| 0 <= j < i ==> before[#[trigger] control_value_key(transitions[j].key@)] == opt_bytes_view(transitions[j].replacement),
        forall|j: int| 0 <= j < i ==> before[journal_entry_key(#[trigger] entries[j].sequence)] == Some(entry_record_bytes(entries[j])),
        forall|j: int| 0 <= j < i ==> before.contains_key(#[trigger] control_value_key(transitions[j].key@)),
        forall|j: int| 0 <= j < i ==> before.contains_key(journal_entry_key(#[trigger] entries[j].sequence)),
        after == before.insert(control_value_key(transitions[i].key@), opt_bytes_view(transitions[i].replacement))
            .insert(journal_entry_key(entry.sequence), Some(entry_record_bytes(entry))),
    ensures
        after.dom().finite(),
        after.dom().len() == 2 * (i + 1),
        forall|k: Seq<u8>| #[trigger] after.contains_key(k) <==> batch_key(k, transitions.take(i + 1), entries.push(entry)),
        forall|j: int| 0 <= j < i + 1 ==> after[#[trigger] control_value_key(transitions[j].key@)] == opt_bytes_view(transitions[j].replacement),
        forall|j: int| 0 <= j < i + 1 ==> after[journal_entry_key(#[trigger] entries.push(entry)[j].sequence)] == Some(entry_record_bytes(entries.push(entry)[j])),
        forall|j: int| 0 <= j < i + 1 ==> after.contains_key(#[trigger] control_value_key(transitions[j].key@)),
        forall|j: int| 0 <= j < i + 1 ==> after.contains_key(journal_entry_key(#[trigger] entries.push(entry)[j].sequence)),
        forall|j: int| 0 <= j < i + 1 ==> (#[trigger] entries.push(entry)[j]).sequence == base + 1 + j,
{
    let vk = control_value_key(transitions[i].key@);
    let ek = journal_entry_key(entry.sequence);
    let es = entries.push(entry);
    lemma_fresh_batch_keys(transitions, entries, i, base, before);
    lemma_commit_keys_distinct(transitions[i].key@, entry.sequence);
    assert(after.dom() =~= before.dom().insert(vk).insert(ek));
    assert(es.drop_last() =~= entries);
    assert forall|k: Seq<u8>| #[trigger] after.contains_key(k) <==> batch_key(k, transitions.take(i + 1), es) by {
        lemma_batch_key_step(k, transitions, es, i);
    }
    assert forall|j: int| 0 <= j < i + 1 implies after[#[trigger] control_value_key(transitions[j].key@)] == opt_bytes_view(transitions[j].replacement)
        && after.contains_key(control_value_key(transitions[j].key@)) by {
        if j < i {
            lemma_value_keys_distinct(transitions, j, i);
            lemma_commit_keys_distinct(transitions[j].key@, entry.sequence);
        }
    }
    assert forall|j: int| 0 <= j < i + 1 implies after[journal_entry_key(#[trigger] es[j].sequence)] == Some(entry_record_bytes(es[j]))
        && after.contains_key(journal_entry_key(es[j].sequence)) by {
        if j < i {
            assert(es[j] == entries[j]);
            lemma_entry_keys_distinct(entries[j].sequence, entry.sequence);
            lemma_commit_keys_distinct(transitions[i].key@, entries[j].sequence);
        }
    }
    assert forall|j: int| 0 <= j < i + 1 implies (#[trigger] es[j]).sequence == base + 1 + j by {
        if j < i {
            assert(es[j] == entries[j]);
        }
    }
}

/// A store whose journal watermark, digest and tail entry hold a verified
/// entry has that entry as its journal tail.
proof fn lemma_tail_after_append(store: RrflowMxStore, e: ControlJournalEntry)
    requires
        e.sequence > 0,
        entry_verifies(e),
        newest(store, journal_entry_key(e.sequence)) == Some(entry_record_bytes(e)),
        newest(store, journal_sequence_key()) == Some(decimal(e.sequence as nat)),
        newest(store, journal_digest_key()) == Some(utf8(e.digest@)),
    ensures
        journal_tail(store) == Some((e.sequence, Some(e.digest@))),
{
    crate::repository::common::lemma_parse_decimal(e.sequence);
    assert(valid_utf8(utf8(e.digest@)));
    assert(decode_utf8(utf8(e.digest@)) == e.digest@);
    assert(control_tail_consistent(e.sequence, Some(e.digest@), Some(e)));
    assert(tail_intact(store, e.sequence, Some(e.digest@)));
}

/// `e` is stored, in its stored form, under some journal-entry key.
pub open spec fn stored_entry(store: RrflowMxStore, e: ControlJournalEntry) -> bool {
    exists|s: u64| newest(store, #[trigger] journal_entry_key(s)) == Some(entry_record_bytes(e))
}

/// The digest of journal entry `after` as stored, which a page after it
/// chains to; none for the start of the journal or an entry not stored.
pub open spec fn anchor_digest(store: RrflowMxStore, after: u64) -> Option<Seq<char>> {
    if after == 0 {
        None
    } else {
        match newest(store, journal_entry_key(after)) {
            None => None,
            Some(bytes) => Some((choose|e: ControlJournalEntry| entry_record_bytes(e) == bytes).digest@),
        }
    }
}

/// Reads and checks the journal's watermark, last digest and tail entry
/// through a transaction that has written nothing yet.
fn read_tail(transaction: &RrflowMxTransaction, store: &RrflowMxStore) -> (r: Result<(u64, Option<String>)>)
    requires
        transaction.wf(),
        store.wf(),
        transaction.snapshot() == store.sequence(),
        transaction.writes() == Map::<Seq<u8>, Option<Seq<u8>>>::empty(),
    ensures
        r is Ok <==> journal_tail(*store) is Some,
        r matches Ok((n, d)) ==> journal_tail(*store) == Some((n, opt_string_view(d))),
{
    let sequence_key = keyspaces::control_journal_sequence_key();
    let digest_key = keyspaces::control_journal_last_digest_key();
    proof {
        lemma_is_space_key(Space::System, seq![KeyPartValue::U8(SystemEntry::ControlJournalSequence.spec_tag())]);
        lemma_is_space_key(Space::System, seq![KeyPartValue::U8(SystemEntry::ControlJournalLastDigest.spec_tag())]);
    }
    let sequence = read_sequence(transaction, store, sequence_key.as_slice())?;
    let stored = get(transaction, store, META, digest_key.as_slice())?;
    let previous_digest: Option<String> = match stored {
        None => None,
        Some(bytes) => match crate::key_codec::utf8_text(bytes) {
            Some(digest) => Some(digest),
            None => {
                return Err(Error::CorruptWatermark(crate::error::text("control journal digest is not UTF-8")));
            },
        },
    };
    let ghost d = opt_string_view(previous_digest);
    assert(stored_digest(newest(*store, journal_digest_key())) == Some(d));
    let previous_entry: Option<ControlJournalEntry> = if sequence == 0 {
        None
    } else {
        let entry_key = keyspaces::control_journal_key(sequence);
        proof {
            lemma_is_space_key(Space::System, seq![KeyPartValue::U8(SystemEntry::ControlJournalEntry.spec_tag()), KeyPartValue::U64(sequence)]);
        }
        match get(transaction, store, META, entry_key.as_slice())? {
            None => None,
            Some(bytes) => Some(ControlJournalEntry::decode(bytes.as_slice())?),
        }
    };
    let checked = verify_control_tail(sequence, opt_str(&previous_digest), previous_entry.as_ref());
    proof {
        if sequence != 0 {
            match newest(*store, journal_entry_key(sequence)) {
                None => {},
                Some(bytes) => {
                    let e = previous_entry.unwrap();
                    assert(entry_record_bytes(e) == bytes);
                    if checked is Ok {
                        assert(control_tail_consistent(sequence, d, Some(e)));
                    } else {
                        assert forall|e2: ControlJournalEntry| #[trigger] entry_record_bytes(e2) == bytes
                            implies !control_tail_consistent(sequence, d, Some(e2)) by {
                            crate::control::lemma_entry_record_injective(e, e2);
                            crate::control::lemma_entry_round_trip(e, e2);
                            assert(entry_parts(e)[13] == entry_parts(e2)[13]);
                            assert(e.digest@ == e2.digest@);
                        }
                    }
                },
            }
        }
    }
    match checked {
        Ok(()) => Ok((sequence, previous_digest)),
        Err(e) => Err(e),
    }
}

/// Copies optional bytes.
fn copy_opt(o: &Option<Vec<u8>>) -> (r: Option<Vec<u8>>)
    ensures
        opt_bytes_view(r) == opt_bytes_view(*o),
{
    match o {
        Some(v) => {
            let mut out: Vec<u8> = Vec::new();
            crate::bytes::push_all(&mut out, v.as_slice());
            assert(out@ =~= v@);
            Some(out)
        },
        None => None,
    }
}

/// Two optional byte strings are equal.
fn opt_bytes_equal(a: &Option<Vec<u8>>, b: &Option<Vec<u8>>) -> (eq: bool)
    ensures
        eq == (opt_bytes_view(*a) == opt_bytes_view(*b)),
{
    match (a, b) {
        (Some(x), Some(y)) => crate::bytes::bytes_eq(x.as_slice(), y.as_slice()),
        (None, None) => true,
        _ => false,
    }
}

/// Stages the journal watermark and last digest after a batch's entries and
/// commits the batch's transaction.
#[verifier::spinoff_prover]
fn finish_batch(
    transaction: RrflowMxTransaction,
    store: &mut RrflowMxStore,
    transitions: &[ControlTransition],
    entries: &Vec<ControlJournalEntry>,
    current_sequence: u64,
) -> (r: Result<()>)
    requires
        old(store).wf(),
        transaction.wf(),
        transaction.snapshot() == old(store).sequence(),
        1 <= entries@.len(),
        entries@.len() == transitions@.len(),
        current_sequence + entries@.len() <= u64::MAX,
        forall|j: int| 0 <= j < entries@.len() ==> (#[trigger] entries@[j]).sequence == current_sequence + 1 + j,
        forall|j: int| 0 <= j < entries@.len() ==> entry_verifies(#[trigger] entries@[j]),
        transaction.writes().dom().finite(),
        transaction.writes().dom().len() == 2 * entries@.len(),
        forall|k: Seq<u8>| #[trigger] transaction.writes().contains_key(k) <==> batch_key(k, transitions@, entries@),
        forall|j: int| 0 <= j < entries@.len() ==> transaction.writes()[#[trigger] control_value_key(transitions@[j].key@)]
            == opt_bytes_view(transitions@[j].replacement),
        forall|j: int| 0 <= j < entries@.len() ==> transaction.writes()[journal_entry_key(#[trigger] entries@[j].sequence)]
            == Some(entry_record_bytes(entries@[j])),
        forall|j: int| 0 <= j < entries@.len() ==> transaction.writes().contains_key(#[trigger] control_value_key(transitions@[j].key@)),
        forall|j: int| 0 <= j < entries@.len() ==> transaction.writes().contains_key(journal_entry_key(#[trigger] entries@[j].sequence)),
    ensures
        final(store).wf(),
        r is Ok <==> old(store).sequence() + 2 * entries@.len() + 2 <= u64::MAX,
        r is Err ==> *final(store) == *old(store),
        r is Ok ==> {
            &&& final(store).sequence() == old(store).sequence() + 2 * entries@.len() + 2
            &&& forall|i: int| 0 <= i < entries@.len() ==> newest(*final(store), #[trigger] control_value_key(transitions@[i].key@))
                == opt_bytes_view(transitions@[i].replacement)
            &&& forall|i: int| 0 <= i < entries@.len() ==> newest(*final(store), journal_entry_key(#[trigger] entries@[i].sequence))
                == Some(entry_record_bytes(entries@[i]))
            &&& newest(*final(store), journal_sequence_key()) == Some(decimal(entries@.last().sequence as nat))
            &&& newest(*final(store), journal_digest_key()) == Some(utf8(entries@.last().digest@))
            &&& journal_tail(*final(store)) == Some((entries@.last().sequence, Some(entries@.last().digest@)))
            &&& forall|k: Seq<u8>| !batch_key(k, transitions@, entries@) && k != journal_sequence_key() && k != journal_digest_key()
                ==> #[trigger] newest(*final(store), k) == newest(*old(store), k)
            &&& forall|k: Seq<u8>, s: int| s <= old(store).sequence() ==> #[trigger] final(store).read_at(k, s) == old(store).read_at(k, s)
        },
{
    let mut transaction = transaction;
    let count = entries.len();
    let last_sequence = current_sequence + (count as u64);
    let last = &entries[count - 1];
    let sequence_key = keyspaces::control_journal_sequence_key();
    proof {
        lemma_is_space_key(Space::System, seq![KeyPartValue::U8(SystemEntry::ControlJournalSequence.spec_tag())]);
    }
    let ghost before = transaction.writes();
    proof {
        lemma_tail_keys_distinct();
    }
    put_sequence(&mut transaction, sequence_key.as_slice(), last_sequence)?;
    let digest_key = keyspaces::control_journal_last_digest_key();
    proof {
        lemma_is_space_key(Space::System, seq![KeyPartValue::U8(SystemEntry::ControlJournalLastDigest.spec_tag())]);
    }
    let digest_key = checked_key(META, digest_key.as_slice())?;
    let mut digest_bytes: Vec<u8> = Vec::new();
    crate::bytes::push_all(&mut digest_bytes, last.digest.as_str().as_bytes());
    transaction.put(digest_key, digest_bytes);
    proof {
        lemma_commit_keys_distinct(Seq::<char>::empty(), 0);
        assert(transaction.writes().dom() =~= before.dom().insert(journal_sequence_key()).insert(journal_digest_key()));
        crate::engine::lemma_write_count(transaction);
        crate::engine::lemma_fresh_snapshot_no_conflict(*old(store), transaction);
    }
    transaction.commit(store, Durability::Authoritative)?;
    proof {
        assert(entries@.last() == entries@[count - 1]);
        lemma_tail_after_append(*store, entries@.last());
        assert(newest(*final(store), journal_sequence_key()) == Some(decimal(entries@.last().sequence as nat)));
        assert(newest(*final(store), journal_digest_key()) == Some(utf8(entries@.last().digest@)));
        assert(forall|i: int| 0 <= i < entries@.len() ==> newest(*final(store), #[trigger] control_value_key(transitions@[i].key@))
                == opt_bytes_view(transitions@[i].replacement));
        assert(forall|i: int| 0 <= i < entries@.len() ==> newest(*final(store), journal_entry_key(#[trigger] entries@[i].sequence))
                == Some(entry_record_bytes(entries@[i])));
        assert(forall|k: Seq<u8>| !batch_key(k, transitions@, entries@) && k != journal_sequence_key() && k != journal_digest_key()
                ==> #[trigger] newest(*final(store), k) == newest(*old(store), k));
    }
    Ok(())
}

/// The control repository.
pub struct ControlRepository;

/// What `ControlRepository::get` returns for control key `key` on `store`:
/// the key's newest state, for a well-formed key.
pub open spec fn control_get_result(store: RrflowMxStore, key: Seq<char>, r: Result<Option<Vec<u8>>>) -> bool {
    &&& (r is Ok <==> is_control_key(utf8(key)))
    &&& (r matches Ok(v) ==> bytes_opt(v) == newest(store, control_value_key(key)))
    &&& (r matches Err(e) ==> e is Substrate)
}

/// What `ControlRepository::sequence` returns on `store`: the journal's
/// stored watermark, or a corrupt-watermark error.
pub open spec fn control_sequence_result(store: RrflowMxStore, r: Result<u64>) -> bool {
    match stored_watermark(newest(store, journal_sequence_key())) {
        Some(n) => r == Ok::<u64, Error>(n),
        None => r matches Err(Error::CorruptWatermark(_)),
    }
}

impl ControlRepository {
    /// The repository.
    pub fn new() -> (r: Self) {
        ControlRepository
    }

    /// The materialized state of control key `key`, as of the newest commit.
    pub fn get(&self, store: &RrflowMxStore, key: &str) -> (r: Result<Option<Vec<u8>>>)
        requires
            store.wf(),
        ensures
            control_get_result(*store, key@, r),
    {
        validate_control_key(key)?;
        let transaction = store.begin_transaction();
        let record_key = keyspaces::control_record_key(key);
        proof {
            lemma_is_space_key(Space::System, seq![KeyPartValue::U8(SystemEntry::ControlValue.spec_tag()), KeyPartValue::Text(key@)]);
        }
        get(&transaction, store, META, record_key.as_slice())
    }

    /// The sequence of the journal's last entry; 0 for an empty journal.
    pub fn sequence(&self, store: &RrflowMxStore) -> (r: Result<u64>)
        requires
            store.wf(),
        ensures
            control_sequence_result(*store, r),
    {
        let transaction = store.begin_transaction();
        let key = keyspaces::control_journal_sequence_key();
        proof {
            lemma_is_space_key(Space::System, seq![KeyPartValue::U8(SystemEntry::ControlJournalSequence.spec_tag())]);
        }
        read_sequence(&transaction, store, key.as_slice())
    }

    /// Applies `transition` when the key's state is still the one it
    /// expects, and appends its entry to the journal, in one authoritative
    /// transaction.
    ///
    /// An invalid transition is refused; so is one whose expected state is
    /// not the key's state, with a control conflict naming the key; so is a
    /// journal whose watermark, last digest or tail entry is corrupt or
    /// inconsistent, and a journal or store whose sequence would overflow.
    /// A refused commit leaves the store unchanged.
    pub fn commit(&self, store: &mut RrflowMxStore, transition: &ControlTransition) -> (r: Result<ControlJournalEntry>)
        requires
            old(store).wf(),
        ensures
            final(store).wf(),
            !is_valid_transition(*transition) ==> r matches Err(Error::Substrate(_)),
            is_valid_transition(*transition) && newest(*old(store), control_value_key(transition.key@)) != opt_bytes_view(transition.expected)
                ==> (r matches Err(Error::ControlConflict(k)) && k@ == transition.key@),
            is_valid_transition(*transition) && newest(*old(store), control_value_key(transition.key@)) == opt_bytes_view(transition.expected)
                ==> (r is Ok <==> (journal_tail(*old(store)) matches Some((n, _)) && n < u64::MAX && old(store).sequence() + 4 <= u64::MAX)),
            r is Err ==> *final(store) == *old(store),
            r matches Ok(e) ==> (journal_tail(*old(store)) matches Some((n, d)) && commits(e, *transition, (n + 1) as u64, d)),
            r matches Ok(e) ==> {
                &&& final(store).sequence() == old(store).sequence() + 4
                &&& newest(*final(store), control_value_key(transition.key@)) == opt_bytes_view(transition.replacement)
                &&& newest(*final(store), journal_entry_key(e.sequence)) == Some(entry_record_bytes(e))
                &&& newest(*final(store), journal_sequence_key()) == Some(decimal(e.sequence as nat))
                &&& newest(*final(store), journal_digest_key()) == Some(utf8(e.digest@))
                &&& journal_tail(*final(store)) == Some((e.sequence, Some(e.digest@)))
                &&& forall|k: Seq<u8>| k != control_value_key(transition.key@) && k != journal_entry_key(e.sequence)
                    && k != journal_sequence_key() && k != journal_digest_key()
                    ==> #[trigger] newest(*final(store), k) == newest(*old(store), k)
                &&& forall|k: Seq<u8>, s: int| s <= old(store).sequence() ==> #[trigger] final(store).read_at(k, s) == old(store).read_at(k, s)
            },
    {
        transition.validate()?;
        let mut transaction = store.begin_transaction();
        let record_key = keyspaces::control_record_key(transition.key.as_str());
        proof {
            lemma_is_space_key(Space::System, seq![KeyPartValue::U8(SystemEntry::ControlValue.spec_tag()), KeyPartValue::Text(transition.key@)]);
        }
        let current = get(&transaction, store, META, record_key.as_slice())?;
        if !opt_bytes_equal(&current, &transition.expected) {
            return Err(Error::ControlConflict(transition.key.clone()));
        }
        let (current_sequence, previous_digest) = read_tail(&transaction, store)?;
        if current_sequence == u64::MAX {
            return Err(Error::SequenceOverflow);
        }
        let sequence = current_sequence + 1;
        let ghost previous = opt_string_view(previous_digest);
        let entry = ControlJournalEntry::committed(sequence, transition, previous_digest);
        let record = checked_key(META, record_key.as_slice())?;
        match &transition.replacement {
            Some(value) => {
                let mut bytes: Vec<u8> = Vec::new();
                crate::bytes::push_all(&mut bytes, value.as_slice());
                assert(bytes@ =~= value@);
                transaction.put(record, bytes);
            },
            None => transaction.delete(record),
        }
        let entry_key = keyspaces::control_journal_key(sequence);
        proof {
            lemma_is_space_key(Space::System, seq![KeyPartValue::U8(SystemEntry::ControlJournalEntry.spec_tag()), KeyPartValue::U64(sequence)]);
        }
        let entry_key = checked_key(META, entry_key.as_slice())?;
        transaction.put(entry_key, entry.encode());
        let sequence_key = keyspaces::control_journal_sequence_key();
        proof {
            lemma_is_space_key(Space::System, seq![KeyPartValue::U8(SystemEntry::ControlJournalSequence.spec_tag())]);
        }
        put_sequence(&mut transaction, sequence_key.as_slice(), sequence)?;
        let digest_key = keyspaces::control_journal_last_digest_key();
        proof {
            lemma_is_space_key(Space::System, seq![KeyPartValue::U8(SystemEntry::ControlJournalLastDigest.spec_tag())]);
        }
        let digest_key = checked_key(META, digest_key.as_slice())?;
        let mut digest_bytes: Vec<u8> = Vec::new();
        crate::bytes::push_all(&mut digest_bytes, entry.digest.as_str().as_bytes());
        transaction.put(digest_key, digest_bytes);
        proof {
            lemma_commit_keys_distinct(transition.key@, sequence);
            let w = transaction.writes();
            let k1 = control_value_key(transition.key@);
            let k2 = journal_entry_key(sequence);
            let k3 = journal_sequence_key();
            let k4 = journal_digest_key();
            assert(w.dom() =~= set![k1, k2, k3, k4]);
            assert(set![k1, k2, k3, k4].len() == 4) by {
                assert(!set![k1, k2, k3].contains(k4));
                assert(!set![k1, k2].contains(k3));
                assert(!set![k1].contains(k2));
            }
            crate::engine::lemma_write_count(transaction);
            crate::engine::lemma_fresh_snapshot_no_conflict(*old(store), transaction);
        }
        transaction.commit(store, Durability::Authoritative)?;
        proof {
            lemma_tail_after_append(*store, entry);
        }
        Ok(entry)
    }

    /// Applies a batch of transitions on distinct keys and appends their
    /// entries to the journal, chained in order, in one authoritative
    /// transaction; entry `i` commits transition `i`.
    ///
    /// An invalid batch is refused; so is a batch one of whose transitions
    /// expects a state its key does not hold, with a control conflict naming
    /// the first such key; so are a corrupt journal and an overflowing
    /// sequence. A refused batch leaves the store unchanged.
    #[verifier::spinoff_prover]
    #[verifier::rlimit(40)]
    pub fn commit_batch(&self, store: &mut RrflowMxStore, transitions: &[ControlTransition]) -> (r: Result<Vec<ControlJournalEntry>>)
        requires
            old(store).wf(),
        ensures
            final(store).wf(),
            !is_valid_control_batch(transitions@) ==> r matches Err(Error::Substrate(_)),
            is_valid_control_batch(transitions@) && (exists|i: int| 0 <= i < transitions@.len() && #[trigger] mismatched(*old(store), transitions@[i]))
                ==> (r matches Err(Error::ControlConflict(k)) && exists|i: int| 0 <= i < transitions@.len() && #[trigger] mismatched(*old(store), transitions@[i])
                    && k@ == transitions@[i].key@ && forall|j: int| 0 <= j < i ==> !#[trigger] mismatched(*old(store), transitions@[j])),
            is_valid_control_batch(transitions@) && (forall|i: int| 0 <= i < transitions@.len() ==> !#[trigger] mismatched(*old(store), transitions@[i]))
                ==> (r is Ok <==> (journal_tail(*old(store)) matches Some((n, _)) && n + transitions@.len() <= u64::MAX
                    && old(store).sequence() + 2 * transitions@.len() + 2 <= u64::MAX)),
            r is Err ==> *final(store) == *old(store),
            r matches Ok(entries) ==> (journal_tail(*old(store)) matches Some((n, d)) && entries@.len() == transitions@.len()
                && forall|i: int| 0 <= i < entries@.len() ==> #[trigger] commits(entries@[i], transitions@[i], (n + 1 + i) as u64,
                    chained_previous(d, entries@, i))),
            r matches Ok(entries) ==> (journal_tail(*old(store)) matches Some((n, d)) && control_page_intact(n, d, entries@)),
            r matches Ok(entries) ==> {
                &&& final(store).sequence() == old(store).sequence() + 2 * entries@.len() + 2
                &&& forall|i: int| 0 <= i < entries@.len() ==> newest(*final(store), #[trigger] control_value_key(transitions@[i].key@))
                    == opt_bytes_view(transitions@[i].replacement)
                &&& forall|i: int| 0 <= i < entries@.len() ==> newest(*final(store), journal_entry_key(#[trigger] entries@[i].sequence))
                    == Some(entry_record_bytes(entries@[i]))
                &&& newest(*final(store), journal_sequence_key()) == Some(decimal(entries@.last().sequence as nat))
                &&& newest(*final(store), journal_digest_key()) == Some(utf8(entries@.last().digest@))
                &&& journal_tail(*final(store)) == Some((entries@.last().sequence, Some(entries@.last().digest@)))
                &&& forall|k: Seq<u8>| !batch_key(k, transitions@, entries@) && k != journal_sequence_key() && k != journal_digest_key()
                    ==> #[trigger] newest(*final(store), k) == newest(*old(store), k)
                &&& forall|k: Seq<u8>, s: int| s <= old(store).sequence() ==> #[trigger] final(store).read_at(k, s) == old(store).read_at(k, s)
            },
    {
        validate_control_batch(transitions)?;
        let mut transaction = store.begin_transaction();
        let mut i: usize = 0;
        while i < transitions.len()
            invariant
                i <= transitions@.len(),
                store.wf(),
                transaction.wf(),
                transaction.snapshot() == store.sequence(),
                transaction.writes() == Map::<Seq<u8>, Option<Seq<u8>>>::empty(),
                *store == *old(store),
                is_valid_control_batch(transitions@),
                forall|j: int| 0 <= j < i ==> !#[trigger] mismatched(*store, transitions@[j]),
            decreases transitions@.len() - i,
        {
            let transition = &transitions[i];
            let record_key = keyspaces::control_record_key(transition.key.as_str());
            proof {
                lemma_is_space_key(Space::System, seq![KeyPartValue::U8(SystemEntry::ControlValue.spec_tag()), KeyPartValue::Text(transition.key@)]);
            }
            let current = get(&transaction, store, META, record_key.as_slice())?;
            if !opt_bytes_equal(&current, &transition.expected) {
                assert(mismatched(*store, transitions@[i as int]));
                return Err(Error::ControlConflict(transition.key.clone()));
            }
            i = i + 1;
        }
        let (current_sequence, previous_digest) = read_tail(&transaction, store)?;
        let count = transitions.len();
        if current_sequence > u64::MAX - (count as u64) {
            return Err(Error::SequenceOverflow);
        }
        let ghost d = opt_string_view(previous_digest);
        let mut previous = previous_digest;
        let mut entries: Vec<ControlJournalEntry> = Vec::new();
        let mut i: usize = 0;
        while i < count
            invariant
                count == transitions@.len(),
                1 <= count <= 64,
                transitions@.len() == count,
                is_valid_control_batch(transitions@),
                current_sequence + count <= u64::MAX,
                i <= count,
                entries@.len() == i,
                transaction.wf(),
                transaction.snapshot() == old(store).sequence(),
                store.wf(),
                *store == *old(store),
                forall|j: int| 0 <= j < i ==> #[trigger] commits(entries@[j], transitions@[j], (current_sequence + 1 + j) as u64,
                    chained_previous(d, entries@, j)),
                opt_string_view(previous) == chained_previous(d, entries@, i as int),
                forall|j: int| 0 <= j < i ==> (#[trigger] entries@[j]).sequence == current_sequence + 1 + j,
                transaction.writes().dom().finite(),
                transaction.writes().dom().len() == 2 * i,
                forall|k: Seq<u8>| #[trigger] transaction.writes().contains_key(k) <==> batch_key(k, transitions@.take(i as int), entries@),
                forall|j: int| 0 <= j < i ==> transaction.writes()[#[trigger] control_value_key(transitions@[j].key@)]
                    == opt_bytes_view(transitions@[j].replacement),
                forall|j: int| 0 <= j < i ==> transaction.writes()[journal_entry_key(#[trigger] entries@[j].sequence)]
                    == Some(entry_record_bytes(entries@[j])),
                forall|j: int| 0 <= j < i ==> transaction.writes().contains_key(#[trigger] control_value_key(transitions@[j].key@)),
                forall|j: int| 0 <= j < i ==> transaction.writes().contains_key(journal_entry_key(#[trigger] entries@[j].sequence)),
            decreases count - i,
        {
            let transition = &transitions[i];
            let sequence = current_sequence + 1 + (i as u64);
            let entry = ControlJournalEntry::committed(sequence, transition, previous);
            let record_key = keyspaces::control_record_key(transition.key.as_str());
            proof {
                lemma_is_space_key(Space::System, seq![KeyPartValue::U8(SystemEntry::ControlValue.spec_tag()), KeyPartValue::Text(transition.key@)]);
            }
            let record = checked_key(META, record_key.as_slice())?;
            let entry_key = keyspaces::control_journal_key(sequence);
            proof {
                lemma_is_space_key(Space::System, seq![KeyPartValue::U8(SystemEntry::ControlJournalEntry.spec_tag()), KeyPartValue::U64(sequence)]);
            }
            let entry_key = checked_key(META, entry_key.as_slice())?;
            let ghost before = transaction.writes();
            match &transition.replacement {
                Some(value) => {
                    let mut bytes: Vec<u8> = Vec::new();
                    crate::bytes::push_all(&mut bytes, value.as_slice());
                    assert(bytes@ =~= value@);
                    transaction.put(record, bytes);
                },
                None => transaction.delete(record),
            }
            transaction.put(entry_key, entry.encode());
            let ghost old_entries = entries@;
            proof {
                lemma_batch_step(transitions@, old_entries, entry, i as int, current_sequence, before, transaction.writes());
            }
            previous = Some(entry.digest.clone());
            entries.push(entry);
            proof {
                assert(entries@ == old_entries.push(entry));
                assert forall|j: int| 0 <= j < i + 1 implies #[trigger] commits(entries@[j], transitions@[j], (current_sequence + 1 + j) as u64,
                    chained_previous(d, entries@, j)) by {
                    assert(chained_previous(d, entries@, j) == chained_previous(d, old_entries, j));
                    if j < i {
                        assert(entries@[j] == old_entries[j]);
                    }
                }
            }
            i = i + 1;
        }
        proof {
            assert(transitions@.take(count as int) =~= transitions@);
            assert forall|j: int| 0 <= j < count implies entry_verifies(#[trigger] entries@[j]) by {
                assert(commits(entries@[j], transitions@[j], (current_sequence + 1 + j) as u64, chained_previous(d, entries@, j)));
            }
        }
        finish_batch(transaction, store, transitions, &entries, current_sequence)?;
        proof {
            assert forall|i: int| 0 <= i < entries@.len() implies #[trigger] entry_fits(current_sequence, d, entries@, i) by {
                assert(commits(entries@[i], transitions@[i], (current_sequence + 1 + i) as u64, chained_previous(d, entries@, i)));
            }
        }
        Ok(entries)
    }

    /// At most `limit` journal entries after entry `after`, in order, once
    /// they verify as one page chained to entry `after` (whose stored entry,
    /// where there is one, must verify and carry that sequence).
    pub fn journal_since(&self, store: &RrflowMxStore, after: u64, limit: usize) -> (r: Result<Vec<ControlJournalEntry>>)
        requires
            store.wf(),
        ensures
            limit == 0 ==> r matches Err(Error::Substrate(_)),
            r matches Ok(entries) ==> {
                &&& entries@.len() <= limit
                &&& control_page_intact(after, anchor_digest(*store, after), entries@)
                &&& forall|i: int| 0 <= i < entries@.len() ==> stored_entry(*store, #[trigger] entries@[i])
            },
    {
        if limit == 0 {
            return Err(Error::Substrate(crate::error::text("control journal limit must be non-zero")));
        }
        let transaction = store.begin_transaction();
        let anchor: Option<String> = if after == 0 {
            None
        } else {
            let key = keyspaces::control_journal_key(after);
            proof {
                lemma_is_space_key(Space::System, seq![KeyPartValue::U8(SystemEntry::ControlJournalEntry.spec_tag()), KeyPartValue::U64(after)]);
            }
            match get(&transaction, store, META, key.as_slice())? {
                None => None,
                Some(bytes) => {
                    let e = ControlJournalEntry::decode(bytes.as_slice())?;
                    if !e.verify() || e.sequence != after {
                        return Err(Error::Substrate(crate::error::text("control journal anchor is corrupt")));
                    }
                    proof {
                        let chosen = choose|x: ControlJournalEntry| entry_record_bytes(x) == bytes@;
                        crate::control::lemma_entry_record_injective(e, chosen);
                        assert(entry_parts(e)[13] == entry_parts(chosen)[13]);
                    }
                    Some(e.digest)
                },
            }
        };
        assert(opt_string_view(anchor) == anchor_digest(*store, after));
        let first = if after == u64::MAX { after } else { after + 1 };
        let from = keyspaces::control_journal_key(first);
        proof {
            lemma_is_space_key(Space::System, seq![KeyPartValue::U8(SystemEntry::ControlJournalEntry.spec_tag()), KeyPartValue::U64(first)]);
        }
        let rows = scan_space_from(&transaction, store, META, from.as_slice())?;
        proof {
            crate::repository::common::lemma_space_key_has_end(Space::System, Seq::<KeyPartValue>::empty());
            let end = crate::key_codec::spec_prefix_end(spec_space_key(Space::System, Seq::<KeyPartValue>::empty())).unwrap();
            assert(transaction.is_scan_of(store, crate::engine::pairs_view(rows), from@, end, usize::MAX as int));
            assert forall|j: int| 0 <= j < rows@.len() implies transaction.reads(store, #[trigger] rows@[j].0@) == Some(rows@[j].1@) by {
                assert(crate::engine::pairs_view(rows)[j] == (rows@[j].0@, rows@[j].1@));
                assert(crate::engine::in_range(crate::engine::pairs_view(rows)[j].0, from@, end));
            }
        }
        let mut entries: Vec<ControlJournalEntry> = Vec::new();
        let mut i: usize = 0;
        while i < rows.len() && entries.len() < limit
            invariant
                i <= rows@.len(),
                entries@.len() <= i,
                entries@.len() <= limit,
                transaction.wf(),
                store.wf(),
                transaction.snapshot() == store.sequence(),
                transaction.writes() == Map::<Seq<u8>, Option<Seq<u8>>>::empty(),
                forall|j: int| 0 <= j < rows@.len() ==> transaction.reads(store, #[trigger] rows@[j].0@) == Some(rows@[j].1@),
                forall|j: int| 0 <= j < entries@.len() ==> stored_entry(*store, #[trigger] entries@[j]),
            decreases rows@.len() - i,
        {
            let row = &rows[i];
            if !keyspaces::is_control_journal_key(KeyCodec, row.0.as_slice()) {
                break;
            }
            let e = ControlJournalEntry::decode(row.1.as_slice())?;
            proof {
                let s = choose|s: u64| row.0@ == spec_space_key(Space::System,
                    seq![KeyPartValue::U8(SystemEntry::ControlJournalEntry.spec_tag()), KeyPartValue::U64(s)]);
                assert(row.0@ == journal_entry_key(s));
                assert(newest(*store, journal_entry_key(s)) == Some(entry_record_bytes(e)));
                assert(stored_entry(*store, e));
            }
            let ghost before = entries@;
            entries.push(e);
            proof {
                assert forall|j: int| 0 <= j < entries@.len() implies stored_entry(*store, #[trigger] entries@[j]) by {
                    if j < before.len() {
                        assert(entries@[j] == before[j]);
                    }
                }
            }
            i = i + 1;
        }
        verify_control_page(after, anchor, entries.as_slice())?;
        Ok(entries)
    }
}


/// A committed transition is what the journal and the key then read: where
/// `commit(t)` returned `Ok(e)` on `before`, whose journal ended at entry
/// `n`, and left `after`, `sequence()` reads `n` on `before` and `n + 1`, the
/// entry's own sequence, on `after`, and `get(t.key)` on `after` reads the
/// transition's replacement.
pub proof fn lemma_control_commit_reads_back(
    before: RrflowMxStore,
    after: RrflowMxStore,
    t: ControlTransition,
    e: ControlJournalEntry,
    n: u64,
    d: Option<Seq<char>>,
    sequence_before: Result<u64>,
    sequence_after: Result<u64>,
    got: Result<Option<Vec<u8>>>,
)
    requires
        is_valid_transition(t),
        journal_tail(before) == Some((n, d)),
        n < u64::MAX,
        commits(e, t, (n + 1) as u64, d),
        journal_tail(after) == Some((e.sequence, Some(e.digest@))),
        newest(after, control_value_key(t.key@)) == opt_bytes_view(t.replacement),
        control_sequence_result(before, sequence_before),
        control_sequence_result(after, sequence_after),
        control_get_result(after, t.key@, got),
    ensures
        sequence_before == Ok::<u64, Error>(n),
        sequence_after == Ok::<u64, Error>((n + 1) as u64),
        e.sequence == n + 1,
        got matches Ok(v) && bytes_opt(v) == opt_bytes_view(t.replacement),
{
}

/// A committed batch is what the journal and its keys then read: where
/// `commit_batch(transitions)` returned `Ok(entries)` on `before`, whose
/// journal ended at entry `n`, and left `after`, `sequence()` reads `n` on
/// `before` and `n` plus the batch's length on `after`, and `get` of each
/// transition's key on `after` reads that transition's replacement.
pub proof fn lemma_control_batch_reads_back(
    before: RrflowMxStore,
    after: RrflowMxStore,
    transitions: Seq<ControlTransition>,
    entries: Seq<ControlJournalEntry>,
    n: u64,
    d: Option<Seq<char>>,
    sequence_before: Result<u64>,
    sequence_after: Result<u64>,
    gots: Seq<Result<Option<Vec<u8>>>>,
)
    requires
        is_valid_control_batch(transitions),
        journal_tail(before) == Some((n, d)),
        n + transitions.len() <= u64::MAX,
        entries.len() == transitions.len(),
        forall|i: int| 0 <= i < entries.len() ==> #[trigger] commits(entries[i], transitions[i], (n + 1 + i) as u64, chained_previous(d, entries, i)),
        journal_tail(after) == Some((entries.last().sequence, Some(entries.last().digest@))),
        forall|i: int| 0 <= i < entries.len() ==> newest(after, #[trigger] control_value_key(transitions[i].key@))
            == opt_bytes_view(transitions[i].replacement),
        control_sequence_result(before, sequence_before),
        control_sequence_result(after, sequence_after),
        gots.len() == transitions.len(),
        forall|i: int| 0 <= i < gots.len() ==> control_get_result(after, transitions[i].key@, #[trigger] gots[i]),
    ensures
        sequence_before == Ok::<u64, Error>(n),
        sequence_after == Ok::<u64, Error>((n + transitions.len()) as u64),
        forall|i: int| 0 <= i < gots.len() ==> (#[trigger] gots[i] matches Ok(v) && bytes_opt(v) == opt_bytes_view(transitions[i].replacement)),
{
    let last = entries.len() - 1;
    assert(commits(entries[last], transitions[last], (n + 1 + last) as u64, chained_previous(d, entries, last)));
    assert forall|i: int| 0 <= i < gots.len() implies (#[trigger] gots[i] matches Ok(v) && bytes_opt(v) == opt_bytes_view(transitions[i].replacement)) by {
        assert(is_valid_transition(transitions[i]));
        assert(newest(after, control_value_key(transitions[i].key@)) == opt_bytes_view(transitions[i].replacement));
    }
}

} // verus!
