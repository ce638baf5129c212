//! The claim watermark and access observations.

use crate::engine::{pairs_view, RrflowMxStore, RrflowMxTransaction};
use crate::error::{Error, Result};
use crate::engine::{is_idempotency_key, validate_idempotency};
use crate::error::text;
use crate::keyspaces::is_sha256_text;
use crate::outcome::{AppendOutcome, IdempotentAppendOutcome};
use crate::repository::catalogue::{lemma_record_bytes_injective, parts_view, record_bytes, record_parts};
use crate::repository::control::{newest, stored_watermark};
use crate::gc::{
    build_report, count_access, count_claim, evidence_of, find_pair, lemma_reported_all, paired_evidence, reports_all, tally_accesses, tally_claims,
    tally_evidence, RemovalReport, Tally,
};
use crate::key_codec::{lemma_encode_injective, spec_prefix_end, DecodedKeyPart, KeyAddress, KeyCodec, KeyFamily, KeyPart, KeyPartValue};
use crate::keyspaces::{self, spec_space_key, spec_space_key_value, Durability, Space, SystemEntry, ACCESS, CLAIMS, META, SEQUENCE_INDEX};
use crate::repository::common::{
    checked_key, decimal, lemma_is_space_key, lemma_space_key_has_end, parse_u64, put_sequence, read_sequence, scan_space, scan_space_from,
};
use vstd::prelude::*;
use vstd::string::StringSliceAdditionalSpecFns;

verus! {

/// The key of the claim-sequence watermark.
pub open spec fn claim_watermark_key() -> Seq<u8> {
    spec_space_key(Space::System, seq![KeyPartValue::U8(SystemEntry::ClaimSequence.spec_tag())])
}

/// The key of one access observation.
pub open spec fn access_key_of(at: u64, reader: Seq<char>, subject: Seq<char>, predicate: Seq<char>) -> Seq<u8> {
    spec_space_key(Space::Access, seq![KeyPartValue::U64(at), KeyPartValue::Text(reader), KeyPartValue::Text(subject), KeyPartValue::Text(predicate)])
}

/// The key of claim version `valid_from`/`tx_time` of `subject`/`predicate`.
pub open spec fn claim_key_of(subject: Seq<char>, predicate: Seq<char>, valid_from: u64, tx_time: u64) -> Seq<u8> {
    spec_space_key(Space::Claims, seq![KeyPartValue::Text(subject), KeyPartValue::Text(predicate), KeyPartValue::DescU64(valid_from), KeyPartValue::DescU64(tx_time)])
}

/// `k` is the key of some claim version.
pub open spec fn is_claim_key(k: Seq<u8>) -> bool {
    exists|x: (Seq<char>, Seq<char>, u64, u64)| #[trigger] claim_key_of(x.0, x.1, x.2, x.3) == k
}

/// The subject and predicate a claim key names.
pub open spec fn claim_pair(k: Seq<u8>) -> (Seq<char>, Seq<char>) {
    let x = choose|x: (Seq<char>, Seq<char>, u64, u64)| #[trigger] claim_key_of(x.0, x.1, x.2, x.3) == k;
    (x.0, x.1)
}

/// `k` is the key of some access observation.
pub open spec fn is_access_key(k: Seq<u8>) -> bool {
    exists|x: (u64, Seq<char>, Seq<char>, Seq<char>)| #[trigger] access_key_of(x.0, x.1, x.2, x.3) == k
}

/// The time, reader, subject and predicate an access key names.
pub open spec fn access_fields(k: Seq<u8>) -> (u64, Seq<char>, Seq<char>, Seq<char>) {
    choose|x: (u64, Seq<char>, Seq<char>, Seq<char>)| #[trigger] access_key_of(x.0, x.1, x.2, x.3) == k
}

/// A claim key names its own subject and predicate.
pub proof fn lemma_claim_pair(subject: Seq<char>, predicate: Seq<char>, valid_from: u64, tx_time: u64)
    ensures
        is_claim_key(claim_key_of(subject, predicate, valid_from, tx_time)),
        claim_pair(claim_key_of(subject, predicate, valid_from, tx_time)) == (subject, predicate),
{
    let k = claim_key_of(subject, predicate, valid_from, tx_time);
    let w = (subject, predicate, valid_from, tx_time);
    assert(claim_key_of(w.0, w.1, w.2, w.3) == k);
    let x = choose|x: (Seq<char>, Seq<char>, u64, u64)| #[trigger] claim_key_of(x.0, x.1, x.2, x.3) == k;
    let a = spec_space_key_value(Space::Claims, seq![KeyPartValue::Text(x.0), KeyPartValue::Text(x.1), KeyPartValue::DescU64(x.2), KeyPartValue::DescU64(x.3)]);
    let b = spec_space_key_value(Space::Claims, seq![KeyPartValue::Text(subject), KeyPartValue::Text(predicate), KeyPartValue::DescU64(valid_from), KeyPartValue::DescU64(tx_time)]);
    lemma_encode_injective(a, b);
    assert(a.parts[1] == b.parts[1]);
    assert(a.parts[2] == b.parts[2]);
}

/// An access key names its own time, reader, subject and predicate.
pub proof fn lemma_access_fields(at: u64, reader: Seq<char>, subject: Seq<char>, predicate: Seq<char>)
    ensures
        is_access_key(access_key_of(at, reader, subject, predicate)),
        access_fields(access_key_of(at, reader, subject, predicate)) == (at, reader, subject, predicate),
{
    let k = access_key_of(at, reader, subject, predicate);
    let w = (at, reader, subject, predicate);
    assert(access_key_of(w.0, w.1, w.2, w.3) == k);
    let x = access_fields(k);
    let a = spec_space_key_value(Space::Access, seq![KeyPartValue::U64(x.0), KeyPartValue::Text(x.1), KeyPartValue::Text(x.2), KeyPartValue::Text(x.3)]);
    let b = spec_space_key_value(Space::Access, seq![KeyPartValue::U64(at), KeyPartValue::Text(reader), KeyPartValue::Text(subject), KeyPartValue::Text(predicate)]);
    lemma_encode_injective(a, b);
    assert(a.parts[1] == b.parts[1]);
    assert(a.parts[2] == b.parts[2]);
    assert(a.parts[3] == b.parts[3]);
    assert(a.parts[4] == b.parts[4]);
}

/// `rows` are the stored claim versions as of the newest commit, in key order.
pub open spec fn claim_rows(store: RrflowMxStore, rows: Seq<(Seq<u8>, Seq<u8>)>) -> bool {
    store.scan_matches(
        store.sequence() as int,
        rows,
        spec_space_key(Space::Claims, Seq::<KeyPartValue>::empty()),
        spec_prefix_end(spec_space_key(Space::Claims, Seq::<KeyPartValue>::empty()))->Some_0,
        usize::MAX as int,
    )
}

/// `rows` are the access observations from `since` on as of the newest
/// commit, in key order.
pub open spec fn access_rows(store: RrflowMxStore, since: u64, rows: Seq<(Seq<u8>, Seq<u8>)>) -> bool {
    store.scan_matches(
        store.sequence() as int,
        rows,
        spec_space_key(Space::Access, seq![KeyPartValue::U64(since)]),
        spec_prefix_end(spec_space_key(Space::Access, Seq::<KeyPartValue>::empty()))->Some_0,
        usize::MAX as int,
    )
}

/// Every row is a claim version.
pub open spec fn all_claim_keys(rows: Seq<(Seq<u8>, Seq<u8>)>) -> bool {
    forall|i: int| 0 <= i < rows.len() ==> is_claim_key(#[trigger] rows[i].0)
}

/// The pair of each claim row.
pub open spec fn claim_pairs(rows: Seq<(Seq<u8>, Seq<u8>)>) -> Seq<(Seq<char>, Seq<char>)> {
    rows.map_values(|r: (Seq<u8>, Seq<u8>)| claim_pair(r.0))
}

/// The accesses of `rows` up to the first one after `evaluated_at`.
pub open spec fn accesses_within(rows: Seq<(Seq<u8>, Seq<u8>)>, evaluated_at: u64) -> Seq<(u64, Seq<char>, Seq<char>, Seq<char>)>
    decreases rows.len(),
{
    if rows.len() == 0 || !is_access_key(rows[0].0) || access_fields(rows[0].0).0 > evaluated_at {
        Seq::empty()
    } else {
        seq![access_fields(rows[0].0)] + accesses_within(rows.skip(1), evaluated_at)
    }
}

/// A row that is no access observation comes before the first access after
/// `evaluated_at`.
pub open spec fn malformed_access_within(rows: Seq<(Seq<u8>, Seq<u8>)>, evaluated_at: u64) -> bool
    decreases rows.len(),
{
    if rows.len() == 0 {
        false
    } else if !is_access_key(rows[0].0) {
        true
    } else if access_fields(rows[0].0).0 > evaluated_at {
        false
    } else {
        malformed_access_within(rows.skip(1), evaluated_at)
    }
}

/// `s` with every run of equal neighbours kept once.
pub open spec fn collapse_runs(s: Seq<Seq<char>>) -> Seq<Seq<char>>
    decreases s.len(),
{
    if s.len() == 0 {
        s
    } else {
        let rest = collapse_runs(s.drop_last());
        if rest.len() > 0 && rest.last() == s.last() {
            rest
        } else {
            rest.push(s.last())
        }
    }
}

/// The subject of each claim row, in key order.
pub open spec fn claim_subjects(rows: Seq<(Seq<u8>, Seq<u8>)>) -> Seq<Seq<char>> {
    rows.map_values(|r: (Seq<u8>, Seq<u8>)| claim_pair(r.0).0)
}

/// Where the tally of `subject`/`predicate` stands, if anywhere.
fn find_tally(tallies: &Vec<(String, String, Tally)>, subject: &String, predicate: &String) -> (r: Option<usize>)
    ensures
        match r {
            Some(j) => j < tallies.len() && find_pair(evidence_of(tallies@), subject@, predicate@) == Some(j as int),
            None => find_pair(evidence_of(tallies@), subject@, predicate@) is None,
        },
{
    let mut j = tallies.len();
    assert(evidence_of(tallies@).take(j as int) =~= evidence_of(tallies@));
    while j > 0
        invariant
            j <= tallies.len(),
            find_pair(evidence_of(tallies@), subject@, predicate@) == find_pair(evidence_of(tallies@).take(j as int), subject@, predicate@),
        decreases j,
    {
        let k = j - 1;
        proof {
            let e = evidence_of(tallies@).take(j as int);
            assert(e.drop_last() =~= evidence_of(tallies@).take(k as int));
            assert(e.last() == tally_evidence(tallies@[k as int].0, tallies@[k as int].1, tallies@[k as int].2));
        }
        if tallies[k].0 == *subject && tallies[k].1 == *predicate {
            return Some(k);
        }
        j = k;
    }
    None
}

/// A tally's own copy.
fn copy_tally(t: &Tally) -> (c: Tally)
    ensures
        c == *t,
{
    Tally {
        claim_count: t.claim_count,
        access_count: t.access_count,
        last_access: t.last_access,
        last_reader: match &t.last_reader {
            Some(r) => Some(r.clone()),
            None => None,
        },
    }
}

/// Replacing a tally replaces its evidence.
proof fn lemma_evidence_update(tallies: Seq<(String, String, Tally)>, j: int, x: (String, String, Tally))
    requires
        0 <= j < tallies.len(),
    ensures
        evidence_of(tallies.update(j, x)) == evidence_of(tallies).update(j, tally_evidence(x.0, x.1, x.2)),
{
    assert(evidence_of(tallies.update(j, x)) =~= evidence_of(tallies).update(j, tally_evidence(x.0, x.1, x.2)));
}

/// Appending a tally appends its evidence.
proof fn lemma_evidence_push(tallies: Seq<(String, String, Tally)>, x: (String, String, Tally))
    ensures
        evidence_of(tallies.push(x)) == evidence_of(tallies).push(tally_evidence(x.0, x.1, x.2)),
{
    assert(evidence_of(tallies.push(x)) =~= evidence_of(tallies).push(tally_evidence(x.0, x.1, x.2)));
}

/// A claim to append: the coordinates its key is made of, and its stored
/// form.
#[derive(Debug, Clone, PartialEq, Eq)]
pub struct ClaimRecord {
    pub subject: String,
    pub predicate: String,
    pub valid_from: u64,
    pub tx_time: u64,
    pub bytes: Vec<u8>,
}

/// The key a claim is stored under.
pub open spec fn claim_record_key(c: ClaimRecord) -> Seq<u8> {
    claim_key_of(c.subject@, c.predicate@, c.valid_from, c.tx_time)
}

/// The key of the sequence-index entry of claim sequence `sequence`.
pub open spec fn sequence_index_key(sequence: u64) -> Seq<u8> {
    spec_space_key(Space::SequenceIndex, seq![KeyPartValue::U64(sequence)])
}

/// The writes that stage the first `n` claims after watermark `start`: each
/// claim's stored form under its key, and its key under its sequence; a
/// later claim under the same key replaces an earlier one.
pub open spec fn append_writes(claims: Seq<ClaimRecord>, start: u64, n: nat) -> Map<Seq<u8>, Option<Seq<u8>>>
    decreases n,
{
    if n == 0 {
        Map::empty()
    } else {
        append_writes(claims, start, (n - 1) as nat).insert(claim_record_key(claims[n - 1]), Some(claims[n - 1].bytes@)).insert(
            sequence_index_key((start + n) as u64),
            Some(claim_record_key(claims[n - 1])),
        )
    }
}

/// The writes of a whole batch after watermark `start`: its claims, and the
/// watermark advanced past them.
pub open spec fn batch_writes(claims: Seq<ClaimRecord>, start: u64) -> Map<Seq<u8>, Option<Seq<u8>>> {
    append_writes(claims, start, claims.len()).insert(claim_watermark_key(), Some(decimal((start + claims.len()) as nat)))
}

/// `after` is `before` with `writes` committed as one transaction.
pub open spec fn committed(before: RrflowMxStore, after: RrflowMxStore, writes: Map<Seq<u8>, Option<Seq<u8>>>) -> bool {
    &&& after.sequence() == before.sequence() + writes.dom().len()
    &&& forall|k: Seq<u8>| #[trigger] newest(after, k) == if writes.contains_key(k) {
        writes[k]
    } else {
        newest(before, k)
    }
}

/// The outcome of appending `claims` to a store whose watermark is `start`:
/// nothing for an empty batch; refused where the claim sequence would
/// overflow or the store has no room for the batch's writes; and otherwise
/// the claims take sequences `start + 1` through `start + claims.len()`.
pub open spec fn appended(before: RrflowMxStore, after: RrflowMxStore, claims: Seq<ClaimRecord>, start: u64, r: Result<AppendOutcome>) -> bool {
    if claims.len() == 0 {
        r == Ok::<AppendOutcome, Error>(AppendOutcome { first_sequence: start, last_sequence: start, count: 0 }) && after == before
    } else if start + claims.len() > u64::MAX {
        r == Err::<AppendOutcome, Error>(Error::SequenceOverflow)
    } else {
        &&& (r is Ok <==> before.sequence() + batch_writes(claims, start).dom().len() <= u64::MAX)
        &&& (r is Err ==> r == Err::<AppendOutcome, Error>(Error::SequenceOverflow))
        &&& (r is Ok ==> r == Ok::<AppendOutcome, Error>(
            AppendOutcome { first_sequence: (start + 1) as u64, last_sequence: (start + claims.len()) as u64, count: claims.len() as usize },
        ) && committed(before, after, batch_writes(claims, start)))
    }
}

/// Stages `claims` after watermark `start` into an empty transaction, and
/// returns the last sequence they take.
fn stage_claims(transaction: &mut RrflowMxTransaction, claims: &[ClaimRecord], start: u64) -> (r: Result<u64>)
    requires
        old(transaction).wf(),
        old(transaction).writes() == Map::<Seq<u8>, Option<Seq<u8>>>::empty(),
    ensures
        final(transaction).wf(),
        final(transaction).snapshot() == old(transaction).snapshot(),
        start + claims@.len() <= u64::MAX ==> r == Ok::<u64, Error>((start + claims@.len()) as u64)
            && final(transaction).writes() == append_writes(claims@, start, claims@.len()),
        start + claims@.len() > u64::MAX ==> r == Err::<u64, Error>(Error::SequenceOverflow),
{
    let ghost snapshot = transaction.snapshot();
    let mut sequence = start;
    let mut i: usize = 0;
    while i < claims.len()
        invariant
            transaction.wf(),
            transaction.snapshot() == snapshot,
            old(transaction).snapshot() == snapshot,
            i <= claims@.len(),
            sequence == start + i,
            transaction.writes() == append_writes(claims@, start, i as nat),
        decreases claims@.len() - i,
    {
        if sequence == u64::MAX {
            return Err(Error::SequenceOverflow);
        }
        sequence = sequence + 1;
        let c = &claims[i];
        let claim_key = keyspaces::claim_key(c.subject.as_str(), c.predicate.as_str(), c.valid_from, c.tx_time);
        proof {
            lemma_is_space_key(Space::Claims, seq![KeyPartValue::Text(c.subject@), KeyPartValue::Text(c.predicate@),
                KeyPartValue::DescU64(c.valid_from), KeyPartValue::DescU64(c.tx_time)]);
            lemma_is_space_key(Space::SequenceIndex, seq![KeyPartValue::U64(sequence)]);
        }
        let checked = checked_key(CLAIMS, claim_key.as_slice())?;
        let mut stored: Vec<u8> = Vec::new();
        crate::bytes::push_all(&mut stored, c.bytes.as_slice());
        assert(stored@ =~= c.bytes@);
        transaction.put(checked, stored);
        let index_key = keyspaces::sequence_key(sequence);
        let checked_index = checked_key(SEQUENCE_INDEX, index_key.as_slice())?;
        transaction.put(checked_index, claim_key);
        i = i + 1;
    }
    Ok(sequence)
}

/// The key of the accepted idempotent append under `idempotency_key`.
pub open spec fn accepted_append_key_of(idempotency_key: Seq<char>) -> Seq<u8> {
    spec_space_key(Space::System, seq![KeyPartValue::U8(SystemEntry::AcceptedClaimAppend.spec_tag()), KeyPartValue::Text(idempotency_key)])
}

/// The tuple an accepted idempotent append is stored as: its operation
/// digest and the sequences it took.
pub open spec fn append_receipt_parts(o: IdempotentAppendOutcome) -> Seq<KeyPartValue> {
    seq![
        KeyPartValue::Text(o.operation_sha256@),
        KeyPartValue::U64(o.append.first_sequence),
        KeyPartValue::U64(o.append.last_sequence),
        KeyPartValue::U64(o.append.count as u64),
    ]
}

/// The stored form of an accepted idempotent append.
pub open spec fn append_receipt_bytes(o: IdempotentAppendOutcome) -> Seq<u8> {
    record_bytes(append_receipt_parts(o))
}

/// The stored form of an accepted idempotent append.
fn encode_append_receipt(o: &IdempotentAppendOutcome) -> (bytes: Vec<u8>)
    ensures
        bytes@ == append_receipt_bytes(*o),
{
    let parts = [
        KeyPart::Text(o.operation_sha256.as_str()),
        KeyPart::U64(o.append.first_sequence),
        KeyPart::U64(o.append.last_sequence),
        KeyPart::U64(o.append.count as u64),
    ];
    proof {
        assert(crate::key_codec::part_values(parts@) =~= append_receipt_parts(*o));
    }
    KeyCodec.encode(KeyAddress::global(), KeyFamily::System, &parts)
}

/// The accepted idempotent append stored as `bytes`, read as a replay.
fn decode_append_receipt(bytes: &[u8]) -> (r: Result<IdempotentAppendOutcome>)
    ensures
        match r {
            Ok(o) => append_receipt_bytes(o) == bytes@ && o.idempotent_replay,
            Err(e) => e is Codec && forall|x: IdempotentAppendOutcome| #[trigger] append_receipt_bytes(x) != bytes@,
        },
{
    let parts = match record_parts(bytes) {
        Some(parts) => parts,
        None => {
            return Err(Error::Codec(text("accepted claim append is not a canonical record")));
        },
    };
    let ghost pv = parts_view(parts@);
    if parts.len() == 4 {
        match (&parts[0], &parts[1], &parts[2], &parts[3]) {
            (DecodedKeyPart::Text(digest), DecodedKeyPart::U64(first), DecodedKeyPart::U64(last), DecodedKeyPart::U64(count)) => {
                if *count <= usize::MAX as u64 {
                    let o = IdempotentAppendOutcome {
                        operation_sha256: digest.clone(),
                        append: AppendOutcome { first_sequence: *first, last_sequence: *last, count: *count as usize },
                        idempotent_replay: true,
                    };
                    proof {
                        assert forall|i: int| 0 <= i < 4 implies pv[i] == parts@[i]@ by {}
                        assert(append_receipt_parts(o) =~= pv);
                    }
                    return Ok(o);
                }
            },
            _ => {},
        }
    }
    proof {
        assert forall|x: IdempotentAppendOutcome| #[trigger] append_receipt_bytes(x) != bytes@ by {
            if append_receipt_bytes(x) == bytes@ {
                lemma_record_bytes_injective(append_receipt_parts(x), pv);
                assert forall|i: int| 0 <= i < 4 implies pv[i] == parts@[i]@ by {}
                assert(pv[3] == KeyPartValue::U64(x.append.count as u64));
            }
        }
    }
    Err(Error::Codec(text("accepted claim append is not a canonical record")))
}

/// The outcome of a first idempotent append of `claims` under a key, with
/// operation digest `operation`, to a store whose watermark is `start`:
/// refused where the claim sequence would overflow or the store has no room
/// for the writes; and otherwise the batch's writes and its accepted
/// outcome under the key, committed together.
pub open spec fn idempotently_appended(
    before: RrflowMxStore,
    after: RrflowMxStore,
    claims: Seq<ClaimRecord>,
    start: u64,
    idempotency_key: Seq<char>,
    operation: Seq<char>,
    r: Result<IdempotentAppendOutcome>,
) -> bool {
    let append = AppendOutcome { first_sequence: (start + 1) as u64, last_sequence: (start + claims.len()) as u64, count: claims.len() as usize };
    let accepted = IdempotentAppendOutcome { operation_sha256: r->Ok_0.operation_sha256, append, idempotent_replay: false };
    let writes = batch_writes(claims, start).insert(accepted_append_key_of(idempotency_key), Some(append_receipt_bytes(accepted)));
    if start + claims.len() > u64::MAX {
        r == Err::<IdempotentAppendOutcome, Error>(Error::SequenceOverflow)
    } else {
        &&& (r is Ok <==> before.sequence() + writes.dom().len() <= u64::MAX)
        &&& (r is Err ==> r == Err::<IdempotentAppendOutcome, Error>(Error::SequenceOverflow))
        &&& (r matches Ok(o) ==> o.operation_sha256@ == operation && o.append == append && !o.idempotent_replay && committed(before, after, writes))
    }
}

/// What an idempotent append whose key already holds `stored` returns: the
/// accepted outcome, as a replay, where its operation digest is
/// `operation`; an idempotency conflict naming the key where it is another.
pub open spec fn replayed_append(stored: Seq<u8>, idempotency_key: Seq<char>, operation: Seq<char>, r: Result<IdempotentAppendOutcome>) -> bool {
    &&& ((forall|x: IdempotentAppendOutcome| #[trigger] append_receipt_bytes(x) != stored) ==> r matches Err(Error::Codec(_)))
    &&& forall|x: IdempotentAppendOutcome| #[trigger] append_receipt_bytes(x) == stored ==> if x.operation_sha256@ == operation {
        r matches Ok(o) && o.operation_sha256@ == operation && o.append == x.append && o.idempotent_replay
    } else {
        r matches Err(Error::IdempotencyConflict(k)) && k@ == idempotency_key
    }
}

/// The outcome of a valid, non-empty idempotent append: a replay or a
/// conflict where the key already holds an accepted append, and otherwise a
/// first append after the stored watermark.
pub open spec fn idempotent_append_outcome(
    before: RrflowMxStore,
    after: RrflowMxStore,
    idempotency_key: Seq<char>,
    operation: Seq<char>,
    claims: Seq<ClaimRecord>,
    r: Result<IdempotentAppendOutcome>,
) -> bool {
    match newest(before, accepted_append_key_of(idempotency_key)) {
        Some(stored) => after == before && replayed_append(stored, idempotency_key, operation, r),
        None => match stored_watermark(newest(before, claim_watermark_key())) {
            None => r matches Err(Error::CorruptWatermark(_)),
            Some(start) => idempotently_appended(before, after, claims, start, idempotency_key, operation, r),
        },
    }
}

/// An accepted idempotent append replays: where an idempotent append under
/// `idempotency_key` with digest `operation` was first accepted on `s0` as
/// `o` and left `s1`, a later one under the same key on `s1` leaves the
/// store as it is, and returns `o`'s sequences again, as a replay, where
/// its digest is `operation`, and an idempotency conflict naming the key
/// where it is another.
pub proof fn lemma_idempotent_append_replays(
    s0: RrflowMxStore,
    s1: RrflowMxStore,
    s2: RrflowMxStore,
    idempotency_key: Seq<char>,
    operation: Seq<char>,
    claims: Seq<ClaimRecord>,
    o: IdempotentAppendOutcome,
    later_operation: Seq<char>,
    later_claims: Seq<ClaimRecord>,
    later: Result<IdempotentAppendOutcome>,
)
    requires
        newest(s0, accepted_append_key_of(idempotency_key)) is None,
        idempotent_append_outcome(s0, s1, idempotency_key, operation, claims, Ok(o)),
        idempotent_append_outcome(s1, s2, idempotency_key, later_operation, later_claims, later),
    ensures
        s2 == s1,
        later_operation == operation ==> (later matches Ok(again) && again.append == o.append && again.idempotent_replay
            && again.operation_sha256@ == operation),
        later_operation != operation ==> (later matches Err(Error::IdempotencyConflict(k)) && k@ == idempotency_key),
{
    let start = stored_watermark(newest(s0, claim_watermark_key()))->Some_0;
    let accepted = IdempotentAppendOutcome { operation_sha256: o.operation_sha256, append: o.append, idempotent_replay: false };
    let key = accepted_append_key_of(idempotency_key);
    assert(idempotently_appended(s0, s1, claims, start, idempotency_key, operation, Ok(o)));
    assert(newest(s1, key) == Some(append_receipt_bytes(accepted)));
    assert(append_receipt_bytes(accepted) == newest(s1, key)->Some_0);
}

/// An appended batch is what the claim sequence then reads: where
/// `append_batch(claims)` returned `Ok(o)` for a non-empty batch on
/// `before`, whose watermark was `start`, and left `after`, the claims took
/// sequences `start + 1` through `start + claims.len()`, and the watermark
/// `sequence()` reads on `after` is the last of them.
pub proof fn lemma_appended_claims_advance_the_sequence(
    before: RrflowMxStore,
    after: RrflowMxStore,
    claims: Seq<ClaimRecord>,
    start: u64,
    o: AppendOutcome,
)
    requires
        claims.len() > 0,
        appended(before, after, claims, start, Ok(o)),
    ensures
        stored_watermark(newest(after, claim_watermark_key())) == Some(o.last_sequence),
        o.last_sequence == start + claims.len(),
        o.first_sequence == start + 1,
{
    crate::repository::common::lemma_parse_decimal((start + claims.len()) as u64);
    assert(batch_writes(claims, start).contains_key(claim_watermark_key()));
}

/// The claim repository: its watermark and access observations.
pub struct ClaimRepository;

impl ClaimRepository {
    /// The repository.
    pub fn new() -> (r: Self) {
        ClaimRepository
    }

    /// Appends `claims` in one authoritative transaction: each is stored
    /// under its key and indexed under the next claim sequence, and the
    /// watermark advances past them. An empty batch writes nothing.
    pub fn append_batch(&self, store: &mut RrflowMxStore, claims: &[ClaimRecord]) -> (r: Result<AppendOutcome>)
        requires
            old(store).wf(),
        ensures
            final(store).wf(),
            r is Err ==> *final(store) == *old(store),
            match stored_watermark(newest(*old(store), claim_watermark_key())) {
                None => r matches Err(Error::CorruptWatermark(_)),
                Some(start) => appended(*old(store), *final(store), claims@, start, r),
            },
    {
        let mut transaction = store.begin_transaction();
        let watermark = keyspaces::sequence_watermark_key();
        proof {
            lemma_is_space_key(Space::System, seq![KeyPartValue::U8(SystemEntry::ClaimSequence.spec_tag())]);
        }
        let start = read_sequence(&transaction, store, watermark.as_slice())?;
        if claims.len() == 0 {
            return Ok(AppendOutcome { first_sequence: start, last_sequence: start, count: 0 });
        }
        let last = stage_claims(&mut transaction, claims, start)?;
        let ghost staged = transaction.writes();
        put_sequence(&mut transaction, watermark.as_slice(), last)?;
        proof {
            assert(transaction.writes() == batch_writes(claims@, start));
            assert(transaction.writes().contains_key(claim_watermark_key()));
            crate::engine::lemma_write_count(transaction);
            vstd::set_lib::lemma_set_empty_equivalency_len(transaction.writes().dom());
            crate::engine::lemma_fresh_snapshot_no_conflict(*old(store), transaction);
        }
        transaction.commit(store, Durability::Authoritative)?;
        Ok(AppendOutcome { first_sequence: start + 1, last_sequence: last, count: claims.len() })
    }

    /// Appends `claims` once per idempotency key: the first append under
    /// the key commits the batch together with its outcome and the operation
    /// digest; a later one with the same digest gets that outcome back as a
    /// replay and writes nothing, and one with another digest is refused.
    /// An invalid key or digest, and an empty batch, are refused.
    pub fn append_batch_idempotent(
        &self,
        store: &mut RrflowMxStore,
        idempotency_key: &str,
        operation_sha256: &str,
        claims: &[ClaimRecord],
    ) -> (r: Result<IdempotentAppendOutcome>)
        requires
            old(store).wf(),
        ensures
            final(store).wf(),
            r is Err ==> *final(store) == *old(store),
            !(is_idempotency_key(idempotency_key.spec_bytes()) && is_sha256_text(operation_sha256.spec_bytes())) ==> r matches Err(Error::Substrate(_)),
            is_idempotency_key(idempotency_key.spec_bytes()) && is_sha256_text(operation_sha256.spec_bytes()) && claims@.len() == 0
                ==> r matches Err(Error::Substrate(_)),
            is_idempotency_key(idempotency_key.spec_bytes()) && is_sha256_text(operation_sha256.spec_bytes()) && claims@.len() > 0
                ==> idempotent_append_outcome(*old(store), *final(store), idempotency_key@, operation_sha256@, claims@, r),
    {
        validate_idempotency(idempotency_key, operation_sha256)?;
        if claims.len() == 0 {
            return Err(Error::Substrate(text("idempotent claim append must not be empty")));
        }
        let mut transaction = store.begin_transaction();
        let receipt_key = keyspaces::accepted_append_key(idempotency_key);
        let watermark = keyspaces::sequence_watermark_key();
        proof {
            lemma_is_space_key(Space::System, seq![KeyPartValue::U8(SystemEntry::AcceptedClaimAppend.spec_tag()), KeyPartValue::Text(idempotency_key@)]);
            lemma_is_space_key(Space::System, seq![KeyPartValue::U8(SystemEntry::ClaimSequence.spec_tag())]);
        }
        let operation = text(operation_sha256);
        match crate::repository::common::get(&transaction, store, META, receipt_key.as_slice())? {
            Some(bytes) => {
                let outcome = decode_append_receipt(bytes.as_slice())?;
                proof {
                    assert forall|x: IdempotentAppendOutcome| #[trigger] append_receipt_bytes(x) == bytes@ implies x.operation_sha256@
                        == outcome.operation_sha256@ && x.append == outcome.append by {
                        lemma_record_bytes_injective(append_receipt_parts(x), append_receipt_parts(outcome));
                        assert(append_receipt_parts(x)[0] == append_receipt_parts(outcome)[0]);
                        assert(append_receipt_parts(x)[3] == append_receipt_parts(outcome)[3]);
                    }
                }
                if !outcome.operation_sha256.eq(&operation) {
                    return Err(Error::IdempotencyConflict(text(idempotency_key)));
                }
                return Ok(outcome);
            },
            None => {},
        }
        let start = read_sequence(&transaction, store, watermark.as_slice())?;
        let last = stage_claims(&mut transaction, claims, start)?;
        put_sequence(&mut transaction, watermark.as_slice(), last)?;
        let outcome = IdempotentAppendOutcome {
            operation_sha256: operation,
            append: AppendOutcome { first_sequence: start + 1, last_sequence: last, count: claims.len() },
            idempotent_replay: false,
        };
        let stored = encode_append_receipt(&outcome);
        let checked = checked_key(META, receipt_key.as_slice())?;
        transaction.put(checked, stored);
        proof {
            assert(transaction.writes() == batch_writes(claims@, start).insert(accepted_append_key_of(idempotency_key@), Some(
                append_receipt_bytes(outcome),
            )));
            assert(transaction.writes().contains_key(claim_watermark_key()));
            crate::engine::lemma_write_count(transaction);
            vstd::set_lib::lemma_set_empty_equivalency_len(transaction.writes().dom());
            crate::engine::lemma_fresh_snapshot_no_conflict(*old(store), transaction);
        }
        transaction.commit(store, Durability::Authoritative)?;
        Ok(outcome)
    }

    /// The claim-sequence watermark as of the newest commit; 0 before any claim.
    pub fn sequence(&self, store: &RrflowMxStore) -> (r: Result<u64>)
        requires
            store.wf(),
        ensures
            match store.read_at(claim_watermark_key(), store.sequence() as int) {
                None => r == Ok::<u64, crate::error::Error>(0),
                Some(bytes) => match parse_u64(bytes) {
                    Some(n) => r == Ok::<u64, crate::error::Error>(n),
                    None => r matches Err(crate::error::Error::CorruptWatermark(_)),
                },
            },
    {
        let transaction = store.begin_transaction();
        let key = keyspaces::sequence_watermark_key();
        proof {
            lemma_is_space_key(Space::System, seq![KeyPartValue::U8(SystemEntry::ClaimSequence.spec_tag())]);
        }
        read_sequence(&transaction, store, key.as_slice())
    }

    /// Records that `reader` read `subject`/`predicate` at `at`.
    pub fn observe(&self, store: &mut RrflowMxStore, reader: &str, subject: &str, predicate: &str, at: u64) -> (r: Result<()>)
        requires
            old(store).wf(),
        ensures
            final(store).wf(),
            old(store).sequence() < u64::MAX ==> r is Ok,
            r is Ok ==> final(store).sequence() == old(store).sequence() + 1
                && final(store).read_at(access_key_of(at, reader@, subject@, predicate@), final(store).sequence() as int) == Some(Seq::<u8>::empty())
                && forall|k: Seq<u8>| k != access_key_of(at, reader@, subject@, predicate@) ==> #[trigger] final(store).read_at(k, final(store).sequence() as int)
                    == old(store).read_at(k, old(store).sequence() as int),
            r is Err ==> *final(store) == *old(store),
    {
        let mut transaction = store.begin_transaction();
        let key = keyspaces::access_key(at, reader, subject, predicate);
        proof {
            lemma_is_space_key(Space::Access, seq![KeyPartValue::U64(at), KeyPartValue::Text(reader@), KeyPartValue::Text(subject@), KeyPartValue::Text(predicate@)]);
        }
        let checked = checked_key(ACCESS, key.as_slice())?;
        transaction.put(checked, Vec::new());
        proof {
            assert(transaction.writes().dom() =~= set![access_key_of(at, reader@, subject@, predicate@)]);
            crate::engine::lemma_write_count(transaction);
            crate::engine::lemma_fresh_snapshot_no_conflict(*old(store), transaction);
        }
        transaction.commit(store, Durability::Buffered)?;
        Ok(())
    }

    /// The number of access observations as of the newest commit.
    pub fn access_count(&self, store: &RrflowMxStore) -> (r: Result<usize>)
        requires
            store.wf(),
        ensures
            r matches Ok(n) && counts_accesses(*store, n as int),
    {
        let transaction = store.begin_transaction();
        let empty: [u8; 0] = [];
        proof {
            lemma_space_key_has_end(Space::Access, Seq::<KeyPartValue>::empty());
        }
        let rows = scan_space(&transaction, store, ACCESS, &empty)?;
        proof {
            crate::engine::lemma_clean_scan(transaction, *store, pairs_view(rows), spec_space_key(Space::Access, Seq::<KeyPartValue>::empty()),
                spec_prefix_end(spec_space_key(Space::Access, Seq::<KeyPartValue>::empty()))->Some_0, usize::MAX as int);
            assert(store.scan_matches(store.sequence() as int, pairs_view(rows), spec_space_key(Space::Access, Seq::<KeyPartValue>::empty()),
                spec_prefix_end(spec_space_key(Space::Access, Seq::<KeyPartValue>::empty()))->Some_0, usize::MAX as int));
            assert(pairs_view(rows).len() == rows@.len());
            assert(store.scan_matches(store.sequence() as int, pairs_view(rows), access_start(), access_end(), usize::MAX as int));
        }
        Ok(rows.len())
    }

    /// The subjects of the stored claim versions, in key order, each once
    /// per run of versions.
    pub fn subjects(&self, store: &RrflowMxStore) -> (r: Result<Vec<String>>)
        requires
            store.wf(),
        ensures
            r matches Ok(v) ==> exists|rows: Seq<(Seq<u8>, Seq<u8>)>|
                #[trigger] claim_rows(*store, rows) && all_claim_keys(rows) && v@.map_values(|x: String| x@) == collapse_runs(claim_subjects(rows)),
            r is Err ==> exists|rows: Seq<(Seq<u8>, Seq<u8>)>| #[trigger] claim_rows(*store, rows) && !all_claim_keys(rows),
    {
        let transaction = store.begin_transaction();
        let empty: [u8; 0] = [];
        proof {
            lemma_space_key_has_end(Space::Claims, Seq::<KeyPartValue>::empty());
        }
        let claims = scan_space(&transaction, store, CLAIMS, &empty)?;
        let ghost crows = pairs_view(claims);
        proof {
            crate::engine::lemma_clean_scan(transaction, *store, crows, spec_space_key(Space::Claims, Seq::<KeyPartValue>::empty()),
                spec_prefix_end(spec_space_key(Space::Claims, Seq::<KeyPartValue>::empty()))->Some_0, usize::MAX as int);
            assert(claim_rows(*store, crows));
        }
        let mut subjects: Vec<String> = Vec::new();
        let mut i: usize = 0;
        while i < claims.len()
            invariant
                i <= claims.len(),
                crows == pairs_view(claims),
                claim_rows(*store, crows),
                forall|j: int| 0 <= j < i ==> is_claim_key(#[trigger] crows[j].0),
                subjects@.map_values(|x: String| x@) == collapse_runs(claim_subjects(crows.take(i as int))),
            decreases claims.len() - i,
        {
            proof {
                assert(crows[i as int].0 == claims@[i as int].0@);
            }
            let (subject, predicate, valid_from, tx_time) = match keyspaces::parse_claim_key(KeyCodec, claims[i].0.as_slice()) {
                Ok(parsed) => parsed,
                Err(e) => {
                    proof {
                        if is_claim_key(crows[i as int].0) {
                            let x = choose|x: (Seq<char>, Seq<char>, u64, u64)| #[trigger] claim_key_of(x.0, x.1, x.2, x.3) == crows[i as int].0;
                            assert(claim_key_of(x.0, x.1, x.2, x.3) == claims@[i as int].0@);
                        }
                        assert(!all_claim_keys(crows));
                    }
                    return Err(e);
                },
            };
            let ghost before = subjects@.map_values(|x: String| x@);
            proof {
                lemma_claim_pair(subject@, predicate@, valid_from, tx_time);
                let names = claim_subjects(crows.take(i + 1));
                assert(names.drop_last() =~= claim_subjects(crows.take(i as int)));
                assert(names.last() == subject@);
            }
            let repeated = subjects.len() > 0 && subjects[subjects.len() - 1] == subject;
            if !repeated {
                subjects.push(subject);
            }
            proof {
                assert(subjects@.map_values(|x: String| x@) =~= collapse_runs(claim_subjects(crows.take(i + 1))));
            }
            i = i + 1;
        }
        assert(crows.take(claims.len() as int) =~= crows);
        Ok(subjects)
    }

    /// Which stored subject-predicate pairs went unread from `since` to
    /// `evaluated_at`: the claim versions and the accesses of the interval,
    /// joined pair by pair, every pair with a claim reported in key order.
    pub fn removal_report(&self, store: &RrflowMxStore, since: u64, evaluated_at: u64) -> (r: Result<RemovalReport>)
        requires
            store.wf(),
        ensures
            r matches Ok(report) ==> {
                &&& report.since == since
                &&& report.evaluated_at == evaluated_at
                &&& exists|claims: Seq<(Seq<u8>, Seq<u8>)>, accesses: Seq<(Seq<u8>, Seq<u8>)>|
                    #[trigger] claim_rows(*store, claims) && #[trigger] access_rows(*store, since, accesses) && all_claim_keys(claims)
                        && !malformed_access_within(accesses, evaluated_at) && reports_all(
                        report.pairs@,
                        tally_accesses(tally_claims(claim_pairs(claims)), accesses_within(accesses, evaluated_at)),
                    )
            },
            r is Err ==> (exists|claims: Seq<(Seq<u8>, Seq<u8>)>| #[trigger] claim_rows(*store, claims) && !all_claim_keys(claims)) || (exists|
                claims: Seq<(Seq<u8>, Seq<u8>)>,
                accesses: Seq<(Seq<u8>, Seq<u8>)>,
            |
                #[trigger] claim_rows(*store, claims) && #[trigger] access_rows(*store, since, accesses) && all_claim_keys(claims)
                    && malformed_access_within(accesses, evaluated_at)),
    {
        let transaction = store.begin_transaction();
        let empty: [u8; 0] = [];
        proof {
            lemma_space_key_has_end(Space::Claims, Seq::<KeyPartValue>::empty());
        }
        let claims = scan_space(&transaction, store, CLAIMS, &empty)?;
        let ghost crows = pairs_view(claims);
        proof {
            crate::engine::lemma_clean_scan(transaction, *store, crows, spec_space_key(Space::Claims, Seq::<KeyPartValue>::empty()),
                spec_prefix_end(spec_space_key(Space::Claims, Seq::<KeyPartValue>::empty()))->Some_0, usize::MAX as int);
            assert(claim_rows(*store, crows));
        }
        let mut tallies: Vec<(String, String, Tally)> = Vec::new();
        let mut i: usize = 0;
        while i < claims.len()
            invariant
                i <= claims.len(),
                crows == pairs_view(claims),
                claim_rows(*store, crows),
                forall|j: int| 0 <= j < i ==> is_claim_key(#[trigger] crows[j].0),
                evidence_of(tallies@) == tally_claims(claim_pairs(crows.take(i as int))),
                forall|j: int| 0 <= j < tallies.len() ==> {
                    &&& 0 < (#[trigger] tallies@[j]).2.claim_count <= i
                    &&& tallies@[j].2.access_count == 0
                    &&& tallies@[j].2.last_access is None
                    &&& tallies@[j].2.last_reader is None
                },
            decreases claims.len() - i,
        {
            let (subject, predicate, valid_from, tx_time) = match keyspaces::parse_claim_key(KeyCodec, claims[i].0.as_slice()) {
                Ok(parsed) => parsed,
                Err(e) => {
                    proof {
                        assert(crows[i as int].0 == claims@[i as int].0@);
                        if is_claim_key(crows[i as int].0) {
                            let x = choose|x: (Seq<char>, Seq<char>, u64, u64)| #[trigger] claim_key_of(x.0, x.1, x.2, x.3) == crows[i as int].0;
                            assert(claim_key_of(x.0, x.1, x.2, x.3) == claims@[i as int].0@);
                        }
                        assert(!all_claim_keys(crows));
                    }
                    return Err(e);
                },
            };
            proof {
                assert(crows[i as int].0 == claims@[i as int].0@);
                lemma_claim_pair(subject@, predicate@, valid_from, tx_time);
                let pairs = claim_pairs(crows.take(i + 1));
                assert(pairs.drop_last() =~= claim_pairs(crows.take(i as int)));
                assert(pairs.last() == (subject@, predicate@));
            }
            let ghost before = tallies@;
            match find_tally(&tallies, &subject, &predicate) {
                Some(j) => {
                    let mut t = copy_tally(&tallies[j].2);
                    t.count_claim();
                    let s = tallies[j].0.clone();
                    let p = tallies[j].1.clone();
                    tallies.set(j, (s, p, t));
                    proof {
                        lemma_evidence_update(before, j as int, (s, p, t));
                        assert(evidence_of(tallies@) =~= count_claim(evidence_of(before), subject@, predicate@));
                    }
                },
                None => {
                    let mut t = Tally::new();
                    t.count_claim();
                    tallies.push((subject, predicate, t));
                    proof {
                        lemma_evidence_push(before, tallies@.last());
                    }
                },
            }
            i = i + 1;
        }
        assert(crows.take(claims.len() as int) =~= crows);
        assert(all_claim_keys(crows));
        let ghost claim_evidence = evidence_of(tallies@);
        let bound = keyspaces::access_bound(since);
        proof {
            lemma_is_space_key(Space::Access, seq![KeyPartValue::U64(since)]);
            lemma_space_key_has_end(Space::Access, Seq::<KeyPartValue>::empty());
        }
        let accesses = match scan_space_from(&transaction, store, ACCESS, bound.as_slice()) {
            Ok(rows) => rows,
            Err(e) => {
                return Err(e);
            },
        };
        let ghost arows = pairs_view(accesses);
        proof {
            crate::engine::lemma_clean_scan(transaction, *store, arows, spec_space_key(Space::Access, seq![KeyPartValue::U64(since)]),
                spec_prefix_end(spec_space_key(Space::Access, Seq::<KeyPartValue>::empty()))->Some_0, usize::MAX as int);
            assert(access_rows(*store, since, arows));
            assert(arows.skip(0) =~= arows);
        }
        let ghost mut done: Seq<(u64, Seq<char>, Seq<char>, Seq<char>)> = Seq::empty();
        let mut k: usize = 0;
        let mut stopped = false;
        while k < accesses.len() && !stopped
            invariant
                k <= accesses.len(),
                arows == pairs_view(accesses),
                claim_rows(*store, crows),
                access_rows(*store, since, arows),
                all_claim_keys(crows),
                accesses_within(arows, evaluated_at) == done + accesses_within(arows.skip(k as int), evaluated_at),
                malformed_access_within(arows, evaluated_at) == malformed_access_within(arows.skip(k as int), evaluated_at),
                stopped ==> accesses_within(arows.skip(k as int), evaluated_at) == Seq::<(u64, Seq<char>, Seq<char>, Seq<char>)>::empty(),
                stopped ==> !malformed_access_within(arows.skip(k as int), evaluated_at),
                evidence_of(tallies@) == tally_accesses(claim_evidence, done),
                forall|j: int| 0 <= j < tallies.len() ==> {
                    &&& 0 < (#[trigger] tallies@[j]).2.claim_count
                    &&& tallies@[j].2.access_count <= k
                    &&& paired_evidence(tallies@[j].2)
                },
            decreases accesses.len() - k + (if stopped { 0int } else { 1int }),
        {
            let ghost rest = arows.skip(k as int);
            proof {
                assert(rest[0] == arows[k as int]);
                assert(arows[k as int].0 == accesses@[k as int].0@);
                assert(rest.skip(1) =~= arows.skip(k + 1));
            }
            let (at, reader, subject, predicate) = match keyspaces::parse_access_key(KeyCodec, accesses[k].0.as_slice()) {
                Ok(parsed) => parsed,
                Err(e) => {
                    proof {
                        if is_access_key(rest[0].0) {
                            let x = access_fields(rest[0].0);
                            assert(access_key_of(x.0, x.1, x.2, x.3) == accesses@[k as int].0@);
                        }
                        assert(malformed_access_within(rest, evaluated_at));
                    }
                    return Err(e);
                },
            };
            proof {
                lemma_access_fields(at, reader@, subject@, predicate@);
            }
            if at > evaluated_at {
                stopped = true;
            } else {
                let ghost before = tallies@;
                match find_tally(&tallies, &subject, &predicate) {
                    Some(j) => {
                        let mut t = copy_tally(&tallies[j].2);
                        t.count_access(at, reader);
                        let s = tallies[j].0.clone();
                        let p = tallies[j].1.clone();
                        tallies.set(j, (s, p, t));
                        proof {
                            lemma_evidence_update(before, j as int, (s, p, t));
                            assert(evidence_of(tallies@) =~= count_access(evidence_of(before), at, access_fields(rest[0].0).1, subject@, predicate@));
                        }
                    },
                    None => {},
                }
                proof {
                    let a = (at, access_fields(rest[0].0).1, subject@, predicate@);
                    assert(done.push(a).drop_last() =~= done);
                    done = done.push(a);
                    assert(accesses_within(arows, evaluated_at) =~= done + accesses_within(arows.skip(k + 1), evaluated_at));
                }
                k = k + 1;
            }
        }
        proof {
            if !stopped {
                assert(arows.skip(k as int) =~= Seq::<(Seq<u8>, Seq<u8>)>::empty());
            }
            assert(accesses_within(arows, evaluated_at) =~= done);
        }
        let report = build_report(&tallies, since, evaluated_at);
        proof {
            lemma_reported_all(tallies@);
        }
        Ok(report)
    }
}


/// Where access observations lie: the start of the access space's scan.
pub open spec fn access_start() -> Seq<u8> {
    spec_space_key(Space::Access, Seq::<KeyPartValue>::empty())
}

/// Where access observations lie: the exclusive end of the access space's scan.
pub open spec fn access_end() -> Seq<u8> {
    spec_prefix_end(access_start())->Some_0
}

/// `n` is the number of access observations `store` holds: a complete scan
/// of the access space as of the newest commit has `n` entries.
pub open spec fn counts_accesses(store: RrflowMxStore, n: int) -> bool {
    exists|pairs: Seq<(Seq<u8>, Seq<u8>)>| pairs.len() == n
        && #[trigger] store.scan_matches(store.sequence() as int, pairs, access_start(), access_end(), usize::MAX as int)
}

/// The keys in `[start, end)` that `store` shows at `snapshot`.
pub open spec fn visible_keys(store: RrflowMxStore, snapshot: int, start: Seq<u8>, end: Seq<u8>) -> Set<Seq<u8>> {
    Set::new(|k: Seq<u8>| crate::engine::in_range(k, start, end) && store.read_at(k, snapshot) is Some)
}

/// A complete scan holds each visible key of its range once: its length is
/// the number of those keys.
pub proof fn lemma_complete_scan_counts(store: RrflowMxStore, snapshot: int, pairs: Seq<(Seq<u8>, Seq<u8>)>, start: Seq<u8>, end: Seq<u8>)
    requires
        store.scan_matches(snapshot, pairs, start, end, usize::MAX as int),
        pairs.len() < usize::MAX,
    ensures
        visible_keys(store, snapshot, start, end).finite(),
        visible_keys(store, snapshot, start, end).len() == pairs.len(),
{
    let keys = pairs.map_values(|p: (Seq<u8>, Seq<u8>)| p.0);
    assert(keys.no_duplicates()) by {
        assert forall|i: int, j: int| 0 <= i < keys.len() && 0 <= j < keys.len() && i != j implies keys[i] != keys[j] by {
            if i < j {
                assert(crate::bytes::lex_lt(pairs[i].0, pairs[j].0));
                crate::bytes::lemma_lex_lt_trichotomy(pairs[i].0, pairs[j].0);
            } else {
                assert(crate::bytes::lex_lt(pairs[j].0, pairs[i].0));
                crate::bytes::lemma_lex_lt_trichotomy(pairs[j].0, pairs[i].0);
            }
        }
    }
    assert forall|k: Seq<u8>| #[trigger] keys.to_set().contains(k) == visible_keys(store, snapshot, start, end).contains(k) by {
        if keys.contains(k) {
            let i = choose|i: int| 0 <= i < keys.len() && keys[i] == k;
            assert(crate::engine::in_range(pairs[i].0, start, end));
        }
        if visible_keys(store, snapshot, start, end).contains(k) {
            assert(crate::engine::in_range(k, start, end) && store.read_at(k, snapshot) is Some);
            let i = choose|i: int| 0 <= i < pairs.len() && pairs[i].0 == k;
            assert(keys[i] == k);
        }
    }
    assert(keys.to_set() =~= visible_keys(store, snapshot, start, end));
    keys.unique_seq_to_set();
}

/// What `observe_count` and `access_count` count grows by one with each
/// observation of a new access, and stays with an access observed before:
/// where a complete scan of the access space before an observation of
/// `at`/`reader`/`subject`/`predicate` holds `before_pairs`, and one after it
/// holds `after_pairs`, the observation shows the access key, and leaves
/// every other key as it was.
pub proof fn lemma_observation_counts(
    before: RrflowMxStore,
    after: RrflowMxStore,
    at: u64,
    reader: Seq<char>,
    subject: Seq<char>,
    predicate: Seq<char>,
    before_pairs: Seq<(Seq<u8>, Seq<u8>)>,
    after_pairs: Seq<(Seq<u8>, Seq<u8>)>,
)
    requires
        after.read_at(access_key_of(at, reader, subject, predicate), after.sequence() as int) == Some(Seq::<u8>::empty()),
        forall|k: Seq<u8>| k != access_key_of(at, reader, subject, predicate) ==> #[trigger] after.read_at(k, after.sequence() as int)
            == before.read_at(k, before.sequence() as int),
        before.scan_matches(before.sequence() as int, before_pairs, access_start(), access_end(), usize::MAX as int),
        before_pairs.len() < usize::MAX,
        after.scan_matches(after.sequence() as int, after_pairs, access_start(), access_end(), usize::MAX as int),
        after_pairs.len() < usize::MAX,
    ensures
        after_pairs.len() == before_pairs.len() + if before.read_at(access_key_of(at, reader, subject, predicate), before.sequence() as int) is Some {
            0int
        } else {
            1int
        },
{
    let key = access_key_of(at, reader, subject, predicate);
    crate::repository::common::lemma_space_key_in_space(Space::Access, seq![KeyPartValue::U64(at), KeyPartValue::Text(reader),
        KeyPartValue::Text(subject), KeyPartValue::Text(predicate)]);
    lemma_complete_scan_counts(before, before.sequence() as int, before_pairs, access_start(), access_end());
    lemma_complete_scan_counts(after, after.sequence() as int, after_pairs, access_start(), access_end());
    let v0 = visible_keys(before, before.sequence() as int, access_start(), access_end());
    let v1 = visible_keys(after, after.sequence() as int, access_start(), access_end());
    assert(v1 =~= v0.insert(key)) by {
        assert forall|k: Seq<u8>| v1.contains(k) == v0.insert(key).contains(k) by {
            if k != key {
                assert(after.read_at(k, after.sequence() as int) == before.read_at(k, before.sequence() as int));
            }
        }
    }
    if v0.contains(key) {
        assert(v0.insert(key) =~= v0);
    }
}


/// Each observation of an access not recorded before adds one to the
/// observation count, and one of an access recorded before adds nothing:
/// where `observe(reader, subject, predicate, at)` returned `Ok` on `before`
/// and left `after`, and `observe_count()` (or `access_count()`) read `c0` on
/// `before` and `c1` on `after`, `c1` is `c0` plus one for a new access and
/// `c0` for a repeated one.
pub proof fn lemma_observe_count_steps(
    before: RrflowMxStore,
    after: RrflowMxStore,
    at: u64,
    reader: Seq<char>,
    subject: Seq<char>,
    predicate: Seq<char>,
    c0: int,
    c1: int,
)
    requires
        after.read_at(access_key_of(at, reader, subject, predicate), after.sequence() as int) == Some(Seq::<u8>::empty()),
        forall|k: Seq<u8>| k != access_key_of(at, reader, subject, predicate) ==> #[trigger] after.read_at(k, after.sequence() as int)
            == before.read_at(k, before.sequence() as int),
        counts_accesses(before, c0),
        c0 < usize::MAX,
        counts_accesses(after, c1),
        c1 < usize::MAX,
    ensures
        c1 == c0 + if before.read_at(access_key_of(at, reader, subject, predicate), before.sequence() as int) is Some {
            0int
        } else {
            1int
        },
{
    let before_pairs = choose|pairs: Seq<(Seq<u8>, Seq<u8>)>| pairs.len() == c0
        && #[trigger] before.scan_matches(before.sequence() as int, pairs, access_start(), access_end(), usize::MAX as int);
    let after_pairs = choose|pairs: Seq<(Seq<u8>, Seq<u8>)>| pairs.len() == c1
        && #[trigger] after.scan_matches(after.sequence() as int, pairs, access_start(), access_end(), usize::MAX as int);
    lemma_observation_counts(before, after, at, reader, subject, predicate, before_pairs, after_pairs);
}

} // verus!
