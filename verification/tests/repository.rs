use rrd_store::engine::RrflowMxStore;
use rrd_store::gc::{Tally, Verdict};
use rrd_store::invocation::{Invocation, InvocationInput, Outcome, Trigger};
use rrd_store::keyspaces::Durability;
use rrd_store::outcome::AppendOutcome;
use rrd_store::repository::claims::{ClaimRecord, ClaimRepository};
use rrd_store::repository::common::{decode_sequence, encode_sequence};
use rrd_store::repository::invocation::InvocationRepository;
use rrd_store::repository::projection::ProjectionRepository;
use rrd_store::repository::runtime::RuntimeRepository;
use rrd_store::Error;

#[test]
fn projections_read_back_what_was_put_last() {
    let mut store = RrflowMxStore::new();
    let projections = ProjectionRepository::new();
    assert_eq!(projections.get(&store, "status").unwrap(), None);
    projections.put(&mut store, "status", b"one").unwrap();
    projections.put_with(&mut store, "other", b"x", Durability::Authoritative).unwrap();
    projections.put(&mut store, "status", b"two").unwrap();
    assert_eq!(projections.get(&store, "status").unwrap(), Some(b"two".to_vec()));
    assert_eq!(projections.get(&store, "other").unwrap(), Some(b"x".to_vec()));
}

#[test]
fn access_observations_are_counted_and_watermarks_start_at_zero() {
    let mut store = RrflowMxStore::new();
    let claims = ClaimRepository::new();
    assert_eq!(claims.sequence(&store).unwrap(), 0);
    assert_eq!(claims.access_count(&store).unwrap(), 0);
    claims.observe(&mut store, "agent:a", "wp3", "status", 100).unwrap();
    claims.observe(&mut store, "agent:b", "wp3", "status", 101).unwrap();
    assert_eq!(claims.access_count(&store).unwrap(), 2);
    assert_eq!(store.observe_count(), 2);
    claims.observe(&mut store, "agent:a", "wp3", "status", 100).unwrap();
    assert_eq!(store.observe_count(), 2);
    claims.observe(&mut store, "agent:a", "wp3", "status", 102).unwrap();
    assert_eq!(store.observe_count(), 3);
    assert_eq!(claims.access_count(&store).unwrap(), 3);
    assert_eq!(RuntimeRepository::new().cursor(&store).unwrap(), 0);
    assert_eq!(InvocationRepository::new().count(&store).unwrap(), 0);
}

#[test]
fn watermarks_are_decimal_numerals() {
    assert_eq!(encode_sequence(0), b"0".to_vec());
    assert_eq!(encode_sequence(18446744073709551615), b"18446744073709551615".to_vec());
    assert_eq!(decode_sequence(b"42").unwrap(), 42);
    assert_eq!(decode_sequence(b"+7").unwrap(), 7);
    assert!(matches!(decode_sequence(b""), Err(Error::CorruptWatermark(_))));
    assert!(matches!(decode_sequence(b"4a"), Err(Error::CorruptWatermark(_))));
    assert!(matches!(decode_sequence(b"18446744073709551616"), Err(Error::CorruptWatermark(_))));
    for n in [0u64, 1, 9, 10, 12345, u64::MAX] {
        assert_eq!(decode_sequence(&encode_sequence(n)).unwrap(), n);
    }
}

#[test]
fn garbage_collection_verdicts_follow_claims_and_reads() {
    let mut tally = Tally::new();
    assert_eq!(tally.verdict(), None);
    tally.count_claim();
    assert_eq!(tally.verdict(), Some(Verdict::Candidate));
    tally.count_access(5, "agent:a".into());
    tally.count_access(3, "agent:b".into());
    assert_eq!(tally.last_access, Some(5));
    assert_eq!(tally.last_reader.as_deref(), Some("agent:a"));
    assert_eq!(tally.verdict(), Some(Verdict::Retained));
}

#[test]
fn appends_cover_consecutive_sequences() {
    assert_eq!(AppendOutcome::after(10, 0), Some(AppendOutcome { first_sequence: 10, last_sequence: 10, count: 0 }));
    assert_eq!(AppendOutcome::after(10, 3), Some(AppendOutcome { first_sequence: 11, last_sequence: 13, count: 3 }));
    assert_eq!(AppendOutcome::after(u64::MAX, 1), None);
}

#[test]
fn invocations_record_their_input_and_labels() {
    let input = InvocationInput {
        at: 7,
        trigger: Trigger::Interval,
        command: "lint".into(),
        arguments: vec!["--fix".into()],
        outcome: Outcome::Error,
        duration_ms: 12,
        detail: Some("failed".into()),
    };
    let invocation = Invocation::recorded(3, input);
    assert_eq!(invocation.ordinal, 3);
    assert_eq!(invocation.command, "lint");
    assert_eq!(invocation.trigger.label(), "interval");
    assert_eq!(invocation.outcome.label(), "error");
    assert_eq!(Outcome::Succeeded.label(), "ok");
}

#[test]
fn recorded_invocations_take_consecutive_ordinals() {
    let mut store = RrflowMxStore::new();
    let repository = InvocationRepository::new();
    let input = |at: u64| InvocationInput {
        at,
        trigger: Trigger::Manual,
        command: "verify".into(),
        arguments: vec!["--all".into(), "--quiet".into()],
        outcome: Outcome::Succeeded,
        duration_ms: 3,
        detail: None,
    };
    let first = repository.record(&mut store, input(100)).unwrap();
    let second = repository.record(&mut store, input(90)).unwrap();
    assert_eq!(first.ordinal, 1);
    assert_eq!(second.ordinal, 2);
    assert_eq!(second.at, 90);
    assert_eq!(second.arguments, vec!["--all".to_string(), "--quiet".to_string()]);
    assert_eq!(repository.count(&store).unwrap(), 2);
    assert_eq!(store.begin_transaction().snapshot_sequence(), 4);
}

fn store_sequence(store: &RrflowMxStore) -> u64 {
    store.begin_transaction().snapshot_sequence()
}

fn claim_record(subject: &str, predicate: &str, valid_from: u64, tx_time: u64) -> ClaimRecord {
    ClaimRecord {
        subject: subject.into(),
        predicate: predicate.into(),
        valid_from,
        tx_time,
        bytes: format!("{subject}/{predicate}@{valid_from}").into_bytes(),
    }
}

#[test]
fn claim_batches_take_the_next_claim_sequences() {
    let mut store = RrflowMxStore::new();
    let claims = ClaimRepository::new();
    let empty = claims.append_batch(&mut store, &[]).unwrap();
    assert_eq!(empty, AppendOutcome { first_sequence: 0, last_sequence: 0, count: 0 });
    assert_eq!(store_sequence(&store), 0);
    let first = claims.append_batch(&mut store, &[claim_record("wp3", "status", 1, 1), claim_record("wp4", "owner", 1, 2)]).unwrap();
    assert_eq!(first, AppendOutcome { first_sequence: 1, last_sequence: 2, count: 2 });
    assert_eq!(claims.sequence(&store).unwrap(), 2);
    assert_eq!(store_sequence(&store), 5);
    let second = claims.append_batch(&mut store, &[claim_record("wp3", "status", 5, 3)]).unwrap();
    assert_eq!(second, AppendOutcome { first_sequence: 3, last_sequence: 3, count: 1 });
    assert_eq!(claims.sequence(&store).unwrap(), 3);
    assert_eq!(claims.subjects(&store).unwrap(), vec!["wp3".to_string(), "wp4".to_string()]);
}

#[test]
fn idempotent_claim_appends_replay_their_outcome_and_refuse_other_operations() {
    let mut store = RrflowMxStore::new();
    let claims = ClaimRepository::new();
    let digest = "ab".repeat(32);
    let other = "cd".repeat(32);
    let batch = [claim_record("wp3", "status", 1, 1), claim_record("wp4", "owner", 1, 2)];
    let accepted = claims.append_batch_idempotent(&mut store, "op-1", &digest, &batch).unwrap();
    assert_eq!(accepted.append, AppendOutcome { first_sequence: 1, last_sequence: 2, count: 2 });
    assert_eq!(accepted.operation_sha256, digest);
    assert!(!accepted.idempotent_replay);
    let written = store_sequence(&store);

    let replay = claims.append_batch_idempotent(&mut store, "op-1", &digest, &batch).unwrap();
    assert!(replay.idempotent_replay);
    assert_eq!(replay.append, accepted.append);
    assert_eq!(replay.operation_sha256, digest);
    assert_eq!(store_sequence(&store), written);
    assert_eq!(claims.sequence(&store).unwrap(), 2);

    assert!(matches!(claims.append_batch_idempotent(&mut store, "op-1", &other, &batch), Err(Error::IdempotencyConflict(k)) if k == "op-1"));
    assert!(matches!(claims.append_batch_idempotent(&mut store, "bad key!", &digest, &batch), Err(Error::Substrate(_))));
    assert!(matches!(claims.append_batch_idempotent(&mut store, "op-2", "ABC", &batch), Err(Error::Substrate(_))));
    assert!(matches!(claims.append_batch_idempotent(&mut store, "op-2", &digest, &[]), Err(Error::Substrate(_))));
    assert_eq!(store_sequence(&store), written);

    let next = claims.append_batch_idempotent(&mut store, "op-2", &other, &batch[..1]).unwrap();
    assert_eq!(next.append, AppendOutcome { first_sequence: 3, last_sequence: 3, count: 1 });
}
