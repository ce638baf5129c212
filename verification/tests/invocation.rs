use rrd_store::engine::RrflowMxStore;
use rrd_store::invocation::{Invocation, InvocationInput, Outcome, Trigger};
use rrd_store::repository::invocation::{decode_invocation, encode_invocation, InvocationRepository};
use rrd_store::Error;

fn input(at: u64, command: &str, detail: Option<&str>) -> InvocationInput {
    InvocationInput {
        at,
        trigger: Trigger::Interval,
        command: command.into(),
        arguments: vec!["--scope".into(), "all".into()],
        outcome: if detail.is_some() { Outcome::Error } else { Outcome::Succeeded },
        duration_ms: 42,
        detail: detail.map(str::to_string),
    }
}

#[test]
fn invocations_since_a_time_come_back_in_time_and_ordinal_order() {
    let mut store = RrflowMxStore::new();
    let repository = InvocationRepository::new();
    let late = repository.record(&mut store, input(300, "compact", None)).unwrap();
    let early = repository.record(&mut store, input(100, "verify", Some("disk full"))).unwrap();
    let middle = repository.record(&mut store, input(200, "backup", None)).unwrap();

    assert_eq!(repository.since(&store, 0).unwrap(), vec![early.clone(), middle.clone(), late.clone()]);
    assert_eq!(repository.since(&store, 200).unwrap(), vec![middle, late]);
    assert!(repository.since(&store, 301).unwrap().is_empty());
}

#[test]
fn stored_invocations_decode_to_themselves() {
    let record = Invocation {
        ordinal: 7,
        at: 1234,
        trigger: Trigger::Threshold,
        command: "prune".into(),
        arguments: vec![],
        outcome: Outcome::Error,
        duration_ms: 9,
        detail: Some(String::new()),
    };
    assert_eq!(decode_invocation(&encode_invocation(&record)).unwrap(), record);
    let without = Invocation { detail: None, ..record.clone() };
    assert_eq!(decode_invocation(&encode_invocation(&without)).unwrap(), without);
    assert!(matches!(decode_invocation(b"not an invocation"), Err(Error::Codec(_))));
    let mut truncated = encode_invocation(&record);
    truncated.pop();
    assert!(matches!(decode_invocation(&truncated), Err(Error::Codec(_))));
}

#[test]
fn an_invocation_renders_as_one_aligned_line() {
    let record = Invocation {
        ordinal: 12,
        at: 1700,
        trigger: Trigger::Manual,
        command: "verify".into(),
        arguments: vec!["--all".into()],
        outcome: Outcome::Succeeded,
        duration_ms: 35,
        detail: None,
    };
    assert_eq!(record.render(), "    12  1700  manual    verify          35ms  ok");
    let failed = Invocation { outcome: Outcome::Error, detail: Some("disk full".into()), command: "a-very-long-command".into(), ..record };
    assert_eq!(failed.render(), "    12  1700  manual    a-very-long-command      35ms  error  disk full");
}
