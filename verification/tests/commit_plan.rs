use rrd_store::commit_plan::{account_commit, commit_key_writes, ClaimFields, CommitMutation, CommitValue, MutationShape};
use rrd_store::keyspaces::{
    catalog_revision_key, claim_key, runtime_change_key, runtime_commit_key, runtime_cursor_key, runtime_outbox_key, sequence_key,
    sequence_watermark_key, Space,
};
use rrd_store::Error;

fn claim() -> MutationShape {
    MutationShape { is_claim: true, projects: false }
}

fn record() -> MutationShape {
    MutationShape { is_claim: false, projects: true }
}

#[test]
fn a_commit_takes_the_next_cursors_and_claim_sequences() {
    let account = account_commit(10, 10, 4, &vec![claim(), record(), claim()]).unwrap();
    assert_eq!((account.first_cursor, account.last_cursor, account.count), (11, 13, 3));
    assert_eq!((account.first_claim_sequence, account.last_claim_sequence), (Some(5), Some(6)));
    assert_eq!(account.outbox_count, 1);
    assert_eq!(account.change_cursors, vec![11, 12, 13]);
    assert_eq!(account.claim_sequences, vec![Some(5), None, Some(6)]);
    let unclaimed = account_commit(0, 0, 0, &vec![record()]).unwrap();
    assert_eq!((unclaimed.first_claim_sequence, unclaimed.last_claim_sequence), (None, None));
}

#[test]
fn a_stale_or_overflowing_commit_is_refused() {
    assert_eq!(account_commit(9, 10, 0, &vec![record()]), Err(Error::RuntimeConflict { expected: 9, actual: 10 }));
    assert_eq!(account_commit(u64::MAX, u64::MAX, 0, &vec![]), Err(Error::SequenceOverflow));
    assert_eq!(account_commit(u64::MAX - 1, u64::MAX - 1, 0, &vec![record(), record()]), Err(Error::SequenceOverflow));
    assert_eq!(account_commit(0, 0, u64::MAX, &vec![record()]), Err(Error::SequenceOverflow));
    assert_eq!(account_commit(0, 0, u64::MAX - 1, &vec![claim(), claim()]), Err(Error::SequenceOverflow));
}

#[test]
fn a_commit_writes_its_claims_changes_and_watermarks() {
    let claim = CommitMutation {
        claim: Some(ClaimFields { subject: "s1".into(), predicate: "owns".into(), valid_from: 3, tx_time: 4 }),
        projects: false,
    };
    let record = CommitMutation { claim: None, projects: true };
    let scope = "project:alpha".to_string();
    let commit = "ab".repeat(32);
    let writes = commit_key_writes(&scope, &commit, 10, 10, 4, 2, &vec![claim, record]).unwrap();
    let spaces: Vec<Space> = writes.iter().map(|w| w.space).collect();
    assert_eq!(spaces, vec![
        Space::Claims, Space::SequenceIndex, Space::RuntimeChanges, Space::RuntimeChanges, Space::RuntimeOutbox,
        Space::System, Space::System, Space::System, Space::System, Space::System, Space::RuntimeAudit, Space::System,
        Space::RuntimeCommits,
    ]);
    assert_eq!(writes[0].key, claim_key("s1", "owns", 3, 4));
    assert_eq!(writes[1].key, sequence_key(5));
    assert_eq!(writes[1].value, CommitValue::ClaimKey);
    assert_eq!(writes[2].key, runtime_change_key(11));
    assert_eq!(writes[3].key, runtime_change_key(12));
    assert_eq!(writes[4].key, runtime_outbox_key(12));
    assert_eq!((writes[5].key.clone(), writes[5].value), (sequence_watermark_key(), CommitValue::Sequence(5)));
    assert_eq!((writes[6].key.clone(), writes[6].value), (runtime_cursor_key(), CommitValue::Sequence(12)));
    assert_eq!((writes[9].key.clone(), writes[9].value), (catalog_revision_key("project:alpha"), CommitValue::Sequence(2)));
    assert_eq!(writes[12].key, runtime_commit_key(&commit));
    assert_eq!(commit_key_writes(&scope, &commit, 9, 10, 4, 2, &vec![]), Err(Error::RuntimeConflict { expected: 9, actual: 10 }));
    let unclaimed = commit_key_writes(&scope, &commit, 0, 0, 0, 1, &vec![CommitMutation { claim: None, projects: false }]).unwrap();
    assert_eq!(unclaimed.len(), 8);
}
