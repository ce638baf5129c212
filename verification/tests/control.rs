use rrd_store::control::{verify_control_page, verify_control_tail, ControlJournalEntry, ControlTransition};
use rrd_store::engine::RrflowMxStore;
use rrd_store::repository::control::ControlRepository;
use rrd_store::Error;

fn transition(sequence: u64, expected: Option<Vec<u8>>) -> ControlTransition {
    ControlTransition {
        key: "server/state/test/session-1".into(),
        expected,
        replacement: Some(format!("state-{sequence}").into_bytes()),
        at: sequence,
        actor: "test".into(),
        action: "test.transition".into(),
        request_id: format!("request-{sequence}"),
        operation_id: format!("operation-{sequence}"),
    }
}

fn entry(sequence: u64, previous_digest: Option<String>) -> ControlJournalEntry {
    ControlJournalEntry::committed(sequence, &transition(sequence, None), previous_digest)
}

#[test]
fn page_verification_rejects_gaps_reordering_and_tampering() {
    let first = entry(1, None);
    let second = entry(2, Some(first.digest.clone()));
    let third = entry(3, Some(second.digest.clone()));
    verify_control_page(0, None, &[first.clone(), second.clone(), third.clone()]).unwrap();
    verify_control_page(1, Some(first.digest.clone()), &[second.clone(), third.clone()]).unwrap();

    assert!(verify_control_page(0, None, &[first.clone(), third.clone()]).is_err());
    assert!(verify_control_page(0, None, &[second.clone(), first.clone()]).is_err());
    assert!(verify_control_page(1, Some("0".repeat(64)), std::slice::from_ref(&second)).is_err());
    let mut tampered = second;
    tampered.action = "tampered".into();
    assert!(verify_control_page(1, Some(first.digest), &[tampered]).is_err());
}

#[test]
fn tail_verification_rejects_a_forked_or_missing_tail() {
    let first = entry(1, None);
    assert!(verify_control_tail(0, None, None).is_ok());
    assert!(verify_control_tail(1, Some(first.digest.as_str()), Some(&first)).is_ok());
    assert!(verify_control_tail(1, Some("0".repeat(64).as_str()), Some(&first)).is_err());
    assert!(verify_control_tail(1, Some(first.digest.as_str()), None).is_err());
}

#[test]
fn committed_entries_verify_and_digest_their_fields() {
    let first = entry(1, None);
    assert!(first.verify());
    assert_eq!(first.digest.len(), 64);
    let mut changed = first.clone();
    changed.at = 99;
    assert!(!changed.verify());
    assert_eq!(first.before_sha256, None);
    let with_expected = ControlJournalEntry::committed(2, &transition(2, Some(b"state-1".to_vec())), None);
    assert_eq!(with_expected.before_sha256.as_deref().map(str::len), Some(64));
}

#[test]
fn journal_entries_round_trip_through_their_stored_form() {
    let first = entry(1, None);
    let second = entry(2, Some(first.digest.clone()));
    let decoded = ControlJournalEntry::decode(&second.encode()).unwrap();
    assert_eq!(decoded, second);
    assert!(ControlJournalEntry::decode(b"not a record").is_err());
}

#[test]
fn repository_commit_then_get_returns_the_replacement() {
    let mut store = RrflowMxStore::new();
    let repository = ControlRepository::new();
    assert_eq!(repository.get(&store, "server/state/test/session-1").unwrap(), None);
    assert_eq!(repository.sequence(&store).unwrap(), 0);

    let first = repository.commit(&mut store, &transition(1, None)).unwrap();
    assert_eq!(first.sequence, 1);
    assert_eq!(first.previous_digest, None);
    assert_eq!(repository.get(&store, "server/state/test/session-1").unwrap(), Some(b"state-1".to_vec()));
    assert_eq!(repository.sequence(&store).unwrap(), 1);

    let second = repository.commit(&mut store, &transition(2, Some(b"state-1".to_vec()))).unwrap();
    assert_eq!(second.sequence, 2);
    assert_eq!(second.previous_digest, Some(first.digest.clone()));
    assert_eq!(repository.get(&store, "server/state/test/session-1").unwrap(), Some(b"state-2".to_vec()));
    verify_control_page(0, None, &[first, second]).unwrap();
}

#[test]
fn repository_refuses_a_stale_expectation_and_leaves_state() {
    let mut store = RrflowMxStore::new();
    let repository = ControlRepository::new();
    repository.commit(&mut store, &transition(1, None)).unwrap();
    let stale = repository.commit(&mut store, &transition(2, None));
    assert!(matches!(stale, Err(Error::ControlConflict(key)) if key == "server/state/test/session-1"));
    assert_eq!(repository.sequence(&store).unwrap(), 1);
    assert_eq!(repository.get(&store, "server/state/test/session-1").unwrap(), Some(b"state-1".to_vec()));
}

#[test]
fn repository_refuses_invalid_keys_and_transitions() {
    let mut store = RrflowMxStore::new();
    let repository = ControlRepository::new();
    assert!(matches!(repository.get(&store, "client/state/x"), Err(Error::Substrate(_))));
    let mut invalid = transition(1, None);
    invalid.at = 0;
    assert!(matches!(repository.commit(&mut store, &invalid), Err(Error::Substrate(_))));
    assert_eq!(repository.sequence(&store).unwrap(), 0);
}

#[test]
fn batch_commits_chain_in_order_and_delete_on_absent_replacement() {
    let mut store = RrflowMxStore::new();
    let repository = ControlRepository::new();
    let mut a = transition(1, None);
    a.key = "server/state/test/a".into();
    let mut b = transition(2, None);
    b.key = "server/state/test/b".into();
    let entries = repository.commit_batch(&mut store, &[a.clone(), b.clone()]).unwrap();
    assert_eq!(entries.len(), 2);
    assert_eq!(entries[0].sequence, 1);
    assert_eq!(entries[1].sequence, 2);
    assert_eq!(entries[1].previous_digest, Some(entries[0].digest.clone()));
    verify_control_page(0, None, &entries).unwrap();
    assert_eq!(repository.sequence(&store).unwrap(), 2);

    let mut delete = transition(3, Some(b"state-1".to_vec()));
    delete.key = "server/state/test/a".into();
    delete.replacement = None;
    let third = repository.commit(&mut store, &delete).unwrap();
    assert_eq!(third.previous_digest, Some(entries[1].digest.clone()));
    assert_eq!(repository.get(&store, "server/state/test/a").unwrap(), None);
    assert_eq!(repository.get(&store, "server/state/test/b").unwrap(), Some(b"state-2".to_vec()));
}

#[test]
fn batch_refuses_duplicate_keys_and_names_the_first_conflict() {
    let mut store = RrflowMxStore::new();
    let repository = ControlRepository::new();
    let a = transition(1, None);
    assert!(matches!(repository.commit_batch(&mut store, &[a.clone(), a.clone()]), Err(Error::Substrate(_))));
    assert!(matches!(repository.commit_batch(&mut store, &[]), Err(Error::Substrate(_))));
    repository.commit(&mut store, &a).unwrap();
    let mut other = transition(2, None);
    other.key = "server/state/test/other".into();
    let conflict = repository.commit_batch(&mut store, &[other, transition(3, None)]);
    assert!(matches!(conflict, Err(Error::ControlConflict(key)) if key == "server/state/test/session-1"));
    assert_eq!(repository.sequence(&store).unwrap(), 1);
}

#[test]
fn journal_pages_resume_after_a_verified_anchor() {
    let mut store = RrflowMxStore::new();
    let repository = ControlRepository::new();
    let first = repository.commit(&mut store, &transition(1, None)).unwrap();
    let second = repository.commit(&mut store, &transition(2, Some(b"state-1".to_vec()))).unwrap();
    let third = repository.commit(&mut store, &transition(3, Some(b"state-2".to_vec()))).unwrap();

    let all = repository.journal_since(&store, 0, 10).unwrap();
    assert_eq!(all, vec![first.clone(), second.clone(), third.clone()]);
    verify_control_page(0, None, &all).unwrap();

    let page = repository.journal_since(&store, 1, 1).unwrap();
    assert_eq!(page, vec![second.clone()]);
    verify_control_page(1, Some(first.digest.clone()), &page).unwrap();

    assert!(repository.journal_since(&store, 3, 10).unwrap().is_empty());
    assert!(matches!(repository.journal_since(&store, 0, 0), Err(Error::Substrate(_))));
}
