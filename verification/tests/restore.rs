use rrd_store::archive::{
    ArchiveHeader, LogicalArchiveCheckpoint, LogicalArchiveOperation, ReplayedAction, RestoreReceipt,
};
use rrd_store::restore::{restore_step, RestoreAction, RestoreEvent, RestorePhase, RestoreState};
use rrd_store::Error;

fn header() -> ArchiveHeader {
    ArchiveHeader { claim_sequence: 2, runtime_cursor: 3, action_count: 2 }
}

fn commit() -> ReplayedAction {
    ReplayedAction::RuntimeCommit { expected_cursor: 0, mutations: 3, claims: 1, audit_sha256: "ab".repeat(32) }
}

fn opened(target_exists: bool, receipt_exists: bool, staging_exists: bool, claims: u64, cursor: u64) -> RestoreEvent {
    RestoreEvent::Opened { target_exists, receipt_exists, staging_exists, staging_claims: claims, staging_cursor: cursor }
}

#[test]
fn a_fresh_restore_replays_every_action_then_publishes() {
    let (s, a) = restore_step(RestoreState::new(header()), opened(false, false, false, 0, 0)).unwrap();
    assert_eq!(a, RestoreAction::ReconcileArchive);
    assert_eq!(s.phase, RestorePhase::Reconciling);
    let (s, a) = restore_step(s, RestoreEvent::Action { ordinal: 1, action: ReplayedAction::StandaloneClaim, payload_bytes: 10 }).unwrap();
    assert_eq!(a, RestoreAction::Continue);
    let (s, a) = restore_step(s, RestoreEvent::Reconciled { receipt: None }).unwrap();
    assert_eq!(a, RestoreAction::WriteReceiptAndReplay);
    let (s, a) = restore_step(s, RestoreEvent::Action { ordinal: 1, action: ReplayedAction::StandaloneClaim, payload_bytes: 10 }).unwrap();
    match a {
        RestoreAction::Apply { progress } => {
            assert_eq!(progress.operation, LogicalArchiveOperation::Restore);
            assert_eq!(progress.checkpoint, LogicalArchiveCheckpoint::ActionDurable);
            assert_eq!((progress.completed_actions, progress.action_count, progress.claim_sequence, progress.runtime_cursor), (1, 2, 1, 0));
        }
        other => panic!("unexpected {other:?}"),
    }
    let (s, a) = restore_step(s, RestoreEvent::Action { ordinal: 2, action: commit(), payload_bytes: 20 }).unwrap();
    assert!(matches!(a, RestoreAction::Apply { progress } if progress.completed_actions == 2 && progress.claim_sequence == 2 && progress.runtime_cursor == 3));
    assert_eq!(s.prefix.payload_bytes, 30);
    assert_eq!(s.prefix.runtime_audit_sha256, Some("ab".repeat(32)));
    let (s, a) = restore_step(s, RestoreEvent::Replayed { matches_expected: true }).unwrap();
    assert_eq!(a, RestoreAction::VerifyAndPublish);
    let (s, _) = restore_step(s, RestoreEvent::Published).unwrap();
    assert_eq!(s.phase, RestorePhase::Done);
    assert!(!s.resumed);
}

#[test]
fn a_resumed_restore_skips_the_prefix_staging_holds() {
    let (s, _) = restore_step(RestoreState::new(header()), opened(false, true, true, 1, 0)).unwrap();
    assert!(s.resumed);
    let (s, a) = restore_step(s, RestoreEvent::Action { ordinal: 1, action: ReplayedAction::StandaloneClaim, payload_bytes: 10 }).unwrap();
    assert_eq!(a, RestoreAction::VerifyPresent { claim_sequence: 0, runtime_cursor: 0 });
    let (s, a) = restore_step(s, RestoreEvent::Action { ordinal: 2, action: commit(), payload_bytes: 20 }).unwrap();
    assert_eq!(a, RestoreAction::Continue);
    assert_eq!(s.prefix.completed_actions, 1);
    let ahead = RestoreReceipt {
        format_version: 1,
        target_name: "db".into(),
        archive_sha256: "cd".repeat(32),
        action_count: 2,
        completed_actions: 2,
        claim_sequence: 2,
        runtime_cursor: 3,
        runtime_audit_sha256: None,
    };
    assert!(matches!(restore_step(s.clone(), RestoreEvent::Reconciled { receipt: Some(ahead) }), Err(Error::Archive(_))));
    let (s, _) = restore_step(s, RestoreEvent::Reconciled { receipt: None }).unwrap();
    let (s, a) = restore_step(s, RestoreEvent::Action { ordinal: 1, action: ReplayedAction::StandaloneClaim, payload_bytes: 10 }).unwrap();
    assert_eq!(a, RestoreAction::Continue);
    assert_eq!(s.prefix.completed_actions, 1);
}

#[test]
fn refused_restores() {
    assert!(matches!(restore_step(RestoreState::new(header()), opened(true, false, false, 0, 0)), Err(Error::Archive(_))));
    assert!(matches!(restore_step(RestoreState::new(header()), opened(false, true, false, 0, 0)), Err(Error::Archive(_))));
    assert!(matches!(restore_step(RestoreState::new(header()), opened(false, false, true, 3, 0)), Err(Error::Archive(_))));
    assert!(matches!(restore_step(RestoreState::new(header()), RestoreEvent::Published), Err(Error::Archive(_))));
    let (s, _) = restore_step(RestoreState::new(header()), opened(false, false, false, 0, 0)).unwrap();
    let (s, _) = restore_step(s, RestoreEvent::Reconciled { receipt: None }).unwrap();
    assert!(matches!(restore_step(s, RestoreEvent::Replayed { matches_expected: false }), Err(Error::Archive(_))));
}
