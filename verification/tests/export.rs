use rrd_store::archive::{ArchiveHeader, LogicalArchiveCheckpoint, LogicalArchiveOperation, ReplayedAction};
use rrd_store::export::{export_step, ExportAction, ExportEvent, ExportPhase, ExportState};
use rrd_store::Error;

fn header() -> ArchiveHeader {
    ArchiveHeader { claim_sequence: 2, runtime_cursor: 3, action_count: 2 }
}

fn commit() -> ReplayedAction {
    ReplayedAction::RuntimeCommit { expected_cursor: 0, mutations: 3, claims: 1, audit_sha256: "ab".repeat(32) }
}

#[test]
fn a_fresh_export_streams_appends_and_publishes() {
    let s = ExportState::new(header());
    let opened = ExportEvent::Opened { destination_exists: false, receipt_exists: false, partial_exists: false, finalized_matches: None };
    let (s, a) = export_step(s, opened).unwrap();
    assert_eq!(a, ExportAction::CreatePartial);
    let scanned = ExportEvent::Scanned { prefix_header: header(), completed_actions: 0, claim_sequence: 0, runtime_cursor: 0, receipt_completed: Some(0) };
    let (s, a) = export_step(s, scanned).unwrap();
    assert_eq!(a, ExportAction::ReadSource);
    let (s, a) = export_step(s, ExportEvent::SourceAt { claim_sequence: 2, runtime_cursor: 3 }).unwrap();
    assert_eq!(a, ExportAction::StreamSource);
    let (s, a) = export_step(s, ExportEvent::SourceAction { action: ReplayedAction::StandaloneClaim, in_prefix: false }).unwrap();
    match a {
        ExportAction::Append { progress } => {
            assert_eq!(progress.operation, LogicalArchiveOperation::Export);
            assert_eq!(progress.checkpoint, LogicalArchiveCheckpoint::ActionDurable);
            assert_eq!((progress.completed_actions, progress.action_count, progress.claim_sequence, progress.runtime_cursor), (1, 2, 1, 0));
        }
        other => panic!("unexpected {other:?}"),
    }
    let (s, _) = export_step(s, ExportEvent::SourceAction { action: commit(), in_prefix: false }).unwrap();
    assert_eq!((s.completed_actions, s.claim_sequence, s.runtime_cursor), (2, 2, 3));
    let (s, a) = export_step(s, ExportEvent::Streamed { matches_expected: true }).unwrap();
    assert_eq!(a, ExportAction::Finalize);
    let (s, a) = export_step(s, ExportEvent::Finalized { action_count: 2, audit_matches: true }).unwrap();
    assert!(matches!(a, ExportAction::Publish { progress } if progress.checkpoint == LogicalArchiveCheckpoint::ArchiveFinalized && progress.completed_actions == 2));
    assert_eq!(s.phase, ExportPhase::Done);
}

#[test]
fn a_stale_or_finished_partial_cut_is_settled_first() {
    let finished = ExportEvent::Opened { destination_exists: false, receipt_exists: true, partial_exists: true, finalized_matches: Some(true) };
    assert_eq!(export_step(ExportState::new(header()), finished).unwrap().1, ExportAction::PublishFinalized);
    let stale = ExportEvent::Opened { destination_exists: false, receipt_exists: true, partial_exists: true, finalized_matches: Some(false) };
    let (s, a) = export_step(ExportState::new(header()), stale).unwrap();
    assert_eq!((s.phase, a), (ExportPhase::Discarded, ExportAction::DiscardArtifacts));
    let partial = ExportEvent::Opened { destination_exists: false, receipt_exists: false, partial_exists: true, finalized_matches: None };
    let (s, a) = export_step(ExportState::new(header()), partial).unwrap();
    assert_eq!(a, ExportAction::ScanPrefix);
    let moved = ArchiveHeader { claim_sequence: 5, ..header() };
    let scanned = ExportEvent::Scanned { prefix_header: moved, completed_actions: 0, claim_sequence: 0, runtime_cursor: 0, receipt_completed: None };
    assert_eq!(export_step(s, scanned).unwrap().1, ExportAction::DiscardArtifacts);
}

#[test]
fn a_resumed_export_skips_its_durable_prefix() {
    let partial = ExportEvent::Opened { destination_exists: false, receipt_exists: true, partial_exists: true, finalized_matches: None };
    let (s, _) = export_step(ExportState::new(header()), partial).unwrap();
    let scanned = ExportEvent::Scanned { prefix_header: header(), completed_actions: 1, claim_sequence: 1, runtime_cursor: 0, receipt_completed: Some(0) };
    let (s, a) = export_step(s, scanned).unwrap();
    assert_eq!(a, ExportAction::WriteReceipt);
    assert_eq!(export_step(s, ExportEvent::SourceAt { claim_sequence: 3, runtime_cursor: 3 }).unwrap().1, ExportAction::DiscardArtifacts);
    let (s, _) = export_step(s, ExportEvent::SourceAt { claim_sequence: 2, runtime_cursor: 3 }).unwrap();
    let (s, a) = export_step(s, ExportEvent::SourceAction { action: ReplayedAction::StandaloneClaim, in_prefix: true }).unwrap();
    assert_eq!(a, ExportAction::Continue);
    assert_eq!(s.completed_actions, 1);
    assert_eq!(export_step(s, ExportEvent::StreamFailed { source_advanced: false }).unwrap().1, ExportAction::KeepArtifacts);
}

#[test]
fn refused_exports() {
    let exists = ExportEvent::Opened { destination_exists: true, receipt_exists: false, partial_exists: false, finalized_matches: None };
    assert!(matches!(export_step(ExportState::new(header()), exists), Err(Error::Archive(_))));
    let orphan = ExportEvent::Opened { destination_exists: false, receipt_exists: true, partial_exists: false, finalized_matches: None };
    assert!(matches!(export_step(ExportState::new(header()), orphan), Err(Error::Archive(_))));
    assert!(matches!(export_step(ExportState::new(header()), ExportEvent::Streamed { matches_expected: true }), Err(Error::Archive(_))));
}
