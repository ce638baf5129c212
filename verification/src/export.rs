//! The decisions of exporting a stable logical cut to an archive.
//!
//! An export writes a private partial archive beside its destination and a
//! checksummed receipt of the durable prefix. It refuses an existing
//! destination or a receipt without its partial archive, publishes a
//! partial archive that is already finalized for the same cut, discards a
//! partial cut whose source moved on, and otherwise streams the source,
//! comparing each action with the durable prefix and appending the rest,
//! before finalizing and publishing the archive.
//!
//! [`export_step`] takes the state and what the caller observed or did, and
//! gives the next state and what the caller does next; the caller performs
//! the file and database work.

use crate::archive::{
    watermarks_after, action_watermarks, ArchiveHeader, LogicalArchiveCheckpoint, LogicalArchiveOperation,
    LogicalArchiveProgress, ReplayedAction,
};
use crate::error::{text, Error, Result};
use vstd::prelude::*;

verus! {

/// Where an export stands.
#[derive(Debug, Clone, Copy, PartialEq, Eq, Structural)]
pub enum ExportPhase {
    /// Nothing checked yet.
    Opening,
    /// The partial archive exists; its durable prefix is being scanned.
    Scanning,
    /// The prefix and receipt agree; the source's watermarks are being read.
    CheckingSource,
    /// Streaming the source against the prefix and appending the rest.
    Streaming,
    /// Every action is durable; the archive is being finalized.
    Finalizing,
    /// The archive was published.
    Done,
    /// The partial cut was stale and is discarded; the export is refused.
    Discarded,
}

/// The state of one export: its phase, the cut the source declares, and the
/// durable prefix's action count and watermarks.
#[derive(Debug, Clone, Copy, PartialEq, Eq, Structural)]
pub struct ExportState {
    pub phase: ExportPhase,
    pub header: ArchiveHeader,
    pub completed_actions: u64,
    pub claim_sequence: u64,
    pub runtime_cursor: u64,
}

/// What the caller observed or did.
#[derive(Debug, Clone, PartialEq, Eq)]
pub enum ExportEvent {
    /// Whether the destination, the receipt and the partial archive
    /// existed, and, for a partial archive that inspects as finalized,
    /// whether its inventory matches the source cut.
    Opened { destination_exists: bool, receipt_exists: bool, partial_exists: bool, finalized_matches: Option<bool> },
    /// The durable prefix of the partial archive, and the completed action
    /// count of its receipt, checked against the destination, cut and
    /// prefix, where there is a receipt.
    Scanned { prefix_header: ArchiveHeader, completed_actions: u64, claim_sequence: u64, runtime_cursor: u64, receipt_completed: Option<u64> },
    /// The source's watermarks as of now.
    SourceAt { claim_sequence: u64, runtime_cursor: u64 },
    /// The next source action, and whether the durable prefix already holds
    /// it (compared byte for byte).
    SourceAction { action: ReplayedAction, in_prefix: bool },
    /// Streaming failed; whether the source advanced meanwhile.
    StreamFailed { source_advanced: bool },
    /// The stream ended; whether what it emitted is the validated source.
    Streamed { matches_expected: bool },
    /// The archive was finalized with `action_count` actions; whether its
    /// audit head is the validated source's.
    Finalized { action_count: u64, audit_matches: bool },
}

/// What the caller does next.
#[derive(Debug, Clone, Copy, PartialEq, Eq, Structural)]
pub enum ExportAction {
    /// Create the partial archive with the header, write the receipt of its
    /// empty prefix, then scan the prefix.
    CreatePartial,
    /// Scan the durable prefix of the partial archive and check its receipt.
    ScanPrefix,
    /// Rename the finalized partial archive to the destination and remove the receipt.
    PublishFinalized,
    /// Remove the partial archive and its receipt, and refuse the export.
    DiscardArtifacts,
    /// Write the receipt of the durable prefix, then read the source's watermarks.
    WriteReceipt,
    /// Read the source's watermarks.
    ReadSource,
    /// Stream the source.
    StreamSource,
    /// Nothing to do for this event; go on.
    Continue,
    /// Append this action, sync, report `progress`, write the receipt of
    /// the durable prefix, and report the same progress at the receipt.
    Append { progress: LogicalArchiveProgress },
    /// Keep the artifacts for the next call, and refuse the export.
    KeepArtifacts,
    /// Finalize the archive.
    Finalize,
    /// Report `progress`, rename the archive to the destination and remove the receipt.
    Publish { progress: LogicalArchiveProgress },
}

/// The export progress at a checkpoint.
pub open spec fn export_progress(checkpoint: LogicalArchiveCheckpoint, completed: u64, action_count: u64, claims: u64, cursor: u64) -> LogicalArchiveProgress {
    LogicalArchiveProgress {
        operation: LogicalArchiveOperation::Export,
        checkpoint,
        completed_actions: completed,
        action_count,
        claim_sequence: claims,
        runtime_cursor: cursor,
    }
}

/// The next state and action after `event`; none where the export is
/// refused outright.
pub open spec fn spec_export_step(s: ExportState, event: ExportEvent) -> Option<(ExportState, ExportAction)> {
    match (s.phase, event) {
        (ExportPhase::Opening, ExportEvent::Opened { destination_exists, receipt_exists, partial_exists, finalized_matches }) => {
            if destination_exists || (receipt_exists && !partial_exists) {
                None
            } else if !partial_exists {
                Some((ExportState { phase: ExportPhase::Scanning, ..s }, ExportAction::CreatePartial))
            } else {
                match finalized_matches {
                    Some(true) => Some((ExportState { phase: ExportPhase::Done, ..s }, ExportAction::PublishFinalized)),
                    Some(false) => Some((ExportState { phase: ExportPhase::Discarded, ..s }, ExportAction::DiscardArtifacts)),
                    None => Some((ExportState { phase: ExportPhase::Scanning, ..s }, ExportAction::ScanPrefix)),
                }
            }
        },
        (ExportPhase::Scanning, ExportEvent::Scanned { prefix_header, completed_actions, claim_sequence, runtime_cursor, receipt_completed }) => {
            if prefix_header != s.header {
                Some((ExportState { phase: ExportPhase::Discarded, ..s }, ExportAction::DiscardArtifacts))
            } else {
                let next = ExportState { phase: ExportPhase::CheckingSource, completed_actions, claim_sequence, runtime_cursor, ..s };
                match receipt_completed {
                    Some(c) => if c == completed_actions {
                        Some((next, ExportAction::ReadSource))
                    } else {
                        Some((next, ExportAction::WriteReceipt))
                    },
                    None => Some((next, ExportAction::WriteReceipt)),
                }
            }
        },
        (ExportPhase::CheckingSource, ExportEvent::SourceAt { claim_sequence, runtime_cursor }) => {
            if claim_sequence != s.header.claim_sequence || runtime_cursor != s.header.runtime_cursor {
                Some((ExportState { phase: ExportPhase::Discarded, ..s }, ExportAction::DiscardArtifacts))
            } else {
                Some((ExportState { phase: ExportPhase::Streaming, ..s }, ExportAction::StreamSource))
            }
        },
        (ExportPhase::Streaming, ExportEvent::SourceAction { action, in_prefix }) => {
            if in_prefix {
                Some((s, ExportAction::Continue))
            } else if s.completed_actions == u64::MAX {
                None
            } else {
                match watermarks_after(action, s.claim_sequence, s.runtime_cursor) {
                    None => None,
                    Some((claims, cursor)) => {
                        let completed = (s.completed_actions + 1) as u64;
                        Some((ExportState { completed_actions: completed, claim_sequence: claims, runtime_cursor: cursor, ..s },
                            ExportAction::Append { progress: export_progress(LogicalArchiveCheckpoint::ActionDurable, completed,
                                s.header.action_count, claims, cursor) }))
                    },
                }
            }
        },
        (ExportPhase::Streaming, ExportEvent::StreamFailed { source_advanced }) => if source_advanced {
            Some((ExportState { phase: ExportPhase::Discarded, ..s }, ExportAction::DiscardArtifacts))
        } else {
            Some((s, ExportAction::KeepArtifacts))
        },
        (ExportPhase::Streaming, ExportEvent::Streamed { matches_expected }) => if matches_expected {
            Some((ExportState { phase: ExportPhase::Finalizing, ..s }, ExportAction::Finalize))
        } else {
            Some((ExportState { phase: ExportPhase::Discarded, ..s }, ExportAction::DiscardArtifacts))
        },
        (ExportPhase::Finalizing, ExportEvent::Finalized { action_count, audit_matches }) => if audit_matches {
            Some((ExportState { phase: ExportPhase::Done, ..s }, ExportAction::Publish {
                progress: export_progress(LogicalArchiveCheckpoint::ArchiveFinalized, action_count, action_count,
                    s.claim_sequence, s.runtime_cursor),
            }))
        } else {
            Some((ExportState { phase: ExportPhase::Discarded, ..s }, ExportAction::DiscardArtifacts))
        },
        _ => None,
    }
}

impl ExportState {
    /// An export of a source whose validated cut is `header`, before
    /// anything is checked; its durable prefix is empty.
    pub fn new(header: ArchiveHeader) -> (s: Self)
        ensures
            s == (ExportState { phase: ExportPhase::Opening, header, completed_actions: 0, claim_sequence: 0, runtime_cursor: 0 }),
    {
        ExportState { phase: ExportPhase::Opening, header, completed_actions: 0, claim_sequence: 0, runtime_cursor: 0 }
    }
}

/// Decides the next state and action of an export after `event`: refused
/// exactly where [`spec_export_step`] gives none.
pub fn export_step(s: ExportState, event: ExportEvent) -> (r: Result<(ExportState, ExportAction)>)
    ensures
        match spec_export_step(s, event) {
            Some(next) => r == Ok::<(ExportState, ExportAction), Error>(next),
            None => r is Err,
        },
        r matches Err(e) ==> e is Archive || e is SequenceOverflow,
{
    match (s.phase, event) {
        (ExportPhase::Opening, ExportEvent::Opened { destination_exists, receipt_exists, partial_exists, finalized_matches }) => {
            if destination_exists {
                return Err(Error::Archive(text("archive target already exists")));
            }
            if receipt_exists && !partial_exists {
                return Err(Error::Archive(text("logical export receipt exists without its partial archive")));
            }
            if !partial_exists {
                return Ok((ExportState { phase: ExportPhase::Scanning, ..s }, ExportAction::CreatePartial));
            }
            match finalized_matches {
                Some(true) => Ok((ExportState { phase: ExportPhase::Done, ..s }, ExportAction::PublishFinalized)),
                Some(false) => Ok((ExportState { phase: ExportPhase::Discarded, ..s }, ExportAction::DiscardArtifacts)),
                None => Ok((ExportState { phase: ExportPhase::Scanning, ..s }, ExportAction::ScanPrefix)),
            }
        },
        (ExportPhase::Scanning, ExportEvent::Scanned { prefix_header, completed_actions, claim_sequence, runtime_cursor, receipt_completed }) => {
            if prefix_header != s.header {
                return Ok((ExportState { phase: ExportPhase::Discarded, ..s }, ExportAction::DiscardArtifacts));
            }
            let next = ExportState { phase: ExportPhase::CheckingSource, completed_actions, claim_sequence, runtime_cursor, ..s };
            match receipt_completed {
                Some(c) => if c == completed_actions {
                    Ok((next, ExportAction::ReadSource))
                } else {
                    Ok((next, ExportAction::WriteReceipt))
                },
                None => Ok((next, ExportAction::WriteReceipt)),
            }
        },
        (ExportPhase::CheckingSource, ExportEvent::SourceAt { claim_sequence, runtime_cursor }) => {
            if claim_sequence != s.header.claim_sequence || runtime_cursor != s.header.runtime_cursor {
                Ok((ExportState { phase: ExportPhase::Discarded, ..s }, ExportAction::DiscardArtifacts))
            } else {
                Ok((ExportState { phase: ExportPhase::Streaming, ..s }, ExportAction::StreamSource))
            }
        },
        (ExportPhase::Streaming, ExportEvent::SourceAction { action, in_prefix }) => {
            if in_prefix {
                return Ok((s, ExportAction::Continue));
            }
            if s.completed_actions == u64::MAX {
                return Err(Error::Archive(text("archive action counter overflow")));
            }
            let (claims, cursor) = match action_watermarks(&action, s.claim_sequence, s.runtime_cursor) {
                Ok(w) => w,
                Err(e) => {
                    return Err(e);
                },
            };
            let completed = s.completed_actions + 1;
            let progress = LogicalArchiveProgress {
                operation: LogicalArchiveOperation::Export,
                checkpoint: LogicalArchiveCheckpoint::ActionDurable,
                completed_actions: completed,
                action_count: s.header.action_count,
                claim_sequence: claims,
                runtime_cursor: cursor,
            };
            Ok((ExportState { completed_actions: completed, claim_sequence: claims, runtime_cursor: cursor, ..s },
                ExportAction::Append { progress }))
        },
        (ExportPhase::Streaming, ExportEvent::StreamFailed { source_advanced }) => {
            if source_advanced {
                Ok((ExportState { phase: ExportPhase::Discarded, ..s }, ExportAction::DiscardArtifacts))
            } else {
                Ok((s, ExportAction::KeepArtifacts))
            }
        },
        (ExportPhase::Streaming, ExportEvent::Streamed { matches_expected }) => {
            if matches_expected {
                Ok((ExportState { phase: ExportPhase::Finalizing, ..s }, ExportAction::Finalize))
            } else {
                Ok((ExportState { phase: ExportPhase::Discarded, ..s }, ExportAction::DiscardArtifacts))
            }
        },
        (ExportPhase::Finalizing, ExportEvent::Finalized { action_count, audit_matches }) => {
            if audit_matches {
                let progress = LogicalArchiveProgress {
                    operation: LogicalArchiveOperation::Export,
                    checkpoint: LogicalArchiveCheckpoint::ArchiveFinalized,
                    completed_actions: action_count,
                    action_count,
                    claim_sequence: s.claim_sequence,
                    runtime_cursor: s.runtime_cursor,
                };
                Ok((ExportState { phase: ExportPhase::Done, ..s }, ExportAction::Publish { progress }))
            } else {
                Ok((ExportState { phase: ExportPhase::Discarded, ..s }, ExportAction::DiscardArtifacts))
            }
        },
        _ => Err(Error::Archive(text("logical export event does not fit its phase"))),
    }
}

} // verus!
