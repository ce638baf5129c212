//! The decisions of restoring a logical archive into a new root.
//!
//! A restore runs through a private staging database beside its target and
//! a checksummed receipt. It opens (refusing an existing target, a receipt
//! without its staging database, or staging ahead of the archive),
//! reconciles the archive prefix that staging already holds, checks a
//! resumed receipt against that prefix, replays the remaining actions one
//! by one, and finally verifies and publishes the staging database.
//!
//! [`restore_step`] takes the state and what the caller observed or did,
//! and gives the next state and what the caller does next; the caller
//! performs the file and database work.

use crate::archive::{
    advance_prefix, advanced_prefix, watermarks_after, action_watermarks, ArchiveHeader, LogicalArchiveCheckpoint,
    LogicalArchiveOperation, LogicalArchiveProgress, PrefixInventory, ReplayedAction, RestoreReceipt,
};
use crate::error::{text, Error, Result};
use vstd::prelude::*;

verus! {

/// Where a restore stands.
#[derive(Debug, Clone, Copy, PartialEq, Eq, Structural)]
pub enum RestorePhase {
    /// Nothing checked yet.
    Opening,
    /// Walking the archive to find the prefix staging already holds.
    Reconciling,
    /// Replaying the archive past that prefix.
    Replaying,
    /// Every action replayed; staging awaits verification and publication.
    Verifying,
    /// The staging database was published as the target.
    Done,
}

/// The state of one restore: its phase, the archive's declared cut, the
/// watermarks staging held when opened, whether staging existed already,
/// and the archive prefix restored so far.
#[derive(Debug, Clone, PartialEq, Eq)]
pub struct RestoreState {
    pub phase: RestorePhase,
    pub header: ArchiveHeader,
    pub staging_claims: u64,
    pub staging_cursor: u64,
    pub resumed: bool,
    pub prefix: PrefixInventory,
}

/// What the caller observed or did.
#[derive(Debug, Clone, PartialEq, Eq)]
pub enum RestoreEvent {
    /// Whether the target, the receipt and the staging database existed,
    /// and the watermarks of the staging database once opened.
    Opened { target_exists: bool, receipt_exists: bool, staging_exists: bool, staging_claims: u64, staging_cursor: u64 },
    /// The archive action at 1-based `ordinal`, of `payload_bytes` bytes.
    Action { ordinal: u64, action: ReplayedAction, payload_bytes: u64 },
    /// The reconciling walk reached the archive's end; the receipt found
    /// beside the target, checked against the archive and target, if any.
    Reconciled { receipt: Option<RestoreReceipt> },
    /// The replay reached the archive's end; whether what was replayed is
    /// the inventory the archive was validated as.
    Replayed { matches_expected: bool },
    /// Staging verified at the archive's watermarks and published.
    Published,
}

/// What the caller does next.
#[derive(Debug, Clone, Copy, PartialEq, Eq, Structural)]
pub enum RestoreAction {
    /// Walk the archive from its start, reporting each action.
    ReconcileArchive,
    /// Check that staging holds this action at these watermarks, then go on.
    VerifyPresent { claim_sequence: u64, runtime_cursor: u64 },
    /// Nothing to do for this event; go on.
    Continue,
    /// Write the receipt of the current prefix, then replay the archive.
    WriteReceiptAndReplay,
    /// Restore this action, report `progress`, write the receipt of the
    /// current prefix, and report the same progress at the receipt.
    Apply { progress: LogicalArchiveProgress },
    /// Flush, verify the watermarks, populate, remove the receipt and
    /// publish staging as the target.
    VerifyAndPublish,
}

/// The restored prefix's counters account for its actions.
pub open spec fn restore_state_wf(s: RestoreState) -> bool {
    s.prefix.standalone_claims + s.prefix.runtime_commits == s.prefix.completed_actions
}

/// The view of an optional digest.
pub open spec fn digest_view(o: Option<String>) -> Option<Seq<char>> {
    match o {
        Some(d) => Some(d@),
        None => None,
    }
}

/// A receipt is ahead of the prefix, or at it and different.
pub open spec fn receipt_conflicts(receipt: RestoreReceipt, prefix: PrefixInventory) -> bool {
    receipt.completed_actions > prefix.completed_actions || (receipt.completed_actions == prefix.completed_actions && (
        receipt.claim_sequence != prefix.claim_sequence || receipt.runtime_cursor != prefix.runtime_cursor
        || digest_view(receipt.runtime_audit_sha256) != digest_view(prefix.runtime_audit_sha256)))
}

/// The restore progress at a checkpoint.
pub open spec fn restore_progress(prefix: PrefixInventory, action_count: u64) -> LogicalArchiveProgress {
    LogicalArchiveProgress {
        operation: LogicalArchiveOperation::Restore,
        checkpoint: LogicalArchiveCheckpoint::ActionDurable,
        completed_actions: prefix.completed_actions,
        action_count,
        claim_sequence: prefix.claim_sequence,
        runtime_cursor: prefix.runtime_cursor,
    }
}

/// The next state and action after `event`; none where the restore is
/// refused.
pub open spec fn spec_restore_step(s: RestoreState, event: RestoreEvent) -> Option<(RestoreState, RestoreAction)> {
    match (s.phase, event) {
        (RestorePhase::Opening, RestoreEvent::Opened { target_exists, receipt_exists, staging_exists, staging_claims, staging_cursor }) => {
            if target_exists || (receipt_exists && !staging_exists) || staging_claims > s.header.claim_sequence
                || staging_cursor > s.header.runtime_cursor {
                None
            } else {
                Some((RestoreState { phase: RestorePhase::Reconciling, staging_claims, staging_cursor, resumed: staging_exists, ..s },
                    RestoreAction::ReconcileArchive))
            }
        },
        (RestorePhase::Reconciling, RestoreEvent::Action { ordinal, action, payload_bytes }) => {
            if s.prefix.claim_sequence == s.staging_claims && s.prefix.runtime_cursor == s.staging_cursor {
                Some((s, RestoreAction::Continue))
            } else {
                match watermarks_after(action, s.prefix.claim_sequence, s.prefix.runtime_cursor) {
                    None => None,
                    Some((claims, cursor)) => if claims > s.staging_claims || cursor > s.staging_cursor {
                        Some((s, RestoreAction::Continue))
                    } else {
                        match advanced_prefix(s.prefix, action, payload_bytes) {
                            None => None,
                            Some(p) => Some((RestoreState { prefix: p, ..s }, RestoreAction::VerifyPresent {
                                claim_sequence: s.prefix.claim_sequence,
                                runtime_cursor: s.prefix.runtime_cursor,
                            })),
                        }
                    },
                }
            }
        },
        (RestorePhase::Reconciling, RestoreEvent::Reconciled { receipt }) => {
            if s.prefix.claim_sequence != s.staging_claims || s.prefix.runtime_cursor != s.staging_cursor {
                None
            } else {
                match receipt {
                    Some(r) => if receipt_conflicts(r, s.prefix) {
                        None
                    } else {
                        Some((RestoreState { phase: RestorePhase::Replaying, ..s }, RestoreAction::WriteReceiptAndReplay))
                    },
                    None => Some((RestoreState { phase: RestorePhase::Replaying, ..s }, RestoreAction::WriteReceiptAndReplay)),
                }
            }
        },
        (RestorePhase::Replaying, RestoreEvent::Action { ordinal, action, payload_bytes }) => {
            if ordinal <= s.prefix.completed_actions {
                Some((s, RestoreAction::Continue))
            } else {
                match advanced_prefix(s.prefix, action, payload_bytes) {
                    None => None,
                    Some(p) => Some((RestoreState { prefix: p, ..s },
                        RestoreAction::Apply { progress: restore_progress(p, s.header.action_count) })),
                }
            }
        },
        (RestorePhase::Replaying, RestoreEvent::Replayed { matches_expected }) => if matches_expected {
            Some((RestoreState { phase: RestorePhase::Verifying, ..s }, RestoreAction::VerifyAndPublish))
        } else {
            None
        },
        (RestorePhase::Verifying, RestoreEvent::Published) => Some((RestoreState { phase: RestorePhase::Done, ..s }, RestoreAction::Continue)),
        _ => None,
    }
}

impl RestoreState {
    /// A restore of an archive declaring `header`, before anything is checked.
    pub fn new(header: ArchiveHeader) -> (s: Self)
        ensures
            restore_state_wf(s),
            s.phase == RestorePhase::Opening,
            s.header == header,
            s.resumed == false,
            s.prefix.header == header,
            s.prefix.completed_actions == 0 && s.prefix.standalone_claims == 0 && s.prefix.runtime_commits == 0,
            s.prefix.runtime_mutations == 0 && s.prefix.payload_bytes == 0 && s.prefix.prefix_bytes == 0,
            s.prefix.claim_sequence == 0 && s.prefix.runtime_cursor == 0,
            s.prefix.runtime_audit_sha256 is None && s.prefix.prefix_sha256@ == Seq::<char>::empty(),
    {
        RestoreState {
            phase: RestorePhase::Opening,
            header,
            staging_claims: 0,
            staging_cursor: 0,
            resumed: false,
            prefix: PrefixInventory {
                header,
                completed_actions: 0,
                standalone_claims: 0,
                runtime_commits: 0,
                runtime_mutations: 0,
                payload_bytes: 0,
                claim_sequence: 0,
                runtime_cursor: 0,
                runtime_audit_sha256: None,
                prefix_bytes: 0,
                prefix_sha256: String::new(),
            },
        }
    }
}

/// Whether two optional digests are equal.
fn digests_equal(a: &Option<String>, b: &Option<String>) -> (e: bool)
    ensures
        e == (digest_view(*a) == digest_view(*b)),
{
    match (a, b) {
        (Some(x), Some(y)) => x.eq(y),
        (None, None) => true,
        _ => false,
    }
}

/// The refusal of an event that does not fit the phase.
fn out_of_order() -> (e: Error)
    ensures
        e is Archive,
{
    Error::Archive(text("logical restore event does not fit its phase"))
}

/// Advances the prefix of `s` by one action, keeping the counters' account.
fn advance(s: RestoreState, action: &ReplayedAction, payload_bytes: u64) -> (r: Result<RestoreState>)
    requires
        restore_state_wf(s),
    ensures
        match advanced_prefix(s.prefix, *action, payload_bytes) {
            Some(p) => r matches Ok(n) && n == (RestoreState { prefix: p, ..s }) && restore_state_wf(n),
            None => r is Err,
        },
        r matches Err(e) ==> e is Archive || e is SequenceOverflow,
{
    let mut s = s;
    if s.prefix.completed_actions == u64::MAX {
        return Err(Error::Archive(text("restore action count overflow")));
    }
    match advance_prefix(&mut s.prefix, action, payload_bytes) {
        Ok(()) => Ok(s),
        Err(e) => Err(e),
    }
}

/// Decides the next state and action of a restore after `event`: refused
/// exactly where [`spec_restore_step`] gives none.
pub fn restore_step(s: RestoreState, event: RestoreEvent) -> (r: Result<(RestoreState, RestoreAction)>)
    requires
        restore_state_wf(s),
    ensures
        match spec_restore_step(s, event) {
            Some(next) => r matches Ok(x) && x == next && restore_state_wf(x.0),
            None => r is Err,
        },
        r matches Err(e) ==> e is Archive || e is SequenceOverflow,
{
    match (s.phase, event) {
        (RestorePhase::Opening, RestoreEvent::Opened { target_exists, receipt_exists, staging_exists, staging_claims, staging_cursor }) => {
            if target_exists {
                return Err(Error::Archive(text("restore target already exists")));
            }
            if receipt_exists && !staging_exists {
                return Err(Error::Archive(text("logical restore receipt exists without its staging database")));
            }
            if staging_claims > s.header.claim_sequence || staging_cursor > s.header.runtime_cursor {
                return Err(Error::Archive(text("logical restore staging is ahead of the selected archive")));
            }
            Ok((RestoreState { phase: RestorePhase::Reconciling, staging_claims, staging_cursor, resumed: staging_exists, ..s },
                RestoreAction::ReconcileArchive))
        },
        (RestorePhase::Reconciling, RestoreEvent::Action { ordinal: _, action, payload_bytes }) => {
            if s.prefix.claim_sequence == s.staging_claims && s.prefix.runtime_cursor == s.staging_cursor {
                return Ok((s, RestoreAction::Continue));
            }
            let (claims, cursor) = match action_watermarks(&action, s.prefix.claim_sequence, s.prefix.runtime_cursor) {
                Ok(w) => w,
                Err(e) => {
                    return Err(e);
                },
            };
            if claims > s.staging_claims || cursor > s.staging_cursor {
                return Ok((s, RestoreAction::Continue));
            }
            let claim_sequence = s.prefix.claim_sequence;
            let runtime_cursor = s.prefix.runtime_cursor;
            let n = advance(s, &action, payload_bytes)?;
            Ok((n, RestoreAction::VerifyPresent { claim_sequence, runtime_cursor }))
        },
        (RestorePhase::Reconciling, RestoreEvent::Reconciled { receipt }) => {
            if s.prefix.claim_sequence != s.staging_claims || s.prefix.runtime_cursor != s.staging_cursor {
                return Err(Error::Archive(text("logical restore staging does not end at an archive action boundary")));
            }
            match &receipt {
                Some(r) => {
                    if r.completed_actions > s.prefix.completed_actions || (r.completed_actions == s.prefix.completed_actions && (
                        r.claim_sequence != s.prefix.claim_sequence || r.runtime_cursor != s.prefix.runtime_cursor
                        || !digests_equal(&r.runtime_audit_sha256, &s.prefix.runtime_audit_sha256))) {
                        return Err(Error::Archive(text("logical restore receipt is ahead of or differs from staging")));
                    }
                },
                None => {},
            }
            Ok((RestoreState { phase: RestorePhase::Replaying, ..s }, RestoreAction::WriteReceiptAndReplay))
        },
        (RestorePhase::Replaying, RestoreEvent::Action { ordinal, action, payload_bytes }) => {
            if ordinal <= s.prefix.completed_actions {
                return Ok((s, RestoreAction::Continue));
            }
            let action_count = s.header.action_count;
            let n = advance(s, &action, payload_bytes)?;
            let progress = LogicalArchiveProgress {
                operation: LogicalArchiveOperation::Restore,
                checkpoint: LogicalArchiveCheckpoint::ActionDurable,
                completed_actions: n.prefix.completed_actions,
                action_count,
                claim_sequence: n.prefix.claim_sequence,
                runtime_cursor: n.prefix.runtime_cursor,
            };
            Ok((n, RestoreAction::Apply { progress }))
        },
        (RestorePhase::Replaying, RestoreEvent::Replayed { matches_expected }) => {
            if !matches_expected {
                return Err(Error::Archive(text("archive changed between validation and replay")));
            }
            Ok((RestoreState { phase: RestorePhase::Verifying, ..s }, RestoreAction::VerifyAndPublish))
        },
        (RestorePhase::Verifying, RestoreEvent::Published) => Ok((RestoreState { phase: RestorePhase::Done, ..s }, RestoreAction::Continue)),
        _ => Err(out_of_order()),
    }
}


/// The receipt found beside an interrupted restore decides whether it goes
/// on. Once reconciling has brought the restored prefix to the watermarks
/// staging holds, a receipt behind the prefix, or at it with the same claim
/// sequence, runtime cursor and audit digest, lets the restore replay the
/// rest (as does no receipt); a receipt ahead of the prefix, or at it with
/// another watermark or audit digest, refuses the restore.
pub proof fn lemma_reconciled_receipt_decides(s: RestoreState, receipt: Option<RestoreReceipt>)
    requires
        s.phase == RestorePhase::Reconciling,
        s.prefix.claim_sequence == s.staging_claims,
        s.prefix.runtime_cursor == s.staging_cursor,
    ensures
        ({
            let next = spec_restore_step(s, RestoreEvent::Reconciled { receipt });
            let goes_on = next == Some(((RestoreState { phase: RestorePhase::Replaying, ..s }), RestoreAction::WriteReceiptAndReplay));
            &&& receipt is None ==> goes_on
            &&& (receipt matches Some(r) && r.completed_actions < s.prefix.completed_actions) ==> goes_on
            &&& (receipt matches Some(r) && r.completed_actions == s.prefix.completed_actions && r.claim_sequence == s.prefix.claim_sequence
                && r.runtime_cursor == s.prefix.runtime_cursor && digest_view(r.runtime_audit_sha256) == digest_view(s.prefix.runtime_audit_sha256))
                ==> goes_on
            &&& (receipt matches Some(r) && r.completed_actions > s.prefix.completed_actions) ==> next is None
            &&& (receipt matches Some(r) && r.completed_actions == s.prefix.completed_actions && (r.claim_sequence != s.prefix.claim_sequence
                || r.runtime_cursor != s.prefix.runtime_cursor || digest_view(r.runtime_audit_sha256) != digest_view(s.prefix.runtime_audit_sha256)))
                ==> next is None
        }),
{
}

/// Reconciling must reach the watermarks staging holds: where the restored
/// prefix stops short of them or passes them, the end of the archive walk
/// refuses the restore, whatever receipt was found.
pub proof fn lemma_unreconciled_restore_is_refused(s: RestoreState, receipt: Option<RestoreReceipt>)
    requires
        s.phase == RestorePhase::Reconciling,
        s.prefix.claim_sequence != s.staging_claims || s.prefix.runtime_cursor != s.staging_cursor,
    ensures
        spec_restore_step(s, RestoreEvent::Reconciled { receipt }) is None,
{
}


/// Opening checks what the filesystem shows: a restore is refused where
/// the target already exists, where a receipt stands without its staging
/// database, or where staging holds watermarks past the archive's declared
/// cut; otherwise it goes on to reconcile, remembering staging's watermarks
/// and whether staging existed, with nothing restored yet.
pub proof fn lemma_opening_checks_the_filesystem(
    s: RestoreState,
    target_exists: bool,
    receipt_exists: bool,
    staging_exists: bool,
    staging_claims: u64,
    staging_cursor: u64,
)
    requires
        s.phase == RestorePhase::Opening,
    ensures
        ({
            let next = spec_restore_step(s, RestoreEvent::Opened { target_exists, receipt_exists, staging_exists, staging_claims, staging_cursor });
            let refused = target_exists || (receipt_exists && !staging_exists) || staging_claims > s.header.claim_sequence
                || staging_cursor > s.header.runtime_cursor;
            &&& refused ==> next is None
            &&& !refused ==> (next matches Some((t, a)) && a == RestoreAction::ReconcileArchive && t.phase == RestorePhase::Reconciling
                && t.staging_claims == staging_claims && t.staging_cursor == staging_cursor && t.resumed == staging_exists
                && t.prefix == s.prefix && t.header == s.header)
        }),
{
}

/// Replaying skips the actions staging already holds and applies each
/// later one once: an action at or before the restored prefix changes
/// nothing, and a later claim extends the prefix by exactly one action of
/// its payload's bytes and one claim sequence, reporting the new prefix.
pub proof fn lemma_replay_applies_each_action_once(s: RestoreState, ordinal: u64, action: ReplayedAction, payload_bytes: u64)
    requires
        s.phase == RestorePhase::Replaying,
    ensures
        ordinal <= s.prefix.completed_actions ==> spec_restore_step(s, RestoreEvent::Action { ordinal, action, payload_bytes })
            == Some((s, RestoreAction::Continue)),
        ({
            let next = spec_restore_step(s, RestoreEvent::Action { ordinal, action, payload_bytes });
            let t = next->Some_0.0;
            let a = next->Some_0.1;
            ordinal > s.prefix.completed_actions && action is StandaloneClaim && s.prefix.completed_actions < u64::MAX
                && s.prefix.payload_bytes + payload_bytes <= u64::MAX && s.prefix.claim_sequence < u64::MAX
                && s.prefix.standalone_claims < u64::MAX ==> {
                &&& next is Some
                &&& t.phase == s.phase
                &&& t.prefix.completed_actions == s.prefix.completed_actions + 1
                &&& t.prefix.claim_sequence == s.prefix.claim_sequence + 1
                &&& t.prefix.runtime_cursor == s.prefix.runtime_cursor
                &&& t.prefix.payload_bytes == s.prefix.payload_bytes + payload_bytes
                &&& t.prefix.standalone_claims == s.prefix.standalone_claims + 1
                &&& a is Apply
                &&& a->Apply_progress.completed_actions == t.prefix.completed_actions
                &&& a->Apply_progress.action_count == s.header.action_count
            }
        }),
{
}

/// A replay ends in verification and publication only where what was
/// replayed is the inventory the archive was validated as, and publication
/// finishes the restore.
pub proof fn lemma_replay_end_and_publication(s: RestoreState, matches_expected: bool)
    ensures
        s.phase == RestorePhase::Replaying ==> (spec_restore_step(s, RestoreEvent::Replayed { matches_expected }) is Some <==> matches_expected),
        ({
            let next = spec_restore_step(s, RestoreEvent::Replayed { matches_expected });
            s.phase == RestorePhase::Replaying && matches_expected ==> next is Some && next->Some_0.0.phase == RestorePhase::Verifying
                && next->Some_0.1 == RestoreAction::VerifyAndPublish && next->Some_0.0.prefix == s.prefix
        }),
        ({
            let next = spec_restore_step(s, RestoreEvent::Published);
            s.phase == RestorePhase::Verifying ==> next is Some && next->Some_0.0.phase == RestorePhase::Done && next->Some_0.1
                == RestoreAction::Continue
        }),
        s.phase != RestorePhase::Verifying ==> spec_restore_step(s, RestoreEvent::Published) is None,
{
}

} // verus!
