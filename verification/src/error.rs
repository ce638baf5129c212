//! Storage errors.

use vstd::prelude::*;

verus! {

pub type Result<T> = core::result::Result<T, Error>;

#[derive(Debug, Clone, PartialEq, Eq)]
pub enum Error {
    /// Propagated from the substrate.
    Substrate(String),
    /// Claim or key encoding or decoding failed.
    Codec(String),
    /// Propagated from the kernel.
    Kernel(String),
    /// Sequence allocation overflowed. Reported rather than saturated, so that
    /// overflow cannot degrade into silent key reuse.
    SequenceOverflow,
    /// A recorded watermark was not a valid sequence value.
    CorruptWatermark(String),
    /// A projection was halted by grounding and refuses reads and rebuilds
    /// until an operator resets it.
    Quarantined(String),
    /// Optimistic concurrency rejected a writer that observed an older head.
    RuntimeConflict { expected: u64, actual: u64 },
    /// One accepted client idempotency key was rebound to different content.
    IdempotencyConflict(String),
    /// A control-plane transition observed different materialized state.
    ControlConflict(String),
    /// A relation or event named a record that is not present in its scope.
    DanglingRuntimeReference(String),
    /// A catalogue-bound retirement named no live value at its effective time.
    RuntimeTargetNotFound(String),
    /// A typed write was attempted before its scope installed a registry.
    RuntimeSchemaMissing(String),
    /// A schema update skipped or repeated a persisted revision.
    RuntimeSchemaConflict { expected: u64, actual: u64 },
    /// A leased snapshot is not present in the authoritative snapshot catalog.
    SnapshotNotFound(String),
    /// A leased snapshot was presented after its expiration instant.
    SnapshotExpired { id: String, expired_at: u64 },
    /// A caller supplied fields that do not match the persisted snapshot with
    /// the same identity.
    SnapshotMismatch(String),
    /// A stamped transaction read names a cursor that is not retained.
    ReadStampUnavailable(String),
    /// A stamped transaction read does not match the retained hash/schema state.
    ReadStampMismatch(String),
    /// Object-tier I/O or capability error.
    Object(String),
    /// A transport-classified remote failure that the bounded object retry
    /// policy may repeat. All other errors fail immediately.
    RemoteObjectTransient(String),
    /// Explicit storage migration failed closed.
    Migration(String),
    /// Logical archive export, validation, or restore failed closed.
    Archive(String),
    /// A referenced immutable object is absent.
    ObjectMissing(String),
    /// Stored bytes do not match their content address.
    ObjectCorrupt { expected: String, actual: String },
    /// Stored bytes match the digest but not the committed length evidence.
    ObjectLengthMismatch { expected: u64, actual: u64 },
    /// Deterministic failure-injection boundary used by crash tests.
    FaultInjected(&'static str),
    /// A governed-function record violates its physical constraints.
    FunctionConstraint(String),
    /// An index binding violates its physical constraints.
    IndexConstraint(String),
    /// A storage transaction observed a key written after its snapshot.
    TransactionConflict { snapshot_sequence: u64, conflicting_sequence: u64 },
    /// A stamped direct read exceeded its key-examination budget.
    RuntimeReadBudgetExceeded { limit: u64, observed: u64 },
}

/// An owned copy of a static message.
pub fn text(message: &str) -> (s: String)
    ensures
        s@ == message@,
{
    message.to_owned()
}

} // verus!

verus! {

/// `std::string::String::push_str`: appends `tail` to `s`.
#[verifier::external_body]
pub(crate) fn push_str(s: &mut String, tail: &str)
    ensures
        final(s)@ == old(s)@ + tail@,
{
    s.push_str(tail);
}

/// `head` followed by `tail`.
pub fn join(head: &str, tail: &str) -> (s: String)
    ensures
        s@ == head@ + tail@,
{
    let mut s = head.to_owned();
    push_str(&mut s, tail);
    s
}

} // verus!
