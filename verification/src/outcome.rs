//! Stable outcomes returned by canonical storage mutations.

use vstd::prelude::*;

verus! {

/// Claim sequences assigned by one atomic append.
#[derive(Debug, Clone, Copy, PartialEq, Eq)]
pub struct AppendOutcome {
    pub first_sequence: u64,
    pub last_sequence: u64,
    pub count: usize,
}

/// The result of a content-bound, idempotent claim append.
#[derive(Debug, Clone, PartialEq, Eq)]
pub struct IdempotentAppendOutcome {
    pub operation_sha256: String,
    pub append: AppendOutcome,
    pub idempotent_replay: bool,
}

impl AppendOutcome {
    /// The outcome of appending `count` claims after the watermark `start`:
    /// sequences `start + 1` through `start + count`, or none at all.
    pub fn after(start: u64, count: usize) -> (r: Option<Self>)
        ensures
            count == 0 ==> r == Some(AppendOutcome { first_sequence: start, last_sequence: start, count: 0 }),
            count > 0 && start + count <= u64::MAX ==> r == Some(AppendOutcome {
                first_sequence: (start + 1) as u64,
                last_sequence: (start + count) as u64,
                count,
            }),
            count > 0 && start + count > u64::MAX ==> r is None,
    {
        if count == 0 {
            return Some(AppendOutcome { first_sequence: start, last_sequence: start, count: 0 });
        }
        let n = count as u64;
        if start > u64::MAX - n {
            return None;
        }
        Some(AppendOutcome { first_sequence: start + 1, last_sequence: start + n, count })
    }
}

} // verus!
