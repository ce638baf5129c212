//! Logical archives: inventories, progress, resume receipts and the sibling
//! files an export or restore works through.

use crate::control::opt_string_view;
use crate::error::{join, text, Error, Result};
use vstd::prelude::*;

verus! {

/// Format version of logical archives.
pub const LOGICAL_ARCHIVE_VERSION: u16 = 1;

/// Version of the storage contract archives are written under.
pub const RRD_CONTRACT_VERSION: u16 = 1;

/// Format version of export and restore receipts.
pub const RECEIPT_VERSION: u16 = 1;

/// What a complete logical archive holds.
#[derive(Debug, Clone, PartialEq, Eq)]
pub struct LogicalArchiveInventory {
    pub format_version: u16,
    pub contract_version: u16,
    pub archive_sha256: String,
    pub action_count: u64,
    pub standalone_claims: u64,
    pub runtime_commits: u64,
    pub runtime_mutations: u64,
    pub payload_bytes: u64,
    pub claim_sequence: u64,
    pub runtime_cursor: u64,
    pub runtime_audit_sha256: Option<String>,
}

/// What restoring an archive into a new root did.
#[derive(Debug, Clone, PartialEq, Eq)]
pub struct LogicalRestoreReport {
    pub archive: String,
    pub target: String,
    pub inventory: LogicalArchiveInventory,
    pub reopened: bool,
    pub resumed: bool,
}

/// The direction of a logical archive operation.
#[derive(Debug, Clone, Copy, PartialEq, Eq, Structural)]
pub enum LogicalArchiveOperation {
    Export,
    Restore,
}

/// A durable point an export or restore reports.
#[derive(Debug, Clone, Copy, PartialEq, Eq, Structural)]
pub enum LogicalArchiveCheckpoint {
    ActionDurable,
    ReceiptDurable,
    ArchiveFinalized,
}

/// The progress of an export or restore at one checkpoint.
#[derive(Debug, Clone, Copy, PartialEq, Eq, Structural)]
pub struct LogicalArchiveProgress {
    pub operation: LogicalArchiveOperation,
    pub checkpoint: LogicalArchiveCheckpoint,
    pub completed_actions: u64,
    pub action_count: u64,
    pub claim_sequence: u64,
    pub runtime_cursor: u64,
}

/// The source cut an archive declares up front.
#[derive(Debug, Clone, Copy, PartialEq, Eq, Structural)]
pub struct ArchiveHeader {
    pub claim_sequence: u64,
    pub runtime_cursor: u64,
    pub action_count: u64,
}

/// What the durable prefix of a partial archive holds.
#[derive(Debug, Clone, PartialEq, Eq)]
pub struct PrefixInventory {
    pub header: ArchiveHeader,
    pub completed_actions: u64,
    pub standalone_claims: u64,
    pub runtime_commits: u64,
    pub runtime_mutations: u64,
    pub payload_bytes: u64,
    pub claim_sequence: u64,
    pub runtime_cursor: u64,
    pub runtime_audit_sha256: Option<String>,
    pub prefix_bytes: u64,
    pub prefix_sha256: String,
}

/// `value + 1`, or an archive error naming the counter.
pub fn checked_increment(value: u64, name: &str) -> (r: Result<u64>)
    ensures
        value < u64::MAX ==> r == Ok::<u64, Error>((value + 1) as u64),
        value == u64::MAX ==> (r matches Err(Error::Archive(m)) && m@ == name@ + " counter overflow"@),
{
    match value.checked_add(1) {
        Some(v) => Ok(v),
        None => Err(Error::Archive(join(name, " counter overflow"))),
    }
}

/// The counters of a replayed archive prefix.
#[derive(Debug, Clone, PartialEq, Eq)]
pub struct ReplayState {
    pub action_count: u64,
    pub standalone_claims: u64,
    pub runtime_commits: u64,
    pub runtime_mutations: u64,
    pub payload_bytes: u64,
    pub claim_sequence: u64,
    pub runtime_cursor: u64,
    pub runtime_audit_sha256: Option<String>,
}

/// What the replay accounting reads of one archive action whose record was
/// validated: a standalone claim, or a runtime commit with the cursor it
/// expects, its mutation and claim counts, and the digest of its audit
/// envelope.
#[derive(Debug, Clone, PartialEq, Eq)]
pub enum ReplayedAction {
    StandaloneClaim,
    RuntimeCommit { expected_cursor: u64, mutations: u64, claims: u64, audit_sha256: String },
}

/// The counters after `action`, of `payload_bytes` bytes: none where a
/// counter would overflow or a commit does not continue the runtime cursor.
pub open spec fn replay_step(s: ReplayState, action: ReplayedAction, payload_bytes: u64) -> Option<ReplayState> {
    if s.action_count == u64::MAX || s.payload_bytes + payload_bytes > u64::MAX {
        None
    } else {
        match action {
            ReplayedAction::StandaloneClaim => if s.claim_sequence == u64::MAX || s.standalone_claims == u64::MAX {
                None
            } else {
                Some(
                    ReplayState {
                        action_count: (s.action_count + 1) as u64,
                        standalone_claims: (s.standalone_claims + 1) as u64,
                        runtime_commits: s.runtime_commits,
                        runtime_mutations: s.runtime_mutations,
                        payload_bytes: (s.payload_bytes + payload_bytes) as u64,
                        claim_sequence: (s.claim_sequence + 1) as u64,
                        runtime_cursor: s.runtime_cursor,
                        runtime_audit_sha256: s.runtime_audit_sha256,
                    },
                )
            },
            ReplayedAction::RuntimeCommit { expected_cursor, mutations, claims, audit_sha256 } => if expected_cursor != s.runtime_cursor
                || s.runtime_cursor + mutations > u64::MAX || s.claim_sequence + claims > u64::MAX || s.runtime_commits == u64::MAX
                || s.runtime_mutations + mutations > u64::MAX {
                None
            } else {
                Some(
                    ReplayState {
                        action_count: (s.action_count + 1) as u64,
                        standalone_claims: s.standalone_claims,
                        runtime_commits: (s.runtime_commits + 1) as u64,
                        runtime_mutations: (s.runtime_mutations + mutations) as u64,
                        payload_bytes: (s.payload_bytes + payload_bytes) as u64,
                        claim_sequence: (s.claim_sequence + claims) as u64,
                        runtime_cursor: (s.runtime_cursor + mutations) as u64,
                        runtime_audit_sha256: Some(audit_sha256),
                    },
                )
            },
        }
    }
}

/// The step is refused by the runtime cursor or the claim sequence running
/// out, the first check to fail being one of those two.
pub open spec fn refused_by_sequence(s: ReplayState, action: ReplayedAction, payload_bytes: u64) -> bool {
    &&& s.action_count < u64::MAX
    &&& s.payload_bytes + payload_bytes <= u64::MAX
    &&& action matches ReplayedAction::RuntimeCommit { expected_cursor, mutations, claims, .. }
    &&& expected_cursor == s.runtime_cursor
    &&& (s.runtime_cursor + mutations > u64::MAX || s.claim_sequence + claims > u64::MAX)
}

/// The claim sequence and runtime cursor after `action`: none where either
/// would overflow.
pub open spec fn watermarks_after(action: ReplayedAction, claim_sequence: u64, runtime_cursor: u64) -> Option<(u64, u64)> {
    match action {
        ReplayedAction::StandaloneClaim => if claim_sequence == u64::MAX {
            None
        } else {
            Some(((claim_sequence + 1) as u64, runtime_cursor))
        },
        ReplayedAction::RuntimeCommit { mutations, claims, .. } => if claim_sequence + claims > u64::MAX || runtime_cursor + mutations > u64::MAX {
            None
        } else {
            Some(((claim_sequence + claims) as u64, (runtime_cursor + mutations) as u64))
        },
    }
}

/// The claim sequence and runtime cursor after restoring `action`.
pub fn action_watermarks(action: &ReplayedAction, claim_sequence: u64, runtime_cursor: u64) -> (r: Result<(u64, u64)>)
    ensures
        match watermarks_after(*action, claim_sequence, runtime_cursor) {
            Some(w) => r == Ok::<(u64, u64), Error>(w),
            None => r == Err::<(u64, u64), Error>(Error::SequenceOverflow),
        },
{
    match action {
        ReplayedAction::StandaloneClaim => match claim_sequence.checked_add(1) {
            Some(claims) => Ok((claims, runtime_cursor)),
            None => Err(Error::SequenceOverflow),
        },
        ReplayedAction::RuntimeCommit { mutations, claims, .. } => {
            let claims = match claim_sequence.checked_add(*claims) {
                Some(c) => c,
                None => {
                    return Err(Error::SequenceOverflow);
                },
            };
            match runtime_cursor.checked_add(*mutations) {
                Some(cursor) => Ok((claims, cursor)),
                None => Err(Error::SequenceOverflow),
            }
        },
    }
}

/// The restored prefix after one more action of `payload_bytes` bytes: none
/// where a counter or a watermark would overflow.
pub open spec fn advanced_prefix(p: PrefixInventory, action: ReplayedAction, payload_bytes: u64) -> Option<PrefixInventory> {
    if p.completed_actions == u64::MAX || p.payload_bytes + payload_bytes > u64::MAX {
        None
    } else {
        match watermarks_after(action, p.claim_sequence, p.runtime_cursor) {
            None => None,
            Some((claims, cursor)) => match action {
                ReplayedAction::StandaloneClaim => Some(
                    PrefixInventory {
                        completed_actions: (p.completed_actions + 1) as u64,
                        payload_bytes: (p.payload_bytes + payload_bytes) as u64,
                        claim_sequence: claims,
                        runtime_cursor: cursor,
                        standalone_claims: (p.standalone_claims + 1) as u64,
                        ..p
                    },
                ),
                ReplayedAction::RuntimeCommit { mutations, audit_sha256, .. } => if p.runtime_mutations + mutations > u64::MAX {
                    None
                } else {
                    Some(
                        PrefixInventory {
                            completed_actions: (p.completed_actions + 1) as u64,
                            payload_bytes: (p.payload_bytes + payload_bytes) as u64,
                            claim_sequence: claims,
                            runtime_cursor: cursor,
                            runtime_commits: (p.runtime_commits + 1) as u64,
                            runtime_mutations: (p.runtime_mutations + mutations) as u64,
                            runtime_audit_sha256: Some(audit_sha256),
                            ..p
                        },
                    )
                },
            },
        }
    }
}

/// Advances a restored prefix by one action of `payload_bytes` bytes; the
/// prefix is left as it was when the action is refused.
pub fn advance_prefix(prefix: &mut PrefixInventory, action: &ReplayedAction, payload_bytes: u64) -> (r: Result<()>)
    requires
        action is StandaloneClaim ==> old(prefix).standalone_claims < u64::MAX,
        action is RuntimeCommit ==> old(prefix).runtime_commits < u64::MAX,
    ensures
        r is Ok <==> advanced_prefix(*old(prefix), *action, payload_bytes) is Some,
        r is Ok ==> Some(*final(prefix)) == advanced_prefix(*old(prefix), *action, payload_bytes),
        r is Err ==> *final(prefix) == *old(prefix),
        r matches Err(e) ==> (e is SequenceOverflow <==> (old(prefix).completed_actions < u64::MAX && old(prefix).payload_bytes + payload_bytes
            <= u64::MAX && watermarks_after(*action, old(prefix).claim_sequence, old(prefix).runtime_cursor) is None)),
        r matches Err(e) ==> e is SequenceOverflow || e is Archive,
{
    let completed = match prefix.completed_actions.checked_add(1) {
        Some(c) => c,
        None => {
            return Err(Error::Archive(text("restore action count overflow")));
        },
    };
    let payload = match prefix.payload_bytes.checked_add(payload_bytes) {
        Some(total) => total,
        None => {
            return Err(Error::Archive(text("restore payload count overflow")));
        },
    };
    let (claims, cursor) = action_watermarks(action, prefix.claim_sequence, prefix.runtime_cursor)?;
    match action {
        ReplayedAction::StandaloneClaim => {
            prefix.standalone_claims = prefix.standalone_claims + 1;
        },
        ReplayedAction::RuntimeCommit { mutations, audit_sha256, .. } => {
            let runtime_mutations = match prefix.runtime_mutations.checked_add(*mutations) {
                Some(m) => m,
                None => {
                    return Err(Error::Archive(text("restore mutation count overflow")));
                },
            };
            prefix.runtime_commits = prefix.runtime_commits + 1;
            prefix.runtime_mutations = runtime_mutations;
            prefix.runtime_audit_sha256 = Some(audit_sha256.clone());
        },
    }
    prefix.completed_actions = completed;
    prefix.payload_bytes = payload;
    prefix.claim_sequence = claims;
    prefix.runtime_cursor = cursor;
    Ok(())
}

impl ReplayState {
    /// Accounts one validated archive action of `payload_bytes` bytes; the
    /// state is left as it was when the action is refused.
    pub fn accept(&mut self, action: &ReplayedAction, payload_bytes: u64) -> (r: Result<()>)
        ensures
            r is Ok <==> replay_step(*old(self), *action, payload_bytes) is Some,
            r is Ok ==> Some(*final(self)) == replay_step(*old(self), *action, payload_bytes),
            r is Err ==> *final(self) == *old(self),
            r matches Err(e) ==> (e is SequenceOverflow <==> refused_by_sequence(*old(self), *action, payload_bytes)),
            r matches Err(e) ==> e is SequenceOverflow || e is Archive,
    {
        let action_count = checked_increment(self.action_count, "archive action")?;
        let payload = match self.payload_bytes.checked_add(payload_bytes) {
            Some(total) => total,
            None => {
                return Err(Error::Archive(text("archive payload counter overflow")));
            },
        };
        match action {
            ReplayedAction::StandaloneClaim => {
                let claim_sequence = checked_increment(self.claim_sequence, "claim sequence")?;
                let standalone_claims = checked_increment(self.standalone_claims, "standalone claim")?;
                self.action_count = action_count;
                self.payload_bytes = payload;
                self.claim_sequence = claim_sequence;
                self.standalone_claims = standalone_claims;
            },
            ReplayedAction::RuntimeCommit { expected_cursor, mutations, claims, audit_sha256 } => {
                if *expected_cursor != self.runtime_cursor {
                    return Err(Error::Archive(text("runtime commit cursor is not replay-contiguous")));
                }
                let cursor = match self.runtime_cursor.checked_add(*mutations) {
                    Some(c) => c,
                    None => {
                        return Err(Error::SequenceOverflow);
                    },
                };
                let claim_sequence = match self.claim_sequence.checked_add(*claims) {
                    Some(c) => c,
                    None => {
                        return Err(Error::SequenceOverflow);
                    },
                };
                let runtime_commits = checked_increment(self.runtime_commits, "runtime commit")?;
                let runtime_mutations = match self.runtime_mutations.checked_add(*mutations) {
                    Some(m) => m,
                    None => {
                        return Err(Error::Archive(text("runtime mutation counter overflow")));
                    },
                };
                self.action_count = action_count;
                self.payload_bytes = payload;
                self.runtime_cursor = cursor;
                self.claim_sequence = claim_sequence;
                self.runtime_audit_sha256 = Some(audit_sha256.clone());
                self.runtime_commits = runtime_commits;
                self.runtime_mutations = runtime_mutations;
            },
        }
        Ok(())
    }

    /// The inventory of a prefix of `prefix_bytes` bytes hashing to
    /// `prefix_sha256`, after replaying it into this state.
    pub fn prefix(self, header: ArchiveHeader, prefix_bytes: u64, prefix_sha256: String) -> (p: PrefixInventory)
        ensures
            p == (PrefixInventory {
                header,
                completed_actions: self.action_count,
                standalone_claims: self.standalone_claims,
                runtime_commits: self.runtime_commits,
                runtime_mutations: self.runtime_mutations,
                payload_bytes: self.payload_bytes,
                claim_sequence: self.claim_sequence,
                runtime_cursor: self.runtime_cursor,
                runtime_audit_sha256: self.runtime_audit_sha256,
                prefix_bytes,
                prefix_sha256,
            }),
    {
        PrefixInventory {
            header,
            completed_actions: self.action_count,
            standalone_claims: self.standalone_claims,
            runtime_commits: self.runtime_commits,
            runtime_mutations: self.runtime_mutations,
            payload_bytes: self.payload_bytes,
            claim_sequence: self.claim_sequence,
            runtime_cursor: self.runtime_cursor,
            runtime_audit_sha256: self.runtime_audit_sha256,
            prefix_bytes,
            prefix_sha256,
        }
    }
}

/// The last component of a path, where it is a name.
pub uninterp spec fn path_file_name(path: Seq<char>) -> Option<Seq<char>>;

/// The path without its last component, where there is one.
pub uninterp spec fn path_parent(path: Seq<char>) -> Option<Seq<char>>;

/// `name` joined below `base`.
pub uninterp spec fn path_join(base: Seq<char>, name: Seq<char>) -> Seq<char>;

/// `std::path::Path::file_name`, as a string: the contract names the result
/// `path_file_name` of the path.
#[verifier::external_body]
fn std_file_name(path: &str) -> (r: Option<String>)
    ensures
        opt_string_view(r) == path_file_name(path@),
{
    std::path::Path::new(path).file_name().and_then(|name| name.to_str()).map(|name| name.to_owned())
}

/// `std::path::Path::parent`, as a string: the contract names the result
/// `path_parent` of the path.
#[verifier::external_body]
fn std_parent(path: &str) -> (r: Option<String>)
    ensures
        opt_string_view(r) == path_parent(path@),
{
    std::path::Path::new(path).parent().and_then(|parent| parent.to_str()).map(|parent| parent.to_owned())
}

/// `std::path::Path::join`, as a string: the contract names the result
/// `path_join` of the two paths.
#[verifier::external_body]
pub(crate) fn std_join(base: &str, name: &str) -> (r: String)
    ensures
        r@ == path_join(base@, name@),
{
    std::path::Path::new(base).join(name).to_string_lossy().into_owned()
}

/// The non-empty file name of a path.
pub fn file_name(path: &str) -> (r: Result<String>)
    ensures
        match path_file_name(path@) {
            Some(name) if name.len() > 0 => r matches Ok(s) && s@ == name,
            _ => r matches Err(Error::Archive(m)) && m@ == "archive path must have a UTF-8 file name"@,
        },
{
    match std_file_name(path) {
        Some(name) => {
            if name.as_str().is_empty() {
                Err(Error::Archive(text("archive path must have a UTF-8 file name")))
            } else {
                Ok(name)
            }
        },
        None => Err(Error::Archive(text("archive path must have a UTF-8 file name"))),
    }
}

/// The directory a path's siblings live in: its parent, or `.`.
pub open spec fn sibling_directory(target: Seq<char>) -> Seq<char> {
    match path_parent(target) {
        Some(parent) => parent,
        None => "."@,
    }
}

/// The hidden sibling `.{name}.{suffix}` of a path named `name`.
pub open spec fn sibling(target: Seq<char>, name: Seq<char>, suffix: Seq<char>) -> Seq<char> {
    path_join(sibling_directory(target), "."@ + name + "."@ + suffix)
}

/// The work file and receipt beside `target`: `.{name}.{work_suffix}` and
/// `.{name}.{receipt_suffix}` in its directory.
pub fn sibling_paths(target: &str, work_suffix: &str, receipt_suffix: &str) -> (r: Result<(String, String)>)
    ensures
        match path_file_name(target@) {
            Some(name) if name.len() > 0 => r matches Ok(p) && p.0@ == sibling(target@, name, work_suffix@)
                && p.1@ == sibling(target@, name, receipt_suffix@),
            _ => r matches Err(Error::Archive(_)),
        },
{
    let parent = match std_parent(target) {
        Some(p) => p,
        None => text("."),
    };
    let name = file_name(target)?;
    let hidden = join(".", name.as_str());
    let stem = join(hidden.as_str(), ".");
    let work = join(stem.as_str(), work_suffix);
    let receipt = join(stem.as_str(), receipt_suffix);
    proof {
        reveal_strlit(".");
        assert(stem@ == "."@ + name@ + "."@);
    }
    Ok((std_join(parent.as_str(), work.as_str()), std_join(parent.as_str(), receipt.as_str())))
}

/// The partial archive and export receipt beside a destination.
pub fn export_paths(destination: &str) -> (r: Result<(String, String)>)
    ensures
        match path_file_name(destination@) {
            Some(name) if name.len() > 0 => r matches Ok(p) && p.0@ == sibling(destination@, name, "rrd-export.partial"@)
                && p.1@ == sibling(destination@, name, "rrd-export.receipt.json"@),
            _ => r matches Err(Error::Archive(_)),
        },
{
    sibling_paths(destination, "rrd-export.partial", "rrd-export.receipt.json")
}

/// The staging root and restore receipt beside a restore target, named by
/// the first sixteen characters of the archive's digest.
pub fn restore_paths(target: &str, archive_sha256: &str) -> (r: Result<(String, String)>)
    ensures
        !vstd::utf8::is_char_boundary(vstd::string::StringSliceAdditionalSpecFns::spec_bytes(archive_sha256), 16) ==> (r matches Err(Error::Archive(m)) && m@ == "archive identity is not a SHA-256 digest"@),
        vstd::utf8::is_char_boundary(vstd::string::StringSliceAdditionalSpecFns::spec_bytes(archive_sha256), 16) ==> match path_file_name(target@) {
            Some(name) if name.len() > 0 => exists|suffix: Seq<char>| vstd::utf8::encode_utf8(suffix) == vstd::string::StringSliceAdditionalSpecFns::spec_bytes(archive_sha256).subrange(0, 16)
                && (r matches Ok(p) && p.0@ == sibling(target@, name, "rrd-restore-"@ + suffix + ".staging"@)
                && p.1@ == sibling(target@, name, "rrd-restore-"@ + suffix + ".receipt.json"@)),
            _ => r matches Err(Error::Archive(_)),
        },
{
    if !archive_sha256.is_char_boundary(16) {
        return Err(Error::Archive(text("archive identity is not a SHA-256 digest")));
    }
    let (suffix, _) = archive_sha256.split_at(16);
    let work = join(join("rrd-restore-", suffix).as_str(), ".staging");
    let receipt = join(join("rrd-restore-", suffix).as_str(), ".receipt.json");
    let r = sibling_paths(target, work.as_str(), receipt.as_str());
    proof {
        assert(vstd::utf8::encode_utf8(suffix@) == vstd::string::StringSliceAdditionalSpecFns::spec_bytes(suffix));
    }
    r
}

/// The durable progress of an interrupted export.
#[derive(Debug, Clone, PartialEq, Eq)]
pub struct ExportReceipt {
    pub format_version: u16,
    pub destination_name: String,
    pub claim_sequence: u64,
    pub runtime_cursor: u64,
    pub action_count: u64,
    pub expected_runtime_audit_sha256: Option<String>,
    pub completed_actions: u64,
    pub completed_claim_sequence: u64,
    pub completed_runtime_cursor: u64,
    pub completed_runtime_audit_sha256: Option<String>,
    pub standalone_claims: u64,
    pub runtime_commits: u64,
    pub runtime_mutations: u64,
    pub payload_bytes: u64,
    pub partial_bytes: u64,
    pub partial_sha256: String,
}

/// Equality of optional strings.
fn same_opt(a: &Option<String>, b: &Option<String>) -> (same: bool)
    ensures
        same == (opt_string_view(*a) == opt_string_view(*b)),
{
    match (a, b) {
        (None, None) => true,
        (Some(x), Some(y)) => *x == *y,
        _ => false,
    }
}

/// Equality of an optional string with an optional borrowed string.
fn same_opt_str(a: &Option<String>, b: Option<&str>) -> (same: bool)
    ensures
        same == (opt_string_view(*a) == crate::control::opt_str_view(b)),
{
    match (a, b) {
        (None, None) => true,
        (Some(x), Some(y)) => *x == text(y),
        _ => false,
    }
}

impl ExportReceipt {
    /// The receipt recording a durable prefix of the export to `destination`.
    pub fn from_prefix(destination: &str, expected_runtime_audit_sha256: Option<String>, prefix: &PrefixInventory) -> (r: Result<Self>)
        ensures
            match path_file_name(destination@) {
                Some(name) if name.len() > 0 => r matches Ok(e) && e.destination_name@ == name && e == (ExportReceipt {
                    format_version: RECEIPT_VERSION,
                    destination_name: e.destination_name,
                    claim_sequence: prefix.header.claim_sequence,
                    runtime_cursor: prefix.header.runtime_cursor,
                    action_count: prefix.header.action_count,
                    expected_runtime_audit_sha256,
                    completed_actions: prefix.completed_actions,
                    completed_claim_sequence: prefix.claim_sequence,
                    completed_runtime_cursor: prefix.runtime_cursor,
                    completed_runtime_audit_sha256: prefix.runtime_audit_sha256,
                    standalone_claims: prefix.standalone_claims,
                    runtime_commits: prefix.runtime_commits,
                    runtime_mutations: prefix.runtime_mutations,
                    payload_bytes: prefix.payload_bytes,
                    partial_bytes: prefix.prefix_bytes,
                    partial_sha256: prefix.prefix_sha256,
                }),
                _ => r matches Err(Error::Archive(_)),
            },
    {
        Ok(ExportReceipt {
            format_version: RECEIPT_VERSION,
            destination_name: file_name(destination)?,
            claim_sequence: prefix.header.claim_sequence,
            runtime_cursor: prefix.header.runtime_cursor,
            action_count: prefix.header.action_count,
            expected_runtime_audit_sha256,
            completed_actions: prefix.completed_actions,
            completed_claim_sequence: prefix.claim_sequence,
            completed_runtime_cursor: prefix.runtime_cursor,
            completed_runtime_audit_sha256: prefix.runtime_audit_sha256.clone(),
            standalone_claims: prefix.standalone_claims,
            runtime_commits: prefix.runtime_commits,
            runtime_mutations: prefix.runtime_mutations,
            payload_bytes: prefix.payload_bytes,
            partial_bytes: prefix.prefix_bytes,
            partial_sha256: prefix.prefix_sha256.clone(),
        })
    }

    /// The receipt belongs to this export: same version, destination, source
    /// cut and expected audit digest, and it completed no more actions than
    /// the cut holds.
    pub open spec fn matches_cut(&self, destination_name: Seq<char>, header: ArchiveHeader, expected_runtime_audit_sha256: Option<Seq<char>>) -> bool {
        &&& self.format_version == RECEIPT_VERSION
        &&& self.destination_name@ == destination_name
        &&& self.claim_sequence == header.claim_sequence
        &&& self.runtime_cursor == header.runtime_cursor
        &&& self.action_count == header.action_count
        &&& opt_string_view(self.expected_runtime_audit_sha256) == expected_runtime_audit_sha256
        &&& self.completed_actions <= self.action_count
    }

    /// Checks the receipt against the export's destination and source cut.
    pub fn validate_fixed(&self, destination: &str, header: ArchiveHeader, expected_runtime_audit_sha256: Option<&str>) -> (r: Result<()>)
        ensures
            match path_file_name(destination@) {
                Some(name) if name.len() > 0 => (r is Ok <==> self.matches_cut(name, header, crate::control::opt_str_view(expected_runtime_audit_sha256))),
                _ => r matches Err(Error::Archive(_)),
            },
            r matches Err(e) ==> e is Archive,
    {
        let name = file_name(destination)?;
        if self.format_version != RECEIPT_VERSION || self.destination_name != name || self.claim_sequence != header.claim_sequence
            || self.runtime_cursor != header.runtime_cursor || self.action_count != header.action_count
            || !same_opt_str(&self.expected_runtime_audit_sha256, expected_runtime_audit_sha256)
            || self.completed_actions > self.action_count {
            return Err(Error::Archive(text("logical export receipt differs from the source cut")));
        }
        Ok(())
    }

    /// The receipt agrees with the durable partial file: it is not ahead of
    /// it, and where both completed the same actions every counter agrees.
    pub open spec fn agrees_with(&self, prefix: PrefixInventory) -> bool {
        &&& self.completed_actions <= prefix.completed_actions
        &&& self.completed_actions == prefix.completed_actions ==> {
            &&& self.completed_claim_sequence == prefix.claim_sequence
            &&& self.completed_runtime_cursor == prefix.runtime_cursor
            &&& opt_string_view(self.completed_runtime_audit_sha256) == opt_string_view(prefix.runtime_audit_sha256)
            &&& self.standalone_claims == prefix.standalone_claims
            &&& self.runtime_commits == prefix.runtime_commits
            &&& self.runtime_mutations == prefix.runtime_mutations
            &&& self.payload_bytes == prefix.payload_bytes
            &&& self.partial_bytes == prefix.prefix_bytes
            &&& self.partial_sha256@ == prefix.prefix_sha256@
        }
    }

    /// Checks the receipt against the durable partial file.
    pub fn validate_prefix(&self, prefix: &PrefixInventory) -> (r: Result<()>)
        ensures
            r is Ok <==> self.agrees_with(*prefix),
            r matches Err(e) ==> e is Archive,
    {
        if self.completed_actions > prefix.completed_actions {
            return Err(Error::Archive(text("logical export receipt is ahead of its durable partial file")));
        }
        if self.completed_actions == prefix.completed_actions && (self.completed_claim_sequence != prefix.claim_sequence
            || self.completed_runtime_cursor != prefix.runtime_cursor
            || !same_opt(&self.completed_runtime_audit_sha256, &prefix.runtime_audit_sha256)
            || self.standalone_claims != prefix.standalone_claims || self.runtime_commits != prefix.runtime_commits
            || self.runtime_mutations != prefix.runtime_mutations || self.payload_bytes != prefix.payload_bytes
            || self.partial_bytes != prefix.prefix_bytes || self.partial_sha256 != prefix.prefix_sha256) {
            return Err(Error::Archive(text("logical export receipt counters differ from its durable partial file")));
        }
        Ok(())
    }
}

/// The durable progress of an interrupted restore.
#[derive(Debug, Clone, PartialEq, Eq)]
pub struct RestoreReceipt {
    pub format_version: u16,
    pub target_name: String,
    pub archive_sha256: String,
    pub action_count: u64,
    pub completed_actions: u64,
    pub claim_sequence: u64,
    pub runtime_cursor: u64,
    pub runtime_audit_sha256: Option<String>,
}

impl RestoreReceipt {
    /// The receipt recording a durable prefix of restoring an archive into `target`.
    pub fn new(target: &str, archive_sha256: String, action_count: u64, prefix: &PrefixInventory) -> (r: Result<Self>)
        ensures
            match path_file_name(target@) {
                Some(name) if name.len() > 0 => r matches Ok(e) && e.target_name@ == name && e == (RestoreReceipt {
                    format_version: RECEIPT_VERSION,
                    target_name: e.target_name,
                    archive_sha256,
                    action_count,
                    completed_actions: prefix.completed_actions,
                    claim_sequence: prefix.claim_sequence,
                    runtime_cursor: prefix.runtime_cursor,
                    runtime_audit_sha256: prefix.runtime_audit_sha256,
                }),
                _ => r matches Err(Error::Archive(_)),
            },
    {
        Ok(RestoreReceipt {
            format_version: RECEIPT_VERSION,
            target_name: file_name(target)?,
            archive_sha256,
            action_count,
            completed_actions: prefix.completed_actions,
            claim_sequence: prefix.claim_sequence,
            runtime_cursor: prefix.runtime_cursor,
            runtime_audit_sha256: prefix.runtime_audit_sha256.clone(),
        })
    }

    /// Checks the receipt against the selected archive and target.
    pub fn validate_fixed(&self, target: &str, archive_sha256: &str, action_count: u64) -> (r: Result<()>)
        ensures
            match path_file_name(target@) {
                Some(name) if name.len() > 0 => (r is Ok <==> (self.format_version == RECEIPT_VERSION && self.target_name@ == name
                    && self.archive_sha256@ == archive_sha256@ && self.action_count == action_count
                    && self.completed_actions <= action_count)),
                _ => r matches Err(Error::Archive(_)),
            },
            r matches Err(e) ==> e is Archive,
    {
        let name = file_name(target)?;
        if self.format_version != RECEIPT_VERSION || self.target_name != name || self.archive_sha256 != text(archive_sha256)
            || self.action_count != action_count || self.completed_actions > action_count {
            return Err(Error::Archive(text("logical restore receipt differs from the selected archive or target")));
        }
        Ok(())
    }
}

} // verus!
