//! The authenticated local backup catalogue over retained logical archives:
//! its entries, their canonical coverage declarations, prune plans and
//! receipts, and the decision a prune request leads to.

use crate::archive::LogicalArchiveInventory;
use crate::bytes::{bytes_lt, lex_lt};
use crate::digest::is_sha256;
use crate::error::{join, text, Error, Result};
use crate::byte_map::ByteMap;
use crate::function::{contains_string, string_views, utf8};
use crate::keyspaces::is_sha256_text;
use crate::path::{is_canonical_relative, is_canonical_relative_path};
use vstd::prelude::*;
use vstd::string::StringSliceAdditionalSpecFns;

verus! {

/// Format version of the backup catalogue.
pub const BACKUP_CATALOGUE_VERSION: u16 = 1;

/// Most prune receipts a catalogue keeps.
pub const MAX_BACKUP_PRUNE_RECEIPTS: usize = 4096;

/// Format version of object payload manifests.
pub const OBJECT_MANIFEST_VERSION: u16 = 1;

/// Format version of catalogue manifests.
pub const CATALOGUE_MANIFEST_VERSION: u16 = 1;

/// How a backup covers one class of state.
#[derive(Debug, Clone, Copy, PartialEq, Eq, Structural)]
pub enum BackupCoverage {
    Included,
    ReferencedOnly,
    RebuildRequired,
    Excluded,
}

/// What an object payload manifest holds.
#[derive(Debug, Clone, PartialEq, Eq)]
pub struct ObjectPayloadManifestInventory {
    pub format_version: u16,
    pub manifest_sha256: String,
    pub object_count: u64,
    pub payload_bytes: u64,
}

/// What a catalogue manifest holds.
#[derive(Debug, Clone, PartialEq, Eq)]
pub struct CatalogueManifestInventory {
    pub format_version: u16,
    pub manifest_sha256: String,
    pub source_control_sequence: u64,
    pub scope_count: u64,
    pub record_count: u64,
    pub payload_bytes: u64,
}

/// One catalogued backup and what it covers.
#[derive(Debug, Clone, PartialEq, Eq)]
pub struct BackupEntry {
    pub backup_id: String,
    pub label: String,
    pub created_at: u64,
    pub archive_file: String,
    pub archive: LogicalArchiveInventory,
    pub object_manifest_file: Option<String>,
    pub object_manifest: Option<ObjectPayloadManifestInventory>,
    pub catalogue_manifest_file: Option<String>,
    pub catalogue_manifest: Option<CatalogueManifestInventory>,
    pub claims: BackupCoverage,
    pub typed_runtime: BackupCoverage,
    pub catalogues: BackupCoverage,
    pub object_payloads: BackupCoverage,
    pub projections: BackupCoverage,
    pub invocation_telemetry: BackupCoverage,
    pub snapshot_leases: BackupCoverage,
    pub application_complete: bool,
}

/// The catalogue of retained backups and the prunes applied to it.
#[derive(Debug, Clone, PartialEq, Eq)]
pub struct BackupCatalogue {
    pub format_version: u16,
    pub revision: u64,
    pub catalogue_sha256: String,
    pub backups: Vec<BackupEntry>,
    pub prune_receipts: Vec<BackupPruneReceipt>,
}

/// A request to prune a catalogue: a complete, disjoint partition of its
/// backups into retained ones and candidates for removal.
#[derive(Debug, Clone, PartialEq, Eq)]
pub struct BackupPrunePlan {
    pub expected_catalogue_sha256: String,
    pub retained_backup_ids: Vec<String>,
    pub prune_candidate_backup_ids: Vec<String>,
}

/// The record of one applied prune.
#[derive(Debug, Clone, PartialEq, Eq)]
pub struct BackupPruneReceipt {
    pub request_sha256: String,
    pub expected_catalogue_sha256: String,
    pub retained_backup_ids: Vec<String>,
    pub removed_backups: Vec<BackupEntry>,
}

/// What a prune request did.
#[derive(Debug, Clone, PartialEq, Eq)]
pub struct BackupPruneOutcome {
    pub catalogue: BackupCatalogue,
    pub pruned_backup_ids: Vec<String>,
    pub idempotent_replay: bool,
}

/// A byte allowed in a backup label.
pub open spec fn is_label_byte(b: u8) -> bool {
    (48 <= b <= 57) || (65 <= b <= 90) || (97 <= b <= 122) || b == 45 || b == 95 || b == 46
}

/// A backup label: 1 to 128 ASCII letters, digits, `.`, `-` or `_`.
pub open spec fn is_backup_label(label: Seq<u8>) -> bool {
    1 <= label.len() <= 128 && forall|i: int| 0 <= i < label.len() ==> is_label_byte(#[trigger] label[i])
}

/// Checks a backup label.
pub fn validate_label(label: &str) -> (r: Result<()>)
    ensures
        r is Ok <==> is_backup_label(label.spec_bytes()),
        r matches Err(e) ==> e is Archive,
{
    let bytes = label.as_bytes();
    let mut valid = bytes.len() >= 1 && bytes.len() <= 128;
    let mut i: usize = 0;
    while valid && i < bytes.len()
        invariant
            bytes@ == label.spec_bytes(),
            i <= bytes@.len(),
            valid ==> 1 <= bytes@.len() <= 128,
            valid ==> forall|j: int| 0 <= j < i ==> is_label_byte(#[trigger] bytes@[j]),
            !valid ==> !is_backup_label(bytes@),
        decreases bytes@.len() - i,
    {
        let b = bytes[i];
        if !((48 <= b && b <= 57) || (65 <= b && b <= 90) || (97 <= b && b <= 122) || b == 45 || b == 95 || b == 46) {
            valid = false;
        }
        i = i + 1;
    }
    if !valid {
        return Err(Error::Archive(text("backup label must be 1-128 ASCII alphanumeric, '.', '-', or '_' characters")));
    }
    Ok(())
}

/// Checks a lowercase SHA-256 identity; the error names it.
pub fn validate_sha256_text(value: &str, name: &str) -> (r: Result<()>)
    ensures
        r is Ok <==> is_sha256_text(value.spec_bytes()),
        r matches Err(e) ==> (e matches Error::Archive(m) && m@ == name@ + " identity is invalid"@),
{
    if !is_sha256(value) {
        return Err(Error::Archive(join(name, " identity is invalid")));
    }
    Ok(())
}

/// SHA-256 identities in strictly ascending order.
pub open spec fn is_ordered_id_list(values: Seq<String>) -> bool {
    &&& forall|i: int| 0 <= i < values.len() ==> is_sha256_text(utf8(#[trigger] values[i]@))
    &&& forall|i: int, j: int| 0 <= i < j < values.len() ==> lex_lt(#[trigger] utf8(values[i]@), #[trigger] utf8(values[j]@))
}

/// Checks that identities are SHA-256 digests in strictly ascending order.
pub fn validate_ordered_backup_ids(values: &[String], name: &str) -> (r: Result<()>)
    ensures
        r is Ok <==> is_ordered_id_list(values@),
        r matches Err(e) ==> e is Archive,
{
    let mut i: usize = 0;
    while i < values.len()
        invariant
            i <= values@.len(),
            forall|a: int| 0 <= a < i ==> is_sha256_text(utf8(#[trigger] values@[a]@)),
            forall|a: int, b: int| 0 <= a < b < i ==> lex_lt(#[trigger] utf8(values@[a]@), #[trigger] utf8(values@[b]@)),
        decreases values@.len() - i,
    {
        let value = &values[i];
        validate_sha256_text(value.as_str(), name)?;
        if i > 0 && !bytes_lt(values[i - 1].as_str().as_bytes(), value.as_str().as_bytes()) {
            proof {
                assert(!lex_lt(utf8(values@[i - 1]@), utf8(values@[i as int]@)));
            }
            return Err(Error::Archive(join(name, " identities are not uniquely ordered")));
        }
        proof {
            assert forall|a: int, b: int| 0 <= a < b < i + 1 implies lex_lt(#[trigger] utf8(values@[a]@), #[trigger] utf8(values@[b]@)) by {
                if b == i as int && a < i - 1 {
                    crate::bytes::lemma_lex_lt_transitive(utf8(values@[a]@), utf8(values@[i - 1]@), utf8(values@[b]@));
                }
            }
        }
        i = i + 1;
    }
    Ok(())
}

/// `archives`.
pub open spec fn archive_directory() -> Seq<u8> {
    seq![97u8, 114u8, 99u8, 104u8, 105u8, 118u8, 101u8, 115u8]
}

/// `.rrd-archive`.
pub open spec fn archive_suffix() -> Seq<u8> {
    seq![46u8, 114u8, 114u8, 100u8, 45u8, 97u8, 114u8, 99u8, 104u8, 105u8, 118u8, 101u8]
}

/// `object-manifests`.
pub open spec fn object_manifest_directory() -> Seq<u8> {
    seq![111u8, 98u8, 106u8, 101u8, 99u8, 116u8, 45u8, 109u8, 97u8, 110u8, 105u8, 102u8, 101u8, 115u8, 116u8, 115u8]
}

/// `.rrd-objects.json`.
pub open spec fn object_manifest_suffix() -> Seq<u8> {
    seq![46u8, 114u8, 114u8, 100u8, 45u8, 111u8, 98u8, 106u8, 101u8, 99u8, 116u8, 115u8, 46u8, 106u8, 115u8, 111u8, 110u8]
}

/// `catalogue-manifests`.
pub open spec fn catalogue_manifest_directory() -> Seq<u8> {
    seq![99u8, 97u8, 116u8, 97u8, 108u8, 111u8, 103u8, 117u8, 101u8, 45u8, 109u8, 97u8, 110u8, 105u8, 102u8, 101u8, 115u8, 116u8, 115u8]
}

/// `.rrd-catalogues.json`.
pub open spec fn catalogue_manifest_suffix() -> Seq<u8> {
    seq![46u8, 114u8, 114u8, 100u8, 45u8, 99u8, 97u8, 116u8, 97u8, 108u8, 111u8, 103u8, 117u8, 101u8, 115u8, 46u8, 106u8, 115u8, 111u8, 110u8]
}

/// Checks that a path is `archives/<name>.rrd-archive`.
pub fn validate_relative_archive(value: &str) -> (r: Result<()>)
    ensures
        r is Ok <==> is_canonical_relative(value.spec_bytes(), archive_directory(), archive_suffix()),
        r matches Err(e) ==> e is Archive,
{
    let directory: [u8; 8] = [97, 114, 99, 104, 105, 118, 101, 115];
    let suffix: [u8; 12] = [46, 114, 114, 100, 45, 97, 114, 99, 104, 105, 118, 101];
    assert(directory@ == archive_directory());
    assert(suffix@ == archive_suffix());
    if !is_canonical_relative_path(value.as_bytes(), &directory, &suffix) {
        return Err(Error::Archive(text("backup archive path is not canonical")));
    }
    Ok(())
}

/// Checks that a path is `object-manifests/<name>.rrd-objects.json`.
pub fn validate_relative_object_manifest(value: &str) -> (r: Result<()>)
    ensures
        r is Ok <==> is_canonical_relative(value.spec_bytes(), object_manifest_directory(), object_manifest_suffix()),
        r matches Err(e) ==> e is Archive,
{
    let directory: [u8; 16] = [111, 98, 106, 101, 99, 116, 45, 109, 97, 110, 105, 102, 101, 115, 116, 115];
    let suffix: [u8; 17] = [46, 114, 114, 100, 45, 111, 98, 106, 101, 99, 116, 115, 46, 106, 115, 111, 110];
    assert(directory@ == object_manifest_directory());
    assert(suffix@ == object_manifest_suffix());
    if !is_canonical_relative_path(value.as_bytes(), &directory, &suffix) {
        return Err(Error::Archive(text("backup object manifest path is not canonical")));
    }
    Ok(())
}

/// Checks that a path is `catalogue-manifests/<name>.rrd-catalogues.json`.
pub fn validate_relative_catalogue_manifest(value: &str) -> (r: Result<()>)
    ensures
        r is Ok <==> is_canonical_relative(value.spec_bytes(), catalogue_manifest_directory(), catalogue_manifest_suffix()),
        r matches Err(e) ==> e is Archive,
{
    let directory: [u8; 19] = [99, 97, 116, 97, 108, 111, 103, 117, 101, 45, 109, 97, 110, 105, 102, 101, 115, 116, 115];
    let suffix: [u8; 20] = [46, 114, 114, 100, 45, 99, 97, 116, 97, 108, 111, 103, 117, 101, 115, 46, 106, 115, 111, 110];
    assert(directory@ == catalogue_manifest_directory());
    assert(suffix@ == catalogue_manifest_suffix());
    if !is_canonical_relative_path(value.as_bytes(), &directory, &suffix) {
        return Err(Error::Archive(text("backup catalogue manifest path is not canonical")));
    }
    Ok(())
}

/// The coverage every backup declares: claims and typed runtime state
/// included, projections rebuilt, telemetry and leases excluded.
pub open spec fn has_common_coverage(e: BackupEntry) -> bool {
    &&& e.claims == BackupCoverage::Included
    &&& e.typed_runtime == BackupCoverage::Included
    &&& e.projections == BackupCoverage::RebuildRequired
    &&& e.invocation_telemetry == BackupCoverage::Excluded
    &&& e.snapshot_leases == BackupCoverage::Excluded
}

/// A logical-only backup: object payloads referenced, catalogues excluded,
/// and no manifest.
pub open spec fn is_logical_only(e: BackupEntry) -> bool {
    &&& e.object_payloads == BackupCoverage::ReferencedOnly
    &&& e.catalogues == BackupCoverage::Excluded
    &&& !e.application_complete
    &&& e.object_manifest_file is None
    &&& e.object_manifest is None
    &&& e.catalogue_manifest_file is None
    &&& e.catalogue_manifest is None
}

/// An application-complete backup: object payloads and catalogues included,
/// with both manifests.
pub open spec fn is_application_complete(e: BackupEntry) -> bool {
    &&& e.object_payloads == BackupCoverage::Included
    &&& e.catalogues == BackupCoverage::Included
    &&& e.application_complete
    &&& e.object_manifest_file is Some
    &&& e.object_manifest is Some
    &&& e.catalogue_manifest_file is Some
    &&& e.catalogue_manifest is Some
}

/// The object manifest path and inventory are absent together, or present
/// together with the path named by the manifest's digest.
pub open spec fn object_manifest_consistent(e: BackupEntry) -> bool {
    match (e.object_manifest_file, e.object_manifest) {
        (Some(file), Some(inventory)) => {
            &&& is_canonical_relative(utf8(file@), object_manifest_directory(), object_manifest_suffix())
            &&& inventory.format_version == OBJECT_MANIFEST_VERSION
            &&& is_sha256_text(utf8(inventory.manifest_sha256@))
            &&& file@ == "object-manifests/"@ + inventory.manifest_sha256@ + ".rrd-objects.json"@
        },
        (None, None) => true,
        _ => false,
    }
}

/// The catalogue manifest path and inventory are absent together, or
/// present together with the path named by the manifest's digest.
pub open spec fn catalogue_manifest_consistent(e: BackupEntry) -> bool {
    match (e.catalogue_manifest_file, e.catalogue_manifest) {
        (Some(file), Some(inventory)) => {
            &&& is_canonical_relative(utf8(file@), catalogue_manifest_directory(), catalogue_manifest_suffix())
            &&& inventory.format_version == CATALOGUE_MANIFEST_VERSION
            &&& is_sha256_text(utf8(inventory.manifest_sha256@))
            &&& file@ == "catalogue-manifests/"@ + inventory.manifest_sha256@ + ".rrd-catalogues.json"@
        },
        (None, None) => true,
        _ => false,
    }
}

/// One entry's own declaration is canonical.
pub open spec fn entry_declaration_valid(e: BackupEntry) -> bool {
    &&& is_backup_label(utf8(e.label@))
    &&& is_sha256_text(utf8(e.backup_id@))
    &&& is_canonical_relative(utf8(e.archive_file@), archive_directory(), archive_suffix())
    &&& has_common_coverage(e)
    &&& (is_logical_only(e) || is_application_complete(e))
    &&& object_manifest_consistent(e)
    &&& catalogue_manifest_consistent(e)
}

/// Catalogue order: by creation time, then by identity.
pub open spec fn entry_before(a: BackupEntry, b: BackupEntry) -> bool {
    a.created_at < b.created_at || (a.created_at == b.created_at && lex_lt(utf8(a.backup_id@), utf8(b.backup_id@)))
}

/// A catalogue's entries: each canonical, identities distinct, and in
/// strictly ascending catalogue order.
pub open spec fn entries_valid(entries: Seq<BackupEntry>) -> bool {
    &&& forall|i: int| 0 <= i < entries.len() ==> entry_declaration_valid(#[trigger] entries[i])
    &&& forall|i: int, j: int| 0 <= i < j < entries.len() ==> (#[trigger] entries[i]).backup_id@ != (#[trigger] entries[j]).backup_id@
    &&& forall|i: int, j: int| 0 <= i < j < entries.len() ==> entry_before(#[trigger] entries[i], #[trigger] entries[j])
}

proof fn lemma_entry_before_transitive(a: BackupEntry, b: BackupEntry, c: BackupEntry)
    requires
        entry_before(a, b),
        entry_before(b, c),
    ensures
        entry_before(a, c),
{
    if a.created_at == b.created_at && b.created_at == c.created_at {
        crate::bytes::lemma_lex_lt_transitive(utf8(a.backup_id@), utf8(b.backup_id@), utf8(c.backup_id@));
    }
}

/// Checks the coverage declaration and manifests of one entry.
fn validate_entry_declaration(entry: &BackupEntry) -> (r: Result<()>)
    ensures
        r is Ok <==> (has_common_coverage(*entry) && (is_logical_only(*entry) || is_application_complete(*entry))
            && object_manifest_consistent(*entry) && catalogue_manifest_consistent(*entry)),
        r matches Err(e) ==> e is Archive,
{
    let common_coverage = entry.claims == BackupCoverage::Included && entry.typed_runtime == BackupCoverage::Included
        && entry.projections == BackupCoverage::RebuildRequired && entry.invocation_telemetry == BackupCoverage::Excluded
        && entry.snapshot_leases == BackupCoverage::Excluded;
    let logical_only = entry.object_payloads == BackupCoverage::ReferencedOnly && entry.catalogues == BackupCoverage::Excluded
        && !entry.application_complete && entry.object_manifest_file.is_none() && entry.object_manifest.is_none()
        && entry.catalogue_manifest_file.is_none() && entry.catalogue_manifest.is_none();
    let application_complete = entry.object_payloads == BackupCoverage::Included && entry.catalogues == BackupCoverage::Included
        && entry.application_complete && entry.object_manifest_file.is_some() && entry.object_manifest.is_some()
        && entry.catalogue_manifest_file.is_some() && entry.catalogue_manifest.is_some();
    if !common_coverage || (!logical_only && !application_complete) {
        return Err(Error::Archive(text("backup v1 coverage declaration is not canonical")));
    }
    match (&entry.object_manifest_file, &entry.object_manifest) {
        (Some(file), Some(inventory)) => {
            validate_relative_object_manifest(file.as_str())?;
            if inventory.format_version != OBJECT_MANIFEST_VERSION || !is_sha256(inventory.manifest_sha256.as_str()) {
                return Err(Error::Archive(text("backup object manifest inventory is invalid")));
            }
            let expected = join(join("object-manifests/", inventory.manifest_sha256.as_str()).as_str(), ".rrd-objects.json");
            if *file != expected {
                return Err(Error::Archive(text("backup object manifest path does not match its content identity")));
            }
        },
        (None, None) => {},
        _ => {
            return Err(Error::Archive(text("backup object manifest path and inventory must be present together")));
        },
    }
    match (&entry.catalogue_manifest_file, &entry.catalogue_manifest) {
        (Some(file), Some(inventory)) => {
            validate_relative_catalogue_manifest(file.as_str())?;
            if inventory.format_version != CATALOGUE_MANIFEST_VERSION || !is_sha256(inventory.manifest_sha256.as_str()) {
                return Err(Error::Archive(text("backup catalogue manifest inventory is invalid")));
            }
            let expected = join(join("catalogue-manifests/", inventory.manifest_sha256.as_str()).as_str(), ".rrd-catalogues.json");
            if *file != expected {
                return Err(Error::Archive(text("backup catalogue manifest path does not match its content identity")));
            }
        },
        (None, None) => {},
        _ => {
            return Err(Error::Archive(text("backup catalogue manifest path and inventory must be present together")));
        },
    }
    Ok(())
}

/// Checks a catalogue's entries: each canonical, identities distinct, and
/// in strictly ascending catalogue order.
pub fn validate_entries(entries: &[BackupEntry]) -> (r: Result<()>)
    ensures
        r is Ok <==> entries_valid(entries@),
        r matches Err(e) ==> e is Archive,
{
    let mut i: usize = 0;
    while i < entries.len()
        invariant
            i <= entries@.len(),
            forall|a: int| 0 <= a < i ==> entry_declaration_valid(#[trigger] entries@[a]),
            forall|a: int, b: int| 0 <= a < b < i ==> (#[trigger] entries@[a]).backup_id@ != (#[trigger] entries@[b]).backup_id@,
            forall|a: int, b: int| 0 <= a < b < i ==> entry_before(#[trigger] entries@[a], #[trigger] entries@[b]),
        decreases entries@.len() - i,
    {
        let entry = &entries[i];
        validate_label(entry.label.as_str())?;
        if !is_sha256(entry.backup_id.as_str()) {
            return Err(Error::Archive(text("backup catalogue has an invalid or duplicate identity")));
        }
        let mut j: usize = 0;
        while j < i
            invariant
                j <= i < entries@.len(),
                *entry == entries@[i as int],
                forall|q: int| 0 <= q < j ==> entries@[q].backup_id@ != entries@[i as int].backup_id@,
            decreases i - j,
        {
            if entries[j].backup_id == entry.backup_id {
                return Err(Error::Archive(text("backup catalogue has an invalid or duplicate identity")));
            }
            j = j + 1;
        }
        if i > 0 {
            let prior = &entries[i - 1];
            let before = prior.created_at < entry.created_at
                || (prior.created_at == entry.created_at && bytes_lt(prior.backup_id.as_str().as_bytes(), entry.backup_id.as_str().as_bytes()));
            if !before {
                return Err(Error::Archive(text("backup catalogue entries are not canonically ordered")));
            }
        }
        validate_relative_archive(entry.archive_file.as_str())?;
        validate_entry_declaration(entry)?;
        proof {
            assert forall|a: int, b: int| 0 <= a < b < i + 1 implies entry_before(#[trigger] entries@[a], #[trigger] entries@[b]) by {
                if b == i as int && a < i - 1 {
                    lemma_entry_before_transitive(entries@[a], entries@[i - 1], entries@[b]);
                }
            }
        }
        i = i + 1;
    }
    Ok(())
}

/// Checks a prune plan: a current catalogue digest, at least one
/// candidate, and both identity lists in strictly ascending order.
pub open spec fn prune_plan_valid(plan: BackupPrunePlan) -> bool {
    &&& is_sha256_text(utf8(plan.expected_catalogue_sha256@))
    &&& plan.prune_candidate_backup_ids@.len() > 0
    &&& is_ordered_id_list(plan.retained_backup_ids@)
    &&& is_ordered_id_list(plan.prune_candidate_backup_ids@)
}

/// Checks a prune plan.
pub fn validate_prune_plan(plan: &BackupPrunePlan) -> (r: Result<()>)
    ensures
        r is Ok <==> prune_plan_valid(*plan),
        r matches Err(e) ==> e is Archive,
{
    validate_sha256_text(plan.expected_catalogue_sha256.as_str(), "backup prune expected catalogue")?;
    if plan.prune_candidate_backup_ids.len() == 0 {
        return Err(Error::Archive(text("backup prune requires at least one candidate")));
    }
    validate_ordered_backup_ids(plan.retained_backup_ids.as_slice(), "retained backup")?;
    validate_ordered_backup_ids(plan.prune_candidate_backup_ids.as_slice(), "backup prune candidate")
}

/// One receipt is canonical on its own: digests, ordered retained
/// identities, canonical removed entries, none of them retained.
pub open spec fn receipt_valid(r: BackupPruneReceipt) -> bool {
    &&& is_sha256_text(utf8(r.request_sha256@))
    &&& is_sha256_text(utf8(r.expected_catalogue_sha256@))
    &&& is_ordered_id_list(r.retained_backup_ids@)
    &&& r.removed_backups@.len() > 0
    &&& entries_valid(r.removed_backups@)
    &&& forall|a: int| 0 <= a < r.removed_backups@.len() ==> !string_views(r.retained_backup_ids@).contains(#[trigger] r.removed_backups@[a].backup_id@)
}

/// A receipt history: within its bound, each receipt canonical, request
/// identities distinct, and no backup removed twice.
pub open spec fn prune_receipts_valid(receipts: Seq<BackupPruneReceipt>) -> bool {
    &&& receipts.len() <= MAX_BACKUP_PRUNE_RECEIPTS
    &&& forall|i: int| 0 <= i < receipts.len() ==> receipt_valid(#[trigger] receipts[i])
    &&& forall|i: int, j: int| 0 <= i < j < receipts.len() ==> (#[trigger] receipts[i]).request_sha256@ != (#[trigger] receipts[j]).request_sha256@
    &&& forall|i: int, j: int, a: int, b: int| 0 <= i < j < receipts.len() && 0 <= a < receipts[i].removed_backups@.len()
        && 0 <= b < receipts[j].removed_backups@.len()
        ==> (#[trigger] receipts[i].removed_backups@[a]).backup_id@ != (#[trigger] receipts[j].removed_backups@[b]).backup_id@
}

/// Whether a receipt removed a backup with identity `id`.
fn receipt_removed(receipt: &BackupPruneReceipt, id: &String) -> (found: bool)
    ensures
        found == exists|a: int| 0 <= a < receipt.removed_backups@.len() && (#[trigger] receipt.removed_backups@[a]).backup_id@ == id@,
{
    let mut a: usize = 0;
    while a < receipt.removed_backups.len()
        invariant
            a <= receipt.removed_backups@.len(),
            forall|q: int| 0 <= q < a ==> (#[trigger] receipt.removed_backups@[q]).backup_id@ != id@,
        decreases receipt.removed_backups@.len() - a,
    {
        if receipt.removed_backups[a].backup_id == *id {
            return true;
        }
        a = a + 1;
    }
    false
}

/// Checks a receipt history.
pub fn validate_prune_receipts(receipts: &[BackupPruneReceipt]) -> (r: Result<()>)
    ensures
        r is Ok <==> prune_receipts_valid(receipts@),
        r matches Err(e) ==> e is Archive,
{
    if receipts.len() > MAX_BACKUP_PRUNE_RECEIPTS {
        return Err(Error::Archive(text("backup prune receipt history exceeds its v1 bound")));
    }
    let mut i: usize = 0;
    while i < receipts.len()
        invariant
            i <= receipts@.len(),
            receipts@.len() <= MAX_BACKUP_PRUNE_RECEIPTS,
            forall|q: int| 0 <= q < i ==> receipt_valid(#[trigger] receipts@[q]),
            forall|p: int, q: int| 0 <= p < q < i ==> (#[trigger] receipts@[p]).request_sha256@ != (#[trigger] receipts@[q]).request_sha256@,
            forall|p: int, q: int, a: int, b: int| 0 <= p < q < i && 0 <= a < receipts@[p].removed_backups@.len()
                && 0 <= b < receipts@[q].removed_backups@.len()
                ==> (#[trigger] receipts@[p].removed_backups@[a]).backup_id@ != (#[trigger] receipts@[q].removed_backups@[b]).backup_id@,
        decreases receipts@.len() - i,
    {
        let receipt = &receipts[i];
        validate_sha256_text(receipt.request_sha256.as_str(), "backup prune request")?;
        validate_sha256_text(receipt.expected_catalogue_sha256.as_str(), "backup prune expected catalogue")?;
        let mut p: usize = 0;
        while p < i
            invariant
                p <= i < receipts@.len(),
                *receipt == receipts@[i as int],
                forall|q: int| 0 <= q < p ==> receipts@[q].request_sha256@ != receipts@[i as int].request_sha256@,
            decreases i - p,
        {
            if receipts[p].request_sha256 == receipt.request_sha256 {
                return Err(Error::Archive(text("backup prune receipt request identity is duplicated")));
            }
            p = p + 1;
        }
        validate_ordered_backup_ids(receipt.retained_backup_ids.as_slice(), "retained backup")?;
        if receipt.removed_backups.len() == 0 {
            return Err(Error::Archive(text("backup prune receipt has no removed backup")));
        }
        validate_entries(receipt.removed_backups.as_slice())?;
        let mut a: usize = 0;
        while a < receipt.removed_backups.len()
            invariant
                i < receipts@.len(),
                *receipt == receipts@[i as int],
                a <= receipt.removed_backups@.len(),
                forall|x: int| 0 <= x < a ==> !string_views(receipt.retained_backup_ids@).contains(#[trigger] receipt.removed_backups@[x].backup_id@),
                forall|p: int, x: int, b: int| 0 <= p < i && 0 <= x < a && 0 <= b < receipts@[p].removed_backups@.len()
                    ==> (#[trigger] receipts@[p].removed_backups@[b]).backup_id@ != (#[trigger] receipt.removed_backups@[x]).backup_id@,
            decreases receipt.removed_backups@.len() - a,
        {
            let entry = &receipt.removed_backups[a];
            if contains_string(&receipt.retained_backup_ids, &entry.backup_id) {
                return Err(Error::Archive(text("backup prune receipt identity is inconsistent")));
            }
            let mut p: usize = 0;
            while p < i
                invariant
                    p <= i < receipts@.len(),
                    *receipt == receipts@[i as int],
                    a < receipt.removed_backups@.len(),
                    *entry == receipt.removed_backups@[a as int],
                    forall|q: int, b: int| 0 <= q < p && 0 <= b < receipts@[q].removed_backups@.len()
                        ==> (#[trigger] receipts@[q].removed_backups@[b]).backup_id@ != entry.backup_id@,
                decreases i - p,
            {
                if receipt_removed(&receipts[p], &entry.backup_id) {
                    return Err(Error::Archive(text("backup prune receipt identity is inconsistent")));
                }
                p = p + 1;
            }
            a = a + 1;
        }
        i = i + 1;
    }
    Ok(())
}

/// No prune receipt removed a backup with identity `id`.
pub open spec fn never_pruned(catalogue: BackupCatalogue, id: Seq<char>) -> bool {
    forall|i: int, a: int| 0 <= i < catalogue.prune_receipts@.len() && 0 <= a < catalogue.prune_receipts@[i].removed_backups@.len()
        ==> (#[trigger] catalogue.prune_receipts@[i].removed_backups@[a]).backup_id@ != id
}

/// Refuses to bring back an identity an earlier prune removed.
pub fn deny_pruned_identity_reuse(catalogue: &BackupCatalogue, backup_id: &str) -> (r: Result<()>)
    ensures
        r is Ok <==> never_pruned(*catalogue, backup_id@),
        r matches Err(e) ==> (e matches Error::Archive(m) && m@ == "a pruned backup identity cannot be resurrected"@),
{
    let id = text(backup_id);
    let mut i: usize = 0;
    while i < catalogue.prune_receipts.len()
        invariant
            i <= catalogue.prune_receipts@.len(),
            id@ == backup_id@,
            forall|q: int, a: int| 0 <= q < i && 0 <= a < catalogue.prune_receipts@[q].removed_backups@.len()
                ==> (#[trigger] catalogue.prune_receipts@[q].removed_backups@[a]).backup_id@ != id@,
        decreases catalogue.prune_receipts@.len() - i,
    {
        if receipt_removed(&catalogue.prune_receipts[i], &id) {
            return Err(Error::Archive(text("a pruned backup identity cannot be resurrected")));
        }
        i = i + 1;
    }
    Ok(())
}

/// The byte strings of a list of identities.
pub open spec fn id_bytes(values: Seq<String>) -> Seq<Seq<u8>> {
    values.map_values(|v: String| utf8(v@))
}

/// The identities in ascending byte order, each as often as given; where
/// no two identities share their bytes, in strictly ascending order.
pub fn sorted_backup_ids(values: Vec<String>) -> (sorted: Vec<String>)
    ensures
        sorted@.to_multiset() == values@.to_multiset(),
        sorted@.len() == values@.len(),
        id_bytes(sorted@).to_set() == id_bytes(values@).to_set(),
        forall|i: int, j: int| 0 <= i < j < sorted@.len() ==> crate::bytes::lex_le(#[trigger] utf8(sorted@[i]@), #[trigger] utf8(sorted@[j]@)),
        id_bytes(values@).no_duplicates() ==> forall|i: int, j: int| 0 <= i < j < sorted@.len()
            ==> lex_lt(#[trigger] utf8(sorted@[i]@), #[trigger] utf8(sorted@[j]@)),
{
    broadcast use vstd::seq_lib::group_to_multiset_ensures;
    let mut sorted: Vec<String> = Vec::new();
    let mut i: usize = 0;
    while i < values.len()
        invariant
            i <= values@.len(),
            sorted@.to_multiset() == values@.take(i as int).to_multiset(),
            forall|a: int, b: int| 0 <= a < b < sorted@.len() ==> crate::bytes::lex_le(#[trigger] utf8(sorted@[a]@), #[trigger] utf8(sorted@[b]@)),
        decreases values@.len() - i,
    {
        let x = values[i].clone();
        let mut p: usize = 0;
        while p < sorted.len() && !bytes_lt(x.as_str().as_bytes(), sorted[p].as_str().as_bytes())
            invariant
                p <= sorted@.len(),
                i < values@.len(),
                x == values@[i as int],
                forall|q: int| 0 <= q < p ==> !lex_lt(utf8(x@), #[trigger] utf8(sorted@[q]@)),
            decreases sorted@.len() - p,
        {
            p = p + 1;
        }
        let ghost before = sorted@;
        sorted.insert(p, x);
        proof {
            assert(values@.take(i + 1) =~= values@.take(i as int).push(values@[i as int]));
            assert(sorted@ == before.insert(p as int, x));
            vstd::seq_lib::to_multiset_insert(before, p as int, x);
            vstd::seq_lib::to_multiset_build(values@.take(i as int), values@[i as int]);
            assert(sorted@.to_multiset() == values@.take(i + 1).to_multiset());
            assert forall|a: int, b: int| 0 <= a < b < sorted@.len() implies crate::bytes::lex_le(#[trigger] utf8(sorted@[a]@), #[trigger] utf8(sorted@[b]@)) by {
                let ux = utf8(x@);
                if a < p && b == p {
                    crate::bytes::lemma_lex_lt_trichotomy(ux, utf8(before[a]@));
                } else if a == p && b > p {
                    if p < before.len() {
                        assert(lex_lt(ux, utf8(before[p as int]@)));
                        if b - 1 > p {
                            assert(crate::bytes::lex_le(utf8(before[p as int]@), utf8(before[b - 1]@)));
                            if lex_lt(utf8(before[p as int]@), utf8(before[b - 1]@)) {
                                crate::bytes::lemma_lex_lt_transitive(ux, utf8(before[p as int]@), utf8(before[b - 1]@));
                            }
                        }
                    }
                } else if a < p && b > p {
                    assert(crate::bytes::lex_le(utf8(before[a]@), utf8(before[b - 1]@)));
                } else if a > p {
                    assert(crate::bytes::lex_le(utf8(before[a - 1]@), utf8(before[b - 1]@)));
                } else {
                    assert(crate::bytes::lex_le(utf8(before[a]@), utf8(before[b]@)));
                }
            }
        }
        i = i + 1;
    }
    proof {
        assert(values@.take(values@.len() as int) =~= values@);
        let s = sorted@;
        let v = values@;
        vstd::seq_lib::to_multiset_len(s);
        vstd::seq_lib::to_multiset_len(v);
        assert forall|k: Seq<u8>| id_bytes(s).to_set().contains(k) == id_bytes(v).to_set().contains(k) by {
            if id_bytes(s).contains(k) {
                let q = choose|q: int| 0 <= q < id_bytes(s).len() && #[trigger] id_bytes(s)[q] == k;
                assert(s.contains(s[q]));
                assert(s.to_multiset().count(s[q]) > 0);
                assert(v.contains(s[q]));
                let w = choose|w: int| 0 <= w < v.len() && #[trigger] v[w] == s[q];
                assert(id_bytes(v)[w] == k);
            }
            if id_bytes(v).contains(k) {
                let q = choose|q: int| 0 <= q < id_bytes(v).len() && #[trigger] id_bytes(v)[q] == k;
                assert(v.contains(v[q]));
                assert(v.to_multiset().count(v[q]) > 0);
                assert(s.contains(v[q]));
                let w = choose|w: int| 0 <= w < s.len() && #[trigger] s[w] == v[q];
                assert(id_bytes(s)[w] == k);
            }
        }
        assert(id_bytes(s).to_set() =~= id_bytes(v).to_set());
        if id_bytes(v).no_duplicates() {
            assert(v.no_duplicates()) by {
                assert forall|a: int, b: int| 0 <= a < v.len() && 0 <= b < v.len() && a != b implies v[a] != v[b] by {
                    assert(id_bytes(v)[a] != id_bytes(v)[b]);
                }
            }
            v.lemma_multiset_has_no_duplicates();
            s.lemma_multiset_has_no_duplicates_conv();
            assert forall|a: int, b: int| 0 <= a < b < s.len() implies lex_lt(#[trigger] utf8(s[a]@), #[trigger] utf8(s[b]@)) by {
                assert(crate::bytes::lex_le(utf8(s[a]@), utf8(s[b]@)));
                if utf8(s[a]@) == utf8(s[b]@) {
                    assert(s[a] != s[b]);
                    assert(s.contains(s[a]) && s.contains(s[b]));
                    assert(s.to_multiset().count(s[a]) > 0 && s.to_multiset().count(s[b]) > 0);
                    assert(v.contains(s[a]) && v.contains(s[b]));
                    let p = choose|p: int| 0 <= p < v.len() && #[trigger] v[p] == s[a];
                    let q = choose|q: int| 0 <= q < v.len() && #[trigger] v[q] == s[b];
                    assert(id_bytes(v)[p] == id_bytes(v)[q]);
                }
            }
        }
    }
    sorted
}

/// Distinct strings have distinct UTF-8 bytes.
pub proof fn lemma_utf8_injective(a: Seq<char>, b: Seq<char>)
    requires
        utf8(a) == utf8(b),
    ensures
        a == b,
{
    vstd::utf8::encode_utf8_decode_utf8(a);
    vstd::utf8::encode_utf8_decode_utf8(b);
}

/// What a prune request comes to.
#[derive(Debug, Clone, PartialEq, Eq)]
pub enum BackupPruneDecision {
    /// The request was applied before; these identities were pruned then.
    Replay { pruned_backup_ids: Vec<String> },
    /// The catalogue after the prune, whose last receipt lists the removed
    /// backups; it is to be written and its digest recomputed.
    Apply { catalogue: BackupCatalogue, pruned_backup_ids: Vec<String> },
}

/// The identities of some backups.
pub open spec fn backup_ids(entries: Seq<BackupEntry>) -> Seq<Seq<char>> {
    Seq::new(entries.len(), |i: int| entries[i].backup_id@)
}

/// Retained and candidate identities partition the catalogue's identities:
/// no identity is both, and together they are exactly the catalogue's.
pub open spec fn is_partition(current: Seq<Seq<char>>, retained: Seq<Seq<char>>, candidates: Seq<Seq<char>>) -> bool {
    &&& forall|x: Seq<char>| !(retained.contains(x) && candidates.contains(x))
    &&& forall|x: Seq<char>| (retained.contains(x) || candidates.contains(x)) <==> current.contains(x)
}

/// Whether some backup has identity `id`.
fn has_backup(entries: &Vec<BackupEntry>, id: &String) -> (found: bool)
    ensures
        found == backup_ids(entries@).contains(id@),
{
    let mut i: usize = 0;
    while i < entries.len()
        invariant
            i <= entries@.len(),
            forall|q: int| 0 <= q < i ==> entries@[q].backup_id@ != id@,
        decreases entries@.len() - i,
    {
        if entries[i].backup_id == *id {
            proof {
                assert(backup_ids(entries@)[i as int] == id@);
            }
            return true;
        }
        i = i + 1;
    }
    proof {
        if backup_ids(entries@).contains(id@) {
            let q = choose|q: int| 0 <= q < backup_ids(entries@).len() && backup_ids(entries@)[q] == id@;
            assert(entries@[q].backup_id@ == id@);
        }
    }
    false
}

/// Whether the plan's identities partition the catalogue's.
fn plan_partitions(backups: &Vec<BackupEntry>, plan: &BackupPrunePlan) -> (ok: bool)
    ensures
        ok == is_partition(backup_ids(backups@), string_views(plan.retained_backup_ids@), string_views(plan.prune_candidate_backup_ids@)),
{
    let ghost current = backup_ids(backups@);
    let ghost retained = string_views(plan.retained_backup_ids@);
    let ghost candidates = string_views(plan.prune_candidate_backup_ids@);
    let mut i: usize = 0;
    while i < plan.retained_backup_ids.len()
        invariant
            i <= retained.len(),
            retained == string_views(plan.retained_backup_ids@),
            candidates == string_views(plan.prune_candidate_backup_ids@),
            current == backup_ids(backups@),
            forall|q: int| 0 <= q < i ==> !candidates.contains(#[trigger] retained[q]) && current.contains(retained[q]),
        decreases retained.len() - i,
    {
        let id = &plan.retained_backup_ids[i];
        proof {
            assert(retained[i as int] == id@);
        }
        if contains_string(&plan.prune_candidate_backup_ids, id) {
            proof {
                assert(retained.contains(id@));
            }
            return false;
        }
        if !has_backup(backups, id) {
            proof {
                assert(retained.contains(id@));
            }
            return false;
        }
        i = i + 1;
    }
    let mut i: usize = 0;
    while i < plan.prune_candidate_backup_ids.len()
        invariant
            i <= candidates.len(),
            retained == string_views(plan.retained_backup_ids@),
            candidates == string_views(plan.prune_candidate_backup_ids@),
            current == backup_ids(backups@),
            forall|q: int| 0 <= q < i ==> current.contains(#[trigger] candidates[q]),
        decreases candidates.len() - i,
    {
        let id = &plan.prune_candidate_backup_ids[i];
        proof {
            assert(candidates[i as int] == id@);
        }
        if !has_backup(backups, id) {
            proof {
                assert(candidates.contains(id@));
            }
            return false;
        }
        i = i + 1;
    }
    let mut i: usize = 0;
    while i < backups.len()
        invariant
            i <= current.len(),
            retained == string_views(plan.retained_backup_ids@),
            candidates == string_views(plan.prune_candidate_backup_ids@),
            current == backup_ids(backups@),
            forall|q: int| 0 <= q < i ==> retained.contains(#[trigger] current[q]) || candidates.contains(current[q]),
        decreases current.len() - i,
    {
        let id = &backups[i].backup_id;
        proof {
            assert(current[i as int] == id@);
        }
        if !contains_string(&plan.retained_backup_ids, id) && !contains_string(&plan.prune_candidate_backup_ids, id) {
            proof {
                assert(current.contains(id@));
            }
            return false;
        }
        i = i + 1;
    }
    proof {
        assert forall|x: Seq<char>| !(retained.contains(x) && candidates.contains(x)) by {
            if retained.contains(x) {
                let q = choose|q: int| 0 <= q < retained.len() && retained[q] == x;
                assert(!candidates.contains(retained[q]));
            }
        }
        assert forall|x: Seq<char>| (retained.contains(x) || candidates.contains(x)) <==> current.contains(x) by {
            if retained.contains(x) {
                let q = choose|q: int| 0 <= q < retained.len() && retained[q] == x;
                assert(current.contains(retained[q]));
            }
            if candidates.contains(x) {
                let q = choose|q: int| 0 <= q < candidates.len() && candidates[q] == x;
                assert(current.contains(candidates[q]));
            }
            if current.contains(x) {
                let q = choose|q: int| 0 <= q < current.len() && current[q] == x;
                assert(retained.contains(current[q]) || candidates.contains(current[q]));
            }
        }
    }
    true
}

/// The first receipt for request `request`, where there is one.
pub open spec fn is_first_receipt(receipts: Seq<BackupPruneReceipt>, request: Seq<char>, i: int) -> bool {
    &&& 0 <= i < receipts.len()
    &&& receipts[i].request_sha256@ == request
    &&& forall|j: int| 0 <= j < i ==> (#[trigger] receipts[j]).request_sha256@ != request
}

/// An owned copy of a list of strings.
fn copy_strings(values: &Vec<String>) -> (c: Vec<String>)
    ensures
        c@ == values@,
{
    let mut c: Vec<String> = Vec::new();
    let mut i: usize = 0;
    while i < values.len()
        invariant
            i <= values@.len(),
            c@ == values@.take(i as int),
        decreases values@.len() - i,
    {
        c.push(values[i].clone());
        i = i + 1;
        assert(c@ =~= values@.take(i as int));
    }
    assert(values@.take(i as int) =~= values@);
    c
}

/// Decides a prune request with digest `request_sha256` against a verified
/// catalogue.
///
/// A request already applied is replayed: the identities it pruned, in
/// ascending order. Otherwise the plan must be valid, name the catalogue's
/// current digest, leave room for one more receipt and partition the
/// catalogue's identities; the catalogue then keeps the retained backups in
/// their order, takes the next revision and records a receipt of the
/// candidates it removed, in their order.
pub fn decide_backup_prune(catalogue: BackupCatalogue, plan: &BackupPrunePlan, request_sha256: String) -> (r: Result<BackupPruneDecision>)
    requires
        prune_receipts_valid(catalogue.prune_receipts@),
    ensures
        !prune_plan_valid(*plan) ==> r is Err,
        ({
            let fresh = forall|i: int| 0 <= i < catalogue.prune_receipts@.len()
                ==> (#[trigger] catalogue.prune_receipts@[i]).request_sha256@ != request_sha256@;
            let admissible = catalogue.catalogue_sha256@ == plan.expected_catalogue_sha256@
                && catalogue.prune_receipts@.len() != MAX_BACKUP_PRUNE_RECEIPTS
                && is_partition(backup_ids(catalogue.backups@), string_views(plan.retained_backup_ids@), string_views(plan.prune_candidate_backup_ids@))
                && catalogue.revision < u64::MAX;
            &&& (r is Err <==> !prune_plan_valid(*plan) || (fresh && !admissible))
            &&& (prune_plan_valid(*plan) && !fresh ==> r matches Ok(BackupPruneDecision::Replay { .. }))
            &&& (prune_plan_valid(*plan) && fresh && admissible ==> r matches Ok(BackupPruneDecision::Apply { .. }))
        }),
        prune_plan_valid(*plan) ==> match r {
            Ok(BackupPruneDecision::Replay { pruned_backup_ids }) => exists|i: int| #[trigger] is_first_receipt(catalogue.prune_receipts@, request_sha256@, i)
                && id_bytes(pruned_backup_ids@).to_set() == id_bytes_of_entries(catalogue.prune_receipts@[i].removed_backups@).to_set()
                && pruned_backup_ids@.len() == catalogue.prune_receipts@[i].removed_backups@.len()
                && forall|a: int, b: int| 0 <= a < b < pruned_backup_ids@.len() ==> lex_lt(#[trigger] utf8(pruned_backup_ids@[a]@), #[trigger] utf8(pruned_backup_ids@[b]@)),
            Ok(BackupPruneDecision::Apply { catalogue: next, pruned_backup_ids }) => {
                let retained = string_views(plan.retained_backup_ids@);
                let candidates = string_views(plan.prune_candidate_backup_ids@);
                &&& forall|i: int| 0 <= i < catalogue.prune_receipts@.len() ==> (#[trigger] catalogue.prune_receipts@[i]).request_sha256@ != request_sha256@
                &&& catalogue.catalogue_sha256@ == plan.expected_catalogue_sha256@
                &&& catalogue.prune_receipts@.len() != MAX_BACKUP_PRUNE_RECEIPTS
                &&& is_partition(backup_ids(catalogue.backups@), retained, candidates)
                &&& catalogue.revision < u64::MAX
                &&& next.format_version == catalogue.format_version
                &&& next.revision == catalogue.revision + 1
                &&& next.catalogue_sha256 == catalogue.catalogue_sha256
                &&& next.backups@ == catalogue.backups@.filter(|e: BackupEntry| retained.contains(e.backup_id@))
                &&& next.prune_receipts@.drop_last() == catalogue.prune_receipts@
                &&& next.prune_receipts@.len() == catalogue.prune_receipts@.len() + 1
                &&& next.prune_receipts@.last().request_sha256@ == request_sha256@
                &&& next.prune_receipts@.last().expected_catalogue_sha256@ == plan.expected_catalogue_sha256@
                &&& next.prune_receipts@.last().retained_backup_ids@ == plan.retained_backup_ids@
                &&& next.prune_receipts@.last().removed_backups@ == catalogue.backups@.filter(|e: BackupEntry| candidates.contains(e.backup_id@))
                &&& pruned_backup_ids@ == plan.prune_candidate_backup_ids@
            },
            Err(e) => e is Archive && !(exists|i: int| #[trigger] is_first_receipt(catalogue.prune_receipts@, request_sha256@, i)),
        },
{
    validate_prune_plan(plan)?;
    let mut i: usize = 0;
    while i < catalogue.prune_receipts.len()
        invariant
            i <= catalogue.prune_receipts@.len(),
            prune_receipts_valid(catalogue.prune_receipts@),
            prune_plan_valid(*plan),
            forall|j: int| 0 <= j < i ==> (#[trigger] catalogue.prune_receipts@[j]).request_sha256@ != request_sha256@,
        decreases catalogue.prune_receipts@.len() - i,
    {
        let receipt = &catalogue.prune_receipts[i];
        if receipt.request_sha256 == request_sha256 {
            proof {
                assert(is_first_receipt(catalogue.prune_receipts@, request_sha256@, i as int));
                assert(receipt_valid(catalogue.prune_receipts@[i as int]));
            }
            let mut ids: Vec<String> = Vec::new();
            let mut a: usize = 0;
            while a < receipt.removed_backups.len()
                invariant
                    a <= receipt.removed_backups@.len(),
                    ids@.len() == a,
                    forall|q: int| 0 <= q < a ==> (#[trigger] ids@[q]) == receipt.removed_backups@[q].backup_id,
                decreases receipt.removed_backups@.len() - a,
            {
                ids.push(receipt.removed_backups[a].backup_id.clone());
                a = a + 1;
            }
            proof {
                assert(entries_valid(receipt.removed_backups@));
                assert(id_bytes(ids@) =~= id_bytes_of_entries(receipt.removed_backups@));
                assert forall|p: int, q: int| 0 <= p < id_bytes(ids@).len() && 0 <= q < id_bytes(ids@).len() && p != q
                    implies id_bytes(ids@)[p] != id_bytes(ids@)[q] by {
                    if id_bytes(ids@)[p] == id_bytes(ids@)[q] {
                        lemma_utf8_injective(ids@[p]@, ids@[q]@);
                        if p < q {
                            assert(receipt.removed_backups@[p].backup_id@ != receipt.removed_backups@[q].backup_id@);
                        } else {
                            assert(receipt.removed_backups@[q].backup_id@ != receipt.removed_backups@[p].backup_id@);
                        }
                    }
                }
            }
            let pruned_backup_ids = sorted_backup_ids(ids);
            return Ok(BackupPruneDecision::Replay { pruned_backup_ids });
        }
        i = i + 1;
    }
    proof {
        assert forall|k: int| !is_first_receipt(catalogue.prune_receipts@, request_sha256@, k) by {
        }
    }
    if catalogue.catalogue_sha256 != plan.expected_catalogue_sha256 {
        return Err(Error::Archive(text("backup prune expected catalogue digest is stale")));
    }
    if catalogue.prune_receipts.len() == MAX_BACKUP_PRUNE_RECEIPTS {
        return Err(Error::Archive(text("backup prune receipt history is at its v1 bound")));
    }
    if !plan_partitions(&catalogue.backups, plan) {
        return Err(Error::Archive(text("backup prune plan is not a complete disjoint catalogue partition")));
    }
    let ghost ids = backup_ids(catalogue.backups@);
    let revision = match catalogue.revision.checked_add(1) {
        Some(r) => r,
        None => {
            return Err(Error::Archive(text("backup catalogue revision overflow")));
        },
    };
    let BackupCatalogue { format_version, revision: _, catalogue_sha256, backups, prune_receipts } = catalogue;
    let ghost initial = backups@;
    let ghost retained = string_views(plan.retained_backup_ids@);
    let ghost candidates = string_views(plan.prune_candidate_backup_ids@);
    let ghost keep = |e: BackupEntry| retained.contains(e.backup_id@);
    let ghost drop = |e: BackupEntry| candidates.contains(e.backup_id@);
    let mut remaining = backups;
    let mut kept: Vec<BackupEntry> = Vec::new();
    let mut removed: Vec<BackupEntry> = Vec::new();
    let mut k: usize = 0;
    proof {
        reveal(Seq::filter);
        assert(initial.len() == remaining.len());
        assert(initial.take(0) =~= Seq::<BackupEntry>::empty());
        assert(initial.skip(0) =~= initial);
    }
    while remaining.len() > 0
        invariant
            k <= initial.len(),
            k + remaining@.len() == initial.len(),
            initial.len() <= usize::MAX,
            remaining@ == initial.skip(k as int),
            forall|x: Seq<char>| !(retained.contains(x) && candidates.contains(x)),
            kept@ == initial.take(k as int).filter(keep),
            removed@ == initial.take(k as int).filter(drop),
            retained == string_views(plan.retained_backup_ids@),
            candidates == string_views(plan.prune_candidate_backup_ids@),
            keep == (|e: BackupEntry| retained.contains(e.backup_id@)),
            drop == (|e: BackupEntry| candidates.contains(e.backup_id@)),
        decreases remaining@.len(),
    {
        let entry = remaining.remove(0);
        proof {
            reveal(Seq::filter);
            assert(entry == initial[k as int]);
            assert(initial.take(k + 1).drop_last() =~= initial.take(k as int));
            assert(initial.take(k + 1).last() == entry);
            assert(remaining@ =~= initial.skip(k + 1));
        }
        let is_retained = contains_string(&plan.retained_backup_ids, &entry.backup_id);
        let is_candidate = contains_string(&plan.prune_candidate_backup_ids, &entry.backup_id);
        if is_retained {
            kept.push(entry);
        } else if is_candidate {
            removed.push(entry);
        }
        k = k + 1;
    }
    proof {
        assert(initial.take(k as int) =~= initial);
    }
    let receipt = BackupPruneReceipt {
        request_sha256,
        expected_catalogue_sha256: plan.expected_catalogue_sha256.clone(),
        retained_backup_ids: copy_strings(&plan.retained_backup_ids),
        removed_backups: removed,
    };
    let mut receipts = prune_receipts;
    let ghost old_receipts = receipts@;
    receipts.push(receipt);
    proof {
        assert(receipts@.drop_last() =~= old_receipts);
    }
    let next = BackupCatalogue { format_version, revision, catalogue_sha256, backups: kept, prune_receipts: receipts };
    Ok(BackupPruneDecision::Apply { catalogue: next, pruned_backup_ids: copy_strings(&plan.prune_candidate_backup_ids) })
}

/// The byte strings of some backups' identities.
pub open spec fn id_bytes_of_entries(entries: Seq<BackupEntry>) -> Seq<Seq<u8>> {
    entries.map_values(|e: BackupEntry| utf8(e.backup_id@))
}

/// The most objects one backup's object manifest may name.
pub const MAX_ARCHIVE_OBJECTS: usize = 1000000;

/// One object payload a backup retains: its content address and length.
#[derive(Debug, Clone, PartialEq, Eq)]
pub struct ObjectPayloadEntry {
    pub sha256: String,
    pub length: u64,
}

/// The object payloads a backup retains, in strictly ascending address order.
#[derive(Debug, Clone, PartialEq, Eq)]
pub struct ObjectPayloadManifest {
    pub format_version: u16,
    pub objects: Vec<ObjectPayloadEntry>,
}

/// The manifest's version is supported, it names at most the bound of
/// objects, every address is a content address, and the addresses ascend
/// strictly.
pub open spec fn object_manifest_valid(m: ObjectPayloadManifest) -> bool {
    &&& m.format_version == OBJECT_MANIFEST_VERSION
    &&& m.objects@.len() <= MAX_ARCHIVE_OBJECTS
    &&& forall|i: int| 0 <= i < m.objects@.len() ==> crate::object::is_digest_text(#[trigger] m.objects@[i].sha256@)
    &&& forall|i: int, j: int|
        0 <= i < j < m.objects@.len() ==> lex_lt(utf8(#[trigger] m.objects@[i].sha256@), utf8(#[trigger] m.objects@[j].sha256@))
}

/// The sum of the lengths of the objects.
pub open spec fn payload_total(objects: Seq<ObjectPayloadEntry>) -> nat
    decreases objects.len(),
{
    if objects.len() == 0 {
        0
    } else {
        payload_total(objects.drop_last()) + objects.last().length as nat
    }
}

/// Checks an object manifest.
pub fn validate_object_manifest(manifest: &ObjectPayloadManifest) -> (r: Result<()>)
    ensures
        r is Ok <==> object_manifest_valid(*manifest),
        r matches Err(e) ==> e is Archive || e is Object,
{
    if manifest.format_version != OBJECT_MANIFEST_VERSION {
        return Err(Error::Archive(text("unsupported object manifest version")));
    }
    if manifest.objects.len() > MAX_ARCHIVE_OBJECTS {
        return Err(Error::Archive(text("backup object closure exceeds the entry bound")));
    }
    let objects = &manifest.objects;
    let mut i: usize = 0;
    while i < objects.len()
        invariant
            *objects == manifest.objects,
            i <= objects@.len(),
            forall|k: int| 0 <= k < i ==> crate::object::is_digest_text(#[trigger] objects@[k].sha256@),
            forall|a: int, b: int| 0 <= a < b < i ==> lex_lt(utf8(#[trigger] objects@[a].sha256@), utf8(#[trigger] objects@[b].sha256@)),
        decreases objects@.len() - i,
    {
        crate::object::canonical_key(objects[i].sha256.as_str())?;
        if i > 0 && !bytes_lt(objects[i - 1].sha256.as_str().as_bytes(), objects[i].sha256.as_str().as_bytes()) {
            return Err(Error::Archive(text("object manifest entries are not uniquely ordered")));
        }
        proof {
            assert forall|a: int, b: int| 0 <= a < b < i + 1 implies lex_lt(utf8(#[trigger] objects@[a].sha256@), utf8(#[trigger] objects@[b].sha256@)) by {
                if b == i && a < i - 1 {
                    crate::bytes::lemma_lex_lt_transitive(utf8(objects@[a].sha256@), utf8(objects@[i - 1].sha256@), utf8(objects@[b].sha256@));
                }
            }
        }
        i = i + 1;
    }
    Ok(())
}

/// The inventory of a valid object manifest; `manifest_json` is the
/// manifest's serialized form, whose digest names it.
pub fn object_manifest_inventory(manifest: &ObjectPayloadManifest, manifest_json: &[u8]) -> (r: Result<ObjectPayloadManifestInventory>)
    ensures
        r is Ok <==> object_manifest_valid(*manifest) && payload_total(manifest.objects@) <= u64::MAX,
        r matches Err(e) ==> e is Archive || e is Object,
        r matches Ok(inventory) ==> {
            &&& inventory.format_version == manifest.format_version
            &&& inventory.manifest_sha256@ == crate::digest::sha256_hex_text(manifest_json@)
            &&& inventory.object_count == manifest.objects@.len()
            &&& inventory.payload_bytes == payload_total(manifest.objects@)
        },
{
    validate_object_manifest(manifest)?;
    let objects = &manifest.objects;
    let mut total: u64 = 0;
    let mut i: usize = 0;
    while i < objects.len()
        invariant
            *objects == manifest.objects,
            i <= objects@.len(),
            total == payload_total(objects@.take(i as int)),
        decreases objects@.len() - i,
    {
        proof {
            assert(objects@.take(i + 1).drop_last() =~= objects@.take(i as int));
            assert(objects@.take(i + 1).last() == objects@[i as int]);
            lemma_payload_total_prefix(objects@, i + 1);
        }
        total = match total.checked_add(objects[i].length) {
            Some(t) => t,
            None => {
                return Err(Error::Archive(text("object manifest payload bytes overflowed u64")));
            },
        };
        i = i + 1;
    }
    assert(objects@.take(objects@.len() as int) =~= objects@);
    Ok(
        ObjectPayloadManifestInventory {
            format_version: manifest.format_version,
            manifest_sha256: crate::digest::sha256_hex(manifest_json),
            object_count: objects.len() as u64,
            payload_bytes: total,
        },
    )
}

/// A prefix of the objects weighs no more than all of them.
proof fn lemma_payload_total_prefix(objects: Seq<ObjectPayloadEntry>, n: int)
    requires
        0 <= n <= objects.len(),
    ensures
        payload_total(objects.take(n)) <= payload_total(objects),
    decreases objects.len() - n,
{
    if n < objects.len() {
        lemma_payload_total_prefix(objects, n + 1);
        assert(objects.take(n + 1).drop_last() =~= objects.take(n));
    } else {
        assert(objects.take(n) =~= objects);
    }
}

} // verus!
