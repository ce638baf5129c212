//! The decisions of the explicit, resumable migration of a Fjall database to
//! native RRD LSM storage.
//!
//! The live database path is never populated incrementally: the source is
//! exported from one snapshot, native state is built and verified in an
//! absent sibling, and two directory renames perform cutover. Each step here
//! is a function from the durable phase and what the filesystem shows to the
//! next action; the caller performs the action, records the new phase, and
//! asks again.

use crate::archive::{path_join, std_join};
use crate::error::{join, text, Error, Result};
use vstd::prelude::*;

verus! {

/// The version of the migration archive and marker contract.
pub const MIGRATION_CONTRACT_VERSION: u16 = 1;

/// The inventory of one authenticated migration archive.
#[derive(Debug, Clone, PartialEq, Eq)]
pub struct MigrationInventory {
    pub format_version: u16,
    pub archive_sha256: String,
    pub entries: u64,
    pub payload_bytes: u64,
    pub keyspace_counts: Vec<u64>,
}

/// The durable phase a migration has reached.
#[derive(Debug, Clone, Copy, PartialEq, Eq, Structural)]
pub enum MigrationPhase {
    Exported,
    Imported,
    Verified,
    SourceMoved,
    Cutover,
    Complete,
    RollbackNativeMoved,
    RolledBack,
}

impl MigrationPhase {
    /// The phase's place in the order phases are reached.
    pub open spec fn spec_rank(self) -> u8 {
        match self {
            MigrationPhase::Exported => 0,
            MigrationPhase::Imported => 1,
            MigrationPhase::Verified => 2,
            MigrationPhase::SourceMoved => 3,
            MigrationPhase::Cutover => 4,
            MigrationPhase::Complete => 5,
            MigrationPhase::RollbackNativeMoved => 6,
            MigrationPhase::RolledBack => 7,
        }
    }

    /// The phase's place in the order phases are reached.
    pub fn rank(self) -> (r: u8)
        ensures
            r == self.spec_rank(),
    {
        match self {
            MigrationPhase::Exported => 0,
            MigrationPhase::Imported => 1,
            MigrationPhase::Verified => 2,
            MigrationPhase::SourceMoved => 3,
            MigrationPhase::Cutover => 4,
            MigrationPhase::Complete => 5,
            MigrationPhase::RollbackNativeMoved => 6,
            MigrationPhase::RolledBack => 7,
        }
    }
}

/// A crash boundary of the migration, for recovery tests.
#[derive(Debug, Clone, Copy, PartialEq, Eq, Structural)]
pub enum MigrationFault {
    AfterExport,
    AfterImport,
    AfterVerify,
    AfterSourceRename,
    AfterSourceMove,
    AfterCutoverRename,
    AfterCutover,
}

impl MigrationFault {
    /// The label a fault injected at this boundary reports.
    pub open spec fn spec_label(self) -> Seq<char> {
        match self {
            MigrationFault::AfterExport => "migration.after_export"@,
            MigrationFault::AfterImport => "migration.after_import"@,
            MigrationFault::AfterVerify => "migration.after_verify"@,
            MigrationFault::AfterSourceRename => "migration.after_source_rename"@,
            MigrationFault::AfterSourceMove => "migration.after_source_move"@,
            MigrationFault::AfterCutoverRename => "migration.after_cutover_rename"@,
            MigrationFault::AfterCutover => "migration.after_cutover"@,
        }
    }

    /// The label a fault injected at this boundary reports.
    pub fn label(self) -> (l: &'static str)
        ensures
            l@ == self.spec_label(),
    {
        match self {
            MigrationFault::AfterExport => "migration.after_export",
            MigrationFault::AfterImport => "migration.after_import",
            MigrationFault::AfterVerify => "migration.after_verify",
            MigrationFault::AfterSourceRename => "migration.after_source_rename",
            MigrationFault::AfterSourceMove => "migration.after_source_move",
            MigrationFault::AfterCutoverRename => "migration.after_cutover_rename",
            MigrationFault::AfterCutover => "migration.after_cutover",
        }
    }
}

/// Fails at `boundary` exactly when it is the selected fault.
pub fn inject(selected: Option<MigrationFault>, boundary: MigrationFault) -> (r: Result<()>)
    ensures
        selected == Some(boundary) ==> (r matches Err(Error::FaultInjected(l)) && l@ == boundary.spec_label()),
        selected != Some(boundary) ==> r is Ok,
{
    match selected {
        Some(fault) => {
            if fault == boundary {
                return Err(Error::FaultInjected(boundary.label()));
            }
            Ok(())
        },
        None => Ok(()),
    }
}

/// The manifest digest and sequence of a native store, as it was seen.
#[derive(Debug, Clone, PartialEq, Eq)]
pub struct NativeStateToken {
    pub manifest: String,
    pub sequence: u64,
}

/// The durable marker of one migration.
#[derive(Debug, Clone, PartialEq, Eq)]
pub struct MigrationReport {
    pub contract_version: u16,
    pub phase: MigrationPhase,
    pub source: String,
    pub archive: String,
    pub staging: String,
    pub fjall_backup: String,
    pub retired_native: String,
    pub inventory: MigrationInventory,
    pub native_state: Option<NativeStateToken>,
}

/// The sibling paths a migration of the database named `name` in directory
/// `parent` keeps its marker, archive, staging, backup and retired store at.
#[derive(Debug, Clone, PartialEq, Eq)]
pub struct MigrationArtifacts {
    pub marker: String,
    pub archive: String,
    pub staging: String,
    pub backup: String,
    pub retired: String,
}

/// The path of the hidden sibling `.{name}{suffix}` in `parent`.
pub open spec fn sibling(parent: Seq<char>, name: Seq<char>, suffix: Seq<char>) -> Seq<char> {
    path_join(parent, "."@ + name + suffix)
}

/// The hidden sibling `.{name}{suffix}` in `parent`.
fn sibling_path(parent: &str, name: &str, suffix: &str) -> (p: String)
    ensures
        p@ == sibling(parent@, name@, suffix@),
{
    let dotted = join(".", name);
    let file = join(dotted.as_str(), suffix);
    proof {
        reveal_strlit(".");
    }
    std_join(parent, file.as_str())
}

/// The artifacts of migrating the database `name` in `parent`.
pub fn migration_artifacts(parent: &str, name: &str) -> (a: MigrationArtifacts)
    ensures
        a.marker@ == sibling(parent@, name@, ".rrflow-migration.json"@),
        a.archive@ == sibling(parent@, name@, ".rrflow-migration.bin"@),
        a.staging@ == sibling(parent@, name@, ".rrflow-native-stage"@),
        a.backup@ == sibling(parent@, name@, ".fjall-backup"@),
        a.retired@ == sibling(parent@, name@, ".native-retired"@),
{
    MigrationArtifacts {
        marker: sibling_path(parent, name, ".rrflow-migration.json"),
        archive: sibling_path(parent, name, ".rrflow-migration.bin"),
        staging: sibling_path(parent, name, ".rrflow-native-stage"),
        backup: sibling_path(parent, name, ".fjall-backup"),
        retired: sibling_path(parent, name, ".native-retired"),
    }
}

/// What the filesystem shows of the database path and its artifacts.
#[derive(Debug, Clone, Copy, PartialEq, Eq)]
pub struct MigrationObservation {
    pub source_exists: bool,
    pub source_is_dir: bool,
    /// The database path holds a native store (its `CURRENT` file).
    pub source_is_native: bool,
    pub staging_exists: bool,
    pub staging_is_dir: bool,
    pub backup_exists: bool,
    pub backup_is_dir: bool,
    pub retired_exists: bool,
    pub retired_is_dir: bool,
    pub archive_is_file: bool,
}

/// The phase a resumed migration records before it goes on, where the
/// filesystem shows that a step finished after its phase was last recorded:
/// a cutover when the database path already holds a native store, a moved
/// source when it is gone and both staging and backup stand. `None` when the
/// recorded phase stands; an error when the filesystem is ambiguous.
pub open spec fn spec_reconciled_phase(phase: MigrationPhase, o: MigrationObservation) -> std::result::Result<Option<MigrationPhase>, Seq<char>> {
    if phase.spec_rank() <= 2 && o.source_is_native {
        if !o.backup_is_dir || o.staging_exists {
            Err("native source appeared without the complete cutover artifact set"@)
        } else {
            Ok(Some(MigrationPhase::Cutover))
        }
    } else if phase.spec_rank() <= 2 && !o.source_exists && o.backup_is_dir && o.staging_is_dir {
        Ok(Some(MigrationPhase::SourceMoved))
    } else if phase == MigrationPhase::SourceMoved && o.source_is_native {
        if !o.backup_is_dir || o.staging_exists {
            Err("ambiguous post-cutover filesystem state"@)
        } else {
            Ok(Some(MigrationPhase::Cutover))
        }
    } else {
        Ok(None)
    }
}

/// The phase a resumed migration records before it goes on; see
/// `spec_reconciled_phase`.
pub fn reconciled_phase(phase: MigrationPhase, o: MigrationObservation) -> (r: Result<Option<MigrationPhase>>)
    ensures
        match (r, spec_reconciled_phase(phase, o)) {
            (Ok(a), Ok(b)) => a == b,
            (Err(Error::Migration(m)), Err(n)) => m@ == n,
            _ => false,
        },
{
    let rank = phase.rank();
    if rank <= 2 && o.source_is_native {
        if !o.backup_is_dir || o.staging_exists {
            return Err(Error::Migration(text("native source appeared without the complete cutover artifact set")));
        }
        Ok(Some(MigrationPhase::Cutover))
    } else if rank <= 2 && !o.source_exists && o.backup_is_dir && o.staging_is_dir {
        Ok(Some(MigrationPhase::SourceMoved))
    } else if phase == MigrationPhase::SourceMoved && o.source_is_native {
        if !o.backup_is_dir || o.staging_exists {
            return Err(Error::Migration(text("ambiguous post-cutover filesystem state")));
        }
        Ok(Some(MigrationPhase::Cutover))
    } else {
        Ok(None)
    }
}

/// The next action of a forward migration.
#[derive(Debug, Clone, Copy, PartialEq, Eq, Structural)]
pub enum MigrationAction {
    /// Rebuild native staging from the archive; then the phase is `Imported`.
    RebuildStaging,
    /// Verify staging against the archive; then `Verified`.
    VerifyStaging,
    /// Rename the source to its backup; then `SourceMoved`.
    MoveSourceToBackup,
    /// Rename staging to the database path and record its state; then `Cutover`.
    PublishStaging,
    /// Confirm the visible native store is the one cut over; then `Complete`.
    ConfirmNative,
    /// The migration is complete.
    Finish,
}

/// The phase recorded once `action` is done; `Complete` stays.
pub open spec fn phase_after(action: MigrationAction) -> MigrationPhase {
    match action {
        MigrationAction::RebuildStaging => MigrationPhase::Imported,
        MigrationAction::VerifyStaging => MigrationPhase::Verified,
        MigrationAction::MoveSourceToBackup => MigrationPhase::SourceMoved,
        MigrationAction::PublishStaging => MigrationPhase::Cutover,
        MigrationAction::ConfirmNative => MigrationPhase::Complete,
        MigrationAction::Finish => MigrationPhase::Complete,
    }
}

/// The phase recorded once `action` is done.
pub fn next_phase(action: MigrationAction) -> (p: MigrationPhase)
    ensures
        p == phase_after(action),
{
    match action {
        MigrationAction::RebuildStaging => MigrationPhase::Imported,
        MigrationAction::VerifyStaging => MigrationPhase::Verified,
        MigrationAction::MoveSourceToBackup => MigrationPhase::SourceMoved,
        MigrationAction::PublishStaging => MigrationPhase::Cutover,
        MigrationAction::ConfirmNative => MigrationPhase::Complete,
        MigrationAction::Finish => MigrationPhase::Complete,
    }
}

/// The action a forward migration in `phase` takes next, given what the
/// filesystem shows; a migration that was rolled back or is rolling back
/// is refused.
pub open spec fn spec_migration_action(phase: MigrationPhase, o: MigrationObservation) -> Option<MigrationAction> {
    match phase {
        MigrationPhase::Exported => Some(MigrationAction::RebuildStaging),
        MigrationPhase::Imported => Some(MigrationAction::VerifyStaging),
        MigrationPhase::Verified => if o.source_exists && !o.backup_exists {
            Some(MigrationAction::MoveSourceToBackup)
        } else {
            None
        },
        MigrationPhase::SourceMoved => if !o.source_exists && o.staging_is_dir && o.backup_is_dir {
            Some(MigrationAction::PublishStaging)
        } else {
            None
        },
        MigrationPhase::Cutover => Some(MigrationAction::ConfirmNative),
        MigrationPhase::Complete => if o.source_is_native && o.backup_is_dir && o.archive_is_file {
            Some(MigrationAction::Finish)
        } else {
            None
        },
        _ => None,
    }
}

/// The action a forward migration in `phase` takes next; see
/// `spec_migration_action`. Every refusal is a migration error.
pub fn migration_action(phase: MigrationPhase, o: MigrationObservation) -> (r: Result<MigrationAction>)
    ensures
        match spec_migration_action(phase, o) {
            Some(a) => r == Ok::<MigrationAction, Error>(a),
            None => r matches Err(Error::Migration(_)),
        },
        r matches Ok(a) ==> phase_after(a).spec_rank() == if phase == MigrationPhase::Complete { 5 } else { phase.spec_rank() + 1 },
{
    match phase {
        MigrationPhase::Exported => Ok(MigrationAction::RebuildStaging),
        MigrationPhase::Imported => Ok(MigrationAction::VerifyStaging),
        MigrationPhase::Verified => {
            if !o.source_exists {
                return Err(Error::Migration(text("source disappeared before its retained backup was established")));
            }
            if o.backup_exists {
                return Err(Error::Migration(text("Fjall backup target already exists before source move")));
            }
            Ok(MigrationAction::MoveSourceToBackup)
        },
        MigrationPhase::SourceMoved => {
            if o.source_exists {
                return Err(Error::Migration(text("database path unexpectedly exists during staged cutover")));
            }
            if !o.staging_is_dir || !o.backup_is_dir {
                return Err(Error::Migration(text("cutover requires both native staging and retained Fjall backup")));
            }
            Ok(MigrationAction::PublishStaging)
        },
        MigrationPhase::Cutover => Ok(MigrationAction::ConfirmNative),
        MigrationPhase::Complete => {
            if !o.source_is_native || !o.backup_is_dir || !o.archive_is_file {
                return Err(Error::Migration(text("completed migration is missing its native store or retained evidence")));
            }
            Ok(MigrationAction::Finish)
        },
        MigrationPhase::RollbackNativeMoved | MigrationPhase::RolledBack => {
            Err(Error::Migration(text("migration is in rollback state; run rollback again to finish recovery")))
        },
    }
}

/// A migration that was rolled back is not resumed.
pub fn check_resumable(phase: MigrationPhase) -> (r: Result<()>)
    ensures
        phase == MigrationPhase::RolledBack <==> r matches Err(Error::Migration(_)),
        r is Ok <==> phase != MigrationPhase::RolledBack,
{
    if phase == MigrationPhase::RolledBack {
        return Err(Error::Migration(text("migration was rolled back; retain the evidence and start a new migration explicitly")));
    }
    Ok(())
}

/// How a rollback proceeds from where it finds the migration.
#[derive(Debug, Clone, Copy, PartialEq, Eq, Structural)]
pub enum RollbackPlan {
    /// The migration is already rolled back.
    Done,
    /// The database path already holds the restored Fjall copy: verify it
    /// and record `RolledBack`.
    ConfirmRestored { mark_native_moved: bool },
    /// Restore the retained backup: when `move_native_aside`, first verify
    /// the visible native store and the backup and rename the native store
    /// to its retired path, recording `RollbackNativeMoved`; then verify the
    /// backup, rename it to the database path and record `RolledBack`.
    RestoreBackup { mark_native_moved: bool, move_native_aside: bool },
}

/// `phase` is one a rollback may start from: cutover or complete.
pub open spec fn after_cutover(phase: MigrationPhase) -> bool {
    phase == MigrationPhase::Cutover || phase == MigrationPhase::Complete
}

/// The Fjall copy already stands at the database path with the native
/// store retired and the backup consumed.
pub open spec fn restored_in_place(o: MigrationObservation) -> bool {
    o.source_is_dir && !o.source_is_native && o.retired_is_dir && !o.backup_exists
}

/// The native store was moved aside and the backup still waits.
pub open spec fn native_moved_aside(o: MigrationObservation) -> bool {
    !o.source_exists && o.retired_is_dir && o.backup_is_dir
}

/// How a rollback from `phase` proceeds given what the filesystem shows;
/// `None` where it is refused.
pub open spec fn spec_rollback_plan(phase: MigrationPhase, o: MigrationObservation) -> Option<RollbackPlan> {
    if phase == MigrationPhase::RolledBack {
        Some(RollbackPlan::Done)
    } else {
        let marked = after_cutover(phase) && native_moved_aside(o);
        let current = if marked { MigrationPhase::RollbackNativeMoved } else { phase };
        if after_cutover(current) && restored_in_place(o) {
            Some(RollbackPlan::ConfirmRestored { mark_native_moved: marked })
        } else if current == MigrationPhase::RollbackNativeMoved {
            if restored_in_place(o) {
                Some(RollbackPlan::ConfirmRestored { mark_native_moved: marked })
            } else if !native_moved_aside(o) {
                None
            } else {
                Some(RollbackPlan::RestoreBackup { mark_native_moved: marked, move_native_aside: false })
            }
        } else if !after_cutover(current) || o.retired_exists {
            None
        } else {
            Some(RollbackPlan::RestoreBackup { mark_native_moved: marked, move_native_aside: true })
        }
    }
}

/// How a rollback proceeds; see `spec_rollback_plan`. Every refusal is a
/// migration error.
pub fn rollback_plan(phase: MigrationPhase, o: MigrationObservation) -> (r: Result<RollbackPlan>)
    ensures
        match spec_rollback_plan(phase, o) {
            Some(p) => r == Ok::<RollbackPlan, Error>(p),
            None => r matches Err(Error::Migration(_)),
        },
{
    if phase == MigrationPhase::RolledBack {
        return Ok(RollbackPlan::Done);
    }
    let cutover = phase == MigrationPhase::Cutover || phase == MigrationPhase::Complete;
    let aside = !o.source_exists && o.retired_is_dir && o.backup_is_dir;
    let restored = o.source_is_dir && !o.source_is_native && o.retired_is_dir && !o.backup_exists;
    let marked = cutover && aside;
    let current = if marked { MigrationPhase::RollbackNativeMoved } else { phase };
    let current_cutover = current == MigrationPhase::Cutover || current == MigrationPhase::Complete;
    if current_cutover && restored {
        return Ok(RollbackPlan::ConfirmRestored { mark_native_moved: marked });
    }
    if current == MigrationPhase::RollbackNativeMoved {
        if restored {
            return Ok(RollbackPlan::ConfirmRestored { mark_native_moved: marked });
        }
        if !aside {
            return Err(Error::Migration(text("ambiguous interrupted rollback filesystem state")));
        }
        return Ok(RollbackPlan::RestoreBackup { mark_native_moved: marked, move_native_aside: false });
    }
    if !current_cutover {
        return Err(Error::Migration(text("rollback is available only after cutover")));
    }
    if o.retired_exists {
        return Err(Error::Migration(text("retired-native target already exists; refusing to overwrite evidence")));
    }
    Ok(RollbackPlan::RestoreBackup { mark_native_moved: marked, move_native_aside: true })
}

/// A migration that reached the native store the way it was cut over: the
/// token recorded at cutover is present and equal to the one seen now.
pub fn check_native_state(expected: &Option<NativeStateToken>, is_native: bool, actual: &NativeStateToken) -> (r: Result<()>)
    ensures
        r is Ok <==> (expected matches Some(t) && is_native && t.manifest@ == actual.manifest@ && t.sequence == actual.sequence),
        r matches Err(e) ==> e is Migration,
{
    let expected = match expected {
        Some(t) => t,
        None => {
            return Err(Error::Migration(text("native state token is absent")));
        },
    };
    if !is_native {
        return Err(Error::Migration(text("visible database is not native RRD LSM")));
    }
    if expected.manifest != actual.manifest || expected.sequence != actual.sequence {
        return Err(Error::Migration(text("native state diverged after cutover")));
    }
    Ok(())
}


/// How a rollback proceeds, case by case over what the filesystem shows.
/// The database path holds the restored Fjall copy when it is a directory
/// that is not a native store, the retired native store stands and the
/// backup is gone; the native store was moved aside when the database path
/// is absent and both the retired native store and the backup are
/// directories.
/// - A rolled-back migration is done.
/// - After `RollbackNativeMoved`, a restored copy is confirmed; a native
///   store moved aside has its backup restored, without moving anything
///   aside again; anything else is refused.
/// - After cutover or completion, a restored copy is confirmed, a native
///   store already moved aside is recorded as such and its backup restored,
///   and otherwise the native store is moved aside and the backup restored,
///   unless a retired native store would be overwritten.
/// - From any earlier phase a rollback is refused.
pub proof fn lemma_rollback_plan_cases(phase: MigrationPhase, o: MigrationObservation)
    ensures
        ({
            let restored = o.source_is_dir && !o.source_is_native && o.retired_is_dir && !o.backup_exists;
            let aside = !o.source_exists && o.retired_is_dir && o.backup_is_dir;
            let cut = phase == MigrationPhase::Cutover || phase == MigrationPhase::Complete;
            &&& phase == MigrationPhase::RolledBack ==> spec_rollback_plan(phase, o) == Some(RollbackPlan::Done)
            &&& phase == MigrationPhase::RollbackNativeMoved && restored
                ==> spec_rollback_plan(phase, o) == Some(RollbackPlan::ConfirmRestored { mark_native_moved: false })
            &&& phase == MigrationPhase::RollbackNativeMoved && !restored && aside
                ==> spec_rollback_plan(phase, o) == Some(RollbackPlan::RestoreBackup { mark_native_moved: false, move_native_aside: false })
            &&& phase == MigrationPhase::RollbackNativeMoved && !restored && !aside ==> spec_rollback_plan(phase, o) is None
            &&& cut && aside && restored ==> spec_rollback_plan(phase, o) == Some(RollbackPlan::ConfirmRestored { mark_native_moved: true })
            &&& cut && aside && !restored
                ==> spec_rollback_plan(phase, o) == Some(RollbackPlan::RestoreBackup { mark_native_moved: true, move_native_aside: false })
            &&& cut && !aside && restored ==> spec_rollback_plan(phase, o) == Some(RollbackPlan::ConfirmRestored { mark_native_moved: false })
            &&& cut && !aside && !restored && o.retired_exists ==> spec_rollback_plan(phase, o) is None
            &&& cut && !aside && !restored && !o.retired_exists
                ==> spec_rollback_plan(phase, o) == Some(RollbackPlan::RestoreBackup { mark_native_moved: false, move_native_aside: true })
            &&& !cut && phase != MigrationPhase::RolledBack && phase != MigrationPhase::RollbackNativeMoved ==> spec_rollback_plan(phase, o) is None
        }),
{
}

/// A rollback run again after the native store was moved aside finishes:
/// from `RollbackNativeMoved`, with the database path absent and the
/// retired native store and the backup standing as directories, the plan
/// restores the backup without moving anything aside.
pub proof fn lemma_rollback_resumes_after_native_moved(o: MigrationObservation)
    requires
        !o.source_exists,
        o.retired_exists && o.retired_is_dir,
        o.backup_exists && o.backup_is_dir,
    ensures
        spec_rollback_plan(MigrationPhase::RollbackNativeMoved, o)
            == Some(RollbackPlan::RestoreBackup { mark_native_moved: false, move_native_aside: false }),
{
    lemma_rollback_plan_cases(MigrationPhase::RollbackNativeMoved, o);
}


/// Each forward step is taken from its own phase and only when the
/// filesystem allows it without losing evidence: staging is rebuilt after
/// export and verified after import; the source is moved to its backup only
/// when it exists and no backup does; staging is published only when the
/// database path is free and both staging and the backup are directories;
/// a cutover is confirmed; and a completed migration finishes only with its
/// native store, backup and archive in place. A rollback phase takes no
/// forward step.
pub proof fn lemma_forward_steps(phase: MigrationPhase, o: MigrationObservation)
    ensures
        spec_migration_action(phase, o) == Some(MigrationAction::RebuildStaging) <==> phase == MigrationPhase::Exported,
        spec_migration_action(phase, o) == Some(MigrationAction::VerifyStaging) <==> phase == MigrationPhase::Imported,
        spec_migration_action(phase, o) == Some(MigrationAction::MoveSourceToBackup) <==> phase == MigrationPhase::Verified && o.source_exists
            && !o.backup_exists,
        spec_migration_action(phase, o) == Some(MigrationAction::PublishStaging) <==> phase == MigrationPhase::SourceMoved && !o.source_exists
            && o.staging_is_dir && o.backup_is_dir,
        spec_migration_action(phase, o) == Some(MigrationAction::ConfirmNative) <==> phase == MigrationPhase::Cutover,
        spec_migration_action(phase, o) == Some(MigrationAction::Finish) <==> phase == MigrationPhase::Complete && o.source_is_native
            && o.backup_is_dir && o.archive_is_file,
        phase == MigrationPhase::RollbackNativeMoved || phase == MigrationPhase::RolledBack ==> spec_migration_action(phase, o) is None,
{
}

/// A resumed migration notices a step that finished after its phase was
/// last recorded: before the source moved, a native store at the database
/// path means the cutover happened (refused unless the backup stands and
/// staging is gone), and an absent source with staging and backup standing
/// means the source was moved; after the source moved, a native store means
/// the cutover happened, under the same condition. Otherwise the recorded
/// phase stands.
pub proof fn lemma_resumed_migration_reconciles(phase: MigrationPhase, o: MigrationObservation)
    ensures
        ({
            let early = phase == MigrationPhase::Exported || phase == MigrationPhase::Imported || phase == MigrationPhase::Verified;
            let cutover_complete = o.backup_is_dir && !o.staging_exists;
            &&& (early || phase == MigrationPhase::SourceMoved) && o.source_is_native && cutover_complete
                ==> spec_reconciled_phase(phase, o) == Ok::<Option<MigrationPhase>, Seq<char>>(Some(MigrationPhase::Cutover))
            &&& (early || phase == MigrationPhase::SourceMoved) && o.source_is_native && !cutover_complete ==> spec_reconciled_phase(phase, o) is Err
            &&& early && !o.source_is_native && !o.source_exists && o.backup_is_dir && o.staging_is_dir
                ==> spec_reconciled_phase(phase, o) == Ok::<Option<MigrationPhase>, Seq<char>>(Some(MigrationPhase::SourceMoved))
            &&& !early && !(phase == MigrationPhase::SourceMoved && o.source_is_native)
                ==> spec_reconciled_phase(phase, o) == Ok::<Option<MigrationPhase>, Seq<char>>(None)
            &&& early && !o.source_is_native && !(!o.source_exists && o.backup_is_dir && o.staging_is_dir)
                ==> spec_reconciled_phase(phase, o) == Ok::<Option<MigrationPhase>, Seq<char>>(None)
        }),
{
}

} // verus!
