use rrd_store::migration::{
    check_native_state, check_resumable, inject, migration_action, migration_artifacts, next_phase, reconciled_phase,
    rollback_plan, MigrationAction, MigrationFault, MigrationObservation, MigrationPhase, NativeStateToken, RollbackPlan,
};
use rrd_store::Error;

fn observed() -> MigrationObservation {
    MigrationObservation {
        source_exists: true,
        source_is_dir: true,
        source_is_native: false,
        staging_exists: false,
        staging_is_dir: false,
        backup_exists: false,
        backup_is_dir: false,
        retired_exists: false,
        retired_is_dir: false,
        archive_is_file: true,
    }
}

#[test]
fn forward_migration_walks_every_phase_in_order() {
    let mut phase = MigrationPhase::Exported;
    let mut o = observed();
    let mut actions = Vec::new();
    loop {
        let action = migration_action(phase, o).unwrap();
        actions.push(action);
        if action == MigrationAction::Finish {
            break;
        }
        match action {
            MigrationAction::RebuildStaging => {
                o.staging_exists = true;
                o.staging_is_dir = true;
            }
            MigrationAction::MoveSourceToBackup => {
                o.source_exists = false;
                o.source_is_dir = false;
                o.backup_exists = true;
                o.backup_is_dir = true;
            }
            MigrationAction::PublishStaging => {
                o.staging_exists = false;
                o.staging_is_dir = false;
                o.source_exists = true;
                o.source_is_dir = true;
                o.source_is_native = true;
            }
            _ => {}
        }
        phase = next_phase(action);
    }
    assert_eq!(phase, MigrationPhase::Complete);
    assert_eq!(
        actions,
        vec![
            MigrationAction::RebuildStaging,
            MigrationAction::VerifyStaging,
            MigrationAction::MoveSourceToBackup,
            MigrationAction::PublishStaging,
            MigrationAction::ConfirmNative,
            MigrationAction::Finish,
        ]
    );
    assert_eq!(migration_action(MigrationPhase::Complete, o), Ok(MigrationAction::Finish));
}

#[test]
fn forward_migration_refuses_inconsistent_filesystems() {
    let mut o = observed();
    o.backup_exists = true;
    assert!(matches!(migration_action(MigrationPhase::Verified, o), Err(Error::Migration(_))));
    let o = observed();
    assert!(matches!(migration_action(MigrationPhase::SourceMoved, o), Err(Error::Migration(_))));
    assert!(matches!(migration_action(MigrationPhase::RolledBack, o), Err(Error::Migration(_))));
    assert!(matches!(migration_action(MigrationPhase::Complete, o), Err(Error::Migration(_))));
    assert!(matches!(check_resumable(MigrationPhase::RolledBack), Err(Error::Migration(_))));
    assert!(check_resumable(MigrationPhase::Cutover).is_ok());
}

#[test]
fn resumed_migration_reconciles_finished_renames() {
    let mut o = observed();
    o.source_exists = false;
    o.backup_is_dir = true;
    o.staging_is_dir = true;
    o.staging_exists = true;
    assert_eq!(reconciled_phase(MigrationPhase::Imported, o), Ok(Some(MigrationPhase::SourceMoved)));
    let mut native = observed();
    native.source_is_native = true;
    native.backup_is_dir = true;
    assert_eq!(reconciled_phase(MigrationPhase::SourceMoved, native), Ok(Some(MigrationPhase::Cutover)));
    assert_eq!(reconciled_phase(MigrationPhase::Verified, native), Ok(Some(MigrationPhase::Cutover)));
    native.staging_exists = true;
    assert!(matches!(reconciled_phase(MigrationPhase::Verified, native), Err(Error::Migration(_))));
    assert_eq!(reconciled_phase(MigrationPhase::Exported, observed()), Ok(None));
}

#[test]
fn faults_fire_only_at_their_boundary() {
    assert!(matches!(
        inject(Some(MigrationFault::AfterImport), MigrationFault::AfterImport),
        Err(Error::FaultInjected("migration.after_import"))
    ));
    assert!(inject(Some(MigrationFault::AfterImport), MigrationFault::AfterVerify).is_ok());
    assert!(inject(None, MigrationFault::AfterCutover).is_ok());
    assert_eq!(MigrationFault::AfterCutoverRename.label(), "migration.after_cutover_rename");
}

#[test]
fn rollback_plans_follow_the_recorded_phase() {
    assert_eq!(rollback_plan(MigrationPhase::RolledBack, observed()), Ok(RollbackPlan::Done));
    let mut native = observed();
    native.source_is_native = true;
    native.backup_exists = true;
    native.backup_is_dir = true;
    assert_eq!(
        rollback_plan(MigrationPhase::Complete, native),
        Ok(RollbackPlan::RestoreBackup { mark_native_moved: false, move_native_aside: true })
    );
    native.retired_exists = true;
    assert!(matches!(rollback_plan(MigrationPhase::Complete, native), Err(Error::Migration(_))));
    assert!(matches!(rollback_plan(MigrationPhase::Verified, observed()), Err(Error::Migration(_))));

    let mut aside = observed();
    aside.source_exists = false;
    aside.source_is_dir = false;
    aside.retired_exists = true;
    aside.retired_is_dir = true;
    aside.backup_exists = true;
    aside.backup_is_dir = true;
    assert_eq!(
        rollback_plan(MigrationPhase::Cutover, aside),
        Ok(RollbackPlan::RestoreBackup { mark_native_moved: true, move_native_aside: false })
    );
    let mut restored = observed();
    restored.retired_exists = true;
    restored.retired_is_dir = true;
    assert_eq!(
        rollback_plan(MigrationPhase::RollbackNativeMoved, restored),
        Ok(RollbackPlan::ConfirmRestored { mark_native_moved: false })
    );
}

#[test]
fn artifacts_are_hidden_siblings_and_native_state_must_match() {
    let artifacts = migration_artifacts("/data", "db");
    assert_eq!(artifacts.marker, "/data/.db.rrflow-migration.json");
    assert_eq!(artifacts.archive, "/data/.db.rrflow-migration.bin");
    assert_eq!(artifacts.staging, "/data/.db.rrflow-native-stage");
    assert_eq!(artifacts.backup, "/data/.db.fjall-backup");
    assert_eq!(artifacts.retired, "/data/.db.native-retired");

    let token = NativeStateToken { manifest: "m".into(), sequence: 3 };
    assert!(check_native_state(&Some(token.clone()), true, &token).is_ok());
    assert!(check_native_state(&None, true, &token).is_err());
    assert!(check_native_state(&Some(token.clone()), false, &token).is_err());
    let moved = NativeStateToken { manifest: "m".into(), sequence: 4 };
    assert!(check_native_state(&Some(token), true, &moved).is_err());
}
