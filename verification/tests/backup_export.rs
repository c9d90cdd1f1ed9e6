use dbx::backup_export::{BackupExportAction, BackupExportEvent, BackupExportProgress};
use dbx::backup_model::WebDatabaseBackupTableFilterMode;

/// The work a run asked for, written out, and how it ended.
fn drive(
    mode: WebDatabaseBackupTableFilterMode,
    databases: &[&[usize]],
    begin_fails: Option<usize>,
    release_fails: bool,
    export_fails: Option<u64>,
    cancel_at_step: Option<usize>,
) -> (Vec<String>, Result<(), String>) {
    let mut progress = BackupExportProgress::new(mode, databases.len());
    let mut event = BackupExportEvent::Begin;
    let mut work = Vec::new();
    let mut steps = 0;
    loop {
        let cancelled = cancel_at_step.is_some_and(|at| steps >= at);
        steps += 1;
        match progress.next_export_action(event, cancelled) {
            BackupExportAction::BeginSnapshot(index) => {
                work.push(format!("begin {index}"));
                event = BackupExportEvent::SnapshotBegun(if begin_fails == Some(index) {
                    Err("connection refused".to_string())
                } else {
                    Ok(databases[index].len())
                });
            }
            BackupExportAction::ResolveScope(index) => {
                work.push(format!("scope {}.{index}", progress.database_index));
                event = BackupExportEvent::ScopeResolved(Ok(databases[progress.database_index][index]));
            }
            BackupExportAction::Export(number) => {
                work.push(format!("export {number} of {}.{}", progress.database_index, progress.schema_index));
                event = BackupExportEvent::Exported(if export_fails == Some(number) {
                    Err("disk full".to_string())
                } else {
                    Ok(())
                });
            }
            BackupExportAction::ReleaseSnapshot => {
                work.push("release".to_string());
                event = BackupExportEvent::Released(if release_fails { Err("gone".to_string()) } else { Ok(()) });
            }
            BackupExportAction::Finish(result) => return (work, result),
        }
    }
}

#[test]
fn every_schema_of_every_database_is_exported_in_order() {
    let (work, result) = drive(WebDatabaseBackupTableFilterMode::All, &[&[0, 0], &[0]], None, false, None, None);
    assert_eq!(
        work,
        vec![
            "begin 0", "scope 0.0", "export 1 of 0.0", "scope 0.1", "export 2 of 0.1", "release", "begin 1", "scope 1.0",
            "export 3 of 1.0", "release",
        ]
    );
    assert_eq!(result, Ok(()));
}

#[test]
fn filtered_schemas_without_matching_tables_are_passed_over() {
    let (work, result) = drive(WebDatabaseBackupTableFilterMode::Include, &[&[0, 2]], None, false, None, None);
    assert_eq!(work, vec!["begin 0", "scope 0.0", "scope 0.1", "export 1 of 0.1", "release"]);
    assert_eq!(result, Ok(()));
}

#[test]
fn a_filtered_backup_that_matches_no_table_fails() {
    let (work, result) = drive(WebDatabaseBackupTableFilterMode::Exclude, &[&[0]], None, false, None, None);
    assert_eq!(work, vec!["begin 0", "scope 0.0", "release"]);
    assert_eq!(result, Err("No tables matched the configured Exclude backup rules".to_string()));
}

#[test]
fn an_export_error_ends_the_run_after_the_snapshot_is_released() {
    let (work, result) = drive(WebDatabaseBackupTableFilterMode::All, &[&[0, 0], &[0]], None, true, Some(1), None);
    assert_eq!(work, vec!["begin 0", "scope 0.0", "export 1 of 0.0", "release"]);
    assert_eq!(result, Err("disk full".to_string()));
}

#[test]
fn a_failed_release_ends_an_otherwise_good_run() {
    let (_, result) = drive(WebDatabaseBackupTableFilterMode::All, &[&[0]], None, true, None, None);
    assert_eq!(result, Err("Failed to release backup snapshot: gone".to_string()));
}

#[test]
fn a_snapshot_that_cannot_begin_ends_the_run_at_once() {
    let (work, result) = drive(WebDatabaseBackupTableFilterMode::All, &[&[0], &[0]], Some(1), false, None, None);
    assert_eq!(work, vec!["begin 0", "scope 0.0", "export 1 of 0.0", "release", "begin 1"]);
    assert_eq!(result, Err("connection refused".to_string()));
}

#[test]
fn a_cancelled_run_starts_no_more_work_and_still_releases_its_snapshot() {
    let (work, result) = drive(WebDatabaseBackupTableFilterMode::All, &[&[0, 0]], None, false, None, Some(3));
    assert_eq!(work, vec!["begin 0", "scope 0.0", "export 1 of 0.0", "release"]);
    assert_eq!(result, Err("Backup cancelled".to_string()));
    let (work, result) = drive(WebDatabaseBackupTableFilterMode::All, &[&[0]], None, false, None, Some(0));
    assert!(work.is_empty());
    assert_eq!(result, Err("Backup cancelled".to_string()));
}
