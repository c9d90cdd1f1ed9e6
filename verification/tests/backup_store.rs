
use dbx::backup_manager::{
    backup_file_record, check_backup_database_type, download_content_disposition, export_id, parse_u8, run_outcome,
    table_scope, unmatched_tables_error, ActiveRunSlot, WebDatabaseBackupError,
};
use dbx::backup_model::{
    WebDatabaseBackupFile, WebDatabaseBackupFrequency, WebDatabaseBackupMetadata, WebDatabaseBackupRun,
    WebDatabaseBackupRunStatus, WebDatabaseBackupRunTrigger, WebDatabaseBackupSchedule,
    WebDatabaseBackupScheduleInput, WebDatabaseBackupTableFilterMode, MAX_WEB_DATABASE_BACKUP_HISTORY,
};
use dbx::backup_scope::DatabaseType;
use dbx::backup_time::BackupInstant;

const NOW: BackupInstant = BackupInstant { seconds: 1_784_678_400, nanos: 0 };

fn input(name: &str) -> WebDatabaseBackupScheduleInput {
    WebDatabaseBackupScheduleInput {
        name: name.to_string(),
        enabled: true,
        connection_id: "connection-1".to_string(),
        databases: Vec::new(),
        table_filter_mode: WebDatabaseBackupTableFilterMode::All,
        table_patterns: Vec::new(),
        frequency: WebDatabaseBackupFrequency::Hourly,
        interval_hours: 6,
        time_of_day: "02:00".to_string(),
        weekday: 1,
        include_structure: true,
        include_data: true,
        include_objects: true,
        drop_table_if_exists: false,
        retention_count: 10,
    }
}

fn schedule(id: &str, name: &str, next_run_at: &str) -> WebDatabaseBackupSchedule {
    WebDatabaseBackupSchedule {
        id: id.to_string(),
        input: input(name),
        created_at: "2026-07-22T00:00:00+00:00".to_string(),
        updated_at: "2026-07-22T00:00:00+00:00".to_string(),
        next_run_at: next_run_at.to_string(),
        last_run_at: None,
        last_run_status: None,
    }
}

fn run(id: &str, schedule_id: &str, status: WebDatabaseBackupRunStatus, started_at: &str) -> WebDatabaseBackupRun {
    WebDatabaseBackupRun {
        id: id.to_string(),
        schedule_id: schedule_id.to_string(),
        schedule_name: "Nightly".to_string(),
        connection_id: "connection-1".to_string(),
        connection_name: "Postgres".to_string(),
        trigger: WebDatabaseBackupRunTrigger::Scheduled,
        status,
        started_at: started_at.to_string(),
        completed_at: None,
        files: Vec::new(),
        error: None,
    }
}

fn file(relative_path: &str) -> WebDatabaseBackupFile {
    WebDatabaseBackupFile {
        database: "app".to_string(),
        schema: "public".to_string(),
        display_name: "app / public".to_string(),
        relative_path: relative_path.to_string(),
    }
}

fn ids(runs: &[WebDatabaseBackupRun]) -> Vec<&str> {
    runs.iter().map(|run| run.id.as_str()).collect()
}

#[test]
fn upsert_preserves_overflow_for_manager_file_cleanup() {
    let started_at = chrono::DateTime::parse_from_rfc3339("2026-07-22T00:00:00+00:00").unwrap();
    let mut metadata = WebDatabaseBackupMetadata::default();
    for index in 0..MAX_WEB_DATABASE_BACKUP_HISTORY {
        metadata.runs.push(run(
            &format!("run-{index:03}"),
            "schedule-1",
            WebDatabaseBackupRunStatus::Success,
            &(started_at + chrono::Duration::seconds(index as i64)).to_rfc3339(),
        ));
    }
    metadata.upsert_run(run(
        &format!("run-{:03}", MAX_WEB_DATABASE_BACKUP_HISTORY),
        "schedule-1",
        WebDatabaseBackupRunStatus::Success,
        &(started_at + chrono::Duration::seconds(MAX_WEB_DATABASE_BACKUP_HISTORY as i64)).to_rfc3339(),
    ));

    assert_eq!(metadata.list_runs().len(), MAX_WEB_DATABASE_BACKUP_HISTORY + 1);
    let candidates = metadata.runs_exceeding_history_limit();
    assert_eq!(candidates.len(), 1);
    assert_eq!(candidates[0].id, "run-000");
}

#[test]
fn upsert_replaces_a_run_with_the_same_id_and_keeps_latest_first() {
    let mut metadata = WebDatabaseBackupMetadata::default();
    metadata.upsert_run(run("a", "s", WebDatabaseBackupRunStatus::Running, "2026-07-22T01:00:00+00:00"));
    metadata.upsert_run(run("b", "s", WebDatabaseBackupRunStatus::Running, "2026-07-22T03:00:00+00:00"));
    metadata.upsert_run(run("c", "s", WebDatabaseBackupRunStatus::Running, "2026-07-22T02:00:00+00:00"));
    assert_eq!(ids(&metadata.runs), vec!["b", "c", "a"]);
    metadata.upsert_run(run("a", "s", WebDatabaseBackupRunStatus::Success, "2026-07-22T01:00:00+00:00"));
    assert_eq!(ids(&metadata.runs), vec!["b", "c", "a"]);
    assert_eq!(metadata.get_run("a").unwrap().status, WebDatabaseBackupRunStatus::Success);
    assert!(metadata.get_run("missing").is_none());
}

#[test]
fn listed_schedules_are_ordered_by_name_and_ties_keep_their_order() {
    let mut metadata = WebDatabaseBackupMetadata::default();
    metadata.schedules.push(schedule("1", "beta", "x"));
    metadata.schedules.push(schedule("2", "Alpha", "x"));
    metadata.schedules.push(schedule("3", "beta", "x"));
    metadata.schedules.push(schedule("4", "alpha", "x"));
    let listed: Vec<String> = metadata.list_schedules().into_iter().map(|s| s.id).collect();
    assert_eq!(listed, vec!["2", "4", "1", "3"]);
    assert_eq!(metadata.get_schedule("3").unwrap().input.name, "beta");
}

#[test]
fn running_runs_recover_as_failed() {
    let mut metadata = WebDatabaseBackupMetadata::default();
    metadata.runs.push(run("a", "s", WebDatabaseBackupRunStatus::Running, "2026-07-22T01:00:00+00:00"));
    metadata.runs.push(run("b", "s", WebDatabaseBackupRunStatus::Success, "2026-07-22T00:00:00+00:00"));
    let recovered = metadata.mark_interrupted_runs_failed("2026-07-22T05:00:00+00:00");
    assert_eq!(ids(&recovered), vec!["a"]);
    assert_eq!(metadata.runs[0].status, WebDatabaseBackupRunStatus::Failed);
    assert_eq!(metadata.runs[0].completed_at.as_deref(), Some("2026-07-22T05:00:00+00:00"));
    assert_eq!(metadata.runs[0].error.as_deref(), Some("Web service restarted while the backup was running"));
    assert_eq!(metadata.runs[1].status, WebDatabaseBackupRunStatus::Success);
    assert!(metadata.mark_interrupted_runs_failed("later").is_empty());

    let mut again = WebDatabaseBackupMetadata::default();
    again.runs.push(run("c", "s", WebDatabaseBackupRunStatus::Running, "2026-07-22T01:00:00+00:00"));
    assert_eq!(again.recover_interrupted_runs(NOW).len(), 1);
    assert_eq!(again.list_runs()[0].status, WebDatabaseBackupRunStatus::Failed);
}

#[test]
fn due_schedules_are_enabled_and_ordered_by_next_run_then_name() {
    let mut metadata = WebDatabaseBackupMetadata::default();
    metadata.schedules.push(schedule("late", "a", "2026-07-22T03:00:00+00:00"));
    metadata.schedules.push(schedule("early-b", "b", "2026-07-22T01:00:00+00:00"));
    metadata.schedules.push(schedule("early-a", "a", "2026-07-22T01:00:00+00:00"));
    metadata.schedules.push(schedule("future", "a", "2026-07-23T01:00:00+00:00"));
    metadata.schedules.push(schedule("broken", "a", "not a time"));
    let mut disabled = schedule("disabled", "a", "2026-07-22T00:00:00+00:00");
    disabled.input.enabled = false;
    metadata.schedules.push(disabled);
    let now = BackupInstant { seconds: 1_784_692_800, nanos: 0 };
    assert_eq!(metadata.due_schedule_ids(now), vec!["early-a", "early-b", "late"]);
}

#[test]
fn pruning_keeps_the_newest_successful_runs_of_the_schedule() {
    let mut metadata = WebDatabaseBackupMetadata::default();
    metadata.runs.push(run("old", "s", WebDatabaseBackupRunStatus::Success, "2026-07-20T00:00:00+00:00"));
    metadata.runs.push(run("new", "s", WebDatabaseBackupRunStatus::Success, "2026-07-22T00:00:00+00:00"));
    metadata.runs.push(run("failed", "s", WebDatabaseBackupRunStatus::Failed, "2026-07-19T00:00:00+00:00"));
    metadata.runs.push(run("other", "t", WebDatabaseBackupRunStatus::Success, "2026-07-18T00:00:00+00:00"));
    metadata.runs.push(run("mid", "s", WebDatabaseBackupRunStatus::Success, "2026-07-21T00:00:00+00:00"));
    assert_eq!(ids(&metadata.successful_runs_to_prune("s", 1)), vec!["mid", "old"]);
    assert!(metadata.successful_runs_to_prune("s", 3).is_empty());
}

#[test]
fn deleting_removes_every_match_and_reports_whether_there_was_one() {
    let mut metadata = WebDatabaseBackupMetadata::default();
    metadata.runs.push(run("a", "s", WebDatabaseBackupRunStatus::Success, "1"));
    metadata.runs.push(run("b", "s", WebDatabaseBackupRunStatus::Success, "2"));
    metadata.runs.push(run("a", "s", WebDatabaseBackupRunStatus::Success, "3"));
    assert!(metadata.delete_run("a"));
    assert_eq!(ids(&metadata.runs), vec!["b"]);
    assert!(!metadata.delete_run("a"));
    metadata.schedules.push(schedule("s", "n", "x"));
    assert!(!metadata.delete_schedule("t"));
    assert!(metadata.delete_schedule("s"));
    assert!(metadata.schedules.is_empty());
}

#[test]
fn run_files_are_added_and_cleared_on_the_run() {
    let mut metadata = WebDatabaseBackupMetadata::default();
    metadata.runs.push(run("a", "s", WebDatabaseBackupRunStatus::Running, "1"));
    metadata.add_run_file("a", file("dbx-backup__a.sql")).unwrap();
    metadata.add_run_file("a", file("dbx-backup__b.sql")).unwrap();
    assert_eq!(metadata.runs[0].files.len(), 2);
    assert_eq!(metadata.add_run_file("zzz", file("x")).unwrap_err(), "Backup run not found");
    metadata.clear_run_files("a").unwrap();
    assert!(metadata.runs[0].files.is_empty());
    assert_eq!(metadata.clear_run_files("zzz").unwrap_err(), "Backup run not found");
}

#[test]
fn created_schedules_get_a_random_id_and_a_next_run() {
    let mut metadata = WebDatabaseBackupMetadata::default();
    let created = metadata.create_schedule(input("Nightly"), NOW).unwrap();
    assert_eq!(created.id.len(), 36);
    assert_eq!(created.id.as_bytes()[14], b'4');
    assert_eq!(created.created_at, created.updated_at);
    let next = chrono::DateTime::parse_from_rfc3339(&created.next_run_at).unwrap();
    assert_eq!(next.timestamp(), NOW.seconds + 6 * 3600);
    assert_eq!(metadata.schedules.len(), 1);
    assert_eq!(metadata.schedules[0], created);
}

#[test]
fn editing_a_schedule_moves_its_next_run_only_when_its_timing_changes() {
    let mut metadata = WebDatabaseBackupMetadata::default();
    metadata.schedules.push(schedule("s", "Nightly", "2030-01-01T00:00:00+00:00"));
    let mut renamed = input("Renamed");
    renamed.retention_count = 3;
    let updated = metadata.update_schedule("s", renamed, NOW).unwrap().unwrap();
    assert_eq!(updated.input.name, "Renamed");
    assert_eq!(updated.next_run_at, "2030-01-01T00:00:00+00:00");
    assert_eq!(updated.created_at, "2026-07-22T00:00:00+00:00");

    let mut faster = input("Renamed");
    faster.interval_hours = 1;
    let updated = metadata.update_schedule("s", faster, NOW).unwrap().unwrap();
    let next = chrono::DateTime::parse_from_rfc3339(&updated.next_run_at).unwrap();
    assert_eq!(next.timestamp(), NOW.seconds + 3600);
    assert_eq!(metadata.schedules[0], updated);
    assert!(metadata.update_schedule("missing", input("x"), NOW).unwrap().is_none());
}

#[test]
fn completing_a_scheduled_run_records_it_on_its_schedule() {
    let mut metadata = WebDatabaseBackupMetadata::default();
    metadata.schedules.push(schedule("s", "Nightly", "2030-01-01T00:00:00+00:00"));
    metadata.runs.push(run("r", "s", WebDatabaseBackupRunStatus::Running, "2026-07-22T00:00:00+00:00"));
    let done = metadata
        .complete_run("r", WebDatabaseBackupRunStatus::Failed, Some("boom".to_string()), NOW)
        .unwrap()
        .unwrap();
    assert_eq!(done.status, WebDatabaseBackupRunStatus::Failed);
    assert_eq!(done.error.as_deref(), Some("boom"));
    let schedule = &metadata.schedules[0];
    assert_eq!(schedule.last_run_status, Some(WebDatabaseBackupRunStatus::Failed));
    assert_eq!(schedule.last_run_at, done.completed_at);
    assert_eq!(Some(schedule.updated_at.clone()), done.completed_at);
    let next = chrono::DateTime::parse_from_rfc3339(&schedule.next_run_at).unwrap();
    assert_eq!(next.timestamp(), NOW.seconds + 6 * 3600);
    assert!(metadata.complete_run("missing", WebDatabaseBackupRunStatus::Success, None, NOW).unwrap().is_none());
}

#[test]
fn completing_a_manual_run_keeps_a_future_next_run() {
    let mut metadata = WebDatabaseBackupMetadata::default();
    metadata.schedules.push(schedule("s", "Nightly", "2030-01-01T00:00:00+00:00"));
    let mut manual = run("r", "s", WebDatabaseBackupRunStatus::Running, "2026-07-22T00:00:00+00:00");
    manual.trigger = WebDatabaseBackupRunTrigger::Manual;
    metadata.runs.push(manual);
    metadata.complete_run("r", WebDatabaseBackupRunStatus::Success, None, NOW).unwrap();
    assert_eq!(metadata.schedules[0].next_run_at, "2030-01-01T00:00:00+00:00");
}

#[test]
fn a_run_file_is_offered_only_when_it_belongs_to_the_run() {
    let mut metadata = WebDatabaseBackupMetadata::default();
    let mut stored = run("r", "s", WebDatabaseBackupRunStatus::Success, "1");
    stored.files.push(file("dbx-backup__app.sql"));
    stored.files.push(file("../escape.sql"));
    metadata.runs.push(stored);
    let root = "/srv/backups";
    let (path, name) = metadata.run_file_for_download("r", "dbx-backup__app.sql", root).unwrap();
    assert_eq!(path, "/srv/backups/dbx-backup__app.sql");
    assert_eq!(name, "dbx-backup__app.sql");
    match metadata.run_file_for_download("x", "dbx-backup__app.sql", root) {
        Err(WebDatabaseBackupError::NotFound(message)) => assert_eq!(message, "Backup run not found"),
        other => panic!("unexpected {other:?}"),
    }
    match metadata.run_file_for_download("r", "dbx-backup__other.sql", root) {
        Err(WebDatabaseBackupError::NotFound(message)) => assert_eq!(message, "Backup file not found in this run"),
        other => panic!("unexpected {other:?}"),
    }
    match metadata.run_file_for_download("r", "../escape.sql", root) {
        Err(WebDatabaseBackupError::Internal(message)) => assert_eq!(message, "Invalid managed backup file path"),
        other => panic!("unexpected {other:?}"),
    }
}

#[test]
fn download_names_are_percent_encoded() {
    assert_eq!(
        download_content_disposition("dbx-backup__a b.sql"),
        "attachment; filename=\"backup.sql\"; filename*=UTF-8''dbx%2Dbackup%5F%5Fa%20b%2Esql"
    );
    assert_eq!(download_content_disposition("库"), "attachment; filename=\"backup.sql\"; filename*=UTF-8''%E5%BA%93");
}

#[test]
fn finished_exports_become_run_statuses() {
    assert_eq!(run_outcome(Ok(()), false), (WebDatabaseBackupRunStatus::Success, None));
    assert_eq!(run_outcome(Ok(()), true), (WebDatabaseBackupRunStatus::Cancelled, None));
    assert_eq!(run_outcome(Err("Export CANCELLED by user".to_string()), false), (WebDatabaseBackupRunStatus::Cancelled, None));
    assert_eq!(run_outcome(Err("disk full".to_string()), true), (WebDatabaseBackupRunStatus::Cancelled, None));
    assert_eq!(
        run_outcome(Err("disk full".to_string()), false),
        (WebDatabaseBackupRunStatus::Failed, Some("disk full".to_string()))
    );
}

#[test]
fn table_filters_select_or_leave_out_the_matching_tables() {
    let patterns = vec!["public.tmp_*".to_string(), "audit".to_string()];
    let tables = vec!["tmp_a".to_string(), "orders".to_string(), "audit".to_string(), "tmp_b".to_string()];
    let (selected, excluded, count) =
        table_scope(WebDatabaseBackupTableFilterMode::Include, &patterns, &tables, "app", "public", true);
    assert_eq!(selected, vec!["tmp_a", "audit", "tmp_b"]);
    assert!(excluded.is_empty());
    assert_eq!(count, 3);
    let (selected, excluded, count) =
        table_scope(WebDatabaseBackupTableFilterMode::Exclude, &patterns, &tables, "app", "public", true);
    assert!(selected.is_empty());
    assert_eq!(excluded, vec!["tmp_a", "audit", "tmp_b"]);
    assert_eq!(count, 1);
    let (selected, excluded, count) =
        table_scope(WebDatabaseBackupTableFilterMode::All, &patterns, &tables, "app", "public", true);
    assert!(selected.is_empty() && excluded.is_empty());
    assert_eq!(count, 0);
    assert_eq!(
        unmatched_tables_error(WebDatabaseBackupTableFilterMode::Include, 0).as_deref(),
        Some("No tables matched the configured Include backup rules")
    );
    assert_eq!(unmatched_tables_error(WebDatabaseBackupTableFilterMode::Exclude, 2), None);
    assert_eq!(unmatched_tables_error(WebDatabaseBackupTableFilterMode::All, 0), None);
}

#[test]
fn one_backup_runs_at_a_time_and_blocks_edits_of_its_schedule() {
    let mut slot = ActiveRunSlot { active: None };
    assert!(slot.check_idle().is_ok());
    assert!(!slot.is_busy());
    slot.begin("run-1".to_string(), "schedule-1".to_string());
    assert!(slot.is_busy());
    assert!(matches!(slot.check_idle(), Err(WebDatabaseBackupError::Conflict(_))));
    assert!(matches!(slot.check_schedule_editable("schedule-1"), Err(WebDatabaseBackupError::Conflict(_))));
    assert!(slot.check_schedule_editable("schedule-2").is_ok());
    assert!(matches!(slot.check_schedule_deletable("schedule-1"), Err(WebDatabaseBackupError::Conflict(_))));
    assert!(matches!(slot.check_run_deletable("run-1"), Err(WebDatabaseBackupError::Conflict(_))));
    assert!(slot.check_run_deletable("run-2").is_ok());

    assert!(!slot.is_cancelled("run-1"));
    slot.set_current_export("run-1", Some("run-1-1".to_string()));
    assert_eq!(slot.request_cancel("run-1").unwrap().as_deref(), Some("run-1-1"));
    assert!(slot.is_cancelled("run-1"));
    assert!(matches!(slot.request_cancel("run-2"), Err(WebDatabaseBackupError::NotFound(_))));
    slot.finish("run-2");
    assert!(slot.is_busy());
    slot.finish("run-1");
    assert!(!slot.is_busy());
}

#[test]
fn backup_files_name_the_schema_for_postgres_only() {
    let started = BackupInstant { seconds: 1_784_678_400, nanos: 0 };
    let pg = backup_file_record(DatabaseType::Postgres, "app", "public", "Nightly", started, "12345678-abcd");
    assert!(pg.relative_path.contains("__app__public__12345678.sql"));
    assert_eq!(pg.display_name, "app / public");
    let my = backup_file_record(DatabaseType::Mysql, "app", "app", "Nightly", started, "12345678-abcd");
    assert!(my.relative_path.ends_with("__app__12345678.sql"));
    assert_eq!(my.display_name, "app");
    assert_eq!(export_id("run", 12), "run-12");
    assert!(check_backup_database_type(DatabaseType::Mysql).is_ok());
    assert!(matches!(check_backup_database_type(DatabaseType::Other), Err(WebDatabaseBackupError::Validation(_))));
}

#[test]
fn bytes_parse_like_the_standard_library() {
    assert_eq!(parse_u8("+7"), Some(7));
    assert_eq!(parse_u8("0255"), Some(255));
    assert_eq!(parse_u8("256"), None);
    assert_eq!(parse_u8("+"), None);
    assert_eq!(parse_u8(""), None);
    assert_eq!(parse_u8("-1"), None);
    assert_eq!(parse_u8("1x"), None);
}

#[test]
fn string_errors_become_internal_errors() {
    let error: WebDatabaseBackupError = "disk".to_string().into();
    assert!(matches!(error, WebDatabaseBackupError::Internal(message) if message == "disk"));
}

#[test]
fn finished_runs_plan_their_cleanup() {
    let plan = dbx::backup_manager::completion_plan(Err("boom".to_string()), false, 2);
    assert_eq!(plan.status, WebDatabaseBackupRunStatus::Failed);
    assert_eq!(plan.error.as_deref(), Some("boom"));
    assert!(plan.discard_files);
    assert!(!plan.prune_schedule);
    let plan = dbx::backup_manager::completion_plan(Ok(()), false, 2);
    assert!(!plan.discard_files);
    assert!(plan.prune_schedule);
    let plan = dbx::backup_manager::completion_plan(Ok(()), true, 0);
    assert_eq!(plan.status, WebDatabaseBackupRunStatus::Cancelled);
    assert!(!plan.discard_files);
}

#[test]
fn runs_start_running_under_a_fresh_id() {
    let run = dbx::backup_manager::new_backup_run(&schedule("s", "Nightly", "x"), "Postgres", WebDatabaseBackupRunTrigger::Manual, NOW);
    assert_eq!(run.id.len(), 36);
    assert_eq!(run.schedule_id, "s");
    assert_eq!(run.schedule_name, "Nightly");
    assert_eq!(run.connection_name, "Postgres");
    assert_eq!(run.status, WebDatabaseBackupRunStatus::Running);
    assert_eq!(chrono::DateTime::parse_from_rfc3339(&run.started_at).unwrap().timestamp(), NOW.seconds);
    assert!(run.files.is_empty() && run.completed_at.is_none() && run.error.is_none());
}

#[test]
fn runs_need_databases_and_metadata_needs_its_version() {
    assert_eq!(
        dbx::backup_manager::require_databases(Vec::new()).unwrap_err(),
        "No databases are available for this backup schedule"
    );
    assert_eq!(dbx::backup_manager::require_databases(vec!["app".to_string()]).unwrap(), vec!["app"]);
    assert_eq!(dbx::backup_store::metadata_version_error(1, "/data/m.json"), None);
    assert_eq!(
        dbx::backup_store::metadata_version_error(27, "/data/m.json").as_deref(),
        Some("Unsupported Web database backup metadata version 27 in /data/m.json")
    );
}
