use std::path::Path;

use dbx::paths::{safe_uploaded_sql_path, uploaded_location_error, uploaded_path_error};
use dbx::sql_file_batch::{
    apply_progress, batch_snapshot_with_ids, create_batch_snapshot, fail_without_terminal_progress, finish_cancelled,
    finish_completed, finish_update, is_terminal, next_batch_step, request_cancel, start_target, target_request,
    update_summary, CreateSqlFileBatchRequest, SqlFileBatchSnapshot, SqlFileBatchStatus, SqlFileBatchStep,
    SqlFileBatchTargetStatus, SqlFileProgress, SqlFileStatus,
};
use dbx::sql_file_batch::unsaved_connection_error;
use dbx::sql_file_run::{next_sql_file_run_step, SqlFileRunEvent, SqlFileRunStep};

fn request(ids: &[&str]) -> CreateSqlFileBatchRequest {
    CreateSqlFileBatchRequest {
        connection_ids: ids.iter().map(|id| id.to_string()).collect(),
        database: "app_db".to_string(),
        file_path: "/data/tmp/install.sql".to_string(),
        continue_on_error: true,
    }
}

fn batch(ids: &[&str]) -> SqlFileBatchSnapshot {
    let target_ids = ids.iter().map(|id| format!("target-{id}")).collect();
    batch_snapshot_with_ids(request(ids), "batch-1".to_string(), target_ids, 1000).unwrap().0
}

fn progress(target: &str, status: SqlFileStatus, failures: usize, error: Option<&str>) -> SqlFileProgress {
    SqlFileProgress {
        execution_id: target.to_string(),
        status,
        statement_index: 1,
        success_count: 4,
        failure_count: failures,
        affected_rows: 9,
        elapsed_ms: 20,
        statement_summary: "INSERT".to_string(),
        error: error.map(|e| e.to_string()),
    }
}

fn statuses(snapshot: &SqlFileBatchSnapshot) -> Vec<SqlFileBatchTargetStatus> {
    snapshot.targets.iter().map(|target| target.status).collect()
}

#[test]
fn uploaded_sql_path_uses_only_the_file_name() {
    let data_dir = Path::new("/tmp").join("dbx-web-sql-file-test");
    let tmp_dir = data_dir.join("tmp");

    let path = match safe_uploaded_sql_path(&tmp_dir.to_string_lossy(), "../outside.sql") {
        Ok(path) => path,
        Err(error) => panic!("{}", error),
    };

    assert_eq!(std::path::PathBuf::from(path), tmp_dir.join("outside.sql"));
}

#[test]
fn uploaded_sql_names_that_are_only_dots_are_refused() {
    let tmp_dir = "/data/tmp";
    assert_eq!(safe_uploaded_sql_path(tmp_dir, "a\\..").unwrap_err(), "Invalid SQL file name");
    assert_eq!(safe_uploaded_sql_path(tmp_dir, "").unwrap(), "/data/tmp/upload.sql");
    assert_eq!(safe_uploaded_sql_path(tmp_dir, "dir\\ x.sql ").unwrap(), "/data/tmp/x.sql");
}

#[test]
fn batches_start_running_with_every_target_pending() {
    let snapshot = batch(&["a", "b"]);
    assert_eq!(snapshot.status, SqlFileBatchStatus::Running);
    assert_eq!(snapshot.file_name, "install.sql");
    assert_eq!(statuses(&snapshot), vec![SqlFileBatchTargetStatus::Pending, SqlFileBatchTargetStatus::Pending]);
    assert_eq!(snapshot.summary.total, 2);
    assert_eq!(snapshot.summary.pending, 2);
    assert_eq!(snapshot.created_at_ms, 1000);
    let (fresh, path) = create_batch_snapshot(request(&["a"]), 7).unwrap();
    assert_eq!(fresh.batch_id.len(), 36);
    assert_eq!(path, "/data/tmp/install.sql");
}

#[test]
fn batch_requests_need_distinct_connections_and_a_file_name() {
    assert_eq!(create_batch_snapshot(request(&[]), 1).unwrap_err(), "At least one connection ID is required");
    assert_eq!(create_batch_snapshot(request(&["a", "a"]), 1).unwrap_err(), "Connection IDs must be unique");
    let mut no_name = request(&["a"]);
    no_name.file_path = "/".to_string();
    assert_eq!(create_batch_snapshot(no_name, 1).unwrap_err(), "File path must include a file name");
}

#[test]
fn cancel_returns_false_for_missing_or_terminal_batches() {
    let mut snapshot = batch(&["a"]);
    assert!(request_cancel(&mut snapshot));
    assert_eq!(snapshot.status, SqlFileBatchStatus::Cancelling);
    assert!(!request_cancel(&mut snapshot));
    finish_cancelled(&mut snapshot);
    assert!(!request_cancel(&mut snapshot));
    let mut done = batch(&["a"]);
    finish_completed(&mut done);
    assert!(!request_cancel(&mut done));
    assert_eq!(done.status, SqlFileBatchStatus::Completed);
}

/// Runs a batch as the service's runner does, with each target's execution
/// ending in the terminal status that `outcome` gives for its connection (or
/// with no terminal progress), and a cancellation requested while the
/// target of `cancel_during` runs. Returns the connections in the order in
/// which they were executed, and every snapshot the runner published.
fn drive(
    snapshot: &mut SqlFileBatchSnapshot,
    outcome: &dyn Fn(&str) -> Option<SqlFileStatus>,
    cancel_during: Option<&str>,
) -> (Vec<String>, Vec<SqlFileBatchSnapshot>) {
    let mut finished = None;
    let mut cancelled = false;
    let mut calls = Vec::new();
    let mut published = Vec::new();
    let mut now = 2000;
    loop {
        let step = next_batch_step(snapshot, finished, cancelled);
        now += 1;
        finish_update(snapshot, now);
        published.push(snapshot.clone());
        let index = match step {
            SqlFileBatchStep::Run(index) => index,
            SqlFileBatchStep::Finish => break,
        };
        let request = target_request(snapshot, index, "/data/tmp/install.sql");
        calls.push(request.connection_id.clone());
        if cancel_during == Some(request.connection_id.as_str()) {
            assert!(request_cancel(snapshot));
            cancelled = true;
        }
        let mut terminal_seen = false;
        if let Some(status) = outcome(&request.connection_id) {
            let error = if status == SqlFileStatus::Error { Some("no table") } else { None };
            terminal_seen = is_terminal(status);
            apply_progress(snapshot, &request.execution_id, progress(&request.execution_id, status, 0, error));
            published.push(snapshot.clone());
        }
        finished = Some((index, terminal_seen));
    }
    (calls, published)
}

#[test]
fn targets_execute_strictly_in_submission_order() {
    let mut snapshot = batch(&["a", "b"]);
    let (calls, published) = drive(&mut snapshot, &|_| Some(SqlFileStatus::Done), None);
    assert_eq!(calls, vec!["a", "b"]);
    let b_started = published
        .iter()
        .find(|s| s.targets[1].status == SqlFileBatchTargetStatus::Running)
        .expect("b started");
    assert_eq!(b_started.targets[0].status, SqlFileBatchTargetStatus::Success);
    assert_eq!(b_started.summary.running, 1);
    assert_eq!(snapshot.status, SqlFileBatchStatus::Completed);
}

#[test]
fn failed_target_does_not_stop_the_next_target() {
    let mut snapshot = batch(&["a", "b"]);
    let outcome = |id: &str| if id == "a" { Some(SqlFileStatus::Error) } else { Some(SqlFileStatus::Done) };
    let (calls, _) = drive(&mut snapshot, &outcome, None);
    assert_eq!(statuses(&snapshot), vec![SqlFileBatchTargetStatus::Failed, SqlFileBatchTargetStatus::Success]);
    assert_eq!(calls, vec!["a", "b"]);
    assert_eq!(snapshot.targets[0].error.as_deref(), Some("no table"));
    assert_eq!(snapshot.status, SqlFileBatchStatus::Completed);
    assert_eq!((snapshot.summary.failed, snapshot.summary.success, snapshot.summary.total), (1, 1, 2));
}

#[test]
fn cancellation_stops_active_and_skips_pending_targets() {
    let mut snapshot = batch(&["a", "b"]);
    let (calls, _) = drive(&mut snapshot, &|_| Some(SqlFileStatus::Cancelled), Some("a"));
    assert_eq!(statuses(&snapshot), vec![SqlFileBatchTargetStatus::Cancelled, SqlFileBatchTargetStatus::Skipped]);
    assert_eq!(calls, vec!["a"]);
    assert_eq!(snapshot.status, SqlFileBatchStatus::Cancelled);
    assert_eq!((snapshot.summary.skipped, snapshot.summary.pending), (1, 0));
}

#[test]
fn batches_have_independent_tokens_and_can_run_concurrently() {
    let mut first = batch(&["a"]);
    let mut second = batch(&["b"]);
    let (first_calls, _) = drive(&mut first, &|_| Some(SqlFileStatus::Cancelled), Some("a"));
    let (second_calls, _) = drive(&mut second, &|_| Some(SqlFileStatus::Done), None);
    assert_eq!((first_calls, second_calls), (vec!["a".to_string()], vec!["b".to_string()]));
    assert_eq!(first.status, SqlFileBatchStatus::Cancelled);
    assert_eq!(statuses(&second), vec![SqlFileBatchTargetStatus::Success]);
    assert_eq!(second.status, SqlFileBatchStatus::Completed);
}

#[test]
fn a_target_that_ends_without_terminal_progress_fails_and_the_next_runs() {
    let mut snapshot = batch(&["a", "b", "c"]);
    let outcome = |id: &str| if id == "b" { None } else { Some(SqlFileStatus::Done) };
    let (calls, _) = drive(&mut snapshot, &outcome, None);
    assert_eq!(calls, vec!["a", "b", "c"]);
    assert_eq!(
        statuses(&snapshot),
        vec![SqlFileBatchTargetStatus::Success, SqlFileBatchTargetStatus::Failed, SqlFileBatchTargetStatus::Success]
    );
    assert_eq!(snapshot.targets[1].error.as_deref(), Some("Execution completed without terminal progress"));
}

#[test]
fn a_batch_cancelled_before_it_starts_runs_nothing() {
    let mut snapshot = batch(&["a", "b"]);
    assert!(request_cancel(&mut snapshot));
    assert_eq!(next_batch_step(&mut snapshot, None, true), SqlFileBatchStep::Finish);
    assert_eq!(statuses(&snapshot), vec![SqlFileBatchTargetStatus::Skipped, SqlFileBatchTargetStatus::Skipped]);
    assert_eq!(snapshot.summary.skipped, 2);
    assert_eq!(snapshot.status, SqlFileBatchStatus::Cancelled);
}

#[test]
fn every_change_keeps_the_summary_in_step_with_the_targets() {
    let mut snapshot = batch(&["a", "b", "c"]);
    start_target(&mut snapshot, 0);
    assert_eq!((snapshot.summary.running, snapshot.summary.pending), (1, 2));
    apply_progress(&mut snapshot, "target-a", progress("target-a", SqlFileStatus::Cancelled, 0, None));
    assert_eq!((snapshot.summary.running, snapshot.summary.cancelled), (0, 1));
    fail_without_terminal_progress(&mut snapshot, 1);
    assert_eq!(snapshot.summary.failed, 1);
    finish_cancelled(&mut snapshot);
    update_summary(&mut snapshot);
    assert_eq!((snapshot.summary.skipped, snapshot.summary.pending, snapshot.summary.total), (1, 0, 3));
}

#[test]
fn continue_on_error_is_forwarded_to_every_target_request() {
    let snapshot = batch(&["a", "b"]);
    for index in 0..2 {
        let request = target_request(&snapshot, index, "/data/tmp/install.sql");
        assert!(request.continue_on_error);
        assert_eq!(request.execution_id, snapshot.targets[index].target_id);
        assert_eq!(request.connection_id, snapshot.targets[index].connection_id);
        assert_eq!(request.database, "app_db");
    }
}

#[test]
fn progress_sets_counters_status_and_failure_details() {
    let mut snapshot = batch(&["a"]);
    start_target(&mut snapshot, 0);
    apply_progress(&mut snapshot, "target-a", progress("target-a", SqlFileStatus::StatementFailed, 1, Some("dup key")));
    apply_progress(&mut snapshot, "target-a", progress("target-a", SqlFileStatus::StatementFailed, 1, Some("")));
    apply_progress(&mut snapshot, "target-a", progress("target-a", SqlFileStatus::Done, 1, None));
    apply_progress(&mut snapshot, "unknown", progress("unknown", SqlFileStatus::Error, 5, Some("ignored")));
    let target = &snapshot.targets[0];
    assert_eq!(target.status, SqlFileBatchTargetStatus::Partial);
    assert_eq!(target.failure_details, vec!["dup key"]);
    assert_eq!((target.success_count, target.failure_count, target.affected_rows, target.elapsed_ms), (4, 1, 9, 20));
    assert!(is_terminal(SqlFileStatus::Done));
    assert!(!is_terminal(SqlFileStatus::StatementDone));
}

#[test]
fn targets_without_terminal_progress_fail() {
    let mut snapshot = batch(&["a", "b"]);
    start_target(&mut snapshot, 0);
    fail_without_terminal_progress(&mut snapshot, 0);
    assert_eq!(snapshot.targets[0].status, SqlFileBatchTargetStatus::Failed);
    assert_eq!(snapshot.targets[0].error.as_deref(), Some("Execution completed without terminal progress"));
    assert_eq!(snapshot.targets[1].status, SqlFileBatchTargetStatus::Pending);
}

#[test]
fn oversized_sql_files_are_refused() {
    assert_eq!(dbx::sql_file_batch::sql_file_size_error(200 * 1024 * 1024), None);
    assert_eq!(
        dbx::sql_file_batch::sql_file_size_error(200 * 1024 * 1024 + 1).as_deref(),
        Some("File too large: 209715201 bytes (max 209715200 bytes)")
    );
}

#[test]
fn batches_are_listed_newest_first() {
    let mut a = batch(&["a"]);
    a.created_at_ms = 5;
    a.batch_id = "a".to_string();
    let mut b = batch(&["b"]);
    b.created_at_ms = 9;
    b.batch_id = "b".to_string();
    let mut c = batch(&["c"]);
    c.created_at_ms = 5;
    c.batch_id = "c".to_string();
    let listed: Vec<String> =
        dbx::sql_file_batch::newest_first(vec![a, b, c]).into_iter().map(|s| s.batch_id).collect();
    assert_eq!(listed, vec!["b", "a", "c"]);
}

#[test]
fn executed_paths_are_absolute_and_inside_the_upload_directory() {
    assert_eq!(uploaded_path_error("relative.sql").as_deref(), Some("File path must be absolute"));
    assert_eq!(uploaded_path_error("/data/tmp/a.sql"), None);
    assert_eq!(uploaded_location_error("/data/tmp/a.sql", "/data/tmp"), None);
    assert_eq!(
        uploaded_location_error("/data/outside.sql", "/data/tmp").as_deref(),
        Some("File path must be inside the uploaded SQL directory")
    );
    assert!(uploaded_location_error("/data/tmpx/a.sql", "/data/tmp").is_some());
}

#[test]
fn batches_run_on_saved_connections_only() {
    let saved = vec!["a".to_string(), "b".to_string()];
    assert_eq!(unsaved_connection_error(&vec!["b".to_string(), "a".to_string()], &saved), None);
    assert_eq!(
        unsaved_connection_error(&vec!["a".to_string(), "x".to_string(), "y".to_string()], &saved).as_deref(),
        Some("SQL file batch connection 'x' is not a saved connection")
    );
}

#[test]
fn a_sql_file_runs_only_after_its_path_size_and_content_are_checked() {
    use_run_steps();
}

fn use_run_steps() {
    let step = next_sql_file_run_step(SqlFileRunEvent::PathChecked(Err("File path must be absolute".to_string())));
    assert!(matches!(step, SqlFileRunStep::Fail(m) if m == "File path must be absolute"));
    assert!(matches!(next_sql_file_run_step(SqlFileRunEvent::PathChecked(Ok(()))), SqlFileRunStep::ReadSize));
    assert!(matches!(
        next_sql_file_run_step(SqlFileRunEvent::SizeRead(Ok(200 * 1024 * 1024))),
        SqlFileRunStep::ReadContent
    ));
    let step = next_sql_file_run_step(SqlFileRunEvent::SizeRead(Ok(200 * 1024 * 1024 + 1)));
    assert!(matches!(step, SqlFileRunStep::Fail(m) if m == "File too large: 209715201 bytes (max 209715200 bytes)"));
    let step = next_sql_file_run_step(SqlFileRunEvent::SizeRead(Err("No such file".to_string())));
    assert!(matches!(step, SqlFileRunStep::Fail(m) if m == "No such file"));
    let step = next_sql_file_run_step(SqlFileRunEvent::ContentRead(Err("invalid encoding".to_string())));
    assert!(matches!(step, SqlFileRunStep::Fail(m) if m == "invalid encoding"));
    assert!(matches!(next_sql_file_run_step(SqlFileRunEvent::ContentRead(Ok(()))), SqlFileRunStep::Start));
}
