use std::path::Path;

use chrono::{Datelike, Local, TimeZone, Timelike};
use dbx::backup_manager::{
    backup_file_name, mysql_lower_case_table_names_are_case_sensitive, new_backup_run, MysqlSettingValue,
};
use dbx::backup_model::{
    WebDatabaseBackupFrequency, WebDatabaseBackupRunTrigger, WebDatabaseBackupSchedule,
    WebDatabaseBackupScheduleInput, WebDatabaseBackupTableFilterMode,
};
use dbx::backup_scope::{resolve_database_targets, table_matches_pattern, DatabaseType};
use dbx::backup_time::{next_web_database_backup_run_at, BackupInstant};
use dbx::paths::managed_backup_file_path;

fn instant_of(at: chrono::DateTime<Local>) -> BackupInstant {
    BackupInstant { seconds: at.timestamp(), nanos: at.timestamp_subsec_nanos() }
}

fn local_of(at: BackupInstant) -> chrono::DateTime<Local> {
    chrono::DateTime::from_timestamp(at.seconds, at.nanos).unwrap().with_timezone(&Local)
}

fn input(frequency: WebDatabaseBackupFrequency) -> WebDatabaseBackupScheduleInput {
    WebDatabaseBackupScheduleInput {
        name: "Nightly".to_string(),
        enabled: true,
        connection_id: "connection-1".to_string(),
        databases: Vec::new(),
        table_filter_mode: WebDatabaseBackupTableFilterMode::All,
        table_patterns: Vec::new(),
        frequency,
        interval_hours: 6,
        time_of_day: "02:00".to_string(),
        weekday: 1,
        include_structure: true,
        include_data: true,
        include_objects: true,
        drop_table_if_exists: false,
        retention_count: 10,
    }
}

#[test]
fn target_resolution_excludes_only_implicit_system_databases() {
    assert_eq!(
        resolve_database_targets(
            &[],
            vec!["mysql".to_string(), "app".to_string(), "sys".to_string()],
            DatabaseType::Mysql,
        )
        .unwrap(),
        vec!["app"]
    );
    assert_eq!(
        resolve_database_targets(
            &["mysql".to_string()],
            vec!["mysql".to_string(), "app".to_string()],
            DatabaseType::Mysql,
        )
        .unwrap(),
        vec!["mysql"]
    );
}

#[test]
fn target_resolution_rejects_removed_database() {
    assert!(resolve_database_targets(
        &["app".to_string(), "renamed".to_string()],
        vec!["app".to_string()],
        DatabaseType::Postgres,
    )
    .is_err());
}

#[test]
fn table_patterns_support_qualified_wildcards_and_case_rules() {
    assert!(table_matches_pattern("events", "app", "public", "public.*", true));
    assert!(table_matches_pattern("audit_log", "app", "public", "audit_?og", true));
    assert!(!table_matches_pattern("Orders", "app", "public", "orders", true));
    assert!(table_matches_pattern("Orders", "app", "public", "orders", false));
}

#[test]
fn interprets_mysql_lower_case_table_names_like_desktop() {
    assert!(mysql_lower_case_table_names_are_case_sensitive(Some(MysqlSettingValue::Number(Some(0)))));
    assert!(!mysql_lower_case_table_names_are_case_sensitive(Some(MysqlSettingValue::Number(Some(1)))));
    assert!(!mysql_lower_case_table_names_are_case_sensitive(Some(MysqlSettingValue::Text("2".to_string()))));
    assert!(mysql_lower_case_table_names_are_case_sensitive(Some(MysqlSettingValue::Text("invalid".to_string()))));
    assert!(mysql_lower_case_table_names_are_case_sensitive(None));
}

#[test]
fn generated_backup_names_are_single_safe_sql_files() {
    let started = Local.with_ymd_and_hms(2026, 7, 22, 2, 3, 4).single().unwrap();
    let name = backup_file_name("Nightly: prod", "app/private", instant_of(started), "12345678-abcd");
    assert_eq!(name, "dbx-backup__Nightly_ prod__20260722-020304__app_private__12345678.sql");
    assert_eq!(Path::new(&name).components().count(), 1);
}

#[test]
fn generated_backup_names_truncate_long_unicode_segments_by_utf8_bytes() {
    let started = Local.with_ymd_and_hms(2026, 7, 22, 2, 3, 4).single().unwrap();
    let name = backup_file_name(
        &"夜间数据库备份".repeat(80),
        &"生产数据库_公共模式".repeat(80),
        instant_of(started),
        "12345678-abcd",
    );

    assert!(name.len() <= 255);
    assert!(name.starts_with("dbx-backup__"));
    assert!(name.ends_with("__12345678.sql"));
    assert_eq!(Path::new(&name).components().count(), 1);
}

#[test]
fn validation_rejects_empty_content_and_filtered_schedule_without_patterns() {
    let mut value = input(WebDatabaseBackupFrequency::Daily);
    value.include_structure = false;
    value.include_data = false;
    value.include_objects = false;
    assert!(value.validate_and_normalize().is_err());

    let mut value = input(WebDatabaseBackupFrequency::Daily);
    value.table_filter_mode = WebDatabaseBackupTableFilterMode::Include;
    assert!(value.validate_and_normalize().is_err());
}

#[test]
fn validation_deduplicates_server_owned_scope_values() {
    let mut value = input(WebDatabaseBackupFrequency::Daily);
    value.databases = vec![" app ".to_string(), "app".to_string(), "audit".to_string()];
    value.table_filter_mode = WebDatabaseBackupTableFilterMode::Exclude;
    value.table_patterns = vec![" tmp_* ".to_string(), "tmp_*".to_string()];
    let value = value.validate_and_normalize().unwrap();
    assert_eq!(value.databases, vec!["app", "audit"]);
    assert_eq!(value.table_patterns, vec!["tmp_*"]);
}

#[test]
fn daily_and_weekly_schedules_advance_from_server_local_time() {
    let after = Local.with_ymd_and_hms(2026, 7, 16, 3, 30, 0).single().unwrap();
    let daily =
        local_of(next_web_database_backup_run_at(&input(WebDatabaseBackupFrequency::Daily), instant_of(after)).unwrap());
    assert_eq!((daily.day(), daily.hour(), daily.minute()), (17, 2, 0));

    let weekly = local_of(
        next_web_database_backup_run_at(&input(WebDatabaseBackupFrequency::Weekly), instant_of(after)).unwrap(),
    );
    assert_eq!(weekly.weekday().num_days_from_sunday(), 1);
    assert!(weekly > after);
}

#[test]
fn managed_paths_reject_absolute_and_nested_values() {
    let root = "/tmp/backups";
    assert_eq!(
        managed_backup_file_path(root, "dbx-backup__managed.sql"),
        Ok("/tmp/backups/dbx-backup__managed.sql".to_string())
    );
    assert!(managed_backup_file_path(root, "foreign.sql").is_err());
    assert!(managed_backup_file_path(root, "../escape.sql").is_err());
    assert!(managed_backup_file_path(root, "/tmp/escape.sql").is_err());
    assert!(managed_backup_file_path(root, "nested/escape.sql").is_err());
    assert!(managed_backup_file_path(root, "backup.txt").is_err());
}

#[test]
fn managed_paths_join_under_a_root_with_or_without_a_trailing_slash() {
    assert_eq!(managed_backup_file_path("/srv/b/", "dbx-backup__x.sql"), Ok("/srv/b/dbx-backup__x.sql".to_string()));
    assert_eq!(managed_backup_file_path("", "dbx-backup__x.sql"), Ok("dbx-backup__x.sql".to_string()));
}

#[test]
fn hourly_schedules_run_their_interval_later() {
    let after = BackupInstant { seconds: 1_700_000_000, nanos: 5 };
    let next = next_web_database_backup_run_at(&input(WebDatabaseBackupFrequency::Hourly), after).unwrap();
    assert_eq!(next, BackupInstant { seconds: 1_700_000_000 + 6 * 3600, nanos: 5 });
}

#[test]
fn schedules_with_a_malformed_time_have_no_next_run() {
    let mut value = input(WebDatabaseBackupFrequency::Daily);
    value.time_of_day = "2:00".to_string();
    assert_eq!(next_web_database_backup_run_at(&value, BackupInstant { seconds: 0, nanos: 0 }), None);
}

#[test]
fn validation_reports_each_broken_rule() {
    let mut value = input(WebDatabaseBackupFrequency::Daily);
    value.name = "   ".to_string();
    assert_eq!(value.validate_and_normalize().unwrap_err(), "Backup schedule name must contain 1 to 100 characters");
    let mut value = input(WebDatabaseBackupFrequency::Daily);
    value.connection_id = " ".to_string();
    assert_eq!(value.validate_and_normalize().unwrap_err(), "Backup connection is required");
    let mut value = input(WebDatabaseBackupFrequency::Daily);
    value.interval_hours = 169;
    assert_eq!(value.validate_and_normalize().unwrap_err(), "Backup interval must be between 1 and 168 hours");
    let mut value = input(WebDatabaseBackupFrequency::Daily);
    value.weekday = 7;
    assert_eq!(value.validate_and_normalize().unwrap_err(), "Backup weekday must be between 0 and 6");
    let mut value = input(WebDatabaseBackupFrequency::Daily);
    value.time_of_day = "24:00".to_string();
    assert_eq!(value.validate_and_normalize().unwrap_err(), "Backup time must use HH:mm format");
    let mut value = input(WebDatabaseBackupFrequency::Daily);
    value.retention_count = 0;
    assert_eq!(value.validate_and_normalize().unwrap_err(), "Backup retention count must be between 1 and 100");
    let mut value = input(WebDatabaseBackupFrequency::Daily);
    value.databases = vec!["x".repeat(129)];
    assert_eq!(value.validate_and_normalize().unwrap_err(), "Backup database is too long");
    let mut value = input(WebDatabaseBackupFrequency::Daily);
    value.table_filter_mode = WebDatabaseBackupTableFilterMode::Include;
    value.table_patterns = (0..101).map(|k| format!("t{k}")).collect();
    assert_eq!(value.validate_and_normalize().unwrap_err(), "Too many backup table pattern values");
}

#[test]
fn validating_a_normal_input_again_changes_nothing() {
    let mut value = input(WebDatabaseBackupFrequency::Weekly);
    value.name = "  Weekly  ".to_string();
    value.databases = vec!["b".to_string(), " a".to_string(), "b ".to_string(), " ".to_string()];
    value.table_patterns = vec!["ignored".to_string()];
    let once = value.validate_and_normalize().unwrap();
    assert_eq!(once.name, "Weekly");
    assert_eq!(once.databases, vec!["b", "a"]);
    assert!(once.table_patterns.is_empty());
    let twice = once.clone().validate_and_normalize().unwrap();
    assert_eq!(twice, once);
}

#[test]
fn run_start_times_read_back_as_the_instant_they_were_written_for() {
    let schedule = WebDatabaseBackupSchedule {
        id: "s".to_string(),
        input: input(WebDatabaseBackupFrequency::Daily),
        created_at: String::new(),
        updated_at: String::new(),
        next_run_at: String::new(),
        last_run_at: None,
        last_run_status: None,
    };
    let now = BackupInstant { seconds: 1_784_000_000, nanos: 250_000_000 };
    let run = new_backup_run(&schedule, "Main", WebDatabaseBackupRunTrigger::Manual, now);
    let read = chrono::DateTime::parse_from_rfc3339(&run.started_at).unwrap();
    assert_eq!(read.timestamp_subsec_nanos(), 250_000_000);
    assert!((read.timestamp() - now.seconds).abs() <= 30);
}

#[test]
fn hourly_runs_reach_the_last_instant_chrono_represents() {
    let mut hourly = input(WebDatabaseBackupFrequency::Hourly);
    let after = BackupInstant { seconds: 8_000_000_000_000, nanos: 7 };
    hourly.interval_hours = 40_000_000;
    assert_eq!(
        next_web_database_backup_run_at(&hourly, after),
        Some(BackupInstant { seconds: 8_144_000_000_000, nanos: 7 })
    );
    let last = chrono::DateTime::<chrono::Utc>::MAX_UTC.timestamp();
    hourly.interval_hours = ((last - after.seconds) / 3600) as u32;
    let reached = next_web_database_backup_run_at(&hourly, after).unwrap();
    assert!(chrono::DateTime::from_timestamp(reached.seconds, reached.nanos).is_some());
    hourly.interval_hours = 100_000_000;
    assert_eq!(next_web_database_backup_run_at(&hourly, after), None);
}

#[test]
fn the_representable_range_is_chronos_range() {
    assert_eq!(
        dbx::backup_time::MIN_REPRESENTABLE_SECONDS,
        chrono::DateTime::<chrono::Utc>::MIN_UTC.timestamp()
    );
    assert_eq!(
        dbx::backup_time::MAX_REPRESENTABLE_SECONDS,
        chrono::DateTime::<chrono::Utc>::MAX_UTC.timestamp()
    );
}

#[test]
fn backup_names_carry_the_local_start_time() {
    let at = BackupInstant { seconds: 1_784_685_784, nanos: 0 };
    let local = local_of(at).format("%Y%m%d-%H%M%S").to_string();
    let name = backup_file_name("n", "db", at, "r");
    assert_eq!(name, format!("dbx-backup__n__{local}__db__r.sql"));
}
