//! The decisions of the backup manager: which requests a running backup
//! blocks, how a finished export becomes a run status, which tables and
//! files a run covers, and how a run file is offered for download.
use vstd::prelude::*;

use crate::backup_model::{
    files_view, RunView, WebDatabaseBackupFile, WebDatabaseBackupMetadata,
    WebDatabaseBackupRun, WebDatabaseBackupRunStatus, WebDatabaseBackupRunTrigger, WebDatabaseBackupSchedule,
    WebDatabaseBackupTableFilterMode,
};
use crate::ids::{is_uuid_v4_text, new_uuid_v4_string};
use crate::backup_scope::{spec_table_matches_pattern, table_matches_pattern, DatabaseType};
use crate::backup_naming::{
    all_safe_file_chars, backup_file_name_with_stamp, law_backup_file_name_fits, law_backup_file_name_is_managed,
    law_backup_file_name_is_safe, spec_backup_file_name,
};
use crate::backup_store::{first_position, run_ids};
use crate::backup_time::{
    is_local_stamp, is_representable, is_stamp_char, local_compact_stamp, local_rfc3339, reads_back_near,
    BackupInstant,
};
use crate::paths::{is_managed_backup_name, managed_backup_file_path, spec_path_join};
use crate::text::{
    concat3, contains_word, decimal, decimal_string, kw, lower_bytes, lower_copy, spec_contains, str_eq,
    string_push_str, strings_view,
};

verus! {

broadcast use vstd::string::group_string_axioms;

/// What went wrong with a backup request, and how it is answered.
#[derive(Debug)]
pub enum WebDatabaseBackupError {
    Validation(String),
    NotFound(String),
    Conflict(String),
    Internal(String),
}

impl From<String> for WebDatabaseBackupError {
    fn from(value: String) -> (r: Self) {
        WebDatabaseBackupError::Internal(value)
    }
}

impl vstd::std_specs::convert::FromSpecImpl<String> for WebDatabaseBackupError {
    open spec fn obeys_from_spec() -> bool {
        true
    }

    open spec fn from_spec(v: String) -> Self {
        WebDatabaseBackupError::Internal(v)
    }
}

/// The backup that is running now.
#[derive(Debug, Clone)]
pub struct ActiveRun {
    pub run_id: String,
    pub schedule_id: String,
    pub cancellation_requested: bool,
    pub current_export_id: Option<String>,
}

/// At most one backup runs at a time; this is its slot.
#[derive(Debug)]
pub struct ActiveRunSlot {
    pub active: Option<ActiveRun>,
}

pub open spec fn conflict_with(r: Result<(), WebDatabaseBackupError>, message: Seq<char>) -> bool {
    r matches Err(WebDatabaseBackupError::Conflict(m)) && m@ == message
}

impl ActiveRunSlot {
    pub open spec fn runs_schedule(&self, schedule_id: Seq<char>) -> bool {
        self.active matches Some(a) && a.schedule_id@ == schedule_id
    }

    pub open spec fn runs_run(&self, run_id: Seq<char>) -> bool {
        self.active matches Some(a) && a.run_id@ == run_id
    }

    /// A schedule cannot be edited while it runs.
    pub fn check_schedule_editable(&self, schedule_id: &str) -> (r: Result<(), WebDatabaseBackupError>)
        ensures
            self.runs_schedule(schedule_id@) ==> conflict_with(r, "A running backup schedule cannot be edited"@),
            !self.runs_schedule(schedule_id@) ==> r is Ok,
    {
        match &self.active {
            Some(a) => {
                if crate::text::str_eq(a.schedule_id.as_str(), schedule_id) {
                    return Err(
                        WebDatabaseBackupError::Conflict("A running backup schedule cannot be edited".to_owned()),
                    );
                }
            },
            None => {},
        }
        Ok(())
    }

    /// A schedule cannot be deleted while it runs.
    pub fn check_schedule_deletable(&self, schedule_id: &str) -> (r: Result<(), WebDatabaseBackupError>)
        ensures
            self.runs_schedule(schedule_id@) ==> conflict_with(r, "A running backup schedule cannot be deleted"@),
            !self.runs_schedule(schedule_id@) ==> r is Ok,
    {
        match &self.active {
            Some(a) => {
                if crate::text::str_eq(a.schedule_id.as_str(), schedule_id) {
                    return Err(
                        WebDatabaseBackupError::Conflict("A running backup schedule cannot be deleted".to_owned()),
                    );
                }
            },
            None => {},
        }
        Ok(())
    }

    /// A run cannot be deleted while it runs.
    pub fn check_run_deletable(&self, run_id: &str) -> (r: Result<(), WebDatabaseBackupError>)
        ensures
            self.runs_run(run_id@) ==> conflict_with(r, "A running backup cannot be deleted"@),
            !self.runs_run(run_id@) ==> r is Ok,
    {
        match &self.active {
            Some(a) => {
                if crate::text::str_eq(a.run_id.as_str(), run_id) {
                    return Err(WebDatabaseBackupError::Conflict("A running backup cannot be deleted".to_owned()));
                }
            },
            None => {},
        }
        Ok(())
    }

    /// Whether a backup is running.
    pub fn is_busy(&self) -> (r: bool)
        ensures
            r == self.active is Some,
    {
        self.active.is_some()
    }

    /// Only one backup runs at a time.
    pub fn check_idle(&self) -> (r: Result<(), WebDatabaseBackupError>)
        ensures
            self.active is Some ==> conflict_with(r, "Another Web database backup is already running"@),
            self.active is None ==> r is Ok,
    {
        if self.active.is_some() {
            return Err(WebDatabaseBackupError::Conflict("Another Web database backup is already running".to_owned()));
        }
        Ok(())
    }

    /// Takes the slot for a run that has just started.
    pub fn begin(&mut self, run_id: String, schedule_id: String)
        ensures
            final(self).active matches Some(a) && a.run_id@ == run_id@ && a.schedule_id@ == schedule_id@
                && !a.cancellation_requested && a.current_export_id is None,
    {
        self.active = Some(ActiveRun { run_id, schedule_id, cancellation_requested: false, current_export_id: None });
    }

    /// Asks the running backup to stop; returns the export it is writing,
    /// which has to be told as well.
    pub fn request_cancel(&mut self, run_id: &str) -> (r: Result<Option<String>, WebDatabaseBackupError>)
        ensures
            old(self).runs_run(run_id@) ==> (r matches Ok(e) && final(self).active matches Some(a)
                && old(self).active matches Some(o) && a.run_id == o.run_id && a.schedule_id == o.schedule_id
                && a.current_export_id == o.current_export_id && a.cancellation_requested && match e {
                Some(x) => o.current_export_id matches Some(y) && x@ == y@,
                None => o.current_export_id is None,
            }),
            !old(self).runs_run(run_id@) ==> (r matches Err(WebDatabaseBackupError::NotFound(m)) && m@
                == "Active backup run not found"@ && final(self).active == old(self).active),
    {
        let found = match &self.active {
            Some(a) => crate::text::str_eq(a.run_id.as_str(), run_id),
            None => false,
        };
        if !found {
            return Err(WebDatabaseBackupError::NotFound("Active backup run not found".to_owned()));
        }
        match &mut self.active {
            Some(a) => {
                a.cancellation_requested = true;
                Ok(crate::backup_model::copy_option_string(&a.current_export_id))
            },
            None => Ok(None),
        }
    }

    /// Whether the running backup with this id was asked to stop.
    pub fn is_cancelled(&self, run_id: &str) -> (r: bool)
        ensures
            r == (self.active is Some && self.active->0.run_id@ == run_id@ && self.active->0.cancellation_requested),
    {
        match &self.active {
            Some(a) => a.cancellation_requested && crate::text::str_eq(a.run_id.as_str(), run_id),
            None => false,
        }
    }

    /// Records the export that the running backup with this id is writing.
    pub fn set_current_export(&mut self, run_id: &str, export_id: Option<String>)
        ensures
            old(self).runs_run(run_id@) ==> (final(self).active matches Some(a) && old(self).active matches Some(
                o,
            ) && a == (ActiveRun { current_export_id: export_id, ..o })),
            !old(self).runs_run(run_id@) ==> final(self).active == old(self).active,
    {
        let found = match &self.active {
            Some(a) => crate::text::str_eq(a.run_id.as_str(), run_id),
            None => false,
        };
        if found {
            match &mut self.active {
                Some(a) => {
                    a.current_export_id = export_id;
                },
                None => {},
            }
        }
    }

    /// Frees the slot when the backup with this id ends.
    pub fn finish(&mut self, run_id: &str)
        ensures
            old(self).runs_run(run_id@) ==> final(self).active is None,
            !old(self).runs_run(run_id@) ==> final(self).active == old(self).active,
    {
        let found = match &self.active {
            Some(a) => crate::text::str_eq(a.run_id.as_str(), run_id),
            None => false,
        };
        if found {
            self.active = None;
        }
    }
}

/// How a finished backup ends: a backup that was asked to stop, or whose
/// error says it was cancelled, is cancelled; otherwise it succeeded, or it
/// failed with its error.
pub open spec fn spec_run_outcome(result: Result<(), Seq<char>>, cancelled: bool) -> (
    WebDatabaseBackupRunStatus,
    Option<Seq<char>>,
) {
    match result {
        Ok(()) => if cancelled {
            (WebDatabaseBackupRunStatus::Cancelled, None)
        } else {
            (WebDatabaseBackupRunStatus::Success, None)
        },
        Err(e) => if cancelled || spec_contains(lower_bytes(vstd::utf8::encode_utf8(e)), kw("cancelled")) {
            (WebDatabaseBackupRunStatus::Cancelled, None)
        } else {
            (WebDatabaseBackupRunStatus::Failed, Some(e))
        },
    }
}

/// The status and error that a finished backup records.
pub fn run_outcome(result: Result<(), String>, cancelled: bool) -> (r: (
    WebDatabaseBackupRunStatus,
    Option<String>,
))
    ensures
        r.0 == spec_run_outcome(
            match result {
                Ok(()) => Ok(()),
                Err(e) => Err(e@),
            },
            cancelled,
        ).0,
        crate::text::string_option_view(r.1) == spec_run_outcome(
            match result {
                Ok(()) => Ok(()),
                Err(e) => Err(e@),
            },
            cancelled,
        ).1,
{
    match result {
        Ok(()) => {
            if cancelled {
                (WebDatabaseBackupRunStatus::Cancelled, None)
            } else {
                (WebDatabaseBackupRunStatus::Success, None)
            }
        },
        Err(error) => {
            let lower = lower_copy(error.as_str().as_bytes());
            proof {
                reveal_strlit("cancelled");
            }
            if cancelled || contains_word(lower.as_slice(), "cancelled") {
                (WebDatabaseBackupRunStatus::Cancelled, None)
            } else {
                (WebDatabaseBackupRunStatus::Failed, Some(error))
            }
        },
    }
}

/// Some pattern names the table.
pub open spec fn table_is_matched(
    patterns: Seq<Seq<char>>,
    database: Seq<char>,
    schema: Seq<char>,
    case_sensitive: bool,
) -> spec_fn(Seq<char>) -> bool {
    |table: Seq<char>|
        exists|k: int|
            0 <= k < patterns.len() && spec_table_matches_pattern(
                table,
                database,
                schema,
                #[trigger] patterns[k],
                case_sensitive,
            )
}

/// The tables an export selects, the tables it leaves out, and how many it
/// covers: nothing is listed when all tables go; an include filter selects
/// the matching tables; an exclude filter leaves them out.
pub open spec fn spec_table_scope(
    mode: WebDatabaseBackupTableFilterMode,
    patterns: Seq<Seq<char>>,
    tables: Seq<Seq<char>>,
    database: Seq<char>,
    schema: Seq<char>,
    case_sensitive: bool,
) -> (Seq<Seq<char>>, Seq<Seq<char>>, nat) {
    let matching = tables.filter(table_is_matched(patterns, database, schema, case_sensitive));
    match mode {
        WebDatabaseBackupTableFilterMode::All => (Seq::empty(), Seq::empty(), 0),
        WebDatabaseBackupTableFilterMode::Include => (matching, Seq::empty(), matching.len()),
        WebDatabaseBackupTableFilterMode::Exclude => (
            Seq::empty(),
            matching,
            (tables.len() - matching.len()) as nat,
        ),
    }
}

fn any_pattern_matches(
    patterns: &Vec<String>,
    table: &str,
    database: &str,
    schema: &str,
    case_sensitive: bool,
) -> (r: bool)
    ensures
        r == table_is_matched(strings_view(patterns@), database@, schema@, case_sensitive)(table@),
{
    let ghost ps = strings_view(patterns@);
    let mut k: usize = 0;
    while k < patterns.len()
        invariant
            k <= patterns@.len(),
            ps == strings_view(patterns@),
            forall|j: int|
                0 <= j < k ==> !spec_table_matches_pattern(table@, database@, schema@, #[trigger] ps[j], case_sensitive),
        decreases patterns@.len() - k,
    {
        if table_matches_pattern(table, database, schema, patterns[k].as_str(), case_sensitive) {
            assert(spec_table_matches_pattern(table@, database@, schema@, ps[k as int], case_sensitive));
            return true;
        }
        k += 1;
    }
    false
}

/// Which tables of a schema a backup exports, as [`spec_table_scope`] says.
pub fn table_scope(
    mode: WebDatabaseBackupTableFilterMode,
    patterns: &Vec<String>,
    tables: &Vec<String>,
    database: &str,
    schema: &str,
    case_sensitive: bool,
) -> (r: (Vec<String>, Vec<String>, usize))
    ensures
        (strings_view(r.0@), strings_view(r.1@), r.2 as nat) == spec_table_scope(
            mode,
            strings_view(patterns@),
            strings_view(tables@),
            database@,
            schema@,
            case_sensitive,
        ),
{
    if mode == WebDatabaseBackupTableFilterMode::All {
        let none: Vec<String> = Vec::new();
        let none2: Vec<String> = Vec::new();
        assert(strings_view(none@) =~= Seq::<Seq<char>>::empty());
        return (none, none2, 0);
    }
    let ghost pred = table_is_matched(strings_view(patterns@), database@, schema@, case_sensitive);
    let ghost ts = strings_view(tables@);
    let mut matching: Vec<String> = Vec::new();
    let mut k: usize = 0;
    while k < tables.len()
        invariant
            k <= tables@.len(),
            ts == strings_view(tables@),
            pred == table_is_matched(strings_view(patterns@), database@, schema@, case_sensitive),
            strings_view(matching@) == ts.subrange(0, k as int).filter(pred),
        decreases tables@.len() - k,
    {
        let ghost before = matching@;
        let keep = any_pattern_matches(patterns, tables[k].as_str(), database, schema, case_sensitive);
        if keep {
            matching.push(tables[k].clone());
        }
        proof {
            let prefix = ts.subrange(0, k + 1);
            assert(prefix.drop_last() =~= ts.subrange(0, k as int));
            assert(prefix.last() == tables@[k as int]@);
            reveal(Seq::filter);
            if keep {
                assert(strings_view(matching@) =~= strings_view(before).push(tables@[k as int]@));
            }
        }
        k += 1;
    }
    assert(ts.subrange(0, k as int) =~= ts);
    proof {
        ts.lemma_filter_len(pred);
    }
    let count = matching.len();
    let none: Vec<String> = Vec::new();
    assert(strings_view(none@) =~= Seq::<Seq<char>>::empty());
    if mode == WebDatabaseBackupTableFilterMode::Include {
        (matching, none, count)
    } else {
        let rest = tables.len() - count;
        (none, matching, rest)
    }
}

/// The rules of a filtered backup that no table matched.
pub fn unmatched_tables_error(mode: WebDatabaseBackupTableFilterMode, matched_table_count: usize) -> (r: Option<
    String,
>)
    ensures
        match mode {
            WebDatabaseBackupTableFilterMode::All => r is None,
            WebDatabaseBackupTableFilterMode::Include => if matched_table_count == 0 {
                r matches Some(m) && m@ == "No tables matched the configured Include backup rules"@
            } else {
                r is None
            },
            WebDatabaseBackupTableFilterMode::Exclude => if matched_table_count == 0 {
                r matches Some(m) && m@ == "No tables matched the configured Exclude backup rules"@
            } else {
                r is None
            },
        },
{
    if matched_table_count != 0 {
        return None;
    }
    match mode {
        WebDatabaseBackupTableFilterMode::All => None,
        WebDatabaseBackupTableFilterMode::Include => Some(
            "No tables matched the configured Include backup rules".to_owned(),
        ),
        WebDatabaseBackupTableFilterMode::Exclude => Some(
            "No tables matched the configured Exclude backup rules".to_owned(),
        ),
    }
}

/// Web backups reach MySQL and PostgreSQL only.
pub fn check_backup_database_type(database_type: DatabaseType) -> (r: Result<(), WebDatabaseBackupError>)
    ensures
        database_type == DatabaseType::Other ==> (r matches Err(WebDatabaseBackupError::Validation(m)) && m@
            == "Web database backups support only MySQL and PostgreSQL"@),
        database_type != DatabaseType::Other ==> r is Ok,
{
    match database_type {
        DatabaseType::Mysql | DatabaseType::Postgres => Ok(()),
        DatabaseType::Other => Err(
            WebDatabaseBackupError::Validation("Web database backups support only MySQL and PostgreSQL".to_owned()),
        ),
    }
}

/// The id of the `index`-th export of a run.
pub fn export_id(run_id: &str, index: u64) -> (r: String)
    ensures
        r@ == run_id@ + "-"@ + decimal(index as nat),
{
    let n = decimal_string(index);
    concat3(run_id, "-", n.as_str())
}

/// The name of a run's backup file, with its start written in the server's
/// local time as `%Y%m%d-%H%M%S` (see [`is_local_stamp`]).
pub fn backup_file_name(schedule_name: &str, file_stem: &str, started_at: BackupInstant, run_id: &str) -> (r:
    String)
    requires
        is_representable(started_at),
    ensures
        exists|stamp: Seq<char>|
            #![trigger spec_backup_file_name(schedule_name@, file_stem@, stamp, run_id@)]
            is_local_stamp(stamp, started_at) && 15 <= stamp.len() <= 18 && (forall|k: int|
                0 <= k < stamp.len() ==> is_stamp_char(#[trigger] stamp[k])) && r@ == spec_backup_file_name(
                schedule_name@,
                file_stem@,
                stamp,
                run_id@,
            ),
        is_managed_backup_name(r@),
        all_safe_file_chars(r@),
        vstd::utf8::encode_utf8(r@).len() <= 255,
{
    let stamp = local_compact_stamp(started_at);
    proof {
        law_backup_file_name_is_safe(schedule_name@, file_stem@, stamp@, run_id@);
        law_backup_file_name_fits(schedule_name@, file_stem@, stamp@, run_id@);
        law_backup_file_name_is_managed(schedule_name@, file_stem@, stamp@, run_id@);
    }
    backup_file_name_with_stamp(schedule_name, file_stem, stamp.as_str(), run_id)
}

/// The stem of the file of one exported schema: the database, and for
/// PostgreSQL also the schema.
pub open spec fn spec_file_stem(database_type: DatabaseType, database: Seq<char>, schema: Seq<char>) -> Seq<char> {
    if database_type == DatabaseType::Postgres {
        database + "__"@ + schema
    } else {
        database
    }
}

/// How a file is shown: the database, and the schema where it differs.
pub open spec fn spec_display_name(database: Seq<char>, schema: Seq<char>) -> Seq<char> {
    if database == schema {
        database
    } else {
        database + " / "@ + schema
    }
}

/// The record of the file that one schema of a run is exported to.
pub fn backup_file_record(
    database_type: DatabaseType,
    database: &str,
    schema: &str,
    schedule_name: &str,
    started_at: BackupInstant,
    run_id: &str,
) -> (r: WebDatabaseBackupFile)
    requires
        is_representable(started_at),
    ensures
        r.database@ == database@,
        r.schema@ == schema@,
        r.display_name@ == spec_display_name(database@, schema@),
        all_safe_file_chars(r.relative_path@),
        exists|stamp: Seq<char>|
            #![trigger spec_backup_file_name(schedule_name@, spec_file_stem(database_type, database@, schema@), stamp, run_id@)]
            is_local_stamp(stamp, started_at) && 15 <= stamp.len() <= 18 && (forall|k: int|
                0 <= k < stamp.len() ==> is_stamp_char(#[trigger] stamp[k])) && r.relative_path@ == spec_backup_file_name(
                schedule_name@,
                spec_file_stem(database_type, database@, schema@),
                stamp,
                run_id@,
            ),
{
    let file_stem = if database_type == DatabaseType::Postgres {
        concat3(database, "__", schema)
    } else {
        database.to_owned()
    };
    assert(file_stem@ == spec_file_stem(database_type, database@, schema@));
    let relative_path = backup_file_name(schedule_name, file_stem.as_str(), started_at, run_id);
    let display_name = if str_eq(database, schema) {
        database.to_owned()
    } else {
        concat3(database, " / ", schema)
    };
    WebDatabaseBackupFile {
        database: database.to_owned(),
        schema: schema.to_owned(),
        display_name,
        relative_path,
    }
}

/// The run has a file with this name.
pub open spec fn run_has_file(run: RunView, relative_path: Seq<char>) -> bool {
    exists|k: int| 0 <= k < run.files.len() && #[trigger] run.files[k].relative_path == relative_path
}

impl WebDatabaseBackupMetadata {
    /// The file of a run that a client asks to download: its path under
    /// `root` and its name.
    pub fn run_file_for_download(&self, run_id: &str, relative_path: &str, root: &str) -> (r: Result<
        (String, String),
        WebDatabaseBackupError,
    >)
        ensures
            match first_position(run_ids(self@.runs), run_id@) {
                None => r matches Err(WebDatabaseBackupError::NotFound(m)) && m@ == "Backup run not found"@,
                Some(i) => if !run_has_file(self@.runs[i], relative_path@) {
                    r matches Err(WebDatabaseBackupError::NotFound(m)) && m@
                        == "Backup file not found in this run"@
                } else if !is_managed_backup_name(relative_path@) {
                    r matches Err(WebDatabaseBackupError::Internal(m)) && m@ == "Invalid managed backup file path"@
                } else {
                    r matches Ok((path, name)) && name@ == relative_path@ && path@ == spec_path_join(
                        root@,
                        relative_path@,
                    )
                },
            },
    {
        let i = match self.run_position(run_id) {
            Some(i) => i,
            None => {
                return Err(WebDatabaseBackupError::NotFound("Backup run not found".to_owned()));
            },
        };
        let run = &self.runs[i];
        let ghost fs = files_view(run.files@);
        assert(self@.runs[i as int] == run@);
        assert(fs == self@.runs[i as int].files);
        let mut k: usize = 0;
        while k < run.files.len()
            invariant
                k <= run.files@.len(),
                i < self.runs@.len(),
                run == &self.runs@[i as int],
                first_position(run_ids(self@.runs), run_id@) == Some(i as int),
                fs == self@.runs[i as int].files,
                fs == files_view(run.files@),
                forall|j: int| 0 <= j < k ==> (#[trigger] fs[j]).relative_path != relative_path@,
            decreases run.files@.len() - k,
        {
            if str_eq(run.files[k].relative_path.as_str(), relative_path) {
                let name = run.files[k].relative_path.clone();
                assert(fs[k as int].relative_path == relative_path@);
                assert(run_has_file(self@.runs[i as int], relative_path@));
                assert(name@ == relative_path@);
                return match managed_backup_file_path(root, name.as_str()) {
                    Ok(path) => Ok((path, name)),
                    Err(e) => Err(WebDatabaseBackupError::from(e)),
                };
            }
            k += 1;
        }
        Err(WebDatabaseBackupError::NotFound("Backup file not found in this run".to_owned()))
    }
}

pub open spec fn is_ascii_alphanumeric(b: u8) -> bool {
    (48 <= b <= 57) || (65 <= b <= 90) || (97 <= b <= 122)
}

/// The upper-case hexadecimal digit for `n`.
pub open spec fn hex_digit(n: nat) -> char {
    if n < 10 {
        ('0' as u32 + n) as char
    } else {
        ('A' as u32 + n - 10) as char
    }
}

/// `bytes` with every byte but an ASCII letter or digit written as `%`
/// and two upper-case hexadecimal digits.
pub open spec fn percent_encoded(bytes: Seq<u8>) -> Seq<char>
    decreases bytes.len(),
{
    if bytes.len() == 0 {
        Seq::empty()
    } else {
        let b = bytes.last();
        percent_encoded(bytes.drop_last()) + if is_ascii_alphanumeric(b) {
            seq![b as char]
        } else {
            seq!['%', hex_digit((b / 16) as nat), hex_digit((b % 16) as nat)]
        }
    }
}

/// `percent_encoding::percent_encode` with `NON_ALPHANUMERIC`, written out:
/// each byte that is not an ASCII letter or digit becomes `%` and its two
/// upper-case hexadecimal digits; the others stay as they are.
#[verifier::external_body]
fn percent_encode_non_alphanumeric(bytes: &[u8]) -> (r: String)
    ensures
        r@ == percent_encoded(bytes@),
{
    percent_encoding::percent_encode(bytes, percent_encoding::NON_ALPHANUMERIC).to_string()
}

/// The `Content-Disposition` of a backup download: a plain fallback name,
/// and the real name percent-encoded as UTF-8.
pub fn download_content_disposition(file_name: &str) -> (r: String)
    ensures
        r@ == "attachment; filename=\"backup.sql\"; filename*=UTF-8''"@ + percent_encoded(
            vstd::utf8::encode_utf8(file_name@),
        ),
{
    let encoded = percent_encode_non_alphanumeric(file_name.as_bytes());
    let mut r = "attachment; filename=\"backup.sql\"; filename*=UTF-8''".to_owned();
    string_push_str(&mut r, encoded.as_str());
    r
}

/// The value of MySQL's `lower_case_table_names` as a query returned it.
#[derive(Debug, Clone)]
pub enum MysqlSettingValue {
    Text(String),
    /// A JSON number, with its value where it is a nonnegative integer.
    Number(Option<u64>),
    Other,
}

pub open spec fn is_ascii_digit_char(c: char) -> bool {
    '0' <= c <= '9'
}

/// The value of a string of decimal digits.
pub open spec fn digits_value(s: Seq<char>) -> nat
    decreases s.len(),
{
    if s.len() == 0 {
        0
    } else {
        digits_value(s.drop_last()) * 10 + (s.last() as nat - '0' as nat) as nat
    }
}

/// `s` without a leading `+`.
pub open spec fn without_plus(s: Seq<char>) -> Seq<char> {
    if s.len() > 0 && s[0] == '+' {
        s.drop_first()
    } else {
        s
    }
}

pub open spec fn all_digits(d: Seq<char>) -> bool {
    forall|k: int| 0 <= k < d.len() ==> is_ascii_digit_char(#[trigger] d[k])
}

/// `str::parse::<u8>`: an optional `+`, then one or more decimal digits
/// whose value fits in a byte.
pub open spec fn spec_parse_u8(s: Seq<char>) -> Option<u8> {
    let d = without_plus(s);
    if d.len() > 0 && all_digits(d) && digits_value(d) <= 255 {
        Some(digits_value(d) as u8)
    } else {
        None
    }
}

proof fn lemma_digits_value_grows(s: Seq<char>, n: int)
    requires
        0 <= n <= s.len(),
        forall|k: int| 0 <= k < s.len() ==> is_ascii_digit_char(#[trigger] s[k]),
    ensures
        digits_value(s.subrange(0, n)) <= digits_value(s),
    decreases s.len(),
{
    if n < s.len() {
        assert(s.drop_last().subrange(0, n) =~= s.subrange(0, n));
        lemma_digits_value_grows(s.drop_last(), n);
    } else {
        assert(s.subrange(0, n) =~= s);
    }
}

/// Parses a byte the way `str::parse::<u8>` does.
pub fn parse_u8(s: &str) -> (r: Option<u8>)
    ensures
        r == spec_parse_u8(s@),
{
    let chars = crate::text::chars_of(s);
    let n = chars.len();
    let start: usize = if n > 0 && chars[0] == '+' {
        1
    } else {
        0
    };
    let ghost d = without_plus(s@);
    assert(d =~= s@.subrange(start as int, n as int));
    if start >= n {
        return None;
    }
    let mut value: u64 = 0;
    let mut k: usize = start;
    while k < n
        invariant
            start <= k <= n,
            n == chars@.len(),
            chars@ == s@,
            d == s@.subrange(start as int, n as int),
            d == without_plus(s@),
            value <= 255,
            forall|j: int| 0 <= j < k - start ==> is_ascii_digit_char(#[trigger] d[j]),
            value == digits_value(d.subrange(0, k - start)),
        decreases n - k,
    {
        let c = chars[k];
        if !('0' <= c && c <= '9') {
            proof {
                assert(!is_ascii_digit_char(d[k - start]));
                assert(!all_digits(d));
                assert(spec_parse_u8(s@) is None);
            }
            return None;
        }
        let digit = (c as u32) - ('0' as u32);
        value = value * 10 + (digit as u64);
        proof {
            assert(d.subrange(0, k + 1 - start).drop_last() =~= d.subrange(0, k - start));
            assert(d.subrange(0, k + 1 - start).last() == c);
        }
        if value > 255 {
            proof {
                if all_digits(d) {
                    lemma_digits_value_grows(d, k + 1 - start);
                    assert(digits_value(d) > 255);
                }
                assert(spec_parse_u8(s@) is None);
            }
            return None;
        }
        k += 1;
    }
    assert(d.subrange(0, k - start) =~= d);
    Some(value as u8)
}

/// The byte that a setting value holds: a number, or text that parses as one.
pub open spec fn setting_byte(value: Option<MysqlSettingValue>) -> Option<u8> {
    match value {
        Some(MysqlSettingValue::Text(t)) => spec_parse_u8(crate::text::trim_chars(t@)),
        Some(MysqlSettingValue::Number(Some(n))) => if n <= 255 {
            Some(n as u8)
        } else {
            None
        },
        _ => None,
    }
}

/// Table names are case sensitive unless MySQL stores them in lower case
/// (`lower_case_table_names` 1) or compares them so (2).
pub fn mysql_lower_case_table_names_are_case_sensitive(value: Option<MysqlSettingValue>) -> (r: bool)
    ensures
        r == !(setting_byte(value) == Some(1u8) || setting_byte(value) == Some(2u8)),
{
    let byte: Option<u8> = match &value {
        Some(MysqlSettingValue::Text(t)) => parse_u8(crate::text::str_trim(t.as_str())),
        Some(MysqlSettingValue::Number(Some(n))) => if *n <= 255 {
            Some(*n as u8)
        } else {
            None
        },
        _ => None,
    };
    match byte {
        Some(1) | Some(2) => false,
        _ => true,
    }
}

/// A new run of a schedule, started now: running, with a fresh random id
/// and no files yet.
pub fn new_backup_run(
    schedule: &WebDatabaseBackupSchedule,
    connection_name: &str,
    trigger: WebDatabaseBackupRunTrigger,
    now: BackupInstant,
) -> (r: WebDatabaseBackupRun)
    requires
        is_representable(now),
    ensures
        is_uuid_v4_text(r.id@),
        r.schedule_id@ == schedule.id@,
        r.schedule_name@ == schedule.input.name@,
        r.connection_id@ == schedule.input.connection_id@,
        r.connection_name@ == connection_name@,
        r.trigger == trigger,
        r.status == WebDatabaseBackupRunStatus::Running,
        reads_back_near(r.started_at@, now),
        r.completed_at is None,
        r.files@.len() == 0,
        r.error is None,
{
    WebDatabaseBackupRun {
        id: new_uuid_v4_string(),
        schedule_id: schedule.id.clone(),
        schedule_name: schedule.input.name.clone(),
        connection_id: schedule.input.connection_id.clone(),
        connection_name: connection_name.to_owned(),
        trigger,
        status: WebDatabaseBackupRunStatus::Running,
        started_at: local_rfc3339(now),
        completed_at: None,
        files: Vec::new(),
        error: None,
    }
}

/// A run needs databases to back up.
pub fn require_databases(targets: Vec<String>) -> (r: Result<Vec<String>, String>)
    ensures
        targets@.len() > 0 ==> (r matches Ok(t) && t@ == targets@),
        targets@.len() == 0 ==> (r matches Err(e) && e@ == "No databases are available for this backup schedule"@),
{
    if targets.len() == 0 {
        return Err("No databases are available for this backup schedule".to_owned());
    }
    Ok(targets)
}

/// What happens once a backup has run: its status and error, whether its
/// files are deleted (only an unsuccessful run with files loses them), and
/// whether older runs of its schedule are pruned (only after a success).
pub struct RunCompletionPlan {
    pub status: WebDatabaseBackupRunStatus,
    pub error: Option<String>,
    pub discard_files: bool,
    pub prune_schedule: bool,
}

pub fn completion_plan(result: Result<(), String>, cancelled: bool, file_count: usize) -> (r: RunCompletionPlan)
    ensures
        r.status == spec_run_outcome(
            match result {
                Ok(()) => Ok(()),
                Err(e) => Err(e@),
            },
            cancelled,
        ).0,
        crate::text::string_option_view(r.error) == spec_run_outcome(
            match result {
                Ok(()) => Ok(()),
                Err(e) => Err(e@),
            },
            cancelled,
        ).1,
        r.discard_files == (r.status != WebDatabaseBackupRunStatus::Success && file_count > 0),
        r.prune_schedule == (r.status == WebDatabaseBackupRunStatus::Success),
{
    let (status, error) = run_outcome(result, cancelled);
    let success = status == WebDatabaseBackupRunStatus::Success;
    RunCompletionPlan { status, error, discard_files: !success && file_count > 0, prune_schedule: success }
}

} // verus!
