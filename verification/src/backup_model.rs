//! Scheduled database backups: the schedule model and its validation.
use vstd::prelude::*;

use crate::text::{concat3, lemma_trim_idempotent, string_option_view, strings_view, trim_chars, trimmed};

verus! {

broadcast use vstd::string::group_string_axioms;

pub const WEB_DATABASE_BACKUP_METADATA_VERSION: u32 = 1;

pub const MAX_WEB_DATABASE_BACKUP_HISTORY: usize = 200;

pub const MAX_SCHEDULE_NAME_CHARS: usize = 100;

pub const MAX_INTERVAL_HOURS: u32 = 168;

pub const MAX_RETENTION_COUNT: usize = 100;

pub const MAX_SCOPE_VALUES: usize = 100;

pub const MAX_DATABASE_NAME_CHARS: usize = 128;

pub const MAX_TABLE_PATTERN_CHARS: usize = 256;

#[derive(Debug, Clone, Copy, PartialEq, Eq, Structural)]
pub enum WebDatabaseBackupFrequency {
    Hourly,
    Daily,
    Weekly,
}

#[derive(Debug, Clone, Copy, PartialEq, Eq, Structural)]
pub enum WebDatabaseBackupTableFilterMode {
    All,
    Include,
    Exclude,
}

#[derive(Debug, Clone, Copy, PartialEq, Eq, Structural)]
pub enum WebDatabaseBackupRunTrigger {
    Manual,
    Scheduled,
}

#[derive(Debug, Clone, Copy, PartialEq, Eq, Structural)]
pub enum WebDatabaseBackupRunStatus {
    Running,
    Success,
    Failed,
    Cancelled,
}

#[derive(Debug, Clone, PartialEq, Eq)]
pub struct WebDatabaseBackupScheduleInput {
    pub name: String,
    pub enabled: bool,
    pub connection_id: String,
    pub databases: Vec<String>,
    pub table_filter_mode: WebDatabaseBackupTableFilterMode,
    pub table_patterns: Vec<String>,
    pub frequency: WebDatabaseBackupFrequency,
    pub interval_hours: u32,
    pub time_of_day: String,
    pub weekday: u32,
    pub include_structure: bool,
    pub include_data: bool,
    pub include_objects: bool,
    pub drop_table_if_exists: bool,
    pub retention_count: usize,
}

#[derive(Debug, Clone, PartialEq, Eq)]
pub struct WebDatabaseBackupSchedule {
    pub id: String,
    pub input: WebDatabaseBackupScheduleInput,
    pub created_at: String,
    pub updated_at: String,
    pub next_run_at: String,
    pub last_run_at: Option<String>,
    pub last_run_status: Option<WebDatabaseBackupRunStatus>,
}

#[derive(Debug, Clone, PartialEq, Eq)]
pub struct WebDatabaseBackupFile {
    pub database: String,
    pub schema: String,
    pub display_name: String,
    /// Always a single file name directly under the backup root.
    pub relative_path: String,
}

#[derive(Debug, Clone, PartialEq, Eq)]
pub struct WebDatabaseBackupRun {
    pub id: String,
    pub schedule_id: String,
    pub schedule_name: String,
    pub connection_id: String,
    pub connection_name: String,
    pub trigger: WebDatabaseBackupRunTrigger,
    pub status: WebDatabaseBackupRunStatus,
    pub started_at: String,
    pub completed_at: Option<String>,
    pub files: Vec<WebDatabaseBackupFile>,
    pub error: Option<String>,
}

#[derive(Debug, Clone)]
pub struct WebDatabaseBackupMetadata {
    pub version: u32,
    pub schedules: Vec<WebDatabaseBackupSchedule>,
    pub runs: Vec<WebDatabaseBackupRun>,
}

#[derive(Debug, Clone)]
pub struct WebDatabaseBackupConfig {
    pub available: bool,
    pub backup_directory: String,
    pub server_timezone: String,
}

pub open spec fn is_digit_char(c: char) -> bool {
    '0' <= c <= '9'
}

pub open spec fn digit_value(c: char) -> u32 {
    (c as u32 - '0' as u32) as u32
}

/// `HH:mm` with two digits each, an hour below 24 and a minute below 60.
pub open spec fn spec_parse_time_of_day(s: Seq<char>) -> Option<(u32, u32)> {
    if s.len() == 5 && s[2] == ':' && is_digit_char(s[0]) && is_digit_char(s[1]) && is_digit_char(
        s[3],
    ) && is_digit_char(s[4]) {
        let hour = (digit_value(s[0]) * 10 + digit_value(s[1])) as u32;
        let minute = (digit_value(s[3]) * 10 + digit_value(s[4])) as u32;
        if hour < 24 && minute < 60 {
            Some((hour, minute))
        } else {
            None
        }
    } else {
        None
    }
}

/// The nonempty values of `ts`, each kept at its first occurrence.
pub open spec fn distinct_nonempty(ts: Seq<Seq<char>>) -> Seq<Seq<char>>
    decreases ts.len(),
{
    if ts.len() == 0 {
        Seq::empty()
    } else {
        let prev = distinct_nonempty(ts.drop_last());
        let t = ts.last();
        if t.len() == 0 || prev.contains(t) {
            prev
        } else {
            prev.push(t)
        }
    }
}

pub open spec fn trim_all(vs: Seq<Seq<char>>) -> Seq<Seq<char>> {
    vs.map_values(|s: Seq<char>| trim_chars(s))
}

pub open spec fn some_too_long(vs: Seq<Seq<char>>, max_length: nat) -> bool {
    exists|k: int| 0 <= k < vs.len() && (#[trigger] trim_chars(vs[k])).len() > max_length
}

/// The trimmed, distinct, nonempty values of `vs`, or the message that rejects them.
pub open spec fn spec_unique_trimmed(vs: Seq<Seq<char>>, max_count: nat, max_length: nat, label: Seq<char>) -> Result<
    Seq<Seq<char>>,
    Seq<char>,
> {
    if some_too_long(vs, max_length) {
        Err("Backup "@ + label + " is too long"@)
    } else if distinct_nonempty(trim_all(vs)).len() > max_count {
        Err("Too many backup "@ + label + " values"@)
    } else {
        Ok(distinct_nonempty(trim_all(vs)))
    }
}

/// The first rule that `i` breaks, as the message that reports it.
pub open spec fn validation_error(i: WebDatabaseBackupScheduleInput) -> Option<Seq<char>> {
    let name = trim_chars(i.name@);
    if name.len() == 0 || name.len() > MAX_SCHEDULE_NAME_CHARS {
        Some("Backup schedule name must contain 1 to 100 characters"@)
    } else if trim_chars(i.connection_id@).len() == 0 {
        Some("Backup connection is required"@)
    } else if !(1 <= i.interval_hours <= MAX_INTERVAL_HOURS) {
        Some("Backup interval must be between 1 and 168 hours"@)
    } else if i.weekday > 6 {
        Some("Backup weekday must be between 0 and 6"@)
    } else if spec_parse_time_of_day(i.time_of_day@) is None {
        Some("Backup time must use HH:mm format"@)
    } else if !(1 <= i.retention_count <= MAX_RETENTION_COUNT) {
        Some("Backup retention count must be between 1 and 100"@)
    } else if !i.include_structure && !i.include_data && !i.include_objects {
        Some("At least one backup content option must be enabled"@)
    } else if spec_unique_trimmed(
        strings_view(i.databases@),
        MAX_SCOPE_VALUES as nat,
        MAX_DATABASE_NAME_CHARS as nat,
        "database"@,
    ) is Err {
        Some(
            spec_unique_trimmed(
                strings_view(i.databases@),
                MAX_SCOPE_VALUES as nat,
                MAX_DATABASE_NAME_CHARS as nat,
                "database"@,
            )->Err_0,
        )
    } else if spec_unique_trimmed(
        strings_view(i.table_patterns@),
        MAX_SCOPE_VALUES as nat,
        MAX_TABLE_PATTERN_CHARS as nat,
        "table pattern"@,
    ) is Err {
        Some(
            spec_unique_trimmed(
                strings_view(i.table_patterns@),
                MAX_SCOPE_VALUES as nat,
                MAX_TABLE_PATTERN_CHARS as nat,
                "table pattern"@,
            )->Err_0,
        )
    } else if i.table_filter_mode != WebDatabaseBackupTableFilterMode::All && distinct_nonempty(
        trim_all(strings_view(i.table_patterns@)),
    ).len() == 0 {
        Some("Filtered backups require at least one table pattern"@)
    } else {
        None
    }
}

/// `o` is the normal form of the valid input `i`: names trimmed, scope
/// values trimmed and deduplicated, and no table patterns when all tables
/// are backed up.
pub open spec fn is_normalized_from(o: WebDatabaseBackupScheduleInput, i: WebDatabaseBackupScheduleInput) -> bool {
    &&& o.name@ == trim_chars(i.name@)
    &&& o.connection_id@ == trim_chars(i.connection_id@)
    &&& strings_view(o.databases@) == distinct_nonempty(trim_all(strings_view(i.databases@)))
    &&& strings_view(o.table_patterns@) == if i.table_filter_mode
        == WebDatabaseBackupTableFilterMode::All {
        Seq::<Seq<char>>::empty()
    } else {
        distinct_nonempty(trim_all(strings_view(i.table_patterns@)))
    }
    &&& o.enabled == i.enabled
    &&& o.table_filter_mode == i.table_filter_mode
    &&& o.frequency == i.frequency
    &&& o.interval_hours == i.interval_hours
    &&& o.time_of_day@ == i.time_of_day@
    &&& o.weekday == i.weekday
    &&& o.include_structure == i.include_structure
    &&& o.include_data == i.include_data
    &&& o.include_objects == i.include_objects
    &&& o.drop_table_if_exists == i.drop_table_if_exists
    &&& o.retention_count == i.retention_count
}

fn digit_of(c: char) -> (r: Option<u32>)
    ensures
        r is Some <==> is_digit_char(c),
        r matches Some(d) ==> d == digit_value(c) && d < 10,
{
    if '0' <= c && c <= '9' {
        Some((c as u32) - ('0' as u32))
    } else {
        None
    }
}

/// Parses `HH:mm` into an hour and a minute.
pub fn parse_time_of_day(value: &str) -> (r: Option<(u32, u32)>)
    ensures
        r == spec_parse_time_of_day(value@),
{
    if value.unicode_len() != 5 || value.get_char(2) != ':' {
        return None;
    }
    let h1 = digit_of(value.get_char(0));
    let h2 = digit_of(value.get_char(1));
    let m1 = digit_of(value.get_char(3));
    let m2 = digit_of(value.get_char(4));
    match (h1, h2, m1, m2) {
        (Some(a), Some(b), Some(c), Some(d)) => {
            let hour = a * 10 + b;
            let minute = c * 10 + d;
            if hour < 24 && minute < 60 {
                Some((hour, minute))
            } else {
                None
            }
        },
        _ => None,
    }
}

fn contains_string(v: &Vec<String>, s: &String) -> (r: bool)
    ensures
        r == strings_view(v@).contains(s@),
{
    let mut k: usize = 0;
    while k < v.len()
        invariant
            k <= v.len(),
            forall|m: int| 0 <= m < k ==> v@[m]@ != s@,
        decreases v.len() - k,
    {
        if v[k] == *s {
            assert(strings_view(v@)[k as int] == s@);
            return true;
        }
        k += 1;
    }
    proof {
        if strings_view(v@).contains(s@) {
            let m = choose|m: int| 0 <= m < v@.len() && strings_view(v@)[m] == s@;
            assert(v@[m]@ == s@);
        }
    }
    false
}

/// Trims `values`, drops empty ones and later duplicates, and bounds their
/// number and length.
pub fn unique_trimmed(values: Vec<String>, max_count: usize, max_length: usize, label: &str) -> (r:
    Result<Vec<String>, String>)
    ensures
        match spec_unique_trimmed(
            strings_view(values@),
            max_count as nat,
            max_length as nat,
            label@,
        ) {
            Ok(v) => r matches Ok(w) && strings_view(w@) == v,
            Err(m) => r matches Err(e) && e@ == m,
        },
{
    let ghost vs = strings_view(values@);
    let mut normalized: Vec<String> = Vec::new();
    let mut k: usize = 0;
    while k < values.len()
        invariant
            k <= values.len(),
            vs == strings_view(values@),
            strings_view(normalized@) == distinct_nonempty(trim_all(vs.take(k as int))),
            forall|m: int| 0 <= m < k ==> (#[trigger] trim_chars(vs[m])).len() <= max_length,
        decreases values.len() - k,
    {
        let value = trimmed(values[k].as_str());
        proof {
            assert(trim_all(vs.take(k + 1)) =~= trim_all(vs.take(k as int)).push(trim_chars(vs[k as int])));
            assert(trim_all(vs.take(k + 1)).drop_last() =~= trim_all(vs.take(k as int)));
        }
        if value.unicode_len() == 0 {
            k += 1;
            continue;
        }
        if value.unicode_len() > max_length {
            proof {
                assert(trim_chars(vs[k as int]).len() > max_length);
            }
            return Err(concat3("Backup ", label, " is too long"));
        }
        if !contains_string(&normalized, &value) {
            let ghost before = strings_view(normalized@);
            normalized.push(value);
            assert(strings_view(normalized@) =~= before.push(trim_chars(vs[k as int])));
        }
        k += 1;
    }
    proof {
        assert(vs.take(k as int) =~= vs);
        assert(!some_too_long(vs, max_length as nat));
    }
    if normalized.len() > max_count {
        return Err(concat3("Too many backup ", label, " values"));
    }
    Ok(normalized)
}

impl WebDatabaseBackupScheduleInput {
    /// Checks the input and brings it into its normal form.
    pub fn validate_and_normalize(self) -> (r: Result<Self, String>)
        ensures
            match validation_error(self) {
                Some(m) => r matches Err(e) && e@ == m,
                None => r matches Ok(o) && is_normalized_from(o, self),
            },
    {
        let mut this = self;
        this.name = trimmed(this.name.as_str());
        this.connection_id = trimmed(this.connection_id.as_str());
        let name_chars = this.name.unicode_len();
        if name_chars == 0 || name_chars > MAX_SCHEDULE_NAME_CHARS {
            return Err("Backup schedule name must contain 1 to 100 characters".to_owned());
        }
        if this.connection_id.unicode_len() == 0 {
            return Err("Backup connection is required".to_owned());
        }
        if !(1 <= this.interval_hours && this.interval_hours <= MAX_INTERVAL_HOURS) {
            return Err("Backup interval must be between 1 and 168 hours".to_owned());
        }
        if this.weekday > 6 {
            return Err("Backup weekday must be between 0 and 6".to_owned());
        }
        if parse_time_of_day(this.time_of_day.as_str()).is_none() {
            return Err("Backup time must use HH:mm format".to_owned());
        }
        if !(1 <= this.retention_count && this.retention_count <= MAX_RETENTION_COUNT) {
            return Err("Backup retention count must be between 1 and 100".to_owned());
        }
        if !this.include_structure && !this.include_data && !this.include_objects {
            return Err("At least one backup content option must be enabled".to_owned());
        }
        let mut databases: Vec<String> = Vec::new();
        std::mem::swap(&mut databases, &mut this.databases);
        this.databases = unique_trimmed(
            databases,
            MAX_SCOPE_VALUES,
            MAX_DATABASE_NAME_CHARS,
            "database",
        )?;
        let mut patterns: Vec<String> = Vec::new();
        std::mem::swap(&mut patterns, &mut this.table_patterns);
        this.table_patterns = unique_trimmed(
            patterns,
            MAX_SCOPE_VALUES,
            MAX_TABLE_PATTERN_CHARS,
            "table pattern",
        )?;
        match this.table_filter_mode {
            WebDatabaseBackupTableFilterMode::All => {
                this.table_patterns.clear();
                assert(strings_view(this.table_patterns@) =~= Seq::<Seq<char>>::empty());
            },
            _ => {
                if this.table_patterns.len() == 0 {
                    return Err("Filtered backups require at least one table pattern".to_owned());
                }
            },
        }
        Ok(this)
    }
}

pub proof fn lemma_distinct_nonempty_shape(ts: Seq<Seq<char>>)
    ensures
        distinct_nonempty(ts).len() <= ts.len(),
        forall|k: int|
            0 <= k < distinct_nonempty(ts).len() ==> (#[trigger] distinct_nonempty(ts)[k]).len() > 0
                && ts.contains(distinct_nonempty(ts)[k]),
        forall|a: int, b: int|
            0 <= a < b < distinct_nonempty(ts).len() ==> #[trigger] distinct_nonempty(ts)[a]
                != #[trigger] distinct_nonempty(ts)[b],
    decreases ts.len(),
{
    if ts.len() > 0 {
        let prev = distinct_nonempty(ts.drop_last());
        lemma_distinct_nonempty_shape(ts.drop_last());
        assert forall|k: int| 0 <= k < prev.len() implies ts.contains(#[trigger] prev[k]) by {
            let m = choose|m: int| 0 <= m < ts.drop_last().len() && ts.drop_last()[m] == prev[k];
            assert(ts[m] == prev[k]);
        }
        if !(ts.last().len() == 0 || prev.contains(ts.last())) {
            let r = prev.push(ts.last());
            assert(ts[ts.len() - 1] == ts.last());
            assert forall|a: int, b: int| 0 <= a < b < r.len() implies #[trigger] r[a] != #[trigger] r[b] by {
                if b == r.len() - 1 {
                    assert(!prev.contains(ts.last()));
                    assert(prev[a] == r[a]);
                }
            }
        }
    }
}

pub proof fn lemma_distinct_nonempty_fixed(ts: Seq<Seq<char>>)
    requires
        forall|k: int| 0 <= k < ts.len() ==> (#[trigger] ts[k]).len() > 0,
        forall|a: int, b: int| 0 <= a < b < ts.len() ==> #[trigger] ts[a] != #[trigger] ts[b],
    ensures
        distinct_nonempty(ts) == ts,
    decreases ts.len(),
{
    if ts.len() > 0 {
        let d = ts.drop_last();
        assert forall|a: int, b: int| 0 <= a < b < d.len() implies #[trigger] d[a] != #[trigger] d[b] by {
            assert(d[a] == ts[a] && d[b] == ts[b]);
        }
        assert forall|k: int| 0 <= k < d.len() implies (#[trigger] d[k]).len() > 0 by {
            assert(d[k] == ts[k]);
        }
        lemma_distinct_nonempty_fixed(d);
        assert(ts[ts.len() - 1] == ts.last());
        if d.contains(ts.last()) {
            let m = choose|m: int| 0 <= m < d.len() && d[m] == ts.last();
            assert(ts[m] == ts[ts.len() - 1]);
        }
        assert(d.push(ts.last()) =~= ts);
    }
}

/// Running `unique_trimmed` on its own output gives the same values back.
pub proof fn lemma_unique_trimmed_idempotent(vs: Seq<Seq<char>>, max_count: nat, max_length: nat, label: Seq<char>)
    requires
        spec_unique_trimmed(vs, max_count, max_length, label) is Ok,
    ensures
        spec_unique_trimmed(
            spec_unique_trimmed(vs, max_count, max_length, label)->Ok_0,
            max_count,
            max_length,
            label,
        ) == spec_unique_trimmed(vs, max_count, max_length, label),
{
    let t = trim_all(vs);
    let d = distinct_nonempty(t);
    lemma_distinct_nonempty_shape(t);
    assert forall|k: int| 0 <= k < d.len() implies trim_chars(#[trigger] d[k]) == d[k] by {
        assert(t.contains(d[k]));
        let m = choose|m: int| 0 <= m < t.len() && t[m] == d[k];
        lemma_trim_idempotent(vs[m]);
    }
    assert(trim_all(d) =~= d);
    lemma_distinct_nonempty_fixed(d);
    assert forall|k: int| 0 <= k < d.len() implies (#[trigger] trim_chars(d[k])).len() <= max_length by {
        assert(t.contains(d[k]));
        let m = choose|m: int| 0 <= m < t.len() && t[m] == d[k];
        assert(!((trim_chars(vs[m])).len() > max_length));
    }
}

/// Validation is a normal form: an input that it accepts normalises to
/// values that it accepts again and leaves as they are.
pub proof fn law_validation_is_idempotent(i: WebDatabaseBackupScheduleInput, o: WebDatabaseBackupScheduleInput)
    requires
        validation_error(i) is None,
        is_normalized_from(o, i),
    ensures
        validation_error(o) is None,
        is_normalized_from(o, o),
{
    lemma_trim_idempotent(i.name@);
    lemma_trim_idempotent(i.connection_id@);
    let dbs = strings_view(i.databases@);
    let pats = strings_view(i.table_patterns@);
    lemma_unique_trimmed_idempotent(dbs, MAX_SCOPE_VALUES as nat, MAX_DATABASE_NAME_CHARS as nat, "database"@);
    lemma_unique_trimmed_idempotent(pats, MAX_SCOPE_VALUES as nat, MAX_TABLE_PATTERN_CHARS as nat, "table pattern"@);
    if i.table_filter_mode == WebDatabaseBackupTableFilterMode::All {
        let e = Seq::<Seq<char>>::empty();
        assert(trim_all(e) =~= e);
        assert(distinct_nonempty(e) == e);
        assert(!some_too_long(e, MAX_TABLE_PATTERN_CHARS as nat));
    }
}

/// A schedule input as plain values.
pub struct ScheduleInputView {
    pub name: Seq<char>,
    pub enabled: bool,
    pub connection_id: Seq<char>,
    pub databases: Seq<Seq<char>>,
    pub table_filter_mode: WebDatabaseBackupTableFilterMode,
    pub table_patterns: Seq<Seq<char>>,
    pub frequency: WebDatabaseBackupFrequency,
    pub interval_hours: u32,
    pub time_of_day: Seq<char>,
    pub weekday: u32,
    pub include_structure: bool,
    pub include_data: bool,
    pub include_objects: bool,
    pub drop_table_if_exists: bool,
    pub retention_count: usize,
}

/// A schedule as plain values.
pub struct ScheduleView {
    pub id: Seq<char>,
    pub input: ScheduleInputView,
    pub created_at: Seq<char>,
    pub updated_at: Seq<char>,
    pub next_run_at: Seq<char>,
    pub last_run_at: Option<Seq<char>>,
    pub last_run_status: Option<WebDatabaseBackupRunStatus>,
}

/// A backup file as plain values.
pub struct BackupFileView {
    pub database: Seq<char>,
    pub schema: Seq<char>,
    pub display_name: Seq<char>,
    pub relative_path: Seq<char>,
}

/// A backup run as plain values.
pub struct RunView {
    pub id: Seq<char>,
    pub schedule_id: Seq<char>,
    pub schedule_name: Seq<char>,
    pub connection_id: Seq<char>,
    pub connection_name: Seq<char>,
    pub trigger: WebDatabaseBackupRunTrigger,
    pub status: WebDatabaseBackupRunStatus,
    pub started_at: Seq<char>,
    pub completed_at: Option<Seq<char>>,
    pub files: Seq<BackupFileView>,
    pub error: Option<Seq<char>>,
}

/// The stored metadata as plain values.
pub struct MetadataView {
    pub version: u32,
    pub schedules: Seq<ScheduleView>,
    pub runs: Seq<RunView>,
}

impl View for WebDatabaseBackupScheduleInput {
    type V = ScheduleInputView;

    open spec fn view(&self) -> ScheduleInputView {
        ScheduleInputView {
            name: self.name@,
            enabled: self.enabled,
            connection_id: self.connection_id@,
            databases: strings_view(self.databases@),
            table_filter_mode: self.table_filter_mode,
            table_patterns: strings_view(self.table_patterns@),
            frequency: self.frequency,
            interval_hours: self.interval_hours,
            time_of_day: self.time_of_day@,
            weekday: self.weekday,
            include_structure: self.include_structure,
            include_data: self.include_data,
            include_objects: self.include_objects,
            drop_table_if_exists: self.drop_table_if_exists,
            retention_count: self.retention_count,
        }
    }
}

impl View for WebDatabaseBackupSchedule {
    type V = ScheduleView;

    open spec fn view(&self) -> ScheduleView {
        ScheduleView {
            id: self.id@,
            input: self.input@,
            created_at: self.created_at@,
            updated_at: self.updated_at@,
            next_run_at: self.next_run_at@,
            last_run_at: string_option_view(self.last_run_at),
            last_run_status: self.last_run_status,
        }
    }
}

impl View for WebDatabaseBackupFile {
    type V = BackupFileView;

    open spec fn view(&self) -> BackupFileView {
        BackupFileView {
            database: self.database@,
            schema: self.schema@,
            display_name: self.display_name@,
            relative_path: self.relative_path@,
        }
    }
}

pub open spec fn files_view(v: Seq<WebDatabaseBackupFile>) -> Seq<BackupFileView> {
    v.map_values(|f: WebDatabaseBackupFile| f@)
}

impl View for WebDatabaseBackupRun {
    type V = RunView;

    open spec fn view(&self) -> RunView {
        RunView {
            id: self.id@,
            schedule_id: self.schedule_id@,
            schedule_name: self.schedule_name@,
            connection_id: self.connection_id@,
            connection_name: self.connection_name@,
            trigger: self.trigger,
            status: self.status,
            started_at: self.started_at@,
            completed_at: string_option_view(self.completed_at),
            files: files_view(self.files@),
            error: string_option_view(self.error),
        }
    }
}

pub open spec fn schedules_view(v: Seq<WebDatabaseBackupSchedule>) -> Seq<ScheduleView> {
    v.map_values(|s: WebDatabaseBackupSchedule| s@)
}

pub open spec fn runs_view(v: Seq<WebDatabaseBackupRun>) -> Seq<RunView> {
    v.map_values(|r: WebDatabaseBackupRun| r@)
}

impl View for WebDatabaseBackupMetadata {
    type V = MetadataView;

    open spec fn view(&self) -> MetadataView {
        MetadataView {
            version: self.version,
            schedules: schedules_view(self.schedules@),
            runs: runs_view(self.runs@),
        }
    }
}

impl Default for WebDatabaseBackupMetadata {
    /// Metadata of the current version with no schedules and no runs.
    fn default() -> (r: Self)
        ensures
            r@ == (MetadataView {
                version: WEB_DATABASE_BACKUP_METADATA_VERSION,
                schedules: Seq::empty(),
                runs: Seq::empty(),
            }),
    {
        let r = WebDatabaseBackupMetadata {
            version: WEB_DATABASE_BACKUP_METADATA_VERSION,
            schedules: Vec::new(),
            runs: Vec::new(),
        };
        assert(r@.schedules =~= Seq::empty());
        assert(r@.runs =~= Seq::empty());
        r
    }
}

/// A copy of a list of strings.
pub fn copy_strings(v: &Vec<String>) -> (r: Vec<String>)
    ensures
        strings_view(r@) == strings_view(v@),
{
    let mut r: Vec<String> = Vec::new();
    let mut k: usize = 0;
    while k < v.len()
        invariant
            k <= v@.len(),
            r@.len() == k,
            forall|i: int| 0 <= i < k ==> #[trigger] r@[i]@ == v@[i]@,
        decreases v@.len() - k,
    {
        r.push(v[k].clone());
        k += 1;
    }
    assert(strings_view(r@) =~= strings_view(v@));
    r
}

pub fn copy_option_string(o: &Option<String>) -> (r: Option<String>)
    ensures
        string_option_view(r) == string_option_view(*o),
{
    match o {
        Some(s) => Some(s.clone()),
        None => None,
    }
}

impl WebDatabaseBackupScheduleInput {
    /// A copy, field by field.
    pub fn duplicate(&self) -> (r: Self)
        ensures
            r@ == self@,
    {
        WebDatabaseBackupScheduleInput {
            name: self.name.clone(),
            enabled: self.enabled,
            connection_id: self.connection_id.clone(),
            databases: copy_strings(&self.databases),
            table_filter_mode: self.table_filter_mode,
            table_patterns: copy_strings(&self.table_patterns),
            frequency: self.frequency,
            interval_hours: self.interval_hours,
            time_of_day: self.time_of_day.clone(),
            weekday: self.weekday,
            include_structure: self.include_structure,
            include_data: self.include_data,
            include_objects: self.include_objects,
            drop_table_if_exists: self.drop_table_if_exists,
            retention_count: self.retention_count,
        }
    }
}

impl WebDatabaseBackupSchedule {
    /// A copy, field by field.
    pub fn duplicate(&self) -> (r: Self)
        ensures
            r@ == self@,
    {
        WebDatabaseBackupSchedule {
            id: self.id.clone(),
            input: self.input.duplicate(),
            created_at: self.created_at.clone(),
            updated_at: self.updated_at.clone(),
            next_run_at: self.next_run_at.clone(),
            last_run_at: copy_option_string(&self.last_run_at),
            last_run_status: self.last_run_status,
        }
    }
}

impl WebDatabaseBackupFile {
    /// A copy, field by field.
    pub fn duplicate(&self) -> (r: Self)
        ensures
            r@ == self@,
    {
        WebDatabaseBackupFile {
            database: self.database.clone(),
            schema: self.schema.clone(),
            display_name: self.display_name.clone(),
            relative_path: self.relative_path.clone(),
        }
    }
}

impl WebDatabaseBackupRun {
    /// A copy, field by field.
    pub fn duplicate(&self) -> (r: Self)
        ensures
            r@ == self@,
    {
        let mut files: Vec<WebDatabaseBackupFile> = Vec::new();
        let mut k: usize = 0;
        while k < self.files.len()
            invariant
                k <= self.files@.len(),
                files@.len() == k,
                forall|i: int| 0 <= i < k ==> #[trigger] files@[i]@ == self.files@[i]@,
            decreases self.files@.len() - k,
        {
            files.push(self.files[k].duplicate());
            k += 1;
        }
        assert(files_view(files@) =~= files_view(self.files@));
        WebDatabaseBackupRun {
            id: self.id.clone(),
            schedule_id: self.schedule_id.clone(),
            schedule_name: self.schedule_name.clone(),
            connection_id: self.connection_id.clone(),
            connection_name: self.connection_name.clone(),
            trigger: self.trigger,
            status: self.status,
            started_at: self.started_at.clone(),
            completed_at: copy_option_string(&self.completed_at),
            files,
            error: copy_option_string(&self.error),
        }
    }
}

} // verus!
