//! The course of a backup run through its databases and schemas: which
//! piece of database work comes next, and how each outcome decides the
//! run. The service performs the work (snapshots, table lists, exports)
//! and hands back what came of it.
use vstd::prelude::*;

use crate::backup_manager::unmatched_tables_error;
use crate::backup_model::WebDatabaseBackupTableFilterMode;
use crate::text::string_push_str;

verus! {

broadcast use vstd::string::group_string_axioms;

/// Where a backup run stands: the database it is at (of `database_count`,
/// in order), the schema of that database's snapshot it is at (of
/// `schema_count`), how many exports it has made, how many tables its rules
/// matched, and the error that ends it once the open snapshot is released.
#[derive(Debug)]
pub struct BackupExportProgress {
    pub mode: WebDatabaseBackupTableFilterMode,
    pub database_count: usize,
    pub database_index: usize,
    pub schema_count: usize,
    pub schema_index: usize,
    pub export_index: u64,
    pub matched_table_count: usize,
    pub failure: Option<String>,
}

/// What came of the last piece of work.
#[derive(Debug)]
pub enum BackupExportEvent {
    /// The run begins, its databases resolved.
    Begin,
    /// The snapshot of the current database was begun, with this many
    /// schemas, or failed.
    SnapshotBegun(Result<usize, String>),
    /// The tables of the current schema were scoped, with this many included
    /// by the rules, or listing them failed.
    ScopeResolved(Result<usize, String>),
    /// The current schema's file was recorded and exported, or that failed.
    Exported(Result<(), String>),
    /// The snapshot of the current database was released, or that failed.
    Released(Result<(), String>),
}

/// The next piece of work, or the end of the run.
#[derive(Debug)]
pub enum BackupExportAction {
    /// Begin a snapshot of the database at this index.
    BeginSnapshot(usize),
    /// Scope the tables of the schema at this index.
    ResolveScope(usize),
    /// Record and export the current schema as the export with this number.
    Export(u64),
    /// Release the current database's snapshot.
    ReleaseSnapshot,
    /// The run is over, with this result.
    Finish(Result<(), String>),
}

pub open spec fn backup_cancelled_message() -> Seq<char> {
    "Backup cancelled"@
}

/// The error of a filtered backup whose rules matched no table.
pub open spec fn spec_unmatched_tables_error(mode: WebDatabaseBackupTableFilterMode, matched: nat) -> Option<
    Seq<char>,
> {
    if matched != 0 {
        None
    } else {
        match mode {
            WebDatabaseBackupTableFilterMode::All => None,
            WebDatabaseBackupTableFilterMode::Include => Some("No tables matched the configured Include backup rules"@),
            WebDatabaseBackupTableFilterMode::Exclude => Some("No tables matched the configured Exclude backup rules"@),
        }
    }
}

/// `a` ends the run with the error `m`.
pub open spec fn finishes_with_error(a: BackupExportAction, m: Seq<char>) -> bool {
    a matches BackupExportAction::Finish(Err(e)) && e@ == m
}

/// What the run does when it is ready for the database at its index: it
/// stops when cancelled, else begins that database's snapshot; past the
/// last database it ends, failing a filtered backup that matched no table.
pub open spec fn database_ready(p: BackupExportProgress, cancelled: bool, a: BackupExportAction) -> bool {
    if p.database_index < p.database_count {
        if cancelled {
            finishes_with_error(a, backup_cancelled_message())
        } else {
            a == BackupExportAction::BeginSnapshot(p.database_index)
        }
    } else {
        match spec_unmatched_tables_error(p.mode, p.matched_table_count as nat) {
            Some(m) => finishes_with_error(a, m),
            None => a matches BackupExportAction::Finish(Ok(())),
        }
    }
}

/// What the run does when it is ready for the schema at its index, inside
/// an open snapshot: a cancelled run releases the snapshot to stop with the
/// cancellation; otherwise it scopes that schema's tables; after the last
/// schema it releases the snapshot.
pub open spec fn schema_ready(p: BackupExportProgress, cancelled: bool, a: BackupExportAction) -> bool {
    if p.schema_index < p.schema_count && cancelled {
        &&& a is ReleaseSnapshot
        &&& p.failure matches Some(m) && m@ == backup_cancelled_message()
    } else if p.schema_index < p.schema_count {
        &&& a == BackupExportAction::ResolveScope(p.schema_index)
        &&& p.failure is None
    } else {
        &&& a is ReleaseSnapshot
        &&& p.failure is None
    }
}

/// The parts of the progress that a step keeps unless it says otherwise.
pub open spec fn same_run(o: BackupExportProgress, f: BackupExportProgress) -> bool {
    &&& f.mode == o.mode
    &&& f.database_count == o.database_count
}

/// `f` is `o` at the next schema, with `matched` tables matched so far and
/// `failure` pending.
pub open spec fn at_next_schema(o: BackupExportProgress, f: BackupExportProgress, matched: int) -> bool {
    &&& f.database_index == o.database_index
    &&& f.schema_count == o.schema_count
    &&& f.schema_index == o.schema_index + 1
    &&& f.export_index == o.export_index
    &&& f.matched_table_count == matched
}

/// `f` is `o` with only the pending failure set to `e`.
pub open spec fn failing_with(o: BackupExportProgress, f: BackupExportProgress, e: Seq<char>) -> bool {
    &&& f.database_index == o.database_index
    &&& f.schema_count == o.schema_count
    &&& f.schema_index == o.schema_index
    &&& f.export_index == o.export_index
    &&& f.matched_table_count == o.matched_table_count
    &&& f.failure matches Some(m) && m@ == e
}

/// A step of a backup run: from `o`, after `event`, with the run's
/// cancellation flag read just before, to `f` and the action `a`.
/// The databases are visited in order, and in each the schemas of its
/// snapshot in order; a schema whose filtered scope includes no table is
/// passed over, every other one is exported under the next export number;
/// an error inside a snapshot ends the run only after the snapshot is
/// released, and it takes precedence over an error in releasing it.
pub open spec fn export_step(
    o: BackupExportProgress,
    event: BackupExportEvent,
    cancelled: bool,
    f: BackupExportProgress,
    a: BackupExportAction,
) -> bool {
    &&& same_run(o, f)
    &&& match event {
        BackupExportEvent::Begin => {
            &&& f == o
            &&& database_ready(f, cancelled, a)
        },
        BackupExportEvent::SnapshotBegun(Err(e)) => f == o && finishes_with_error(a, e@),
        BackupExportEvent::SnapshotBegun(Ok(n)) => {
            &&& f.database_index == o.database_index
            &&& f.schema_count == n
            &&& f.schema_index == 0
            &&& f.export_index == o.export_index
            &&& f.matched_table_count == o.matched_table_count
            &&& schema_ready(f, cancelled, a)
        },
        BackupExportEvent::ScopeResolved(Err(e)) => failing_with(o, f, e@) && a is ReleaseSnapshot,
        BackupExportEvent::ScopeResolved(Ok(included)) => {
            let matched = o.matched_table_count + included;
            if o.mode != WebDatabaseBackupTableFilterMode::All && included == 0 {
                at_next_schema(o, f, matched) && schema_ready(f, cancelled, a)
            } else {
                &&& f.database_index == o.database_index
                &&& f.schema_count == o.schema_count
                &&& f.schema_index == o.schema_index
                &&& f.export_index == o.export_index + 1
                &&& f.matched_table_count == matched
                &&& f.failure == o.failure
                &&& a == BackupExportAction::Export(f.export_index)
            }
        },
        BackupExportEvent::Exported(Err(e)) => failing_with(o, f, e@) && a is ReleaseSnapshot,
        BackupExportEvent::Exported(Ok(())) => at_next_schema(o, f, o.matched_table_count as int) && schema_ready(
            f,
            cancelled,
            a,
        ),
        BackupExportEvent::Released(r) => match (o.failure, r) {
            (Some(e), _) => f == o && finishes_with_error(a, e@),
            (None, Err(e)) => f == o && finishes_with_error(a, "Failed to release backup snapshot: "@ + e@),
            (None, Ok(())) => {
                &&& f.database_index == o.database_index + 1
                &&& f.export_index == o.export_index
                &&& f.matched_table_count == o.matched_table_count
                &&& f.failure is None
                &&& database_ready(f, cancelled, a)
            },
        },
    }
}

/// What an event asks of the progress it comes in: the work that it
/// answers was asked for there, and the counts it adds fit.
pub open spec fn event_fits(o: BackupExportProgress, event: BackupExportEvent) -> bool {
    match event {
        BackupExportEvent::Begin => o.database_index == 0 && o.failure is None,
        BackupExportEvent::SnapshotBegun(_) => o.database_index < o.database_count && o.failure is None,
        BackupExportEvent::ScopeResolved(Ok(included)) => {
            &&& o.schema_index < o.schema_count
            &&& o.failure is None
            &&& o.matched_table_count + included <= usize::MAX
            &&& o.export_index < u64::MAX
        },
        BackupExportEvent::ScopeResolved(Err(_)) => o.schema_index < o.schema_count && o.failure is None,
        BackupExportEvent::Exported(_) => o.schema_index < o.schema_count && o.failure is None,
        BackupExportEvent::Released(_) => o.database_index < o.database_count,
    }
}

/// A step of a backup run keeps its promises: while a snapshot is open
/// (after it began, until it is released) the run does not end, so every
/// snapshot is released; once cancelled, a step starts no snapshot and
/// scopes no schema; exports are numbered one after another; and the
/// databases are taken in order.
pub proof fn law_export_steps_keep_the_run_in_order(
    o: BackupExportProgress,
    event: BackupExportEvent,
    cancelled: bool,
    f: BackupExportProgress,
    a: BackupExportAction,
)
    requires
        export_step(o, event, cancelled, f, a),
    ensures
        (event matches BackupExportEvent::SnapshotBegun(Ok(_)) || event is ScopeResolved || event is Exported)
            ==> !(a is Finish),
        cancelled ==> !(a is BeginSnapshot) && !(a is ResolveScope),
        a matches BackupExportAction::Export(k) ==> k == o.export_index + 1 && f.export_index == k,
        a matches BackupExportAction::BeginSnapshot(d) ==> d == f.database_index && d < f.database_count,
{
}

impl BackupExportProgress {
    /// A run about to visit `database_count` databases under `mode`.
    pub fn new(mode: WebDatabaseBackupTableFilterMode, database_count: usize) -> (r: Self)
        ensures
            r.mode == mode,
            r.database_count == database_count,
            r.database_index == 0,
            r.schema_count == 0,
            r.schema_index == 0,
            r.export_index == 0,
            r.matched_table_count == 0,
            r.failure is None,
    {
        BackupExportProgress {
            mode,
            database_count,
            database_index: 0,
            schema_count: 0,
            schema_index: 0,
            export_index: 0,
            matched_table_count: 0,
            failure: None,
        }
    }

    fn at_database(&self, cancelled: bool) -> (a: BackupExportAction)
        ensures
            database_ready(*self, cancelled, a),
    {
        if self.database_index < self.database_count {
            if cancelled {
                return BackupExportAction::Finish(Err("Backup cancelled".to_owned()));
            }
            return BackupExportAction::BeginSnapshot(self.database_index);
        }
        match unmatched_tables_error(self.mode, self.matched_table_count) {
            Some(m) => BackupExportAction::Finish(Err(m)),
            None => BackupExportAction::Finish(Ok(())),
        }
    }

    fn at_schema(&mut self, cancelled: bool) -> (a: BackupExportAction)
        requires
            old(self).failure is None,
        ensures
            schema_ready(*final(self), cancelled, a),
            final(self).failure is None || cancelled,
            final(self).mode == old(self).mode,
            final(self).database_count == old(self).database_count,
            final(self).database_index == old(self).database_index,
            final(self).schema_count == old(self).schema_count,
            final(self).schema_index == old(self).schema_index,
            final(self).export_index == old(self).export_index,
            final(self).matched_table_count == old(self).matched_table_count,
    {
        if self.schema_index < self.schema_count {
            if cancelled {
                self.failure = Some("Backup cancelled".to_owned());
                return BackupExportAction::ReleaseSnapshot;
            }
            return BackupExportAction::ResolveScope(self.schema_index);
        }
        BackupExportAction::ReleaseSnapshot
    }

    /// The next step of the run after `event`, as [`export_step`] says;
    /// `cancelled` is the run's cancellation flag, read just before.
    pub fn next_export_action(&mut self, event: BackupExportEvent, cancelled: bool) -> (a: BackupExportAction)
        requires
            event_fits(*old(self), event),
        ensures
            export_step(*old(self), event, cancelled, *final(self), a),
    {
        match event {
            BackupExportEvent::Begin => self.at_database(cancelled),
            BackupExportEvent::SnapshotBegun(Err(e)) => BackupExportAction::Finish(Err(e)),
            BackupExportEvent::SnapshotBegun(Ok(n)) => {
                self.schema_count = n;
                self.schema_index = 0;
                self.at_schema(cancelled)
            },
            BackupExportEvent::ScopeResolved(Err(e)) => {
                self.failure = Some(e);
                BackupExportAction::ReleaseSnapshot
            },
            BackupExportEvent::ScopeResolved(Ok(included)) => {
                self.matched_table_count = self.matched_table_count + included;
                if self.mode != WebDatabaseBackupTableFilterMode::All && included == 0 {
                    self.schema_index = self.schema_index + 1;
                    return self.at_schema(cancelled);
                }
                self.export_index = self.export_index + 1;
                BackupExportAction::Export(self.export_index)
            },
            BackupExportEvent::Exported(Err(e)) => {
                self.failure = Some(e);
                BackupExportAction::ReleaseSnapshot
            },
            BackupExportEvent::Exported(Ok(())) => {
                self.schema_index = self.schema_index + 1;
                self.at_schema(cancelled)
            },
            BackupExportEvent::Released(r) => {
                match (&self.failure, r) {
                    (Some(e), _) => BackupExportAction::Finish(Err(e.clone())),
                    (None, Err(e)) => {
                        let mut m = "Failed to release backup snapshot: ".to_owned();
                        string_push_str(&mut m, e.as_str());
                        BackupExportAction::Finish(Err(m))
                    },
                    (None, Ok(())) => {
                        self.database_index = self.database_index + 1;
                        self.at_database(cancelled)
                    },
                }
            },
        }
    }
}

} // verus!
