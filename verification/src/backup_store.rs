//! The backup metadata: schedules and runs, and every change the store
//! makes to them. The store writes each changed copy to disk before it
//! takes it; these functions compute that copy.
use vstd::prelude::*;
use vstd::utf8::encode_utf8;

use crate::backup_model::{
    copy_option_string, files_view, runs_view, schedules_view, spec_parse_time_of_day, BackupFileView,
    RunView, ScheduleInputView, ScheduleView, WebDatabaseBackupFile, WebDatabaseBackupFrequency,
    WebDatabaseBackupMetadata, WebDatabaseBackupRun, WebDatabaseBackupRunStatus, WebDatabaseBackupRunTrigger,
    WebDatabaseBackupSchedule, WebDatabaseBackupScheduleInput, MAX_WEB_DATABASE_BACKUP_HISTORY,
    WEB_DATABASE_BACKUP_METADATA_VERSION,
};
use crate::ids::{is_uuid_v4_text, new_uuid_v4_string};
use crate::backup_time::{
    instant_le, is_not_later, is_representable, is_valid_instant, local_rfc3339, next_web_database_backup_run_at,
    is_local_next_run, parse_rfc3339_instant, plus_seconds, reads_back_near, rfc3339_instant, BackupInstant,
    SECONDS_PER_HOUR,
};
use crate::text::{concat3, decimal, decimal_string, string_option_view, string_push_str, strings_view};
use crate::sort::{is_sorted_tail, is_stable_order, keys_view, sorted_tail};
use crate::text::str_eq;

verus! {

broadcast use vstd::string::group_string_axioms;

/// The index of the first of `ids` that equals `id`.
pub open spec fn first_position(ids: Seq<Seq<char>>, id: Seq<char>) -> Option<int> {
    if exists|i: int| 0 <= i < ids.len() && ids[i] == id {
        Some(
            choose|i: int|
                0 <= i < ids.len() && ids[i] == id && forall|j: int| 0 <= j < i ==> ids[j] != id,
        )
    } else {
        None
    }
}

/// A position found by scanning from the front is the first position.
proof fn lemma_first_position(ids: Seq<Seq<char>>, id: Seq<char>, k: int)
    requires
        0 <= k < ids.len(),
        ids[k] == id,
        forall|j: int| 0 <= j < k ==> ids[j] != id,
    ensures
        first_position(ids, id) == Some(k),
{
    let c = choose|i: int| 0 <= i < ids.len() && ids[i] == id && forall|j: int| 0 <= j < i ==> ids[j] != id;
    assert(0 <= c < ids.len() && ids[c] == id && forall|j: int| 0 <= j < c ==> ids[j] != id);
    if c < k {
        assert(ids[c] != id);
    }
    if k < c {
        assert(ids[k] != id);
    }
}

pub open spec fn schedule_ids(v: Seq<ScheduleView>) -> Seq<Seq<char>> {
    v.map_values(|s: ScheduleView| s.id)
}

pub open spec fn run_ids(v: Seq<RunView>) -> Seq<Seq<char>> {
    v.map_values(|r: RunView| r.id)
}

/// Schedules are listed by name.
pub open spec fn schedule_name_keys(v: Seq<ScheduleView>) -> Seq<Seq<Seq<u8>>> {
    v.map_values(|s: ScheduleView| seq![encode_utf8(s.input.name)])
}

/// Runs are listed by start time, latest first.
pub open spec fn run_start_keys(v: Seq<RunView>) -> Seq<Seq<Seq<u8>>> {
    v.map_values(|r: RunView| seq![encode_utf8(r.started_at)])
}

/// Runs beyond the history limit go by start time, then by id.
pub open spec fn run_start_id_keys(v: Seq<RunView>) -> Seq<Seq<Seq<u8>>> {
    v.map_values(|r: RunView| seq![encode_utf8(r.started_at), encode_utf8(r.id)])
}

fn string_bytes(s: &String) -> (r: Vec<u8>)
    ensures
        r@ == encode_utf8(s@),
{
    vstd::slice::slice_to_vec(s.as_str().as_bytes())
}

fn schedule_name_key_vec(v: &Vec<WebDatabaseBackupSchedule>) -> (r: Vec<Vec<Vec<u8>>>)
    ensures
        keys_view(r@) == schedule_name_keys(schedules_view(v@)),
{
    let mut r: Vec<Vec<Vec<u8>>> = Vec::new();
    let mut k: usize = 0;
    while k < v.len()
        invariant
            k <= v@.len(),
            r@.len() == k,
            forall|i: int|
                0 <= i < k ==> (#[trigger] r@[i])@.len() == 1 && r@[i]@[0]@ == encode_utf8(
                    v@[i].input.name@,
                ),
        decreases v@.len() - k,
    {
        let key = vec![string_bytes(&v[k].input.name)];
        r.push(key);
        k += 1;
    }
    assert forall|i: int| 0 <= i < v@.len() implies #[trigger] keys_view(r@)[i] == schedule_name_keys(
        schedules_view(v@),
    )[i] by {
        assert(keys_view(r@)[i] =~= schedule_name_keys(schedules_view(v@))[i]);
    }
    assert(keys_view(r@) =~= schedule_name_keys(schedules_view(v@)));
    r
}

fn run_key_vec(v: &Vec<WebDatabaseBackupRun>, with_id: bool) -> (r: Vec<Vec<Vec<u8>>>)
    ensures
        keys_view(r@) == if with_id {
            run_start_id_keys(runs_view(v@))
        } else {
            run_start_keys(runs_view(v@))
        },
{
    let ghost want = if with_id {
        run_start_id_keys(runs_view(v@))
    } else {
        run_start_keys(runs_view(v@))
    };
    let mut r: Vec<Vec<Vec<u8>>> = Vec::new();
    let mut k: usize = 0;
    while k < v.len()
        invariant
            k <= v@.len(),
            r@.len() == k,
            want == if with_id {
                run_start_id_keys(runs_view(v@))
            } else {
                run_start_keys(runs_view(v@))
            },
            forall|i: int| 0 <= i < k ==> (#[trigger] keys_view(r@)[i]) =~= want[i],
        decreases v@.len() - k,
    {
        let mut key: Vec<Vec<u8>> = vec![string_bytes(&v[k].started_at)];
        if with_id {
            key.push(string_bytes(&v[k].id));
        }
        let ghost before = r@;
        r.push(key);
        proof {
            assert forall|i: int| 0 <= i < k + 1 implies (#[trigger] keys_view(r@)[i]) =~= want[i] by {
                if i < k {
                    assert(r@[i] == before[i]);
                    assert(keys_view(r@)[i] == keys_view(before)[i]);
                } else {
                    assert(keys_view(r@)[i] =~= want[i]);
                }
            }
        }
        k += 1;
    }
    assert(keys_view(r@) =~= want);
    r
}

impl WebDatabaseBackupMetadata {
    /// The index of the first schedule with the id.
    fn schedule_position(&self, schedule_id: &str) -> (r: Option<usize>)
        ensures
            match r {
                Some(k) => k < self.schedules@.len() && self.schedules@[k as int].id@ == schedule_id@
                    && first_position(schedule_ids(self@.schedules), schedule_id@) == Some(k as int),
                None => first_position(schedule_ids(self@.schedules), schedule_id@) is None,
            },
    {
        let ghost ids = schedule_ids(self@.schedules);
        let mut k: usize = 0;
        while k < self.schedules.len()
            invariant
                k <= self.schedules@.len(),
                ids == schedule_ids(self@.schedules),
                forall|j: int| 0 <= j < k ==> ids[j] != schedule_id@,
            decreases self.schedules@.len() - k,
        {
            if str_eq(self.schedules[k].id.as_str(), schedule_id) {
                proof {
                    lemma_first_position(ids, schedule_id@, k as int);
                }
                return Some(k);
            }
            k += 1;
        }
        assert(!exists|i: int| 0 <= i < ids.len() && ids[i] == schedule_id@);
        None
    }

    /// The index of the first run with the id.
    pub(crate) fn run_position(&self, run_id: &str) -> (r: Option<usize>)
        ensures
            match r {
                Some(k) => k < self.runs@.len() && self.runs@[k as int].id@ == run_id@ && first_position(
                    run_ids(self@.runs),
                    run_id@,
                ) == Some(k as int),
                None => first_position(run_ids(self@.runs), run_id@) is None,
            },
    {
        let ghost ids = run_ids(self@.runs);
        let mut k: usize = 0;
        while k < self.runs.len()
            invariant
                k <= self.runs@.len(),
                ids == run_ids(self@.runs),
                forall|j: int| 0 <= j < k ==> ids[j] != run_id@,
            decreases self.runs@.len() - k,
        {
            if str_eq(self.runs[k].id.as_str(), run_id) {
                proof {
                    lemma_first_position(ids, run_id@, k as int);
                }
                return Some(k);
            }
            k += 1;
        }
        assert(!exists|i: int| 0 <= i < ids.len() && ids[i] == run_id@);
        None
    }

    /// The schedule with the id, if there is one.
    pub fn get_schedule(&self, schedule_id: &str) -> (r: Option<WebDatabaseBackupSchedule>)
        ensures
            match first_position(schedule_ids(self@.schedules), schedule_id@) {
                Some(i) => r matches Some(s) && s@ == self@.schedules[i],
                None => r is None,
            },
    {
        match self.schedule_position(schedule_id) {
            Some(i) => {
                let s = self.schedules[i].duplicate();
                assert(s@ == self@.schedules[i as int]);
                Some(s)
            },
            None => None,
        }
    }

    /// The run with the id, if there is one.
    pub fn get_run(&self, run_id: &str) -> (r: Option<WebDatabaseBackupRun>)
        ensures
            match first_position(run_ids(self@.runs), run_id@) {
                Some(i) => r matches Some(x) && x@ == self@.runs[i],
                None => r is None,
            },
    {
        match self.run_position(run_id) {
            Some(i) => {
                let x = self.runs[i].duplicate();
                assert(x@ == self@.runs[i as int]);
                Some(x)
            },
            None => None,
        }
    }

    fn schedules_copy(&self) -> (r: Vec<WebDatabaseBackupSchedule>)
        ensures
            schedules_view(r@) == self@.schedules,
    {
        let mut r: Vec<WebDatabaseBackupSchedule> = Vec::new();
        let mut k: usize = 0;
        while k < self.schedules.len()
            invariant
                k <= self.schedules@.len(),
                r@.len() == k,
                forall|i: int| 0 <= i < k ==> #[trigger] r@[i]@ == self.schedules@[i]@,
            decreases self.schedules@.len() - k,
        {
            r.push(self.schedules[k].duplicate());
            k += 1;
        }
        assert(schedules_view(r@) =~= self@.schedules);
        r
    }

    fn runs_copy(&self) -> (r: Vec<WebDatabaseBackupRun>)
        ensures
            runs_view(r@) == self@.runs,
    {
        let mut r: Vec<WebDatabaseBackupRun> = Vec::new();
        let mut k: usize = 0;
        while k < self.runs.len()
            invariant
                k <= self.runs@.len(),
                r@.len() == k,
                forall|i: int| 0 <= i < k ==> #[trigger] r@[i]@ == self.runs@[i]@,
            decreases self.runs@.len() - k,
        {
            r.push(self.runs[k].duplicate());
            k += 1;
        }
        assert(runs_view(r@) =~= self@.runs);
        r
    }

    /// All schedules, sorted by name; schedules of equal name keep their order.
    pub fn list_schedules(&self) -> (r: Vec<WebDatabaseBackupSchedule>)
        ensures
            is_sorted_tail(schedules_view(r@), self@.schedules, schedule_name_keys(self@.schedules), false, 0),
    {
        let copy = self.schedules_copy();
        let keys = schedule_name_key_vec(&copy);
        assert(keys_view(keys@).len() == keys@.len());
        let r = sorted_tail(copy, &keys, false, 0);
        proof {
            lemma_arranged_views_schedules(r@, copy@, keys_view(keys@), false, 0);
        }
        r
    }

    /// All runs, latest start first; runs that started at the same time
    /// keep their order.
    pub fn list_runs(&self) -> (r: Vec<WebDatabaseBackupRun>)
        ensures
            is_sorted_tail(runs_view(r@), self@.runs, run_start_keys(self@.runs), true, 0),
    {
        let copy = self.runs_copy();
        let keys = run_key_vec(&copy, false);
        assert(keys_view(keys@).len() == keys@.len());
        let r = sorted_tail(copy, &keys, true, 0);
        proof {
            lemma_arranged_views_runs(r@, copy@, keys_view(keys@), true, 0);
        }
        r
    }
}

proof fn lemma_arranged_views_schedules(
    r: Seq<WebDatabaseBackupSchedule>,
    v: Seq<WebDatabaseBackupSchedule>,
    keys: Seq<Seq<Seq<u8>>>,
    descending: bool,
    skip: nat,
)
    requires
        keys.len() == v.len(),
        exists|order: Seq<usize>|
            #![trigger is_stable_order(order, keys, descending)]
            is_stable_order(order, keys, descending) && crate::sort::is_arranged(
                r,
                v,
                crate::sort::drop_first_n(order, skip),
            ),
    ensures
        is_sorted_tail(schedules_view(r), schedules_view(v), keys, descending, skip),
{
    let order = choose|order: Seq<usize>|
        #![trigger is_stable_order(order, keys, descending)]
        is_stable_order(order, keys, descending) && crate::sort::is_arranged(
            r,
            v,
            crate::sort::drop_first_n(order, skip),
        );
    let o = crate::sort::drop_first_n(order, skip);
    assert forall|k: int| 0 <= k < o.len() implies #[trigger] schedules_view(r)[k] == schedules_view(v)[o[k] as int] by {
        if skip > order.len() {
            assert(o.len() == 0);
        }
        assert(o[k] == order[k + skip]);
        assert(0 <= o[k] < v.len());
        assert(r[k] == v[o[k] as int]);
    }
    assert(crate::sort::is_arranged(schedules_view(r), schedules_view(v), o));
}

proof fn lemma_arranged_views_runs(
    r: Seq<WebDatabaseBackupRun>,
    v: Seq<WebDatabaseBackupRun>,
    keys: Seq<Seq<Seq<u8>>>,
    descending: bool,
    skip: nat,
)
    requires
        keys.len() == v.len(),
        exists|order: Seq<usize>|
            #![trigger is_stable_order(order, keys, descending)]
            is_stable_order(order, keys, descending) && crate::sort::is_arranged(
                r,
                v,
                crate::sort::drop_first_n(order, skip),
            ),
    ensures
        is_sorted_tail(runs_view(r), runs_view(v), keys, descending, skip),
{
    let order = choose|order: Seq<usize>|
        #![trigger is_stable_order(order, keys, descending)]
        is_stable_order(order, keys, descending) && crate::sort::is_arranged(
            r,
            v,
            crate::sort::drop_first_n(order, skip),
        );
    let o = crate::sort::drop_first_n(order, skip);
    assert forall|k: int| 0 <= k < o.len() implies #[trigger] runs_view(r)[k] == runs_view(v)[o[k] as int] by {
        if skip > order.len() {
            assert(o.len() == 0);
        }
        assert(o[k] == order[k + skip]);
        assert(0 <= o[k] < v.len());
        assert(r[k] == v[o[k] as int]);
    }
    assert(crate::sort::is_arranged(runs_view(r), runs_view(v), o));
}

/// A successful run of the schedule.
pub open spec fn is_successful_run_of(schedule_id: Seq<char>) -> spec_fn(RunView) -> bool {
    |r: RunView| r.schedule_id == schedule_id && r.status == WebDatabaseBackupRunStatus::Success
}

/// An enabled schedule whose next run, read as RFC 3339, is not later than `now`.
pub open spec fn is_due_at(now: BackupInstant) -> spec_fn(ScheduleView) -> bool {
    |s: ScheduleView|
        s.input.enabled && match rfc3339_instant(s.next_run_at) {
            Some(t) => instant_le(t, now),
            None => false,
        }
}

/// Due schedules go by the text of their next run, then by name.
pub open spec fn due_keys(v: Seq<ScheduleView>) -> Seq<Seq<Seq<u8>>> {
    v.map_values(|s: ScheduleView| seq![encode_utf8(s.next_run_at), encode_utf8(s.input.name)])
}

impl WebDatabaseBackupMetadata {
    /// Runs beyond the newest `MAX_WEB_DATABASE_BACKUP_HISTORY`, ordered by
    /// start time and then id, latest first.
    pub fn runs_exceeding_history_limit(&self) -> (r: Vec<WebDatabaseBackupRun>)
        ensures
            is_sorted_tail(
                runs_view(r@),
                self@.runs,
                run_start_id_keys(self@.runs),
                true,
                MAX_WEB_DATABASE_BACKUP_HISTORY as nat,
            ),
    {
        let copy = self.runs_copy();
        let keys = run_key_vec(&copy, true);
        assert(keys_view(keys@).len() == keys@.len());
        let r = sorted_tail(copy, &keys, true, MAX_WEB_DATABASE_BACKUP_HISTORY);
        proof {
            lemma_arranged_views_runs(r@, copy@, keys_view(keys@), true, MAX_WEB_DATABASE_BACKUP_HISTORY as nat);
        }
        r
    }

    fn successful_runs_of(&self, schedule_id: &str) -> (r: Vec<WebDatabaseBackupRun>)
        ensures
            runs_view(r@) == self@.runs.filter(is_successful_run_of(schedule_id@)),
    {
        let ghost pred = is_successful_run_of(schedule_id@);
        let mut r: Vec<WebDatabaseBackupRun> = Vec::new();
        let mut k: usize = 0;
        while k < self.runs.len()
            invariant
                k <= self.runs@.len(),
                pred == is_successful_run_of(schedule_id@),
                runs_view(r@) == self@.runs.subrange(0, k as int).filter(pred),
            decreases self.runs@.len() - k,
        {
            let ghost before = r@;
            let run = &self.runs[k];
            let keep = str_eq(run.schedule_id.as_str(), schedule_id) && run.status
                == WebDatabaseBackupRunStatus::Success;
            if keep {
                r.push(run.duplicate());
            }
            proof {
                let prefix = self@.runs.subrange(0, k + 1);
                assert(prefix.drop_last() =~= self@.runs.subrange(0, k as int));
                assert(prefix.last() == run@);
                reveal(Seq::filter);
                assert(keep == pred(run@));
                if keep {
                    assert(runs_view(r@) =~= runs_view(before).push(run@));
                }
            }
            k += 1;
        }
        assert(self@.runs.subrange(0, k as int) =~= self@.runs);
        r
    }

    /// The successful runs of a schedule beyond the `retention_count`
    /// newest, latest first.
    pub fn successful_runs_to_prune(&self, schedule_id: &str, retention_count: usize) -> (r: Vec<
        WebDatabaseBackupRun,
    >)
        ensures
            is_sorted_tail(
                runs_view(r@),
                self@.runs.filter(is_successful_run_of(schedule_id@)),
                run_start_keys(self@.runs.filter(is_successful_run_of(schedule_id@))),
                true,
                retention_count as nat,
            ),
    {
        let runs = self.successful_runs_of(schedule_id);
        let keys = run_key_vec(&runs, false);
        assert(keys_view(keys@).len() == keys@.len());
        let r = sorted_tail(runs, &keys, true, retention_count);
        proof {
            lemma_arranged_views_runs(r@, runs@, keys_view(keys@), true, retention_count as nat);
        }
        r
    }

    /// The ids of the schedules that are due at `now`, ordered by the text
    /// of their next run and then by name.
    pub fn due_schedule_ids(&self, now: BackupInstant) -> (r: Vec<String>)
        ensures
            is_sorted_tail(
                strings_view(r@),
                schedule_ids(self@.schedules.filter(is_due_at(now))),
                due_keys(self@.schedules.filter(is_due_at(now))),
                false,
                0,
            ),
    {
        let ghost pred = is_due_at(now);
        let ghost due = self@.schedules.filter(pred);
        let mut ids: Vec<String> = Vec::new();
        let mut keys: Vec<Vec<Vec<u8>>> = Vec::new();
        let mut k: usize = 0;
        while k < self.schedules.len()
            invariant
                k <= self.schedules@.len(),
                pred == is_due_at(now),
                strings_view(ids@) == schedule_ids(self@.schedules.subrange(0, k as int).filter(pred)),
                keys_view(keys@) == due_keys(self@.schedules.subrange(0, k as int).filter(pred)),
            decreases self.schedules@.len() - k,
        {
            let ghost before_ids = ids@;
            let ghost before_keys = keys@;
            let schedule = &self.schedules[k];
            let mut keep = false;
            if schedule.input.enabled {
                match parse_rfc3339_instant(schedule.next_run_at.as_str()) {
                    Some(t) => {
                        keep = is_not_later(t, now);
                    },
                    None => {},
                }
            }
            if keep {
                ids.push(schedule.id.clone());
                keys.push(vec![string_bytes(&schedule.next_run_at), string_bytes(&schedule.input.name)]);
            }
            proof {
                let prefix = self@.schedules.subrange(0, k + 1);
                let old_due = self@.schedules.subrange(0, k as int).filter(pred);
                assert(prefix.drop_last() =~= self@.schedules.subrange(0, k as int));
                assert(prefix.last() == schedule@);
                reveal(Seq::filter);
                assert(keep == pred(schedule@));
                if keep {
                    assert(prefix.filter(pred) == old_due.push(schedule@));
                    assert(strings_view(ids@) =~= strings_view(before_ids).push(schedule.id@));
                    assert(schedule_ids(old_due.push(schedule@)) =~= schedule_ids(old_due).push(schedule@.id));
                    let new_key = seq![encode_utf8(schedule@.next_run_at), encode_utf8(schedule@.input.name)];
                    assert(keys_view(keys@).last() =~= new_key);
                    assert(keys_view(keys@) =~= keys_view(before_keys).push(new_key));
                    assert(due_keys(old_due.push(schedule@)) =~= due_keys(old_due).push(new_key));
                }
            }
            k += 1;
        }
        assert(self@.schedules.subrange(0, k as int) =~= self@.schedules);
        assert(keys_view(keys@).len() == keys@.len());
        assert(strings_view(ids@).len() == ids@.len());
        let r = sorted_tail(ids, &keys, false, 0);
        proof {
            let key_seq = keys_view(keys@);
            let order = choose|order: Seq<usize>|
                #![trigger is_stable_order(order, key_seq, false)]
                is_stable_order(order, key_seq, false) && crate::sort::is_arranged(
                    r@,
                    ids@,
                    crate::sort::drop_first_n(order, 0),
                );
            let o = crate::sort::drop_first_n(order, 0);
            assert forall|j: int| 0 <= j < o.len() implies #[trigger] strings_view(r@)[j] == strings_view(ids@)[o[j] as int] by {
                assert(r@[j] == ids@[o[j] as int]);
            }
            assert(crate::sort::is_arranged(strings_view(r@), strings_view(ids@), o));
        }
        r
    }
}

/// A run whose id is not `id`.
pub open spec fn is_other_run(id: Seq<char>) -> spec_fn(RunView) -> bool {
    |r: RunView| r.id != id
}

/// A schedule whose id is not `id`.
pub open spec fn is_other_schedule(id: Seq<char>) -> spec_fn(ScheduleView) -> bool {
    |s: ScheduleView| s.id != id
}

/// A run that was still running.
pub open spec fn is_running() -> spec_fn(RunView) -> bool {
    |r: RunView| r.status == WebDatabaseBackupRunStatus::Running
}

pub open spec fn interrupted_message() -> Seq<char> {
    "Web service restarted while the backup was running"@
}

pub open spec fn run_not_found_message() -> Seq<char> {
    "Backup run not found"@
}

/// A run that was cut off by a restart, marked failed at `completed_at`.
pub open spec fn recovered_run(r: RunView, completed_at: Seq<char>) -> RunView {
    RunView {
        status: WebDatabaseBackupRunStatus::Failed,
        completed_at: Some(completed_at),
        error: Some(interrupted_message()),
        ..r
    }
}

/// Every running run marked failed at `completed_at`; the others unchanged.
pub open spec fn recover_all(v: Seq<RunView>, completed_at: Seq<char>) -> Seq<RunView> {
    v.map_values(
        |r: RunView|
            if r.status == WebDatabaseBackupRunStatus::Running {
                recovered_run(r, completed_at)
            } else {
                r
            },
    )
}

/// The runs after a run was stored: it replaces the first run with its id,
/// or joins the list where there is none.
pub open spec fn runs_with(v: Seq<RunView>, run: RunView) -> Seq<RunView> {
    match first_position(run_ids(v), run.id) {
        Some(i) => v.update(i, run),
        None => v.push(run),
    }
}

/// The runs with the files of the run at `i` changed to `files`.
pub open spec fn with_files(v: Seq<RunView>, i: int, files: Seq<BackupFileView>) -> Seq<RunView> {
    v.update(i, RunView { files: files, ..v[i] })
}

impl WebDatabaseBackupMetadata {
    /// Removes every run with the id; says whether there was one.
    pub fn delete_run(&mut self, run_id: &str) -> (r: bool)
        ensures
            final(self)@.version == old(self)@.version,
            final(self)@.schedules == old(self)@.schedules,
            final(self)@.runs == old(self)@.runs.filter(is_other_run(run_id@)),
            r == (first_position(run_ids(old(self)@.runs), run_id@) is Some),
    {
        let ghost pred = is_other_run(run_id@);
        let ghost ids = run_ids(self@.runs);
        let mut kept: Vec<WebDatabaseBackupRun> = Vec::new();
        let mut found = false;
        let mut k: usize = 0;
        while k < self.runs.len()
            invariant
                k <= self.runs@.len(),
                pred == is_other_run(run_id@),
                ids == run_ids(self@.runs),
                runs_view(kept@) == self@.runs.subrange(0, k as int).filter(pred),
                found == exists|j: int| 0 <= j < k && ids[j] == run_id@,
            decreases self.runs@.len() - k,
        {
            let ghost before = kept@;
            let run = &self.runs[k];
            let same = str_eq(run.id.as_str(), run_id);
            if same {
                found = true;
            } else {
                kept.push(run.duplicate());
            }
            proof {
                let prefix = self@.runs.subrange(0, k + 1);
                assert(prefix.drop_last() =~= self@.runs.subrange(0, k as int));
                assert(prefix.last() == run@);
                reveal(Seq::filter);
                assert(!same == pred(run@));
                if !same {
                    assert(runs_view(kept@) =~= runs_view(before).push(run@));
                }
                assert(ids[k as int] == run@.id);
            }
            k += 1;
        }
        assert(self@.runs.subrange(0, k as int) =~= self@.runs);
        proof {
            if found {
                let j = choose|j: int| 0 <= j < k && ids[j] == run_id@;
                assert(exists|i: int| 0 <= i < ids.len() && ids[i] == run_id@);
            }
        }
        self.runs = kept;
        found
    }

    /// Removes every schedule with the id; says whether there was one.
    pub fn delete_schedule(&mut self, schedule_id: &str) -> (r: bool)
        ensures
            final(self)@.version == old(self)@.version,
            final(self)@.runs == old(self)@.runs,
            final(self)@.schedules == old(self)@.schedules.filter(is_other_schedule(schedule_id@)),
            r == (first_position(schedule_ids(old(self)@.schedules), schedule_id@) is Some),
    {
        let ghost pred = is_other_schedule(schedule_id@);
        let ghost ids = schedule_ids(self@.schedules);
        let mut kept: Vec<WebDatabaseBackupSchedule> = Vec::new();
        let mut found = false;
        let mut k: usize = 0;
        while k < self.schedules.len()
            invariant
                k <= self.schedules@.len(),
                pred == is_other_schedule(schedule_id@),
                ids == schedule_ids(self@.schedules),
                schedules_view(kept@) == self@.schedules.subrange(0, k as int).filter(pred),
                found == exists|j: int| 0 <= j < k && ids[j] == schedule_id@,
            decreases self.schedules@.len() - k,
        {
            let ghost before = kept@;
            let schedule = &self.schedules[k];
            let same = str_eq(schedule.id.as_str(), schedule_id);
            if same {
                found = true;
            } else {
                kept.push(schedule.duplicate());
            }
            proof {
                let prefix = self@.schedules.subrange(0, k + 1);
                assert(prefix.drop_last() =~= self@.schedules.subrange(0, k as int));
                assert(prefix.last() == schedule@);
                reveal(Seq::filter);
                assert(!same == pred(schedule@));
                if !same {
                    assert(schedules_view(kept@) =~= schedules_view(before).push(schedule@));
                }
                assert(ids[k as int] == schedule@.id);
            }
            k += 1;
        }
        assert(self@.schedules.subrange(0, k as int) =~= self@.schedules);
        proof {
            if found {
                let j = choose|j: int| 0 <= j < k && ids[j] == schedule_id@;
                assert(exists|i: int| 0 <= i < ids.len() && ids[i] == schedule_id@);
            }
        }
        self.schedules = kept;
        found
    }

    /// Adds a file to the first run with the id.
    pub fn add_run_file(&mut self, run_id: &str, file: WebDatabaseBackupFile) -> (r: Result<(), String>)
        ensures
            final(self)@.version == old(self)@.version,
            final(self)@.schedules == old(self)@.schedules,
            match first_position(run_ids(old(self)@.runs), run_id@) {
                Some(i) => r is Ok && final(self)@.runs == with_files(
                    old(self)@.runs,
                    i,
                    old(self)@.runs[i].files.push(file@),
                ),
                None => r matches Err(e) && e@ == run_not_found_message() && final(self)@.runs == old(
                    self,
                )@.runs,
            },
    {
        match self.run_position(run_id) {
            Some(i) => {
                let ghost before = self@.runs;
                self.runs[i].files.push(file);
                proof {
                    assert(files_view(self.runs@[i as int].files@) =~= before[i as int].files.push(file@));
                    assert(runs_view(self.runs@) =~= with_files(before, i as int, before[i as int].files.push(file@)));
                }
                Ok(())
            },
            None => Err("Backup run not found".to_owned()),
        }
    }

    /// Forgets the files of the first run with the id.
    pub fn clear_run_files(&mut self, run_id: &str) -> (r: Result<(), String>)
        ensures
            final(self)@.version == old(self)@.version,
            final(self)@.schedules == old(self)@.schedules,
            match first_position(run_ids(old(self)@.runs), run_id@) {
                Some(i) => r is Ok && final(self)@.runs == with_files(old(self)@.runs, i, Seq::empty()),
                None => r matches Err(e) && e@ == run_not_found_message() && final(self)@.runs == old(
                    self,
                )@.runs,
            },
    {
        match self.run_position(run_id) {
            Some(i) => {
                let ghost before = self@.runs;
                self.runs[i].files.clear();
                proof {
                    assert(files_view(self.runs@[i as int].files@) =~= Seq::<BackupFileView>::empty());
                    assert(runs_view(self.runs@) =~= with_files(before, i as int, Seq::empty()));
                }
                Ok(())
            },
            None => Err("Backup run not found".to_owned()),
        }
    }
}

/// The runs that a restart cut off, as they are once marked failed.
pub open spec fn recovered_runs(v: Seq<RunView>, completed_at: Seq<char>) -> Seq<RunView> {
    v.filter(is_running()).map_values(|r: RunView| recovered_run(r, completed_at))
}

impl WebDatabaseBackupMetadata {
    /// Marks every run that is still running as failed at `completed_at`,
    /// with the restart as its error, and returns those runs.
    pub fn mark_interrupted_runs_failed(&mut self, completed_at: &str) -> (r: Vec<WebDatabaseBackupRun>)
        ensures
            final(self)@.version == old(self)@.version,
            final(self)@.schedules == old(self)@.schedules,
            final(self)@.runs == recover_all(old(self)@.runs, completed_at@),
            runs_view(r@) == recovered_runs(old(self)@.runs, completed_at@),
    {
        let ghost original = self@.runs;
        let ghost pred = is_running();
        let mut recovered: Vec<WebDatabaseBackupRun> = Vec::new();
        let mut k: usize = 0;
        while k < self.runs.len()
            invariant
                k <= self.runs@.len(),
                self@.runs.len() == original.len(),
                pred == is_running(),
                self@.version == old(self)@.version,
                self@.schedules == old(self)@.schedules,
                original == old(self)@.runs,
                forall|j: int| 0 <= j < k ==> #[trigger] self@.runs[j] == recover_all(original, completed_at@)[j],
                forall|j: int| k <= j < original.len() ==> #[trigger] self@.runs[j] == original[j],
                runs_view(recovered@) == original.subrange(0, k as int).filter(pred).map_values(
                    |x: RunView| recovered_run(x, completed_at@),
                ),
            decreases self.runs@.len() - k,
        {
            let ghost before = recovered@;
            let ghost before_runs = self@.runs;
            let ghost before_exec = self.runs@;
            let running = self.runs[k].status == WebDatabaseBackupRunStatus::Running;
            if running {
                self.runs[k].status = WebDatabaseBackupRunStatus::Failed;
                self.runs[k].completed_at = Some(completed_at.to_owned());
                self.runs[k].error = Some("Web service restarted while the backup was running".to_owned());
                let copy = self.runs[k].duplicate();
                recovered.push(copy);
            }
            proof {
                assert(before_runs[k as int] == original[k as int]);
                if running {
                    assert(self.runs@ == before_exec.update(k as int, self.runs@[k as int]));
                    assert(self@.runs[k as int] == recovered_run(original[k as int], completed_at@));
                    assert(self@.runs =~= before_runs.update(k as int, recover_all(original, completed_at@)[k as int]));
                } else {
                    assert(self@.runs =~= before_runs.update(k as int, recover_all(original, completed_at@)[k as int]));
                }
                let prefix = original.subrange(0, k + 1);
                assert(prefix.drop_last() =~= original.subrange(0, k as int));
                assert(prefix.last() == original[k as int]);
                reveal(Seq::filter);
                assert(running == pred(original[k as int]));
                if running {
                    assert(prefix.filter(pred) == original.subrange(0, k as int).filter(pred).push(original[k as int]));
                    assert(runs_view(recovered@) =~= runs_view(before).push(recovered_run(original[k as int], completed_at@)));
                    assert(prefix.filter(pred).map_values(|x: RunView| recovered_run(x, completed_at@))
                        =~= original.subrange(0, k as int).filter(pred).map_values(
                        |x: RunView| recovered_run(x, completed_at@),
                    ).push(recovered_run(original[k as int], completed_at@)));
                }
            }
            k += 1;
        }
        assert(original.subrange(0, k as int) =~= original);
        assert(self@.runs =~= recover_all(original, completed_at@));
        recovered
    }

    /// Marks the runs that a restart cut off as failed now (the time written
    /// in the server's time zone) and returns them.
    pub fn recover_interrupted_runs(&mut self, now: BackupInstant) -> (r: Vec<WebDatabaseBackupRun>)
        requires
            is_representable(now),
        ensures
            final(self)@.version == old(self)@.version,
            final(self)@.schedules == old(self)@.schedules,
            exists|completed_at: Seq<char>|
                reads_back_near(completed_at, now) && final(self)@.runs == recover_all(old(self)@.runs, completed_at)
                    && runs_view(r@) == recovered_runs(old(self)@.runs, completed_at),
    {
        let completed_at = local_rfc3339(now);
        self.mark_interrupted_runs_failed(completed_at.as_str())
    }

    /// Stores a run in place of the first run with its id, or adds it, and
    /// orders the runs by start time, latest first.
    pub fn upsert_run(&mut self, run: WebDatabaseBackupRun)
        ensures
            final(self)@.version == old(self)@.version,
            final(self)@.schedules == old(self)@.schedules,
            is_sorted_tail(
                final(self)@.runs,
                runs_with(old(self)@.runs, run@),
                run_start_keys(runs_with(old(self)@.runs, run@)),
                true,
                0,
            ),
    {
        let ghost staged_view = runs_with(self@.runs, run@);
        match self.run_position(run.id.as_str()) {
            Some(i) => {
                self.runs.set(i, run);
                assert(self@.runs =~= staged_view);
            },
            None => {
                self.runs.push(run);
                assert(self@.runs =~= staged_view);
            },
        }
        let mut staged: Vec<WebDatabaseBackupRun> = Vec::new();
        std::mem::swap(&mut staged, &mut self.runs);
        let keys = run_key_vec(&staged, false);
        assert(keys_view(keys@).len() == keys@.len());
        let sorted = sorted_tail(staged, &keys, true, 0);
        proof {
            lemma_arranged_views_runs(sorted@, staged@, keys_view(keys@), true, 0);
        }
        self.runs = sorted;
    }
}

pub open spec fn no_next_run_message() -> Seq<char> {
    "Backup schedule has no next run in the server time zone"@
}

/// Whether a schedule computes its next run: hourly schedules always can
/// (short of the end of time); daily and weekly ones need an `HH:mm` time,
/// and the server's time zone decides the rest.
pub open spec fn next_run_possible(input: ScheduleInputView, after: BackupInstant) -> bool {
    if input.frequency == WebDatabaseBackupFrequency::Hourly {
        is_representable(plus_seconds(after, input.interval_hours * SECONDS_PER_HOUR))
    } else {
        spec_parse_time_of_day(input.time_of_day) is Some
    }
}

/// A schedule's next run can only be computed in the server's time zone
/// when [`next_run_possible`] holds; where it is hourly, then always.
pub open spec fn next_run_outcome_allowed(input: ScheduleInputView, after: BackupInstant, found: bool) -> bool {
    &&& found ==> next_run_possible(input, after)
    &&& (input.frequency == WebDatabaseBackupFrequency::Hourly && next_run_possible(input, after)) ==> found
}

/// Edits that move a schedule's next run: its timing, or turning it on.
pub open spec fn timing_changed(previous: ScheduleInputView, input: ScheduleInputView) -> bool {
    ||| previous.frequency != input.frequency
    ||| previous.interval_hours != input.interval_hours
    ||| previous.time_of_day != input.time_of_day
    ||| previous.weekday != input.weekday
    ||| (!previous.enabled && input.enabled)
}

/// Whether `t` is the next run of a schedule after `after`: its interval
/// later for an hourly schedule, at its local time of day as
/// [`is_local_next_run`] says for a daily or weekly one; and showable.
pub open spec fn is_next_run(input: ScheduleInputView, after: BackupInstant, t: BackupInstant) -> bool {
    &&& is_representable(t)
    &&& if input.frequency == WebDatabaseBackupFrequency::Hourly {
        t == plus_seconds(after, input.interval_hours * SECONDS_PER_HOUR)
    } else {
        is_local_next_run(input, after, t)
    }
}

/// A next run as the store writes it: the text of a next run of `input`
/// after `after`, as [`reads_back_near`] says.
pub open spec fn is_next_run_text(input: ScheduleInputView, after: BackupInstant, text: Seq<char>) -> bool {
    exists|t: BackupInstant| #[trigger] is_next_run(input, after, t) && reads_back_near(text, t)
}

/// The next run text for a schedule: the next run after `after`, written in
/// the server's time zone.
fn next_run_text(input: &WebDatabaseBackupScheduleInput, after: BackupInstant) -> (r: Option<String>)
    requires
        is_valid_instant(after),
    ensures
        next_run_outcome_allowed(input@, after, r is Some),
        r matches Some(text) ==> is_next_run_text(input@, after, text@),
{
    match next_web_database_backup_run_at(input, after) {
        Some(t) => {
            let text = local_rfc3339(t);
            assert(is_next_run(input@, after, t));
            Some(text)
        },
        None => None,
    }
}

impl WebDatabaseBackupSchedule {
    /// A new schedule made `now` whose next run is `next_run`; `None`
    /// exactly when there is no next run.
    pub fn with_next_run(
        id: String,
        input: WebDatabaseBackupScheduleInput,
        now: BackupInstant,
        next_run: Option<BackupInstant>,
    ) -> (r: Option<Self>)
        requires
            is_representable(now),
            next_run matches Some(t) ==> is_representable(t),
        ensures
            r is Some <==> next_run is Some,
            r matches Some(s) ==> s@.id == id@ && s@.input == input@ && s@.created_at == s@.updated_at
                && reads_back_near(s@.created_at, now) && (next_run matches Some(t) && reads_back_near(
                s@.next_run_at,
                t,
            )) && s@.last_run_at is None && s@.last_run_status is None,
    {
        let next_run_at = match next_run {
            Some(t) => local_rfc3339(t),
            None => {
                return None;
            },
        };
        let now_iso = local_rfc3339(now);
        Some(
            WebDatabaseBackupSchedule {
                id,
                input,
                created_at: now_iso.clone(),
                updated_at: now_iso,
                next_run_at,
                last_run_at: None,
                last_run_status: None,
            },
        )
    }

    /// A new schedule made `now`: its next run is the first after `now`.
    /// `None` where that next run cannot be computed.
    pub fn new(id: String, input: WebDatabaseBackupScheduleInput, now: BackupInstant) -> (r: Option<Self>)
        requires
            is_valid_instant(now),
        ensures
            next_run_outcome_allowed(input@, now, r is Some),
            r matches Some(s) ==> s@.id == id@ && s@.input == input@ && s@.created_at == s@.updated_at
                && reads_back_near(s@.created_at, now) && is_next_run_text(input@, now, s@.next_run_at)
                && s@.last_run_at is None && s@.last_run_status is None,
    {
        let next_run = next_web_database_backup_run_at(&input, now);
        proof {
            if next_run is Some {
                assert(is_next_run(input@, now, next_run->0));
            }
        }
        Self::with_next_run(id, input, now, next_run)
    }
}

impl WebDatabaseBackupMetadata {
    /// Adds a new schedule with a fresh random id, made `now`, whose next
    /// run is `next_run`: it is added exactly when there is a next run.
    pub fn create_schedule_with_next_run(
        &mut self,
        input: WebDatabaseBackupScheduleInput,
        now: BackupInstant,
        next_run: Option<BackupInstant>,
    ) -> (r: Result<WebDatabaseBackupSchedule, String>)
        requires
            is_representable(now),
            next_run matches Some(t) ==> is_representable(t),
        ensures
            final(self)@.version == old(self)@.version,
            final(self)@.runs == old(self)@.runs,
            r is Ok <==> next_run is Some,
            match r {
                Ok(s) => final(self)@.schedules == old(self)@.schedules.push(s@) && is_uuid_v4_text(s@.id)
                    && s@.input == input@ && s@.created_at == s@.updated_at && reads_back_near(s@.created_at, now)
                    && (next_run matches Some(t) && reads_back_near(s@.next_run_at, t)) && s@.last_run_at is None
                    && s@.last_run_status is None,
                Err(e) => e@ == no_next_run_message() && final(self)@.schedules == old(self)@.schedules,
            },
    {
        let id = new_uuid_v4_string();
        match WebDatabaseBackupSchedule::with_next_run(id, input, now, next_run) {
            Some(schedule) => {
                self.schedules.push(schedule.duplicate());
                assert(self@.schedules =~= old(self)@.schedules.push(schedule@));
                Ok(schedule)
            },
            None => Err("Backup schedule has no next run in the server time zone".to_owned()),
        }
    }

    /// Adds a new schedule with a fresh random id, made `now`; its next run
    /// is computed in the server's time zone.
    pub fn create_schedule(&mut self, input: WebDatabaseBackupScheduleInput, now: BackupInstant) -> (r: Result<
        WebDatabaseBackupSchedule,
        String,
    >)
        requires
            is_valid_instant(now),
        ensures
            final(self)@.version == old(self)@.version,
            final(self)@.runs == old(self)@.runs,
            next_run_outcome_allowed(input@, now, r is Ok),
            match r {
                Ok(s) => final(self)@.schedules == old(self)@.schedules.push(s@) && is_uuid_v4_text(s@.id)
                    && s@.input == input@ && s@.created_at == s@.updated_at && reads_back_near(s@.created_at, now)
                    && is_next_run_text(input@, now, s@.next_run_at) && s@.last_run_at is None
                    && s@.last_run_status is None,
                Err(e) => e@ == no_next_run_message() && final(self)@.schedules == old(self)@.schedules,
            },
    {
        let next_run = next_web_database_backup_run_at(&input, now);
        proof {
            if next_run is Some {
                assert(is_next_run(input@, now, next_run->0));
            }
        }
        self.create_schedule_with_next_run(input, now, next_run)
    }

    /// Replaces the input of the first schedule with the id. Its next run
    /// moves when its timing changed or it was turned on; otherwise it stays.
    pub fn update_schedule(
        &mut self,
        schedule_id: &str,
        input: WebDatabaseBackupScheduleInput,
        now: BackupInstant,
    ) -> (r: Result<Option<WebDatabaseBackupSchedule>, String>)
        requires
            is_valid_instant(now),
        ensures
            final(self)@.version == old(self)@.version,
            final(self)@.runs == old(self)@.runs,
            match first_position(schedule_ids(old(self)@.schedules), schedule_id@) {
                None => r matches Ok(None) && final(self)@.schedules == old(self)@.schedules,
                Some(i) => {
                    let previous = old(self)@.schedules[i];
                    let moved = timing_changed(previous.input, input@);
                    &&& moved ==> next_run_outcome_allowed(input@, now, r is Ok)
                    &&& !moved ==> r is Ok
                    &&& match r {
                        Ok(Some(s)) => {
                            &&& final(self)@.schedules == old(self)@.schedules.update(i, s@)
                            &&& s@.id == previous.id
                            &&& s@.input == input@
                            &&& s@.created_at == previous.created_at
                            &&& s@.last_run_at == previous.last_run_at
                            &&& s@.last_run_status == previous.last_run_status
                            &&& reads_back_near(s@.updated_at, now)
                            &&& moved ==> is_next_run_text(input@, now, s@.next_run_at)
                            &&& !moved ==> s@.next_run_at == previous.next_run_at
                        },
                        Ok(None) => false,
                        Err(e) => e@ == no_next_run_message() && final(self)@.schedules == old(
                            self,
                        )@.schedules,
                    }
                },
            },
    {
        let i = match self.schedule_position(schedule_id) {
            Some(i) => i,
            None => {
                return Ok(None);
            },
        };
        let previous = &self.schedules[i];
        let moved = previous.input.frequency != input.frequency || previous.input.interval_hours
            != input.interval_hours || !str_eq(previous.input.time_of_day.as_str(), input.time_of_day.as_str())
            || previous.input.weekday != input.weekday || (!previous.input.enabled && input.enabled);
        let next_run_at = if moved {
            match next_run_text(&input, now) {
                Some(t) => t,
                None => {
                    return Err("Backup schedule has no next run in the server time zone".to_owned());
                },
            }
        } else {
            previous.next_run_at.clone()
        };
        let updated = WebDatabaseBackupSchedule {
            id: previous.id.clone(),
            input,
            created_at: previous.created_at.clone(),
            updated_at: local_rfc3339(now),
            next_run_at,
            last_run_at: copy_option_string(&previous.last_run_at),
            last_run_status: previous.last_run_status,
        };
        self.schedules.set(i, updated.duplicate());
        assert(self@.schedules =~= old(self)@.schedules.update(i as int, updated@));
        Ok(Some(updated))
    }
}

/// A finished run moves its schedule's next run when the run was
/// scheduled, or when that next run is due or unreadable.
pub open spec fn completion_moves_next_run(
    trigger: WebDatabaseBackupRunTrigger,
    next_run_at: Seq<char>,
    now: BackupInstant,
) -> bool {
    trigger == WebDatabaseBackupRunTrigger::Scheduled || match rfc3339_instant(next_run_at) {
        Some(t) => instant_le(t, now),
        None => true,
    }
}

/// A run as it finished at `completed_at`.
pub open spec fn completed_run(
    r: RunView,
    status: WebDatabaseBackupRunStatus,
    completed_at: Seq<char>,
    error: Option<Seq<char>>,
) -> RunView {
    RunView { status: status, completed_at: Some(completed_at), error: error, ..r }
}

/// The schedule `f` records that its run finished at `completed_at` with
/// `status`; it is `s` otherwise, but for a next run that moves when
/// `moves` holds.
pub open spec fn records_completion(
    s: ScheduleView,
    f: ScheduleView,
    status: WebDatabaseBackupRunStatus,
    completed_at: Seq<char>,
    moves: bool,
    now: BackupInstant,
) -> bool {
    &&& f.id == s.id
    &&& f.input == s.input
    &&& f.created_at == s.created_at
    &&& f.updated_at == completed_at
    &&& f.last_run_at == Some(completed_at)
    &&& f.last_run_status == Some(status)
    &&& moves ==> is_next_run_text(s.input, now, f.next_run_at)
    &&& !moves ==> f.next_run_at == s.next_run_at
}

/// The schedules after the run of the schedule with id `schedule_id`
/// finished: only the first schedule with that id changes, as
/// [`records_completion`] says.
pub open spec fn schedules_after_completion(
    old_schedules: Seq<ScheduleView>,
    new_schedules: Seq<ScheduleView>,
    schedule_id: Seq<char>,
    trigger: WebDatabaseBackupRunTrigger,
    status: WebDatabaseBackupRunStatus,
    completed_at: Seq<char>,
    now: BackupInstant,
) -> bool {
    match first_position(schedule_ids(old_schedules), schedule_id) {
        None => new_schedules == old_schedules,
        Some(j) => {
            &&& new_schedules.len() == old_schedules.len()
            &&& forall|k: int| 0 <= k < old_schedules.len() && k != j ==> #[trigger] new_schedules[k] == old_schedules[k]
            &&& records_completion(
                old_schedules[j],
                new_schedules[j],
                status,
                completed_at,
                completion_moves_next_run(trigger, old_schedules[j].next_run_at, now),
                now,
            )
        },
    }
}

impl WebDatabaseBackupMetadata {
    /// Finishes the first run with the id now, with `status` and `error`,
    /// and records it on its schedule. `Ok(None)` when there is no such run;
    /// an error, with nothing changed, when the schedule's next run has to
    /// move and cannot be computed.
    pub fn complete_run(
        &mut self,
        run_id: &str,
        status: WebDatabaseBackupRunStatus,
        error: Option<String>,
        now: BackupInstant,
    ) -> (r: Result<Option<WebDatabaseBackupRun>, String>)
        requires
            is_valid_instant(now),
        ensures
            final(self)@.version == old(self)@.version,
            match first_position(run_ids(old(self)@.runs), run_id@) {
                None => r matches Ok(None) && final(self)@ == old(self)@,
                Some(i) => {
                    let run = old(self)@.runs[i];
                    match r {
                        Ok(Some(x)) => exists|t: Seq<char>|
                            #![trigger completed_run(run, status, t, string_option_view(error))]
                            {
                                &&& reads_back_near(t, now)
                                &&& final(self)@.runs == old(self)@.runs.update(
                                    i,
                                    completed_run(run, status, t, string_option_view(error)),
                                )
                                &&& x@ == completed_run(run, status, t, string_option_view(error))
                                &&& schedules_after_completion(
                                    old(self)@.schedules,
                                    final(self)@.schedules,
                                    run.schedule_id,
                                    run.trigger,
                                    status,
                                    t,
                                    now,
                                )
                            },
                        Ok(None) => false,
                        Err(e) => {
                            &&& e@ == no_next_run_message()
                            &&& final(self)@ == old(self)@
                            &&& first_position(schedule_ids(old(self)@.schedules), run.schedule_id) matches Some(
                                j,
                            ) && completion_moves_next_run(
                                run.trigger,
                                old(self)@.schedules[j].next_run_at,
                                now,
                            ) && next_run_outcome_allowed(old(self)@.schedules[j].input, now, false)
                        },
                    }
                },
            },
    {
        let i = match self.run_position(run_id) {
            Some(i) => i,
            None => {
                return Ok(None);
            },
        };
        let ghost run = self@.runs[i as int];
        let completed_at = local_rfc3339(now);
        let trigger = self.runs[i].trigger;
        let position = self.schedule_position(self.runs[i].schedule_id.as_str());
        match position {
            Some(j) => {
                let due = match parse_rfc3339_instant(self.schedules[j].next_run_at.as_str()) {
                    Some(t) => is_not_later(t, now),
                    None => true,
                };
                let moves = trigger == WebDatabaseBackupRunTrigger::Scheduled || due;
                let mut next: Option<String> = None;
                if moves {
                    match next_run_text(&self.schedules[j].input, now) {
                        Some(text) => {
                            next = Some(text);
                        },
                        None => {
                            return Err("Backup schedule has no next run in the server time zone".to_owned());
                        },
                    }
                }
                let ghost before = self.schedules@;
                let mut schedule = self.schedules[j].duplicate();
                schedule.last_run_at = Some(completed_at.clone());
                schedule.last_run_status = Some(status);
                match next {
                    Some(text) => {
                        schedule.next_run_at = text;
                    },
                    None => {},
                }
                schedule.updated_at = completed_at.clone();
                self.schedules.set(j, schedule);
                proof {
                    assert(self.schedules@ == before.update(j as int, schedule));
                    assert forall|k: int| 0 <= k < before.len() && k != j implies #[trigger] self@.schedules[k]
                        == old(self)@.schedules[k] by {
                        assert(self.schedules@[k] == before[k]);
                    }
                }
            },
            None => {},
        }
        let ghost before_runs = self.runs@;
        self.runs[i].status = status;
        self.runs[i].completed_at = Some(completed_at);
        self.runs[i].error = error;
        let completed = self.runs[i].duplicate();
        proof {
            let t = self.runs@[i as int].completed_at->Some_0@;
            assert(self.runs@ == before_runs.update(i as int, self.runs@[i as int]));
            assert(self@.runs[i as int] == completed_run(run, status, t, string_option_view(error)));
            assert(self@.runs =~= old(self)@.runs.update(i as int, completed_run(run, status, t, string_option_view(error))));
        }
        Ok(Some(completed))
    }
}

/// Below any position of `id` there is a first one.
proof fn lemma_least_position(ids: Seq<Seq<char>>, id: Seq<char>, w: int)
    requires
        0 <= w < ids.len(),
        ids[w] == id,
    ensures
        exists|i: int| 0 <= i < ids.len() && ids[i] == id && forall|j: int| 0 <= j < i ==> ids[j] != id,
    decreases w,
{
    if exists|j: int| 0 <= j < w && ids[j] == id {
        let j = choose|j: int| 0 <= j < w && ids[j] == id;
        lemma_least_position(ids, id, j);
    } else {
        assert(forall|j: int| 0 <= j < w ==> ids[j] != id);
    }
}

proof fn lemma_first_position_some(ids: Seq<Seq<char>>, id: Seq<char>)
    ensures
        first_position(ids, id) matches Some(i) ==> 0 <= i < ids.len() && ids[i] == id,
{
    if exists|i: int| 0 <= i < ids.len() && ids[i] == id {
        let w = choose|i: int| 0 <= i < ids.len() && ids[i] == id;
        lemma_least_position(ids, id, w);
    }
}

/// After recovery no run is still running.
pub proof fn law_recovery_leaves_no_running_run(runs: Seq<RunView>, completed_at: Seq<char>)
    ensures
        forall|i: int|
            0 <= i < runs.len() ==> (#[trigger] recover_all(runs, completed_at)[i]).status
                != WebDatabaseBackupRunStatus::Running,
{
}

/// Storing a run keeps it: afterwards the runs hold it, and there is one
/// run more exactly when its id was new.
pub proof fn law_upsert_keeps_the_run(before: Seq<RunView>, after: Seq<RunView>, run: RunView)
    requires
        is_sorted_tail(after, runs_with(before, run), run_start_keys(runs_with(before, run)), true, 0),
    ensures
        exists|k: int| 0 <= k < after.len() && after[k] == run,
        after.len() == before.len() + if first_position(run_ids(before), run.id) is Some {
            0int
        } else {
            1int
        },
{
    let staged = runs_with(before, run);
    let keys = run_start_keys(staged);
    lemma_first_position_some(run_ids(before), run.id);
    let p = match first_position(run_ids(before), run.id) {
        Some(i) => i,
        None => before.len() as int,
    };
    assert(staged[p] == run);
    crate::sort::law_sort_keeps_every_element(after, staged, keys, true, p);
    crate::sort::law_sorted_tail_length(after, staged, keys, true, 0);
}

/// Deleting a run removes every run with its id.
pub proof fn law_delete_run_removes_the_id(runs: Seq<RunView>, run_id: Seq<char>)
    ensures
        forall|i: int|
            0 <= i < runs.filter(is_other_run(run_id)).len() ==> (#[trigger] runs.filter(
                is_other_run(run_id),
            )[i]).id != run_id,
{
    assert forall|i: int| 0 <= i < runs.filter(is_other_run(run_id)).len() implies (#[trigger] runs.filter(
        is_other_run(run_id),
    )[i]).id != run_id by {
        runs.lemma_filter_pred(is_other_run(run_id), i);
    }
}

/// The runs offered for removal are those beyond the newest
/// `MAX_WEB_DATABASE_BACKUP_HISTORY`: none until the history is full.
pub proof fn law_history_overflow_count(runs: Seq<RunView>, overflow: Seq<RunView>)
    requires
        is_sorted_tail(
            overflow,
            runs,
            run_start_id_keys(runs),
            true,
            MAX_WEB_DATABASE_BACKUP_HISTORY as nat,
        ),
    ensures
        overflow.len() == if runs.len() > MAX_WEB_DATABASE_BACKUP_HISTORY {
            runs.len() - MAX_WEB_DATABASE_BACKUP_HISTORY
        } else {
            0
        },
{
    crate::sort::law_sorted_tail_length(
        overflow,
        runs,
        run_start_id_keys(runs),
        true,
        MAX_WEB_DATABASE_BACKUP_HISTORY as nat,
    );
}

/// Stored metadata of another version is refused, naming that version and
/// the file it was read from.
pub fn metadata_version_error(version: u32, path: &str) -> (r: Option<String>)
    ensures
        version == WEB_DATABASE_BACKUP_METADATA_VERSION ==> r is None,
        version != WEB_DATABASE_BACKUP_METADATA_VERSION ==> (r matches Some(m) && m@
            == "Unsupported Web database backup metadata version "@ + decimal(version as nat) + " in "@ + path@),
{
    if version == WEB_DATABASE_BACKUP_METADATA_VERSION {
        return None;
    }
    let v = decimal_string(version as u64);
    let mut m = concat3("Unsupported Web database backup metadata version ", v.as_str(), " in ");
    string_push_str(&mut m, path);
    Some(m)
}

} // verus!
