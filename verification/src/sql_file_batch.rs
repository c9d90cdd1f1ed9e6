//! Batches that run one SQL file against several connections in turn: the
//! batch snapshot and the transitions that progress events cause.
use vstd::prelude::*;

use crate::ids::{is_uuid_v4_text, new_uuid_v4_string};
use crate::paths::{path_file_name, spec_path_file_name};
use crate::text::{concat3, decimal, decimal_string, str_eq, string_push_str, strings_view};

verus! {

broadcast use vstd::string::group_string_axioms;

#[derive(Debug, Clone, Copy, PartialEq, Eq, Structural)]
pub enum SqlFileStatus {
    Started,
    Running,
    StatementDone,
    StatementFailed,
    Done,
    Error,
    Cancelled,
}

#[derive(Debug, Clone, PartialEq, Eq)]
pub struct SqlFileProgress {
    pub execution_id: String,
    pub status: SqlFileStatus,
    pub statement_index: usize,
    pub success_count: usize,
    pub failure_count: usize,
    pub affected_rows: u64,
    pub elapsed_ms: u128,
    pub statement_summary: String,
    pub error: Option<String>,
}

#[derive(Debug, Clone, PartialEq, Eq)]
pub struct SqlFileRequest {
    pub execution_id: String,
    pub connection_id: String,
    pub database: String,
    pub file_path: String,
    pub continue_on_error: bool,
}

#[derive(Debug, Clone)]
pub struct SqlFileExecuteWrapper {
    pub request: SqlFileRequest,
}

#[derive(Debug, Clone)]
pub struct CancelSqlFileRequest {
    pub execution_id: String,
}

#[derive(Debug, Clone)]
pub struct CreateSqlFileBatchRequest {
    pub connection_ids: Vec<String>,
    pub database: String,
    pub file_path: String,
    pub continue_on_error: bool,
}

#[derive(Debug, Clone, Copy, PartialEq, Eq, Structural)]
pub enum SqlFileBatchStatus {
    Running,
    Cancelling,
    Completed,
    Cancelled,
}

#[derive(Debug, Clone, Copy, PartialEq, Eq, Structural)]
pub enum SqlFileBatchTargetStatus {
    Pending,
    Running,
    Success,
    Partial,
    Failed,
    Cancelled,
    Skipped,
}

#[derive(Debug, Clone, PartialEq, Eq)]
pub struct SqlFileBatchTarget {
    pub target_id: String,
    pub connection_id: String,
    pub status: SqlFileBatchTargetStatus,
    pub success_count: usize,
    pub failure_count: usize,
    pub affected_rows: u64,
    pub elapsed_ms: u128,
    pub error: Option<String>,
    pub failure_details: Vec<String>,
}

#[derive(Debug, Clone, Copy, Default, PartialEq, Eq, Structural)]
pub struct SqlFileBatchSummary {
    pub total: usize,
    pub pending: usize,
    pub running: usize,
    pub success: usize,
    pub partial: usize,
    pub failed: usize,
    pub cancelled: usize,
    pub skipped: usize,
}

#[derive(Debug, Clone, PartialEq, Eq)]
pub struct SqlFileBatchSnapshot {
    pub batch_id: String,
    pub file_name: String,
    pub database: String,
    pub continue_on_error: bool,
    pub status: SqlFileBatchStatus,
    pub created_at_ms: u64,
    pub updated_at_ms: u64,
    pub targets: Vec<SqlFileBatchTarget>,
    pub summary: SqlFileBatchSummary,
}

/// Number of targets in `ts` whose status is `s`.
pub open spec fn count_status(ts: Seq<SqlFileBatchTarget>, s: SqlFileBatchTargetStatus) -> nat
    decreases ts.len(),
{
    if ts.len() == 0 {
        0
    } else {
        count_status(ts.drop_last(), s) + if ts.last().status == s {
            1nat
        } else {
            0nat
        }
    }
}

pub open spec fn summary_of(ts: Seq<SqlFileBatchTarget>) -> SqlFileBatchSummary {
    SqlFileBatchSummary {
        total: ts.len() as usize,
        pending: count_status(ts, SqlFileBatchTargetStatus::Pending) as usize,
        running: count_status(ts, SqlFileBatchTargetStatus::Running) as usize,
        success: count_status(ts, SqlFileBatchTargetStatus::Success) as usize,
        partial: count_status(ts, SqlFileBatchTargetStatus::Partial) as usize,
        failed: count_status(ts, SqlFileBatchTargetStatus::Failed) as usize,
        cancelled: count_status(ts, SqlFileBatchTargetStatus::Cancelled) as usize,
        skipped: count_status(ts, SqlFileBatchTargetStatus::Skipped) as usize,
    }
}

pub proof fn lemma_count_status_bound(ts: Seq<SqlFileBatchTarget>, s: SqlFileBatchTargetStatus)
    ensures
        count_status(ts, s) <= ts.len(),
    decreases ts.len(),
{
    if ts.len() > 0 {
        lemma_count_status_bound(ts.drop_last(), s);
    }
}

/// The statuses in which a target's execution has ended.
pub open spec fn spec_is_terminal(status: SqlFileStatus) -> bool {
    status == SqlFileStatus::Done || status == SqlFileStatus::Error || status
        == SqlFileStatus::Cancelled
}

/// Whether a progress event ends a target's execution.
pub fn is_terminal(status: SqlFileStatus) -> (r: bool)
    ensures
        r == spec_is_terminal(status),
{
    match status {
        SqlFileStatus::Done | SqlFileStatus::Error | SqlFileStatus::Cancelled => true,
        _ => false,
    }
}

/// Index of the first target whose id is `id`.
pub open spec fn first_target_index(ts: Seq<SqlFileBatchTarget>, id: Seq<char>) -> Option<int>
    decreases ts.len(),
{
    if ts.len() == 0 {
        None
    } else {
        match first_target_index(ts.drop_last(), id) {
            Some(k) => Some(k),
            None => if ts.last().target_id@ == id {
                Some(ts.len() - 1)
            } else {
                None
            },
        }
    }
}

pub proof fn lemma_first_target_index(ts: Seq<SqlFileBatchTarget>, id: Seq<char>)
    ensures
        first_target_index(ts, id) matches Some(k) ==> 0 <= k < ts.len() && ts[k].target_id@ == id
            && forall|j: int| 0 <= j < k ==> (#[trigger] ts[j]).target_id@ != id,
        first_target_index(ts, id) is None ==> forall|j: int|
            0 <= j < ts.len() ==> (#[trigger] ts[j]).target_id@ != id,
    decreases ts.len(),
{
    if ts.len() > 0 {
        lemma_first_target_index(ts.drop_last(), id);
        assert forall|j: int| 0 <= j < ts.len() - 1 implies ts[j] == ts.drop_last()[j] by {}
    }
}

/// The target status that a terminal progress event leaves.
pub open spec fn terminal_target_status(p: SqlFileProgress) -> SqlFileBatchTargetStatus {
    match p.status {
        SqlFileStatus::Done => if p.failure_count == 0 {
            SqlFileBatchTargetStatus::Success
        } else {
            SqlFileBatchTargetStatus::Partial
        },
        SqlFileStatus::Error => SqlFileBatchTargetStatus::Failed,
        _ => SqlFileBatchTargetStatus::Cancelled,
    }
}

/// `n` is target `o` after the progress event `p`: counters are copied, a
/// terminal event sets the status and error, and a failed statement with a
/// nonempty error adds that error to the failure details.
pub open spec fn progress_applied(o: SqlFileBatchTarget, n: SqlFileBatchTarget, p: SqlFileProgress) -> bool {
    &&& n.target_id == o.target_id
    &&& n.connection_id == o.connection_id
    &&& n.success_count == p.success_count
    &&& n.failure_count == p.failure_count
    &&& n.affected_rows == p.affected_rows
    &&& n.elapsed_ms == p.elapsed_ms
    &&& if spec_is_terminal(p.status) {
        &&& n.status == terminal_target_status(p)
        &&& n.error == p.error
        &&& n.failure_details == o.failure_details
    } else {
        &&& n.status == o.status
        &&& n.error == o.error
        &&& strings_view(n.failure_details@) == if p.status == SqlFileStatus::StatementFailed
            && p.error is Some && p.error->0@.len() > 0 {
            strings_view(o.failure_details@).push(p.error->0@)
        } else {
            strings_view(o.failure_details@)
        }
    }
}

/// The batch fields other than the targets and the summary are those of `o`.
pub open spec fn same_header(o: SqlFileBatchSnapshot, n: SqlFileBatchSnapshot) -> bool {
    &&& n.batch_id == o.batch_id
    &&& n.file_name == o.file_name
    &&& n.database == o.database
    &&& n.continue_on_error == o.continue_on_error
    &&& n.created_at_ms == o.created_at_ms
    &&& n.updated_at_ms == o.updated_at_ms
}

/// Sets the counts of `snapshot.summary` from its targets.
pub fn update_summary(snapshot: &mut SqlFileBatchSnapshot)
    ensures
        final(snapshot).summary == summary_of(old(snapshot).targets@),
        final(snapshot).targets == old(snapshot).targets,
        final(snapshot).status == old(snapshot).status,
        same_header(*old(snapshot), *final(snapshot)),
{
    let mut summary = SqlFileBatchSummary {
        total: snapshot.targets.len(),
        pending: 0,
        running: 0,
        success: 0,
        partial: 0,
        failed: 0,
        cancelled: 0,
        skipped: 0,
    };
    let ghost ts = snapshot.targets@;
    let mut k: usize = 0;
    while k < snapshot.targets.len()
        invariant
            k <= snapshot.targets.len(),
            ts == snapshot.targets@,
            summary.total == ts.len(),
            summary.pending == count_status(ts.take(k as int), SqlFileBatchTargetStatus::Pending),
            summary.running == count_status(ts.take(k as int), SqlFileBatchTargetStatus::Running),
            summary.success == count_status(ts.take(k as int), SqlFileBatchTargetStatus::Success),
            summary.partial == count_status(ts.take(k as int), SqlFileBatchTargetStatus::Partial),
            summary.failed == count_status(ts.take(k as int), SqlFileBatchTargetStatus::Failed),
            summary.cancelled == count_status(
                ts.take(k as int),
                SqlFileBatchTargetStatus::Cancelled,
            ),
            summary.skipped == count_status(ts.take(k as int), SqlFileBatchTargetStatus::Skipped),
        decreases snapshot.targets.len() - k,
    {
        proof {
            assert(ts.take(k + 1).drop_last() =~= ts.take(k as int));
            assert(ts.take(k + 1).last() == ts[k as int]);
            lemma_count_status_bound(ts.take(k as int), snapshot.targets[k as int].status);
        }
        match snapshot.targets[k].status {
            SqlFileBatchTargetStatus::Pending => summary.pending += 1,
            SqlFileBatchTargetStatus::Running => summary.running += 1,
            SqlFileBatchTargetStatus::Success => summary.success += 1,
            SqlFileBatchTargetStatus::Partial => summary.partial += 1,
            SqlFileBatchTargetStatus::Failed => summary.failed += 1,
            SqlFileBatchTargetStatus::Cancelled => summary.cancelled += 1,
            SqlFileBatchTargetStatus::Skipped => summary.skipped += 1,
        }
        k += 1;
    }
    proof {
        assert(ts.take(k as int) =~= ts);
    }
    snapshot.summary = summary;
}

/// Stamps an updated snapshot with the time of the update and recounts its summary.
pub fn finish_update(snapshot: &mut SqlFileBatchSnapshot, now_ms: u64)
    ensures
        final(snapshot).updated_at_ms == now_ms,
        final(snapshot).summary == summary_of(old(snapshot).targets@),
        final(snapshot).targets == old(snapshot).targets,
        final(snapshot).status == old(snapshot).status,
        final(snapshot).batch_id == old(snapshot).batch_id,
        final(snapshot).file_name == old(snapshot).file_name,
        final(snapshot).database == old(snapshot).database,
        final(snapshot).continue_on_error == old(snapshot).continue_on_error,
        final(snapshot).created_at_ms == old(snapshot).created_at_ms,
{
    snapshot.updated_at_ms = now_ms;
    update_summary(snapshot);
}

fn apply_to_target(target: SqlFileBatchTarget, progress: SqlFileProgress) -> (n: SqlFileBatchTarget)
    ensures
        progress_applied(target, n, progress),
{
    let mut target = target;
    let ghost o = target;
    target.success_count = progress.success_count;
    target.failure_count = progress.failure_count;
    target.affected_rows = progress.affected_rows;
    target.elapsed_ms = progress.elapsed_ms;
    match progress.status {
        SqlFileStatus::Done => {
            target.status = if progress.failure_count == 0 {
                SqlFileBatchTargetStatus::Success
            } else {
                SqlFileBatchTargetStatus::Partial
            };
            target.error = progress.error;
        },
        SqlFileStatus::Error => {
            target.status = SqlFileBatchTargetStatus::Failed;
            target.error = progress.error;
        },
        SqlFileStatus::Cancelled => {
            target.status = SqlFileBatchTargetStatus::Cancelled;
            target.error = progress.error;
        },
        SqlFileStatus::StatementFailed => {
            if let Some(error) = progress.error {
                if error.unicode_len() > 0 {
                    target.failure_details.push(error);
                    assert(strings_view(target.failure_details@) =~= strings_view(
                        o.failure_details@,
                    ).push(progress.error->0@));
                }
            }
        },
        _ => {},
    }
    target
}

/// Applies a progress event to the first target whose id is `target_id`;
/// without such a target the snapshot is left as it is.
pub fn apply_progress(snapshot: &mut SqlFileBatchSnapshot, target_id: &str, progress: SqlFileProgress)
    ensures
        same_header(*old(snapshot), *final(snapshot)),
        final(snapshot).status == old(snapshot).status,
        final(snapshot).summary == summary_of(final(snapshot).targets@),
        match first_target_index(old(snapshot).targets@, target_id@) {
            Some(k) => final(snapshot).targets@ == old(snapshot).targets@.update(
                k,
                final(snapshot).targets@[k],
            ) && progress_applied(old(snapshot).targets@[k], final(snapshot).targets@[k], progress),
            None => final(snapshot).targets == old(snapshot).targets,
        },
{
    let ghost ts = snapshot.targets@;
    proof {
        lemma_first_target_index(ts, target_id@);
    }
    let mut k: usize = 0;
    while k < snapshot.targets.len()
        invariant
            k <= snapshot.targets.len(),
            ts == snapshot.targets@,
            *snapshot == *old(snapshot),
            forall|j: int| 0 <= j < k ==> (#[trigger] ts[j]).target_id@ != target_id@,
        decreases snapshot.targets.len() - k,
    {
        if str_eq(snapshot.targets[k].target_id.as_str(), target_id) {
            proof {
                lemma_first_target_index(ts, target_id@);
                match first_target_index(ts, target_id@) {
                    Some(k0) => {
                        if k0 < k {
                            assert(ts[k0].target_id@ != target_id@);
                        } else if k0 > k {
                            assert(ts[k as int].target_id@ != target_id@);
                        }
                    },
                    None => {
                        assert(ts[k as int].target_id@ != target_id@);
                    },
                }
            }
            let target = snapshot.targets.remove(k);
            let updated = apply_to_target(target, progress);
            snapshot.targets.insert(k, updated);
            proof {
                assert(first_target_index(ts, target_id@) == Some(k as int));
                assert(snapshot.targets@ =~= ts.update(k as int, snapshot.targets@[k as int]));
            }
            update_summary(snapshot);
            return;
        }
        k += 1;
    }
    proof {
        lemma_first_target_index(ts, target_id@);
        if first_target_index(ts, target_id@) is Some {
            let k0 = first_target_index(ts, target_id@)->0;
            assert(ts[k0].target_id@ != target_id@);
        }
    }
    update_summary(snapshot);
}

/// The targets `ts` with the one at `index` running.
pub open spec fn started(ts: Seq<SqlFileBatchTarget>, index: int) -> Seq<SqlFileBatchTarget> {
    ts.update(index, SqlFileBatchTarget { status: SqlFileBatchTargetStatus::Running, ..ts[index] })
}

/// Marks the target at `index` as running.
pub fn start_target(snapshot: &mut SqlFileBatchSnapshot, index: usize)
    requires
        index < old(snapshot).targets.len(),
    ensures
        same_header(*old(snapshot), *final(snapshot)),
        final(snapshot).status == old(snapshot).status,
        final(snapshot).summary == summary_of(final(snapshot).targets@),
        final(snapshot).targets@ == started(old(snapshot).targets@, index as int),
{
    let mut target = snapshot.targets.remove(index);
    target.status = SqlFileBatchTargetStatus::Running;
    snapshot.targets.insert(index, target);
    assert(snapshot.targets@ =~= started(old(snapshot).targets@, index as int));
    update_summary(snapshot);
}

pub open spec fn no_terminal_progress_message() -> Seq<char> {
    "Execution completed without terminal progress"@
}

/// `after` is `before` with the target at `index` failed, for an execution
/// that ended without a terminal progress event.
pub open spec fn failed_without_terminal_progress(
    before: Seq<SqlFileBatchTarget>,
    after: Seq<SqlFileBatchTarget>,
    index: int,
) -> bool {
    &&& after.len() == before.len()
    &&& forall|j: int| 0 <= j < before.len() && j != index ==> #[trigger] after[j] == before[j]
    &&& after[index] == (SqlFileBatchTarget {
        status: SqlFileBatchTargetStatus::Failed,
        error: after[index].error,
        ..before[index]
    })
    &&& after[index].error matches Some(e) && e@ == no_terminal_progress_message()
}

/// Marks the target at `index` as failed when its execution ended without
/// a terminal progress event.
pub fn fail_without_terminal_progress(snapshot: &mut SqlFileBatchSnapshot, index: usize)
    requires
        index < old(snapshot).targets.len(),
    ensures
        same_header(*old(snapshot), *final(snapshot)),
        final(snapshot).status == old(snapshot).status,
        final(snapshot).summary == summary_of(final(snapshot).targets@),
        failed_without_terminal_progress(old(snapshot).targets@, final(snapshot).targets@, index as int),
{
    let mut target = snapshot.targets.remove(index);
    target.status = SqlFileBatchTargetStatus::Failed;
    target.error = Some("Execution completed without terminal progress".to_owned());
    snapshot.targets.insert(index, target);
    update_summary(snapshot);
}

/// Ends a cancelled batch: every pending target is skipped.
pub fn finish_cancelled(snapshot: &mut SqlFileBatchSnapshot)
    ensures
        same_header(*old(snapshot), *final(snapshot)),
        final(snapshot).status == SqlFileBatchStatus::Cancelled,
        final(snapshot).summary == summary_of(final(snapshot).targets@),
        skipped_pending(old(snapshot).targets@, final(snapshot).targets@),
{
    let ghost ts = snapshot.targets@;
    let mut k: usize = 0;
    while k < snapshot.targets.len()
        invariant
            k <= snapshot.targets.len(),
            snapshot.targets@.len() == ts.len(),
            same_header(*old(snapshot), *snapshot),
            snapshot.status == old(snapshot).status,
            snapshot.summary == old(snapshot).summary,
            ts == old(snapshot).targets@,
            forall|j: int| k <= j < ts.len() ==> #[trigger] snapshot.targets@[j] == ts[j],
            forall|j: int|
                0 <= j < k ==> #[trigger] snapshot.targets@[j] == if ts[j].status
                    == SqlFileBatchTargetStatus::Pending {
                    SqlFileBatchTarget { status: SqlFileBatchTargetStatus::Skipped, ..ts[j] }
                } else {
                    ts[j]
                },
        decreases snapshot.targets.len() - k,
    {
        if snapshot.targets[k].status == SqlFileBatchTargetStatus::Pending {
            let mut target = snapshot.targets.remove(k);
            target.status = SqlFileBatchTargetStatus::Skipped;
            snapshot.targets.insert(k, target);
        }
        k += 1;
    }
    snapshot.status = SqlFileBatchStatus::Cancelled;
    update_summary(snapshot);
}

/// Ends a batch whose targets have all run.
pub fn finish_completed(snapshot: &mut SqlFileBatchSnapshot)
    ensures
        same_header(*old(snapshot), *final(snapshot)),
        final(snapshot).status == SqlFileBatchStatus::Completed,
        final(snapshot).summary == summary_of(final(snapshot).targets@),
        final(snapshot).targets == old(snapshot).targets,
{
    snapshot.status = SqlFileBatchStatus::Completed;
    update_summary(snapshot);
}

/// What the runner of a batch does next.
#[derive(Debug, Clone, Copy, PartialEq, Eq, Structural)]
pub enum SqlFileBatchStep {
    /// Execute the target at this index, which is now running.
    Run(usize),
    /// The batch has ended.
    Finish,
}

/// The targets once the runner has closed the target that just finished
/// (given with whether a terminal progress event came for it): one that
/// ended without such an event is failed; otherwise nothing changes.
pub open spec fn closed_finished_target(
    before: Seq<SqlFileBatchTarget>,
    after: Seq<SqlFileBatchTarget>,
    finished: Option<(usize, bool)>,
) -> bool {
    match finished {
        Some((index, false)) => failed_without_terminal_progress(before, after, index as int),
        _ => after == before,
    }
}

/// The target that the runner starts after `finished`: the first one when
/// nothing has run yet, else the one after it.
pub open spec fn next_target_index(finished: Option<(usize, bool)>) -> int {
    match finished {
        Some((index, _)) => index + 1,
        None => 0,
    }
}

/// How the runner of a batch goes on after `closed`, the targets with the
/// finished one closed: a cancelled batch ends at once with its pending
/// targets skipped; otherwise the next target in list order starts, and
/// when there is none the batch completes.
pub open spec fn batch_step_taken(
    old_status: SqlFileBatchStatus,
    closed: Seq<SqlFileBatchTarget>,
    next: int,
    cancelled: bool,
    step: SqlFileBatchStep,
    new_status: SqlFileBatchStatus,
    after: Seq<SqlFileBatchTarget>,
) -> bool {
    if cancelled {
        &&& step == SqlFileBatchStep::Finish
        &&& new_status == SqlFileBatchStatus::Cancelled
        &&& skipped_pending(closed, after)
    } else if next < closed.len() {
        &&& step == SqlFileBatchStep::Run(next as usize)
        &&& new_status == old_status
        &&& after == started(closed, next)
    } else {
        &&& step == SqlFileBatchStep::Finish
        &&& new_status == SqlFileBatchStatus::Completed
        &&& after == closed
    }
}

/// The decision of the batch runner, which executes the targets one at a
/// time in list order. `finished` is the target whose execution just ended
/// and whether a terminal progress event came for it (`None` before the
/// first target); `cancelled` is whether the batch's cancellation was
/// requested. The snapshot takes the step's changes; the runner then
/// executes the target that the step names, or stops.
pub fn next_batch_step(
    snapshot: &mut SqlFileBatchSnapshot,
    finished: Option<(usize, bool)>,
    cancelled: bool,
) -> (step: SqlFileBatchStep)
    requires
        finished matches Some((index, _)) ==> index < old(snapshot).targets@.len(),
    ensures
        same_header(*old(snapshot), *final(snapshot)),
        final(snapshot).summary == summary_of(final(snapshot).targets@),
        exists|closed: Seq<SqlFileBatchTarget>|
            #[trigger] closed_finished_target(old(snapshot).targets@, closed, finished) && batch_step_taken(
                old(snapshot).status,
                closed,
                next_target_index(finished),
                cancelled,
                step,
                final(snapshot).status,
                final(snapshot).targets@,
            ),
{
    let next = match finished {
        Some((index, terminal_seen)) => {
            if !terminal_seen {
                fail_without_terminal_progress(snapshot, index);
            }
            index + 1
        },
        None => 0,
    };
    let ghost closed = snapshot.targets@;
    assert(closed_finished_target(old(snapshot).targets@, closed, finished));
    if cancelled {
        finish_cancelled(snapshot);
        return SqlFileBatchStep::Finish;
    }
    if next < snapshot.targets.len() {
        start_target(snapshot, next);
        return SqlFileBatchStep::Run(next);
    }
    finish_completed(snapshot);
    SqlFileBatchStep::Finish
}

/// A cancellation request is accepted only by a running batch, which then
/// waits for its current target as `Cancelling`.
pub open spec fn spec_request_cancel(status: SqlFileBatchStatus) -> (bool, SqlFileBatchStatus) {
    if status == SqlFileBatchStatus::Running {
        (true, SqlFileBatchStatus::Cancelling)
    } else {
        (false, status)
    }
}

/// Records a cancellation request; returns whether the batch accepted it.
pub fn request_cancel(snapshot: &mut SqlFileBatchSnapshot) -> (accepted: bool)
    ensures
        accepted == spec_request_cancel(old(snapshot).status).0,
        final(snapshot).status == spec_request_cancel(old(snapshot).status).1,
        same_header(*old(snapshot), *final(snapshot)),
        final(snapshot).summary == old(snapshot).summary,
        final(snapshot).targets == old(snapshot).targets,
{
    if snapshot.status == SqlFileBatchStatus::Running {
        snapshot.status = SqlFileBatchStatus::Cancelling;
        true
    } else {
        false
    }
}

/// The request that runs the target at `index` of the batch.
pub fn target_request(snapshot: &SqlFileBatchSnapshot, index: usize, file_path: &str) -> (r: SqlFileRequest)
    requires
        index < snapshot.targets.len(),
    ensures
        r.execution_id@ == snapshot.targets@[index as int].target_id@,
        r.connection_id@ == snapshot.targets@[index as int].connection_id@,
        r.database@ == snapshot.database@,
        r.file_path@ == file_path@,
        r.continue_on_error == snapshot.continue_on_error,
{
    let target = &snapshot.targets[index];
    SqlFileRequest {
        execution_id: target.target_id.clone(),
        connection_id: target.connection_id.clone(),
        database: snapshot.database.clone(),
        file_path: file_path.to_owned(),
        continue_on_error: snapshot.continue_on_error,
    }
}

/// Two equal values in `v`.
pub open spec fn has_duplicate(v: Seq<Seq<char>>) -> bool {
    exists|a: int, b: int| 0 <= a < b < v.len() && #[trigger] v[a] == #[trigger] v[b]
}

fn has_duplicate_string(v: &Vec<String>) -> (r: bool)
    ensures
        r == has_duplicate(strings_view(v@)),
{
    let ghost w = strings_view(v@);
    let mut b: usize = 0;
    while b < v.len()
        invariant
            b <= v.len(),
            w == strings_view(v@),
            forall|x: int, y: int| 0 <= x < y < b ==> #[trigger] w[x] != #[trigger] w[y],
        decreases v.len() - b,
    {
        let mut a: usize = 0;
        while a < b
            invariant
                a <= b < v.len(),
                w == strings_view(v@),
                forall|x: int, y: int| 0 <= x < y < b ==> #[trigger] w[x] != #[trigger] w[y],
                forall|x: int| 0 <= x < a ==> #[trigger] w[x] != w[b as int],
            decreases b - a,
        {
            if v[a] == v[b] {
                assert(w[a as int] == w[b as int]);
                return true;
            }
            a += 1;
        }
        b += 1;
    }
    false
}

/// The pending target of connection `connection_id`, not yet run.
pub open spec fn is_fresh_target(t: SqlFileBatchTarget, target_id: Seq<char>, connection_id: Seq<char>) -> bool {
    &&& t.target_id@ == target_id
    &&& t.connection_id@ == connection_id
    &&& t.status == SqlFileBatchTargetStatus::Pending
    &&& t.success_count == 0
    &&& t.failure_count == 0
    &&& t.affected_rows == 0
    &&& t.elapsed_ms == 0
    &&& t.error is None
    &&& t.failure_details@.len() == 0
}

/// Why a batch request is refused, if it is.
pub open spec fn batch_request_error(request: CreateSqlFileBatchRequest) -> Option<Seq<char>> {
    if request.connection_ids@.len() == 0 {
        Some("At least one connection ID is required"@)
    } else if has_duplicate(strings_view(request.connection_ids@)) {
        Some("Connection IDs must be unique"@)
    } else if spec_path_file_name(request.file_path@) is None {
        Some("File path must include a file name"@)
    } else {
        None
    }
}

/// `s` is the fresh snapshot of an accepted `request`, apart from its ids.
pub open spec fn is_fresh_batch(s: SqlFileBatchSnapshot, request: CreateSqlFileBatchRequest, timestamp: u64) -> bool {
    &&& spec_path_file_name(request.file_path@) == Some(s.file_name@)
    &&& s.database@ == request.database@
    &&& s.continue_on_error == request.continue_on_error
    &&& s.status == SqlFileBatchStatus::Running
    &&& s.created_at_ms == timestamp
    &&& s.updated_at_ms == timestamp
    &&& s.targets@.len() == request.connection_ids@.len()
    &&& forall|k: int|
        0 <= k < s.targets@.len() ==> (#[trigger] s.targets@[k]).connection_id@
            == request.connection_ids@[k]@ && is_fresh_target(
            s.targets@[k],
            s.targets@[k].target_id@,
            request.connection_ids@[k]@,
        )
    &&& s.summary == summary_of(s.targets@)
}

/// The snapshot of a new batch whose ids are given; refused as
/// [`batch_request_error`] says.
pub fn batch_snapshot_with_ids(
    request: CreateSqlFileBatchRequest,
    batch_id: String,
    target_ids: Vec<String>,
    timestamp: u64,
) -> (r: Result<(SqlFileBatchSnapshot, String), String>)
    requires
        target_ids@.len() == request.connection_ids@.len(),
    ensures
        match batch_request_error(request) {
            Some(m) => r matches Err(e) && e@ == m,
            None => r matches Ok((s, path)) && is_fresh_batch(s, request, timestamp) && s.batch_id
                == batch_id && path@ == request.file_path@ && forall|k: int|
                0 <= k < s.targets@.len() ==> (#[trigger] s.targets@[k]).target_id == target_ids@[k],
        },
{
    if request.connection_ids.len() == 0 {
        return Err("At least one connection ID is required".to_owned());
    }
    if has_duplicate_string(&request.connection_ids) {
        return Err("Connection IDs must be unique".to_owned());
    }
    let file_name = match path_file_name(request.file_path.as_str()) {
        Some(name) => name,
        None => {
            return Err("File path must include a file name".to_owned());
        },
    };
    let mut targets: Vec<SqlFileBatchTarget> = Vec::new();
    let mut k: usize = 0;
    while k < request.connection_ids.len()
        invariant
            k <= request.connection_ids.len(),
            target_ids@.len() == request.connection_ids@.len(),
            targets@.len() == k,
            forall|j: int|
                0 <= j < k ==> (#[trigger] targets@[j]).connection_id@
                    == request.connection_ids@[j]@ && is_fresh_target(
                    targets@[j],
                    targets@[j].target_id@,
                    request.connection_ids@[j]@,
                ) && targets@[j].target_id == target_ids@[j],
        decreases request.connection_ids.len() - k,
    {
        targets.push(
            SqlFileBatchTarget {
                target_id: target_ids[k].clone(),
                connection_id: request.connection_ids[k].clone(),
                status: SqlFileBatchTargetStatus::Pending,
                success_count: 0,
                failure_count: 0,
                affected_rows: 0,
                elapsed_ms: 0,
                error: None,
                failure_details: Vec::new(),
            },
        );
        k += 1;
    }
    let mut snapshot = SqlFileBatchSnapshot {
        batch_id,
        file_name,
        database: request.database,
        continue_on_error: request.continue_on_error,
        status: SqlFileBatchStatus::Running,
        created_at_ms: timestamp,
        updated_at_ms: timestamp,
        targets,
        summary: SqlFileBatchSummary {
            total: 0,
            pending: 0,
            running: 0,
            success: 0,
            partial: 0,
            failed: 0,
            cancelled: 0,
            skipped: 0,
        },
    };
    update_summary(&mut snapshot);
    Ok((snapshot, request.file_path))
}

/// Ids that are pairwise different and different from `other`.
pub open spec fn distinct_ids(ids: Seq<Seq<char>>, other: Seq<char>) -> bool {
    &&& forall|a: int, b: int| 0 <= a < b < ids.len() ==> #[trigger] ids[a] != #[trigger] ids[b]
    &&& forall|a: int| 0 <= a < ids.len() ==> #[trigger] ids[a] != other
}

/// The snapshot of a new batch, with a fresh random id for the batch and for
/// each target, no two alike (a target id that would repeat one already
/// given is replaced by an untaken one); refused as
/// [`batch_request_error`] says.
pub fn create_batch_snapshot(request: CreateSqlFileBatchRequest, timestamp: u64) -> (r: Result<
    (SqlFileBatchSnapshot, String),
    String,
>)
    ensures
        match batch_request_error(request) {
            Some(m) => r matches Err(e) && e@ == m,
            None => r matches Ok((s, path)) && is_fresh_batch(s, request, timestamp)
                && is_uuid_v4_text(s.batch_id@) && path@ == request.file_path@ && (forall|k: int|
                0 <= k < s.targets@.len() ==> is_uuid_v4_text((#[trigger] s.targets@[k]).target_id@)) && (forall|
                a: int,
                b: int,
            |
                0 <= a < b < s.targets@.len() ==> (#[trigger] s.targets@[a]).target_id@ != (
                #[trigger] s.targets@[b]).target_id@) && (forall|a: int|
                0 <= a < s.targets@.len() ==> (#[trigger] s.targets@[a]).target_id@ != s.batch_id@),
        },
{
    let batch_id = new_uuid_v4_string();
    let mut taken: Vec<String> = Vec::new();
    taken.push(batch_id.clone());
    let mut target_ids: Vec<String> = Vec::new();
    let mut k: usize = 0;
    while k < request.connection_ids.len()
        invariant
            k <= request.connection_ids.len(),
            target_ids@.len() == k,
            strings_view(taken@) == seq![batch_id@] + strings_view(target_ids@),
            forall|j: int| 0 <= j < k ==> is_uuid_v4_text((#[trigger] target_ids@[j])@),
            distinct_ids(strings_view(target_ids@), batch_id@),
        decreases request.connection_ids.len() - k,
    {
        let fresh = new_uuid_v4_string();
        let id = crate::ids::untaken_uuid(fresh, &taken);
        let ghost before = strings_view(target_ids@);
        proof {
            assert(strings_view(taken@)[0] == batch_id@);
            assert forall|j: int| 0 <= j < before.len() implies before[j] != id@ by {
                assert(strings_view(taken@)[j + 1] == before[j]);
            }
        }
        let ghost taken_before = taken@;
        let ghost id_view = id@;
        taken.push(id.clone());
        target_ids.push(id);
        proof {
            let after = strings_view(target_ids@);
            assert(taken@ == taken_before.push(taken@[k + 1]));
            assert(taken@[k + 1]@ == id_view);
            assert(after[k as int] == id_view);
            assert forall|j: int| 0 <= j < k + 2 implies strings_view(taken@)[j] == (seq![batch_id@] + after)[j] by {
                if j <= k {
                    assert(taken@[j] == taken_before[j]);
                    assert(strings_view(taken_before)[j] == taken_before[j]@);
                }
                if 1 <= j <= k {
                    assert(after[j - 1] == before[j - 1]);
                }
            }
            assert(after =~= before.push(after[k as int]));
            assert(strings_view(taken@) =~= seq![batch_id@] + after);
            assert forall|a: int, b: int| 0 <= a < b < after.len() implies #[trigger] after[a] != #[trigger] after[b] by {
                if b == k as int {
                    assert(after[a] == before[a]);
                } else {
                    assert(after[a] == before[a] && after[b] == before[b]);
                }
            }
            assert forall|a: int| 0 <= a < after.len() implies #[trigger] after[a] != batch_id@ by {
                if a < k {
                    assert(after[a] == before[a]);
                }
            }
        }
        k += 1;
    }
    let ghost ids = strings_view(target_ids@);
    let r = batch_snapshot_with_ids(request, batch_id, target_ids, timestamp);
    proof {
        if r is Ok {
            let s = r->Ok_0.0;
            assert forall|j: int| 0 <= j < s.targets@.len() implies (#[trigger] s.targets@[j]).target_id@ == ids[j] by {}
        }
    }
    r
}

/// Every target is counted once: the counts of the statuses add up to the
/// number of targets.
pub proof fn law_summary_counts_add_up(ts: Seq<SqlFileBatchTarget>)
    ensures
        count_status(ts, SqlFileBatchTargetStatus::Pending) + count_status(ts, SqlFileBatchTargetStatus::Running)
            + count_status(ts, SqlFileBatchTargetStatus::Success) + count_status(
            ts,
            SqlFileBatchTargetStatus::Partial,
        ) + count_status(ts, SqlFileBatchTargetStatus::Failed) + count_status(
            ts,
            SqlFileBatchTargetStatus::Cancelled,
        ) + count_status(ts, SqlFileBatchTargetStatus::Skipped) == ts.len(),
    decreases ts.len(),
{
    if ts.len() > 0 {
        law_summary_counts_add_up(ts.drop_last());
    }
}

/// A batch accepts a cancellation only while it runs, and so at most once;
/// an ended batch keeps its status.
pub proof fn law_cancel_is_accepted_once(status: SqlFileBatchStatus)
    ensures
        spec_request_cancel(status).0 <==> status == SqlFileBatchStatus::Running,
        !spec_request_cancel(spec_request_cancel(status).1).0,
        status != SqlFileBatchStatus::Running ==> spec_request_cancel(status).1 == status,
{
}

/// The targets of a cancelled batch as it ends: pending ones are skipped.
pub open spec fn skipped_pending(before: Seq<SqlFileBatchTarget>, after: Seq<SqlFileBatchTarget>) -> bool {
    &&& after.len() == before.len()
    &&& forall|j: int|
        0 <= j < before.len() ==> #[trigger] after[j] == if before[j].status == SqlFileBatchTargetStatus::Pending {
            SqlFileBatchTarget { status: SqlFileBatchTargetStatus::Skipped, ..before[j] }
        } else {
            before[j]
        }
}

/// Once a cancelled batch ends no target is pending: each pending one was
/// skipped.
pub proof fn law_cancelled_batch_has_no_pending_target(
    before: Seq<SqlFileBatchTarget>,
    after: Seq<SqlFileBatchTarget>,
)
    requires
        skipped_pending(before, after),
    ensures
        count_status(after, SqlFileBatchTargetStatus::Pending) == 0,
        count_status(after, SqlFileBatchTargetStatus::Skipped) == count_status(
            before,
            SqlFileBatchTargetStatus::Skipped,
        ) + count_status(before, SqlFileBatchTargetStatus::Pending),
    decreases before.len(),
{
    if before.len() > 0 {
        assert(skipped_pending(before.drop_last(), after.drop_last())) by {
            assert forall|j: int| 0 <= j < before.len() - 1 implies #[trigger] after.drop_last()[j] == if before.drop_last()[j].status
                == SqlFileBatchTargetStatus::Pending {
                SqlFileBatchTarget { status: SqlFileBatchTargetStatus::Skipped, ..before.drop_last()[j] }
            } else {
                before.drop_last()[j]
            } by {
                assert(after.drop_last()[j] == after[j]);
            }
        }
        law_cancelled_batch_has_no_pending_target(before.drop_last(), after.drop_last());
        assert(after[after.len() - 1] == after.last());
    }
}

/// Targets run one at a time, in list order, and a cancellation starts
/// nothing more: where every target from the next one on is still pending,
/// a step of the runner either starts exactly that next target, leaving the
/// others as they were and the later ones pending, or ends the batch, which
/// without a cancellation happens only after the last target; a cancelled
/// batch ends with no target pending.
pub proof fn law_targets_run_in_list_order(
    before: Seq<SqlFileBatchTarget>,
    closed: Seq<SqlFileBatchTarget>,
    finished: Option<(usize, bool)>,
    cancelled: bool,
    old_status: SqlFileBatchStatus,
    step: SqlFileBatchStep,
    new_status: SqlFileBatchStatus,
    after: Seq<SqlFileBatchTarget>,
)
    requires
        before.len() <= usize::MAX,
        finished matches Some((index, _)) ==> index < before.len(),
        forall|j: int|
            next_target_index(finished) <= j < before.len() ==> (#[trigger] before[j]).status
                == SqlFileBatchTargetStatus::Pending,
        closed_finished_target(before, closed, finished),
        batch_step_taken(old_status, closed, next_target_index(finished), cancelled, step, new_status, after),
    ensures
        step matches SqlFileBatchStep::Run(k) ==> {
            &&& !cancelled
            &&& k == next_target_index(finished)
            &&& after.len() == before.len()
            &&& after[k as int].status == SqlFileBatchTargetStatus::Running
            &&& forall|j: int| 0 <= j < before.len() && j != k ==> #[trigger] after[j] == closed[j]
            &&& forall|j: int| k < j < before.len() ==> (#[trigger] after[j]).status == SqlFileBatchTargetStatus::Pending
        },
        step is Finish && !cancelled ==> next_target_index(finished) >= before.len(),
        cancelled ==> step is Finish && count_status(after, SqlFileBatchTargetStatus::Pending) == 0,
{
    let next = next_target_index(finished);
    assert(closed.len() == before.len());
    assert forall|j: int| next <= j < before.len() implies (#[trigger] closed[j]).status
        == SqlFileBatchTargetStatus::Pending by {
        assert(before[j].status == SqlFileBatchTargetStatus::Pending);
    }
    if cancelled {
        law_cancelled_batch_has_no_pending_target(closed, after);
    } else if next < closed.len() {
        assert(after == started(closed, next));
        assert forall|j: int| 0 <= j < before.len() && j != next implies #[trigger] after[j] == closed[j] by {}
        assert forall|j: int| next < j < before.len() implies (#[trigger] after[j]).status
            == SqlFileBatchTargetStatus::Pending by {
            assert(after[j] == closed[j]);
            assert(closed[j].status == SqlFileBatchTargetStatus::Pending);
        }
    }
}

/// The largest SQL file that is executed: 200 MiB.
pub const MAX_SQL_FILE_BYTES: u64 = 209_715_200;

/// A SQL file larger than the limit is refused with its size and the limit.
pub fn sql_file_size_error(size_bytes: u64) -> (r: Option<String>)
    ensures
        size_bytes <= MAX_SQL_FILE_BYTES ==> r is None,
        size_bytes > MAX_SQL_FILE_BYTES ==> (r matches Some(m) && m@ == "File too large: "@ + decimal(
            size_bytes as nat,
        ) + " bytes (max "@ + decimal(MAX_SQL_FILE_BYTES as nat) + " bytes)"@),
{
    if size_bytes <= MAX_SQL_FILE_BYTES {
        return None;
    }
    let size = decimal_string(size_bytes);
    let limit = decimal_string(MAX_SQL_FILE_BYTES);
    let mut m = concat3("File too large: ", size.as_str(), " bytes (max ");
    string_push_str(&mut m, limit.as_str());
    string_push_str(&mut m, " bytes)");
    Some(m)
}

/// Positions of `created`, newest first; batches created at the same time
/// keep their order.
pub open spec fn is_newest_first_order(order: Seq<usize>, created: Seq<u64>) -> bool {
    &&& crate::sort::is_permutation(order, created.len())
    &&& forall|i: int, j: int| 0 <= i < j < order.len() ==> created[#[trigger] order[i] as int] >= created[#[trigger] order[j] as int]
    &&& forall|i: int, j: int|
        0 <= i < j < order.len() && created[#[trigger] order[i] as int] == created[#[trigger] order[j] as int]
            ==> order[i] < order[j]
}

fn newest_first_order(created: &Vec<u64>) -> (order: Vec<usize>)
    ensures
        is_newest_first_order(order@, created@),
{
    let mut order: Vec<usize> = Vec::new();
    let mut k: usize = 0;
    while k < created.len()
        invariant
            k <= created@.len(),
            order@.len() == k,
            forall|i: int| 0 <= i < order@.len() ==> #[trigger] order@[i] < k,
            forall|i: int, j: int| 0 <= i < j < order@.len() ==> #[trigger] order@[i] != #[trigger] order@[j],
            forall|i: int, j: int|
                0 <= i < j < order@.len() ==> created@[#[trigger] order@[i] as int] >= created@[#[trigger] order@[j] as int],
            forall|i: int, j: int|
                0 <= i < j < order@.len() && created@[#[trigger] order@[i] as int] == created@[#[trigger] order@[j] as int]
                    ==> order@[i] < order@[j],
        decreases created@.len() - k,
    {
        let mut p = order.len();
        while p > 0 && created[order[p - 1]] < created[k]
            invariant
                p <= order@.len(),
                order@.len() == k,
                k < created@.len(),
                forall|i: int| 0 <= i < order@.len() ==> #[trigger] order@[i] < k,
                forall|i: int| p <= i < order@.len() ==> created@[#[trigger] order@[i] as int] < created@[k as int],
            decreases p,
        {
            p -= 1;
        }
        let ghost old_order = order@;
        order.insert(p, k);
        proof {
            assert forall|i: int, j: int|
                0 <= i < j < order@.len() implies created@[#[trigger] order@[i] as int] >= created@[#[trigger] order@[j] as int] by {
                if i == p as int {
                    assert(order@[j] == old_order[j - 1]);
                } else if j == p as int {
                    assert(order@[i] == old_order[i]);
                    if (i as int) < p - 1 {
                        assert(created@[old_order[i] as int] >= created@[old_order[p - 1] as int]);
                    }
                } else {
                    let oi = if i < p { i } else { i - 1 };
                    let oj = if j < p { j } else { j - 1 };
                    assert(order@[i] == old_order[oi] && order@[j] == old_order[oj]);
                }
            }
            assert forall|i: int, j: int|
                0 <= i < j < order@.len() && created@[#[trigger] order@[i] as int] == created@[#[trigger] order@[j] as int]
                    implies order@[i] < order@[j] by {
                if i == p as int {
                    assert(order@[j] == old_order[j - 1]);
                } else if j == p as int {
                    assert(order@[i] == old_order[i]);
                } else {
                    let oi = if i < p { i } else { i - 1 };
                    let oj = if j < p { j } else { j - 1 };
                    assert(order@[i] == old_order[oi] && order@[j] == old_order[oj]);
                }
            }
            assert forall|i: int, j: int| 0 <= i < j < order@.len() implies #[trigger] order@[i] != #[trigger] order@[j] by {
                if i != p as int && j != p as int {
                    let oi = if i < p { i } else { i - 1 };
                    let oj = if j < p { j } else { j - 1 };
                    assert(order@[i] == old_order[oi] && order@[j] == old_order[oj]);
                } else if i == p as int {
                    assert(order@[j] == old_order[j - 1]);
                } else {
                    assert(order@[i] == old_order[i]);
                }
            }
            assert forall|i: int| 0 <= i < order@.len() implies #[trigger] order@[i] < k + 1 by {
                if i < p {
                    assert(order@[i] == old_order[i]);
                } else if i > p {
                    assert(order@[i] == old_order[i - 1]);
                }
            }
        }
        k += 1;
    }
    order
}

pub open spec fn created_times(v: Seq<SqlFileBatchSnapshot>) -> Seq<u64> {
    v.map_values(|s: SqlFileBatchSnapshot| s.created_at_ms)
}

/// Batches as they are listed: newest first; batches created at the same
/// time keep their order.
pub fn newest_first(snapshots: Vec<SqlFileBatchSnapshot>) -> (r: Vec<SqlFileBatchSnapshot>)
    ensures
        exists|order: Seq<usize>|
            #![trigger is_newest_first_order(order, created_times(snapshots@))]
            is_newest_first_order(order, created_times(snapshots@)) && crate::sort::is_arranged(
                r@,
                snapshots@,
                order,
            ),
{
    let mut created: Vec<u64> = Vec::new();
    let mut k: usize = 0;
    while k < snapshots.len()
        invariant
            k <= snapshots@.len(),
            created@ == created_times(snapshots@).take(k as int),
        decreases snapshots@.len() - k,
    {
        created.push(snapshots[k].created_at_ms);
        assert(created_times(snapshots@).take(k + 1) =~= created_times(snapshots@).take(k as int).push(
            snapshots@[k as int].created_at_ms,
        ));
        k += 1;
    }
    assert(created@ =~= created_times(snapshots@));
    let order = newest_first_order(&created);
    let ghost original = snapshots@;
    let r = crate::sort::permute(snapshots, &order);
    assert(crate::sort::is_arranged(r@, original, order@));
    r
}

/// The first of `ids` that is not among `saved`, if any.
pub open spec fn first_unsaved(ids: Seq<Seq<char>>, saved: Seq<Seq<char>>) -> Option<int> {
    if exists|k: int| 0 <= k < ids.len() && !saved.contains(ids[k]) {
        Some(
            choose|k: int|
                0 <= k < ids.len() && !saved.contains(ids[k]) && forall|j: int| 0 <= j < k ==> saved.contains(ids[j]),
        )
    } else {
        None
    }
}

proof fn lemma_first_unsaved(ids: Seq<Seq<char>>, saved: Seq<Seq<char>>, k: int)
    requires
        0 <= k < ids.len(),
        !saved.contains(ids[k]),
        forall|j: int| 0 <= j < k ==> saved.contains(ids[j]),
    ensures
        first_unsaved(ids, saved) == Some(k),
{
    let c = choose|i: int|
        0 <= i < ids.len() && !saved.contains(ids[i]) && forall|j: int| 0 <= j < i ==> saved.contains(ids[j]);
    assert(0 <= c < ids.len() && !saved.contains(ids[c]) && forall|j: int| 0 <= j < c ==> saved.contains(ids[j]));
    if c < k {
        assert(saved.contains(ids[c]));
    }
    if k < c {
        assert(saved.contains(ids[k]));
    }
}

pub(crate) fn contains_string(v: &Vec<String>, s: &str) -> (r: bool)
    ensures
        r == strings_view(v@).contains(s@),
{
    let mut k: usize = 0;
    while k < v.len()
        invariant
            k <= v@.len(),
            forall|j: int| 0 <= j < k ==> v@[j]@ != s@,
        decreases v@.len() - k,
    {
        if str_eq(v[k].as_str(), s) {
            assert(strings_view(v@)[k as int] == s@);
            return true;
        }
        k += 1;
    }
    assert forall|j: int| 0 <= j < strings_view(v@).len() implies strings_view(v@)[j] != s@ by {
        assert(strings_view(v@)[j] == v@[j]@);
    }
    false
}

/// A batch runs on saved connections only; the first other one is named.
pub fn unsaved_connection_error(connection_ids: &Vec<String>, saved_ids: &Vec<String>) -> (r: Option<String>)
    ensures
        match first_unsaved(strings_view(connection_ids@), strings_view(saved_ids@)) {
            None => r is None,
            Some(k) => r matches Some(m) && m@ == "SQL file batch connection '"@ + connection_ids@[k]@
                + "' is not a saved connection"@,
        },
{
    let ghost ids = strings_view(connection_ids@);
    let ghost saved = strings_view(saved_ids@);
    let mut k: usize = 0;
    while k < connection_ids.len()
        invariant
            k <= connection_ids@.len(),
            ids == strings_view(connection_ids@),
            saved == strings_view(saved_ids@),
            forall|j: int| 0 <= j < k ==> saved.contains(ids[j]),
        decreases connection_ids@.len() - k,
    {
        if !contains_string(saved_ids, connection_ids[k].as_str()) {
            proof {
                lemma_first_unsaved(ids, saved, k as int);
            }
            return Some(concat3("SQL file batch connection '", connection_ids[k].as_str(), "' is not a saved connection"));
        }
        k += 1;
    }
    assert(!exists|j: int| 0 <= j < ids.len() && !saved.contains(ids[j]));
    None
}

} // verus!
