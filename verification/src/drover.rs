//! The orchestrator: canonical run state, the lifecycle state machine driven
//! by worker events, completion detection, and the final run result.
//!
//! The orchestrator is the sole writer of task status, attempts and
//! blocked-by sets. Its event loop is driven from outside: each worker event
//! is applied here as one transition that also yields the side-effecting
//! calls (close a task, create a remediation task) the caller must issue to
//! the external work source.

use vstd::prelude::*;
use crate::model::{Task, TaskStatus, TaskView, count_status, task_views};
use crate::text::str_eq;
use crate::workers::{WorkerEvent, WorkerEventView};

verus! {

/// A fresh run identifier.
///
/// Relies on `uuid::Uuid::new_v4` and its `Display` form: a random
/// version-4 UUID rendered in the 36-character hyphenated format.
#[verifier::external_body]
pub fn fresh_run_id() -> (r: String)
    ensures
        r@.len() == 36,
{
    uuid::Uuid::new_v4().to_string()
}

/// Builds the canonical state for a fresh run: a newly generated run
/// identifier alongside the state over the manifest's tasks.
pub fn begin_run(tasks: Vec<Task>, now_ms: u64) -> (r: (RunState, String))
    requires
        forall|i: int, j: int|
            0 <= i < j < tasks@.len() ==> (#[trigger] tasks@[i])@.id != (#[trigger] tasks@[j])@.id,
    ensures
        r.0@.tasks == task_views(tasks@),
        r.0@.completed == 0,
        r.0@.failed == 0,
        r.0@.started_at == now_ms,
        r.0@.last_progress == now_ms,
        r.0@.remediated.len() == 0,
        r.0@.wf(),
        r.1@.len() == 36,
{
    let id = fresh_run_id();
    let state = RunState::new(tasks, now_ms);
    (state, id)
}

/// An exact success ratio: `num / den`.
#[derive(Debug, Clone, Copy, PartialEq, Eq, Structural)]
pub struct Ratio {
    pub num: u64,
    pub den: u64,
}

/// The success rate of a run: exactly one when no task was completed or
/// failed, otherwise exactly `completed / (completed + failed)`.
pub fn success_rate_ratio(completed: u32, failed: u32) -> (r: Ratio)
    ensures
        completed == 0 && failed == 0 ==> r.num == 1 && r.den == 1,
        !(completed == 0 && failed == 0) ==> r.num == completed && r.den == completed as int
            + failed as int,
{
    if completed == 0 && failed == 0 {
        Ratio { num: 1, den: 1 }
    } else {
        Ratio { num: completed as u64, den: completed as u64 + failed as u64 }
    }
}

/// Outcome of a finished run.
#[derive(Debug)]
pub struct DroverResult {
    pub success: bool,
    pub duration_ms: u64,
    pub tasks_completed: u32,
    pub tasks_failed: u32,
    pub success_rate: Ratio,
    pub blockers: Vec<String>,
}

/// A side-effecting call back to the external work source that the caller of
/// the state machine must issue.
#[derive(Debug)]
pub enum SideEffect {
    /// Close the task in the work source.
    CloseTask { task_id: String, reason: String },
    /// Create a remediation task in the work source.
    CreateRemediation { task_id: String, title: String },
}

/// Mathematical image of a `SideEffect`.
pub enum SideEffectView {
    CloseTask { task_id: Seq<char>, reason: Seq<char> },
    CreateRemediation { task_id: Seq<char>, title: Seq<char> },
}

impl View for SideEffect {
    type V = SideEffectView;

    open spec fn view(&self) -> SideEffectView {
        match self {
            SideEffect::CloseTask { task_id, reason } => SideEffectView::CloseTask {
                task_id: task_id@,
                reason: reason@,
            },
            SideEffect::CreateRemediation { task_id, title } => SideEffectView::CreateRemediation {
                task_id: task_id@,
                title: title@,
            },
        }
    }
}

/// The canonical run state: source of truth once the run starts. No task is
/// ever removed before reaching a terminal status.
#[derive(Debug)]
pub struct RunState {
    pub tasks: Vec<Task>,
    pub completed_count: u32,
    pub failed_count: u32,
    pub started_at_ms: u64,
    pub last_progress_ms: u64,
    pub remediated: Vec<String>,
}

/// Mathematical image of the run state.
pub struct RunStateView {
    pub tasks: Seq<TaskView>,
    pub completed: int,
    pub failed: int,
    pub started_at: int,
    pub last_progress: int,
    pub remediated: Seq<Seq<char>>,
}

impl View for RunState {
    type V = RunStateView;

    open spec fn view(&self) -> RunStateView {
        RunStateView {
            tasks: task_views(self.tasks@),
            completed: self.completed_count as int,
            failed: self.failed_count as int,
            started_at: self.started_at_ms as int,
            last_progress: self.last_progress_ms as int,
            remediated: self.remediated.deep_view(),
        }
    }
}

impl RunStateView {
    /// Task ids are unique within a run.
    pub open spec fn wf(self) -> bool {
        forall|i: int, j: int|
            0 <= i < j < self.tasks.len() ==> (#[trigger] self.tasks[i]).id != (
            #[trigger] self.tasks[j]).id
    }

    /// Every tracked task has reached a terminal status.
    pub open spec fn all_terminal(self) -> bool {
        forall|i: int| 0 <= i < self.tasks.len() ==> (#[trigger] self.tasks[i]).status.is_terminal()
    }
}

impl RunState {
    /// Builds the canonical state over the tasks of the manifest, with fresh
    /// counters and the clock at `now_ms`.
    pub fn new(tasks: Vec<Task>, now_ms: u64) -> (r: RunState)
        requires
            forall|i: int, j: int|
                0 <= i < j < tasks@.len() ==> (#[trigger] tasks@[i])@.id != (#[trigger] tasks@[j])@.id,
        ensures
            r@.tasks == task_views(tasks@),
            r@.completed == 0,
            r@.failed == 0,
            r@.started_at == now_ms,
            r@.last_progress == now_ms,
            r@.remediated.len() == 0,
            r@.wf(),
    {
        let r = RunState {
            tasks,
            completed_count: 0,
            failed_count: 0,
            started_at_ms: now_ms,
            last_progress_ms: now_ms,
            remediated: Vec::new(),
        };
        proof {
            assert(r@.remediated =~= Seq::<Seq<char>>::empty());
            assert forall|i: int, j: int| 0 <= i < j < r@.tasks.len() implies (
            #[trigger] r@.tasks[i]).id != (#[trigger] r@.tasks[j]).id by {
                assert(r@.tasks[i] == r.tasks@[i]@);
                assert(r@.tasks[j] == r.tasks@[j]@);
            }
        }
        r
    }

    /// The run is complete when every tracked task is terminal.
    pub fn is_complete(&self) -> (r: bool)
        ensures
            r == self@.all_terminal(),
    {
        let mut i: usize = 0;
        while i < self.tasks.len()
            invariant
                i <= self.tasks@.len(),
                forall|j: int|
                    0 <= j < i ==> (#[trigger] self@.tasks[j]).status.is_terminal(),
            decreases self.tasks@.len() - i,
        {
            let st = self.tasks[i].status;
            proof {
                assert(self@.tasks[i as int] == self.tasks@[i as int]@);
            }
            if !(st == TaskStatus::Completed || st == TaskStatus::Failed) {
                return false;
            }
            i += 1;
        }
        true
    }

    /// The ids of the tasks that sit at status `st`, in tracking order.
    pub fn ids_with_status(&self, st: TaskStatus) -> (r: Vec<String>)
        ensures
            r.deep_view() == ids_with_status_spec(self@.tasks, st),
    {
        let mut out: Vec<String> = Vec::new();
        let mut i: usize = 0;
        while i < self.tasks.len()
            invariant
                i <= self.tasks@.len(),
                out.deep_view() =~= ids_with_status_spec(self@.tasks.take(i as int), st),
            decreases self.tasks@.len() - i,
        {
            proof {
                assert(self@.tasks.take(i + 1).drop_last() =~= self@.tasks.take(i as int));
                assert(self@.tasks.take(i + 1).last() == self@.tasks[i as int]);
                assert(self@.tasks[i as int] == self.tasks@[i as int]@);
            }
            if self.tasks[i].status == st {
                out.push(self.tasks[i].id.clone());
            }
            i += 1;
        }
        proof {
            assert(self@.tasks.take(self@.tasks.len() as int) =~= self@.tasks);
        }
        out
    }

    /// The stall report: when no task is ready while some are blocked, the
    /// ids of the blocked tasks; otherwise nothing. Observational only.
    pub fn stall_report(&self) -> (r: Option<Vec<String>>)
        ensures
            match r {
                Some(ids) => {
                    &&& count_status(self@.tasks, TaskStatus::Blocked) > 0
                    &&& count_status(self@.tasks, TaskStatus::Ready) == 0
                    &&& ids.deep_view() == ids_with_status_spec(self@.tasks, TaskStatus::Blocked)
                },
                None => count_status(self@.tasks, TaskStatus::Blocked) == 0 || count_status(
                    self@.tasks,
                    TaskStatus::Ready,
                ) > 0,
            },
    {
        let stats = crate::model::calculate_stats(self.tasks.as_slice());
        if stats.blocked > 0 && stats.ready == 0 {
            Some(self.ids_with_status(TaskStatus::Blocked))
        } else {
            None
        }
    }
}

/// The ids of the tasks carrying status `st`.
pub open spec fn ids_with_status_spec(s: Seq<TaskView>, st: TaskStatus) -> Seq<Seq<char>>
    decreases s.len(),
{
    if s.len() == 0 {
        Seq::empty()
    } else {
        ids_with_status_spec(s.drop_last(), st) + if s.last().status == st {
            seq![s.last().id]
        } else {
            Seq::empty()
        }
    }
}

/// Effect of processing a `Completed` event for task id `tid` on one tracked
/// task: the completed task reaches the terminal `Completed` status; every
/// blocked task sheds `tid` from its blocked-by set and returns to `Ready`
/// once that set empties. A task already terminal is never revisited.
pub open spec fn complete_one(t: TaskView, tid: Seq<char>) -> TaskView {
    if t.id == tid && !t.status.is_terminal() {
        TaskView { status: TaskStatus::Completed, ..t }
    } else if t.status == TaskStatus::Blocked {
        let nb = t.blocked_by.filter(|b: Seq<char>| b != tid);
        TaskView {
            status: if nb.len() == 0 {
                TaskStatus::Ready
            } else {
                TaskStatus::Blocked
            },
            blocked_by: nb,
            ..t
        }
    } else {
        t
    }
}

/// `complete_one` applied to every tracked task.
pub open spec fn apply_completed_tasks(s: Seq<TaskView>, tid: Seq<char>) -> Seq<TaskView> {
    Seq::new(s.len(), |i: int| complete_one(s[i], tid))
}

/// Effect of a failure event on one tracked task: a retriable failure within
/// the retry budget re-queues the task with one more attempt; otherwise the
/// task fails terminally. Attempts never exceed the budget, and a terminal
/// task is never revisited.
pub open spec fn fail_one(t: TaskView, tid: Seq<char>, err: Seq<char>, retriable: bool, max: int) -> TaskView {
    if t.id == tid && !t.status.is_terminal() {
        TaskView {
            attempts: if t.attempts < max {
                (t.attempts + 1) as nat
            } else {
                t.attempts
            },
            status: if retriable && t.attempts < max {
                TaskStatus::Ready
            } else {
                TaskStatus::Failed
            },
            last_error: Some(err),
            ..t
        }
    } else {
        t
    }
}

/// `fail_one` applied to every tracked task.
pub open spec fn apply_failed_tasks(
    s: Seq<TaskView>,
    tid: Seq<char>,
    err: Seq<char>,
    retriable: bool,
    max: int,
) -> Seq<TaskView> {
    Seq::new(s.len(), |i: int| fail_one(s[i], tid, err, retriable, max))
}

/// The failure event sends some tracked task to the terminal `Failed`
/// status.
pub open spec fn fails_permanently(s: Seq<TaskView>, tid: Seq<char>, retriable: bool, max: int) -> bool {
    exists|i: int|
        0 <= i < s.len() && (#[trigger] s[i]).id == tid && !s[i].status.is_terminal() && !(
        retriable && s[i].attempts < max)
}

/// Effect of a blocked event on one tracked task: the named task records its
/// blockers and enters `Blocked`; a terminal task is never revisited.
pub open spec fn block_one(t: TaskView, tid: Seq<char>, bs: Seq<Seq<char>>) -> TaskView {
    if t.id == tid && !t.status.is_terminal() {
        TaskView { status: TaskStatus::Blocked, blocked_by: bs, ..t }
    } else {
        t
    }
}

/// `block_one` applied to every tracked task.
pub open spec fn apply_blocked_tasks(s: Seq<TaskView>, tid: Seq<char>, bs: Seq<Seq<char>>) -> Seq<
    TaskView,
> {
    Seq::new(s.len(), |i: int| block_one(s[i], tid, bs))
}

/// The id of the remediation task for a blocker: a fixed prefix and the
/// first characters of the blocker id.
pub open spec fn remediation_task_id(b: Seq<char>) -> Seq<char> {
    "drover-fix-"@ + b.take(if b.len() < 8 {
        b.len() as int
    } else {
        8
    })
}

/// The synthetic remediation task auto-created for blocker `b`: ready at a
/// fixed high priority, carrying the distinguishing label.
pub open spec fn remediation_task(b: Seq<char>) -> TaskView {
    TaskView {
        id: remediation_task_id(b),
        title: "Fix: "@ + b,
        description: Some("Auto-created by Drover to unblock dependent tasks.\n\nBlocker: "@ + b),
        priority: 100,
        status: TaskStatus::Ready,
        parent_epic: None,
        blocked_by: Seq::empty(),
        labels: seq!["drover-auto"@],
        attempts: 0,
        last_error: None,
    }
}

/// Some tracked task carries id `id`.
pub open spec fn has_task_id(s: Seq<TaskView>, id: Seq<char>) -> bool {
    exists|i: int| 0 <= i < s.len() && (#[trigger] s[i]).id == id
}

/// Inserts `t` into the tracked tasks, replacing any task of the same id.
pub open spec fn upsert_task(s: Seq<TaskView>, t: TaskView) -> Seq<TaskView> {
    if has_task_id(s, t.id) {
        Seq::new(s.len(), |i: int| if s[i].id == t.id { t } else { s[i] })
    } else {
        s.push(t)
    }
}

/// Remediates one blocker: if it was already remediated this run nothing
/// changes (the idempotency guard); otherwise its remediation task joins the
/// tracked tasks and the blocker is marked remediated.
pub open spec fn remediate_one(v: RunStateView, b: Seq<char>) -> RunStateView {
    if v.remediated.contains(b) {
        v
    } else {
        RunStateView {
            tasks: upsert_task(v.tasks, remediation_task(b)),
            remediated: v.remediated.push(b),
            ..v
        }
    }
}

/// Remediates a list of blockers in order.
pub open spec fn remediate_list(v: RunStateView, bs: Seq<Seq<char>>) -> RunStateView
    decreases bs.len(),
{
    if bs.len() == 0 {
        v
    } else {
        remediate_list(remediate_one(v, bs[0]), bs.drop_first())
    }
}

/// The blockers, in order, for which remediating the list actually creates a
/// task: those not yet remediated when their turn comes.
pub open spec fn created_list(v: RunStateView, bs: Seq<Seq<char>>) -> Seq<Seq<char>>
    decreases bs.len(),
{
    if bs.len() == 0 {
        Seq::empty()
    } else {
        (if v.remediated.contains(bs[0]) {
            Seq::empty()
        } else {
            seq![bs[0]]
        }) + created_list(remediate_one(v, bs[0]), bs.drop_first())
    }
}

/// Folding one more blocker onto the end of the list.
pub proof fn lemma_remediate_snoc(v: RunStateView, xs: Seq<Seq<char>>, x: Seq<char>)
    ensures
        remediate_list(v, xs.push(x)) == remediate_one(remediate_list(v, xs), x),
        created_list(v, xs.push(x)) == created_list(v, xs) + (if remediate_list(
            v,
            xs,
        ).remediated.contains(x) {
            Seq::<Seq<char>>::empty()
        } else {
            seq![x]
        }),
    decreases xs.len(),
{
    if xs.len() == 0 {
        reveal_with_fuel(remediate_list, 2);
        reveal_with_fuel(created_list, 2);
        assert(xs.push(x)[0] == x);
        assert(xs.push(x).drop_first() =~= Seq::<Seq<char>>::empty());
        assert(remediate_list(v, xs.push(x)) == remediate_list(
            remediate_one(v, x),
            xs.push(x).drop_first(),
        ));
        assert(remediate_list(remediate_one(v, x), xs.push(x).drop_first()) == remediate_one(v, x));
        assert(remediate_list(v, xs) == v);
        assert(created_list(v, xs.push(x)) =~= (if v.remediated.contains(x) {
            Seq::<Seq<char>>::empty()
        } else {
            seq![x]
        }));
    } else {
        assert(xs.push(x)[0] == xs[0]);
        assert(xs.push(x).drop_first() =~= xs.drop_first().push(x));
        lemma_remediate_snoc(remediate_one(v, xs[0]), xs.drop_first(), x);
        assert(created_list(v, xs.push(x)) =~= created_list(v, xs) + (if remediate_list(
            v,
            xs,
        ).remediated.contains(x) {
            Seq::<Seq<char>>::empty()
        } else {
            seq![x]
        }));
    }
}

/// The state after the orchestrator processes one worker event at time
/// `now`, with retry budget `max`: the lifecycle transition table.
pub open spec fn event_step(
    v: RunStateView,
    e: WorkerEventView,
    auto_unblock: bool,
    max: int,
    now: int,
) -> RunStateView {
    match e {
        WorkerEventView::TaskCompleted { task_id, .. } => RunStateView {
            tasks: apply_completed_tasks(v.tasks, task_id),
            completed: v.completed + 1,
            last_progress: now,
            ..v
        },
        WorkerEventView::TaskFailed { task_id, error, retriable } => RunStateView {
            tasks: apply_failed_tasks(v.tasks, task_id, error, retriable, max),
            failed: v.failed + if fails_permanently(v.tasks, task_id, retriable, max) {
                1int
            } else {
                0int
            },
            ..v
        },
        WorkerEventView::TaskBlocked { task_id, blocked_by } => {
            let v1 = RunStateView { tasks: apply_blocked_tasks(v.tasks, task_id, blocked_by), ..v };
            if auto_unblock {
                remediate_list(v1, blocked_by)
            } else {
                v1
            }
        },
        WorkerEventView::Stalled { .. } => v,
    }
}

/// The side effects processing one worker event issues to the work source.
pub open spec fn event_effects(v: RunStateView, e: WorkerEventView, auto_unblock: bool) -> Seq<
    SideEffectView,
> {
    match e {
        WorkerEventView::TaskCompleted { task_id, .. } => seq![
            SideEffectView::CloseTask { task_id: task_id, reason: "Completed by Drover"@ },
        ],
        WorkerEventView::TaskFailed { .. } => Seq::empty(),
        WorkerEventView::TaskBlocked { task_id, blocked_by } => {
            if auto_unblock {
                let v1 = RunStateView {
                    tasks: apply_blocked_tasks(v.tasks, task_id, blocked_by),
                    ..v
                };
                created_list(v1, blocked_by).map_values(
                    |b: Seq<char>|
                        SideEffectView::CreateRemediation {
                            task_id: remediation_task_id(b),
                            title: b,
                        },
                )
            } else {
                Seq::empty()
            }
        },
        WorkerEventView::Stalled { .. } => Seq::empty(),
    }
}

/// Removes every occurrence of `needle` from a list of ids.
fn filter_out_id(v: &Vec<String>, needle: &str) -> (r: Vec<String>)
    ensures
        r.deep_view() == v.deep_view().filter(|b: Seq<char>| b != needle@),
{
    let ghost dv = v.deep_view();
    let mut r: Vec<String> = Vec::new();
    let mut i: usize = 0;
    while i < v.len()
        invariant
            i <= v@.len(),
            dv == v.deep_view(),
            dv.len() == v@.len(),
            r.deep_view() =~= dv.take(i as int).filter(|b: Seq<char>| b != needle@),
        decreases v@.len() - i,
    {
        proof {
            assert(dv.take(i + 1).drop_last() =~= dv.take(i as int));
            assert(dv.take(i + 1).last() == dv[i as int]);
            reveal(Seq::filter);
        }
        if !str_eq(v[i].as_str(), needle) {
            r.push(v[i].clone());
            proof {
                assert(r.deep_view() =~= dv.take(i + 1).filter(|b: Seq<char>| b != needle@));
            }
        } else {
            proof {
                assert(r.deep_view() =~= dv.take(i + 1).filter(|b: Seq<char>| b != needle@));
            }
        }
        i += 1;
    }
    proof {
        assert(dv.take(dv.len() as int) =~= dv);
    }
    r
}

/// Applies `complete_one` to every task of the vector.
fn complete_tasks_exec(tasks: &mut Vec<Task>, tid: &str)
    ensures
        task_views(final(tasks)@) == apply_completed_tasks(task_views(old(tasks)@), tid@),
{
    let ghost orig = task_views(old(tasks)@);
    let ghost target = apply_completed_tasks(orig, tid@);
    let n = tasks.len();
    let mut i: usize = 0;
    while i < n
        invariant
            n == tasks@.len(),
            orig.len() == n,
            target.len() == n,
            target == apply_completed_tasks(orig, tid@),
            forall|k: int|
                0 <= k < n ==> task_views(tasks@)[k] == if k < i {
                    target[k]
                } else {
                    orig[k]
                },
        decreases n - i,
    {
        let ghost before = tasks@;
        proof {
            assert(task_views(tasks@)[i as int] == tasks@[i as int]@);
            assert(tasks@[i as int]@ == orig[i as int]);
        }
        let is_target = str_eq(tasks[i].id.as_str(), tid);
        let st = tasks[i].status;
        let terminal = st == TaskStatus::Completed || st == TaskStatus::Failed;
        if is_target && !terminal {
            let mut t = tasks[i].clone();
            t.status = TaskStatus::Completed;
            tasks.set(i, t);
            proof {
                assert(tasks@[i as int]@ == target[i as int]);
            }
        } else if st == TaskStatus::Blocked {
            let mut t = tasks[i].clone();
            t.blocked_by = filter_out_id(&t.blocked_by, tid);
            t.status = if t.blocked_by.len() == 0 {
                TaskStatus::Ready
            } else {
                TaskStatus::Blocked
            };
            tasks.set(i, t);
            proof {
                assert(tasks@[i as int]@ == target[i as int]);
            }
        } else {
            proof {
                assert(target[i as int] == orig[i as int]);
            }
        }
        proof {
            assert forall|k: int| 0 <= k < n implies task_views(tasks@)[k] == (if k < i + 1 {
                target[k]
            } else {
                orig[k]
            }) by {
                assert(task_views(tasks@)[k] == tasks@[k]@);
                if k != i {
                    assert(tasks@[k] == before[k]);
                    assert(task_views(before)[k] == before[k]@);
                }
            }
        }
        i += 1;
    }
    proof {
        assert(task_views(tasks@) =~= target);
    }
}

/// Applies `fail_one` to every task of the vector, reporting whether some
/// task failed permanently.
fn fail_tasks_exec(tasks: &mut Vec<Task>, tid: &str, err: &str, retriable: bool, max: u32) -> (hit:
    bool)
    ensures
        task_views(final(tasks)@) == apply_failed_tasks(
            task_views(old(tasks)@),
            tid@,
            err@,
            retriable,
            max as int,
        ),
        hit == fails_permanently(task_views(old(tasks)@), tid@, retriable, max as int),
{
    let ghost orig = task_views(old(tasks)@);
    let ghost target = apply_failed_tasks(orig, tid@, err@, retriable, max as int);
    let n = tasks.len();
    let mut hit = false;
    let mut i: usize = 0;
    while i < n
        invariant
            n == tasks@.len(),
            i <= n,
            orig.len() == n,
            target.len() == n,
            target == apply_failed_tasks(orig, tid@, err@, retriable, max as int),
            forall|k: int|
                0 <= k < n ==> task_views(tasks@)[k] == if k < i {
                    target[k]
                } else {
                    orig[k]
                },
            hit == exists|k: int|
                0 <= k < i && (#[trigger] orig[k]).id == tid@ && !orig[k].status.is_terminal() && !(
                retriable && orig[k].attempts < max),
        decreases n - i,
    {
        let ghost before = tasks@;
        proof {
            assert(task_views(tasks@)[i as int] == tasks@[i as int]@);
            assert(tasks@[i as int]@ == orig[i as int]);
        }
        let is_target = str_eq(tasks[i].id.as_str(), tid);
        let st = tasks[i].status;
        let terminal = st == TaskStatus::Completed || st == TaskStatus::Failed;
        if is_target && !terminal {
            let mut t = tasks[i].clone();
            if t.attempts < max {
                t.attempts = t.attempts + 1;
            }
            if retriable && tasks[i].attempts < max {
                t.status = TaskStatus::Ready;
            } else {
                t.status = TaskStatus::Failed;
                hit = true;
            }
            t.last_error = Some(err.to_owned());
            tasks.set(i, t);
            proof {
                assert(tasks@[i as int]@ == target[i as int]);
            }
        } else {
            proof {
                assert(target[i as int] == orig[i as int]);
            }
        }
        proof {
            assert forall|k: int| 0 <= k < n implies task_views(tasks@)[k] == (if k < i + 1 {
                target[k]
            } else {
                orig[k]
            }) by {
                assert(task_views(tasks@)[k] == tasks@[k]@);
                if k != i {
                    assert(tasks@[k] == before[k]);
                    assert(task_views(before)[k] == before[k]@);
                }
            }
        }
        i += 1;
    }
    proof {
        assert(task_views(tasks@) =~= target);
        assert(hit == fails_permanently(orig, tid@, retriable, max as int));
    }
    hit
}

/// Applies `block_one` to every task of the vector.
fn block_tasks_exec(tasks: &mut Vec<Task>, tid: &str, bs: &Vec<String>)
    ensures
        task_views(final(tasks)@) == apply_blocked_tasks(
            task_views(old(tasks)@),
            tid@,
            bs.deep_view(),
        ),
{
    let ghost orig = task_views(old(tasks)@);
    let ghost target = apply_blocked_tasks(orig, tid@, bs.deep_view());
    let n = tasks.len();
    let mut i: usize = 0;
    while i < n
        invariant
            n == tasks@.len(),
            orig.len() == n,
            target.len() == n,
            target == apply_blocked_tasks(orig, tid@, bs.deep_view()),
            forall|k: int|
                0 <= k < n ==> task_views(tasks@)[k] == if k < i {
                    target[k]
                } else {
                    orig[k]
                },
        decreases n - i,
    {
        let ghost before = tasks@;
        proof {
            assert(task_views(tasks@)[i as int] == tasks@[i as int]@);
            assert(tasks@[i as int]@ == orig[i as int]);
        }
        let is_target = str_eq(tasks[i].id.as_str(), tid);
        let st = tasks[i].status;
        let terminal = st == TaskStatus::Completed || st == TaskStatus::Failed;
        if is_target && !terminal {
            let mut t = tasks[i].clone();
            t.status = TaskStatus::Blocked;
            t.blocked_by = crate::model::clone_strings(bs);
            tasks.set(i, t);
            proof {
                assert(tasks@[i as int]@ == target[i as int]);
            }
        } else {
            proof {
                assert(target[i as int] == orig[i as int]);
            }
        }
        proof {
            assert forall|k: int| 0 <= k < n implies task_views(tasks@)[k] == (if k < i + 1 {
                target[k]
            } else {
                orig[k]
            }) by {
                assert(task_views(tasks@)[k] == tasks@[k]@);
                if k != i {
                    assert(tasks@[k] == before[k]);
                    assert(task_views(before)[k] == before[k]@);
                }
            }
        }
        i += 1;
    }
    proof {
        assert(task_views(tasks@) =~= target);
    }
}

impl RunState {
    /// Remediates one blocker id: unless that blocker was already remediated
    /// this run, tracks a fresh remediation task for it, marks the blocker
    /// remediated, and asks for the task's creation in the work source.
    pub fn create_unblock_task(&mut self, blocker: &str) -> (r: Option<SideEffect>)
        requires
            old(self)@.wf(),
        ensures
            final(self)@ == remediate_one(old(self)@, blocker@),
            final(self)@.wf(),
            match r {
                Some(e) => !old(self)@.remediated.contains(blocker@) && e@
                    == (SideEffectView::CreateRemediation {
                    task_id: remediation_task_id(blocker@),
                    title: blocker@,
                }),
                None => old(self)@.remediated.contains(blocker@),
            },
    {
        let ghost v = self@;
        if crate::text::contains_string(&self.remediated, blocker) {
            return None;
        }
        proof {
            assert(!v.remediated.contains(blocker@));
        }
        let blen = blocker.unicode_len();
        let cut = if blen < 8 {
            blen
        } else {
            8
        };
        let mut task_id = "drover-fix-".to_owned();
        task_id.append(blocker.substring_char(0, cut));
        proof {
            assert(blocker@.subrange(0, cut as int) =~= blocker@.take(cut as int));
            assert(task_id@ == remediation_task_id(blocker@));
        }
        let mut title = "Fix: ".to_owned();
        title.append(blocker);
        let mut description = "Auto-created by Drover to unblock dependent tasks.\n\nBlocker: "
            .to_owned();
        description.append(blocker);
        let mut labels: Vec<String> = Vec::new();
        labels.push("drover-auto".to_owned());
        let task = Task {
            id: task_id.clone(),
            title,
            description: Some(description),
            priority: 100,
            status: TaskStatus::Ready,
            parent_epic: None,
            blocked_by: Vec::new(),
            labels,
            attempts: 0,
            last_error: None,
        };
        proof {
            assert(task@.labels =~= seq!["drover-auto"@]);
            assert(task@.blocked_by =~= Seq::<Seq<char>>::empty());
            assert(task@ == remediation_task(blocker@));
        }

        // replace a task of the same id, as a map insert would; else append
        let mut found: Option<usize> = None;
        let mut i: usize = 0;
        while i < self.tasks.len()
            invariant
                v == self@,
                i <= self.tasks@.len(),
                match found {
                    None => forall|k: int| 0 <= k < i ==> (#[trigger] v.tasks[k]).id != task_id@,
                    Some(f) => f < i && v.tasks[f as int].id == task_id@ && forall|k: int|
                        0 <= k < f ==> (#[trigger] v.tasks[k]).id != task_id@,
                },
            decreases self.tasks@.len() - i,
        {
            proof {
                assert(v.tasks[i as int] == self.tasks@[i as int]@);
            }
            if found.is_none() && str_eq(self.tasks[i].id.as_str(), task_id.as_str()) {
                found = Some(i);
            }
            i += 1;
        }
        let ghost tv = task@;
        let ghost before = self.tasks@;
        match found {
            Some(f) => {
                self.tasks.set(f, task);
                proof {
                    assert(v.tasks[f as int].id == tv.id);
                    assert(has_task_id(v.tasks, tv.id));
                    let up = upsert_task(v.tasks, tv);
                    assert(up.len() == v.tasks.len());
                    assert forall|k: int| 0 <= k < v.tasks.len() implies task_views(self.tasks@)[k]
                        == up[k] by {
                        assert(task_views(self.tasks@)[k] == self.tasks@[k]@);
                        if k == f as int {
                        } else {
                            assert(self.tasks@[k] == before[k]);
                            assert(task_views(before)[k] == before[k]@);
                            assert(before[k]@ == v.tasks[k]);
                            if v.tasks[k].id == tv.id {
                                if k < f as int {
                                    assert(v.tasks[k].id != v.tasks[f as int].id);
                                } else {
                                    assert(v.tasks[f as int].id != v.tasks[k].id);
                                }
                            }
                        }
                    }
                    assert(task_views(self.tasks@) =~= up);
                    assert forall|x: int, y: int|
                        0 <= x < y < self@.tasks.len() implies (#[trigger] self@.tasks[x]).id != (
                    #[trigger] self@.tasks[y]).id by {
                        assert(self@.tasks[x].id == v.tasks[x].id);
                        assert(self@.tasks[y].id == v.tasks[y].id);
                    }
                }
            },
            None => {
                self.tasks.push(task);
                proof {
                    assert forall|k: int|
                        0 <= k < v.tasks.len() implies (#[trigger] v.tasks[k]).id != tv.id by {}
                    assert(!has_task_id(v.tasks, tv.id));
                    assert forall|k: int| 0 <= k < self.tasks@.len() implies task_views(
                        self.tasks@,
                    )[k] == v.tasks.push(tv)[k] by {
                        assert(task_views(self.tasks@)[k] == self.tasks@[k]@);
                        if k < before.len() {
                            assert(self.tasks@[k] == before[k]);
                            assert(task_views(before)[k] == before[k]@);
                        }
                    }
                    assert(task_views(self.tasks@) =~= upsert_task(v.tasks, tv));
                    assert forall|x: int, y: int|
                        0 <= x < y < self@.tasks.len() implies (#[trigger] self@.tasks[x]).id != (
                    #[trigger] self@.tasks[y]).id by {
                        if y < v.tasks.len() {
                            assert(self@.tasks[x].id == v.tasks[x].id);
                            assert(self@.tasks[y].id == v.tasks[y].id);
                        } else {
                            assert(self@.tasks[y] == tv);
                            assert(self@.tasks[x].id == v.tasks[x].id);
                        }
                    }
                }
            },
        }
        self.remediated.push(blocker.to_owned());
        proof {
            assert(self@.remediated =~= v.remediated.push(blocker@));
            assert(self@ == remediate_one(v, blocker@));
        }
        Some(
            SideEffect::CreateRemediation {
                task_id,
                title: blocker.to_owned(),
            },
        )
    }

    /// Processes one worker event through the lifecycle transition table at
    /// time `now_ms` and returns the side effects to issue: a completion
    /// closes the task and may unblock others; a failure consumes retry
    /// budget or fails the task; a blocked outcome records the blockers and,
    /// with auto-unblock on, remediates each one not yet remediated; a stall
    /// event changes nothing.
    pub fn handle_event(
        &mut self,
        event: WorkerEvent,
        auto_unblock: bool,
        max_task_attempts: u32,
        now_ms: u64,
    ) -> (effects: Vec<SideEffect>)
        requires
            old(self)@.wf(),
            old(self)@.completed < u32::MAX,
            old(self)@.failed < u32::MAX,
        ensures
            final(self)@.wf(),
            final(self)@ == event_step(
                old(self)@,
                event@,
                auto_unblock,
                max_task_attempts as int,
                now_ms as int,
            ),
            effects@.map_values(|e: SideEffect| e@) == event_effects(
                old(self)@,
                event@,
                auto_unblock,
            ),
    {
        let ghost v = self@;
        let ghost ev = event@;
        let mut effects: Vec<SideEffect> = Vec::new();
        match event {
            WorkerEvent::TaskCompleted { task_id, duration_ms: _ } => {
                complete_tasks_exec(&mut self.tasks, task_id.as_str());
                self.completed_count = self.completed_count + 1;
                self.last_progress_ms = now_ms;
                effects.push(
                    SideEffect::CloseTask { task_id, reason: "Completed by Drover".to_owned() },
                );
                proof {
                    assert(effects@.map_values(|e: SideEffect| e@) =~= event_effects(
                        v,
                        ev,
                        auto_unblock,
                    ));
                    let nt = self@.tasks;
                    assert forall|x: int, y: int| 0 <= x < y < nt.len() implies (
                    #[trigger] nt[x]).id != (#[trigger] nt[y]).id by {
                        assert(nt[x].id == v.tasks[x].id);
                        assert(nt[y].id == v.tasks[y].id);
                    }
                }
            },
            WorkerEvent::TaskFailed { task_id, error, retriable } => {
                let hit = fail_tasks_exec(
                    &mut self.tasks,
                    task_id.as_str(),
                    error.as_str(),
                    retriable,
                    max_task_attempts,
                );
                if hit {
                    self.failed_count = self.failed_count + 1;
                }
                proof {
                    assert(effects@.map_values(|e: SideEffect| e@) =~= event_effects(
                        v,
                        ev,
                        auto_unblock,
                    ));
                    let nt = self@.tasks;
                    assert forall|x: int, y: int| 0 <= x < y < nt.len() implies (
                    #[trigger] nt[x]).id != (#[trigger] nt[y]).id by {
                        assert(nt[x].id == v.tasks[x].id);
                        assert(nt[y].id == v.tasks[y].id);
                    }
                }
            },
            WorkerEvent::TaskBlocked { task_id, blocked_by } => {
                block_tasks_exec(&mut self.tasks, task_id.as_str(), &blocked_by);
                let ghost v1 = RunStateView {
                    tasks: apply_blocked_tasks(v.tasks, task_id@, blocked_by.deep_view()),
                    ..v
                };
                proof {
                    assert(self@ == v1);
                    assert forall|x: int, y: int|
                        0 <= x < y < v1.tasks.len() implies (#[trigger] v1.tasks[x]).id != (
                    #[trigger] v1.tasks[y]).id by {
                        assert(v1.tasks[x].id == v.tasks[x].id);
                        assert(v1.tasks[y].id == v.tasks[y].id);
                    }
                    assert(v1.wf());
                }
                if auto_unblock {
                    let ghost bs = blocked_by.deep_view();
                    let ghost mk = |b: Seq<char>|
                        SideEffectView::CreateRemediation {
                            task_id: remediation_task_id(b),
                            title: b,
                        };
                    let mut j: usize = 0;
                    while j < blocked_by.len()
                        invariant
                            bs == blocked_by.deep_view(),
                            bs.len() == blocked_by@.len(),
                            j <= blocked_by@.len(),
                            mk == (|b: Seq<char>|
                                SideEffectView::CreateRemediation {
                                    task_id: remediation_task_id(b),
                                    title: b,
                                }),
                            self@ == remediate_list(v1, bs.take(j as int)),
                            self@.wf(),
                            effects@.map_values(|e: SideEffect| e@) =~= created_list(
                                v1,
                                bs.take(j as int),
                            ).map_values(mk),
                        decreases blocked_by@.len() - j,
                    {
                        proof {
                            assert(bs.take(j + 1) =~= bs.take(j as int).push(bs[j as int]));
                            lemma_remediate_snoc(v1, bs.take(j as int), bs[j as int]);
                            assert(blocked_by@[j as int]@ == bs[j as int]);
                        }
                        let ghost dprev = created_list(v1, bs.take(j as int));
                        match self.create_unblock_task(blocked_by[j].as_str()) {
                            Some(e) => {
                                proof {
                                    assert(!remediate_list(
                                        v1,
                                        bs.take(j as int),
                                    ).remediated.contains(bs[j as int]));
                                    assert(created_list(v1, bs.take(j + 1)) =~= dprev.push(
                                        bs[j as int],
                                    ));
                                    assert(e@ == mk(bs[j as int]));
                                }
                                let ghost eprev = effects@;
                                effects.push(e);
                                proof {
                                    assert(effects@ == eprev.push(e));
                                    let em = effects@.map_values(|e2: SideEffect| e2@);
                                    let cm = created_list(v1, bs.take(j + 1)).map_values(mk);
                                    assert(eprev.map_values(|e2: SideEffect| e2@) =~= dprev.map_values(
                                        mk,
                                    ));
                                    assert(eprev.map_values(|e2: SideEffect| e2@).len()
                                        == eprev.len());
                                    assert(dprev.map_values(mk).len() == dprev.len());
                                    assert(eprev.len() == dprev.len());
                                    assert(created_list(v1, bs.take(j + 1)) == dprev.push(
                                        bs[j as int],
                                    ));
                                    assert forall|k: int| 0 <= k < em.len() implies #[trigger] em[k]
                                        == cm[k] by {
                                        assert(em[k] == effects@[k]@);
                                        if k < eprev.len() {
                                            assert(effects@[k] == eprev[k]);
                                            assert(eprev.map_values(|e2: SideEffect| e2@)[k]
                                                == eprev[k]@);
                                        } else {
                                            assert(k == dprev.len());
                                            assert(created_list(v1, bs.take(j + 1))[k]
                                                == bs[j as int]);
                                        }
                                    }
                                    assert(em =~= cm);
                                }
                            },
                            None => {
                                proof {
                                    assert(remediate_list(
                                        v1,
                                        bs.take(j as int),
                                    ).remediated.contains(bs[j as int]));
                                    assert(created_list(v1, bs.take(j + 1)) =~= dprev);
                                }
                            },
                        }
                        proof {
                            assert(effects@.map_values(|e: SideEffect| e@) =~= created_list(
                                v1,
                                bs.take(j + 1),
                            ).map_values(mk));
                        }
                        j += 1;
                    }
                    proof {
                        assert(bs.take(bs.len() as int) =~= bs);
                    }
                }
            },
            WorkerEvent::Stalled { .. } => {},
        }
        effects
    }

    /// Computes the final result of the run at time `now_ms`: the counters,
    /// the exact success rate, the deduplicated union of the blockers of the
    /// still-blocked tasks, and success exactly when nothing failed and
    /// nothing remains blocked.
    pub fn compute_result(&self, now_ms: u64) -> (r: DroverResult)
        requires
            self@.started_at <= now_ms,
        ensures
            r.duration_ms == now_ms - self@.started_at,
            r.tasks_completed == self@.completed,
            r.tasks_failed == self@.failed,
            self@.completed == 0 && self@.failed == 0 ==> r.success_rate.num == 1
                && r.success_rate.den == 1,
            !(self@.completed == 0 && self@.failed == 0) ==> r.success_rate.num == self@.completed
                && r.success_rate.den == self@.completed + self@.failed,
            r.blockers.deep_view() == blockers_union(self@.tasks),
            r.success == (self@.failed == 0 && blockers_union(self@.tasks).len() == 0),
    {
        let ghost tv = self@.tasks;
        let mut blockers: Vec<String> = Vec::new();
        let mut i: usize = 0;
        while i < self.tasks.len()
            invariant
                tv == self@.tasks,
                tv.len() == self.tasks@.len(),
                i <= self.tasks@.len(),
                blockers.deep_view() =~= dedup_append(
                    Seq::<Seq<char>>::empty(),
                    blocked_concat(tv.take(i as int)),
                ),
            decreases self.tasks@.len() - i,
        {
            proof {
                assert(tv.take(i + 1).drop_last() =~= tv.take(i as int));
                assert(tv.take(i + 1).last() == tv[i as int]);
                assert(tv[i as int] == self.tasks@[i as int]@);
            }
            if self.tasks[i].status == TaskStatus::Blocked {
                let ghost base = blocked_concat(tv.take(i as int));
                let bb = &self.tasks[i].blocked_by;
                let ghost bv = bb.deep_view();
                let mut j: usize = 0;
                while j < bb.len()
                    invariant
                        bv == bb.deep_view(),
                        bv.len() == bb@.len(),
                        j <= bb@.len(),
                        blockers.deep_view() =~= dedup_append(
                            Seq::<Seq<char>>::empty(),
                            base + bv.take(j as int),
                        ),
                    decreases bb@.len() - j,
                {
                    proof {
                        assert(base + bv.take(j + 1) =~= (base + bv.take(j as int)).push(
                            bv[j as int],
                        ));
                        lemma_dedup_append_concat(
                            Seq::<Seq<char>>::empty(),
                            base + bv.take(j as int),
                            seq![bv[j as int]],
                        );
                        assert((base + bv.take(j as int)) + seq![bv[j as int]] =~= (base + bv.take(
                            j as int,
                        )).push(bv[j as int]));
                        assert(bb@[j as int]@ == bv[j as int]);
                    }
                    if !crate::text::contains_string(&blockers, bb[j].as_str()) {
                        blockers.push(bb[j].clone());
                    }
                    proof {
                        reveal_with_fuel(dedup_append, 2);
                        let d = dedup_append(
                            Seq::<Seq<char>>::empty(),
                            base + bv.take(j as int),
                        );
                        assert(seq![bv[j as int]].drop_first() =~= Seq::<Seq<char>>::empty());
                        assert(dedup_append(d, seq![bv[j as int]]) == if d.contains(bv[j as int]) {
                            d
                        } else {
                            d.push(bv[j as int])
                        });
                        assert(blockers.deep_view() =~= dedup_append(
                            Seq::<Seq<char>>::empty(),
                            base + bv.take(j + 1),
                        ));
                    }
                    j += 1;
                }
                proof {
                    assert(bv.take(bv.len() as int) =~= bv);
                    assert(blocked_concat(tv.take(i + 1)) =~= base + bv);
                }
            } else {
                proof {
                    assert(blocked_concat(tv.take(i + 1)) =~= blocked_concat(tv.take(i as int))
                        + Seq::<Seq<char>>::empty());
                    assert(blocked_concat(tv.take(i + 1)) =~= blocked_concat(tv.take(i as int)));
                }
            }
            i += 1;
        }
        proof {
            assert(tv.take(tv.len() as int) =~= tv);
        }
        let success_rate = success_rate_ratio(self.completed_count, self.failed_count);
        let success = self.failed_count == 0 && blockers.len() == 0;
        proof {
            assert(blockers.deep_view().len() == blockers@.len());
        }
        DroverResult {
            success,
            duration_ms: now_ms - self.started_at_ms,
            tasks_completed: self.completed_count,
            tasks_failed: self.failed_count,
            success_rate,
            blockers,
        }
    }
}

/// The blocked-by ids of the still-blocked tasks, concatenated in tracking
/// order.
pub open spec fn blocked_concat(s: Seq<TaskView>) -> Seq<Seq<char>>
    decreases s.len(),
{
    if s.len() == 0 {
        Seq::empty()
    } else {
        blocked_concat(s.drop_last()) + if s.last().status == TaskStatus::Blocked {
            s.last().blocked_by
        } else {
            Seq::empty()
        }
    }
}

/// Appends `xs` to `acc`, keeping only first occurrences.
pub open spec fn dedup_append(acc: Seq<Seq<char>>, xs: Seq<Seq<char>>) -> Seq<Seq<char>>
    decreases xs.len(),
{
    if xs.len() == 0 {
        acc
    } else {
        dedup_append(
            if acc.contains(xs[0]) {
                acc
            } else {
                acc.push(xs[0])
            },
            xs.drop_first(),
        )
    }
}

/// Deduplicating a concatenation processes its parts in turn.
pub proof fn lemma_dedup_append_concat(acc: Seq<Seq<char>>, xs: Seq<Seq<char>>, ys: Seq<Seq<char>>)
    ensures
        dedup_append(acc, xs + ys) == dedup_append(dedup_append(acc, xs), ys),
    decreases xs.len(),
{
    if xs.len() == 0 {
        assert(xs + ys =~= ys);
    } else {
        assert((xs + ys)[0] == xs[0]);
        assert((xs + ys).drop_first() =~= xs.drop_first() + ys);
        lemma_dedup_append_concat(
            if acc.contains(xs[0]) {
                acc
            } else {
                acc.push(xs[0])
            },
            xs.drop_first(),
            ys,
        );
    }
}

/// The deduplicated union of the blocked-by ids of the still-blocked tasks.
pub open spec fn blockers_union(s: Seq<TaskView>) -> Seq<Seq<char>> {
    dedup_append(Seq::empty(), blocked_concat(s))
}

/// Retry budgeting: a retriable failure with one attempt left re-queues the
/// task at the full budget; one more failure is terminal; attempts never
/// exceed the budget.
pub proof fn lemma_retry_budget(t: TaskView, tid: Seq<char>, err: Seq<char>, max: int)
    requires
        t.id == tid,
        !t.status.is_terminal(),
        max >= 1,
    ensures
        t.attempts == max - 1 ==> fail_one(t, tid, err, true, max).status == TaskStatus::Ready
            && fail_one(t, tid, err, true, max).attempts == max,
        t.attempts == max ==> fail_one(t, tid, err, true, max).status == TaskStatus::Failed
            && fail_one(t, tid, err, true, max).attempts == max,
        t.attempts <= max ==> fail_one(t, tid, err, true, max).attempts <= max && fail_one(
            t,
            tid,
            err,
            false,
            max,
        ).attempts <= max,
{
}

/// A terminal status is never revisited, and the attempt counter never
/// decreases: each per-task transition leaves a completed or failed task
/// untouched and only ever raises `attempts`.
pub proof fn lemma_terminal_never_revisited(
    t: TaskView,
    tid: Seq<char>,
    err: Seq<char>,
    retriable: bool,
    max: int,
    bs: Seq<Seq<char>>,
)
    ensures
        t.status.is_terminal() ==> complete_one(t, tid) == t,
        t.status.is_terminal() ==> fail_one(t, tid, err, retriable, max) == t,
        t.status.is_terminal() ==> block_one(t, tid, bs) == t,
        complete_one(t, tid).attempts >= t.attempts,
        fail_one(t, tid, err, retriable, max).attempts >= t.attempts,
        block_one(t, tid, bs).attempts >= t.attempts,
{
}

/// Unblocking: when the sole blocker of a blocked task completes, the task
/// returns to `Ready` with an empty blocked-by set.
pub proof fn lemma_unblock_on_completion(t: TaskView, tid: Seq<char>)
    requires
        t.status == TaskStatus::Blocked,
        t.id != tid,
        t.blocked_by == seq![tid],
    ensures
        complete_one(t, tid).status == TaskStatus::Ready,
        complete_one(t, tid).blocked_by.len() == 0,
{
    reveal_with_fuel(Seq::filter, 2);
    assert(t.blocked_by.drop_last() =~= Seq::<Seq<char>>::empty());
    assert(t.blocked_by.last() == tid);
    assert(t.blocked_by.filter(|b: Seq<char>| b != tid) =~= Seq::<Seq<char>>::empty());
}

/// Remediation happens at most once per blocker per run: remediating a
/// blocker marks it, and remediating a marked blocker changes nothing and
/// creates nothing.
pub proof fn lemma_remediation_once(v: RunStateView, b: Seq<char>)
    ensures
        remediate_one(v, b).remediated.contains(b),
        remediate_one(remediate_one(v, b), b) == remediate_one(v, b),
        v.remediated.contains(b) ==> remediate_one(v, b) == v,
{
    if !v.remediated.contains(b) {
        assert(v.remediated.push(b)[v.remediated.len() as int] == b);
    }
}

/// Across a whole list of blockers, each distinct blocker yields at most one
/// creation: the created blockers are pairwise distinct, and none was
/// already remediated.
pub proof fn lemma_created_distinct(v: RunStateView, bs: Seq<Seq<char>>)
    ensures
        forall|x: int, y: int|
            0 <= x < y < created_list(v, bs).len() ==> created_list(v, bs)[x] != created_list(
                v,
                bs,
            )[y],
        forall|x: int|
            0 <= x < created_list(v, bs).len() ==> !v.remediated.contains(
                #[trigger] created_list(v, bs)[x],
            ),
    decreases bs.len(),
{
    if bs.len() > 0 {
        let b0 = bs[0];
        let v1 = remediate_one(v, b0);
        lemma_created_distinct(v1, bs.drop_first());
        lemma_remediation_once(v, b0);
        let rest = created_list(v1, bs.drop_first());
        if v.remediated.contains(b0) {
            assert(created_list(v, bs) =~= rest);
            assert forall|x: int| 0 <= x < created_list(v, bs).len() implies !v.remediated.contains(
                #[trigger] created_list(v, bs)[x],
            ) by {
                assert(created_list(v, bs)[x] == rest[x]);
                assert(!v1.remediated.contains(rest[x]));
            }
        } else {
            assert(created_list(v, bs) =~= seq![b0] + rest);
            assert(v1.remediated == v.remediated.push(b0));
            assert forall|x: int| 0 <= x < rest.len() implies rest[x] != b0
                && !v.remediated.contains(rest[x]) by {
                assert(!v1.remediated.contains(rest[x]));
                if rest[x] == b0 {
                    assert(v1.remediated[v.remediated.len() as int] == b0);
                    assert(v1.remediated.contains(b0));
                }
                if v.remediated.contains(rest[x]) {
                    let k = choose|k: int|
                        0 <= k < v.remediated.len() && v.remediated[k] == rest[x];
                    assert(v1.remediated[k] == rest[x]);
                    assert(v1.remediated.contains(rest[x]));
                }
            }
            assert forall|x: int, y: int|
                0 <= x < y < created_list(v, bs).len() implies created_list(v, bs)[x]
                != created_list(v, bs)[y] by {
                if x == 0 {
                    assert(created_list(v, bs)[y] == rest[y - 1]);
                } else {
                    assert(created_list(v, bs)[x] == rest[x - 1]);
                    assert(created_list(v, bs)[y] == rest[y - 1]);
                }
            }
        }
    }
}

/// Whether the time since the last observed progress exceeds the stall
/// threshold.
pub fn stall_exceeded(now_ms: u64, last_progress_ms: u64, threshold_secs: u64) -> (r: bool)
    requires
        last_progress_ms <= now_ms,
    ensures
        r == (now_ms - last_progress_ms > threshold_secs * 1000),
{
    let elapsed: u128 = (now_ms - last_progress_ms) as u128;
    elapsed > (threshold_secs as u128) * 1000
}

} // verus!
