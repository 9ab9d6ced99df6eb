//! Work model: tasks, epics, and the manifest snapshot taken at run start.

use vstd::prelude::*;
use crate::text::str_eq;

verus! {

/// Lifecycle states of a task. Only `Ready`, `Blocked`, `Completed` and
/// `Failed` are ever assigned by the orchestrator's transition logic;
/// `Claimed` and `InProgress` are reachable only through ingestion of an
/// externally tracked item.
#[derive(Debug, Clone, Copy, PartialEq, Eq, Structural)]
pub enum TaskStatus {
    Ready,
    Claimed,
    InProgress,
    Blocked,
    Completed,
    Failed,
}

impl TaskStatus {
    /// A terminal status is never revisited.
    pub open spec fn is_terminal(self) -> bool {
        self == TaskStatus::Completed || self == TaskStatus::Failed
    }
}

/// A unit of work, immutable at ingestion; mutated exclusively by the
/// orchestrator after run start.
#[derive(Debug)]
pub struct Task {
    pub id: String,
    pub title: String,
    pub description: Option<String>,
    pub priority: i32,
    pub status: TaskStatus,
    pub parent_epic: Option<String>,
    pub blocked_by: Vec<String>,
    pub labels: Vec<String>,
    pub attempts: u32,
    pub last_error: Option<String>,
}

/// Mathematical image of a `Task`.
pub struct TaskView {
    pub id: Seq<char>,
    pub title: Seq<char>,
    pub description: Option<Seq<char>>,
    pub priority: int,
    pub status: TaskStatus,
    pub parent_epic: Option<Seq<char>>,
    pub blocked_by: Seq<Seq<char>>,
    pub labels: Seq<Seq<char>>,
    pub attempts: nat,
    pub last_error: Option<Seq<char>>,
}

impl View for Task {
    type V = TaskView;

    open spec fn view(&self) -> TaskView {
        TaskView {
            id: self.id@,
            title: self.title@,
            description: self.description.deep_view(),
            priority: self.priority as int,
            status: self.status,
            parent_epic: self.parent_epic.deep_view(),
            blocked_by: self.blocked_by.deep_view(),
            labels: self.labels.deep_view(),
            attempts: self.attempts as nat,
            last_error: self.last_error.deep_view(),
        }
    }
}

/// Copies an optional string.
pub fn clone_opt_string(v: &Option<String>) -> (r: Option<String>)
    ensures
        r == *v,
        r.deep_view() == v.deep_view(),
{
    match v {
        Some(s) => Some(s.clone()),
        None => None,
    }
}

/// Copies a vector of strings.
pub fn clone_strings(v: &Vec<String>) -> (r: Vec<String>)
    ensures
        r@ == v@,
        r.deep_view() == v.deep_view(),
{
    let mut r: Vec<String> = Vec::new();
    let mut i: usize = 0;
    while i < v.len()
        invariant
            i <= v.len(),
            r@ =~= v@.take(i as int),
        decreases v.len() - i,
    {
        r.push(v[i].clone());
        i += 1;
    }
    proof {
        assert(v@.take(v@.len() as int) =~= v@);
        assert(r.deep_view() =~= v.deep_view());
    }
    r
}

impl Clone for Task {
    fn clone(&self) -> (r: Self)
        ensures
            r@ == self@,
    {
        Task {
            id: self.id.clone(),
            title: self.title.clone(),
            description: clone_opt_string(&self.description),
            priority: self.priority,
            status: self.status,
            parent_epic: clone_opt_string(&self.parent_epic),
            blocked_by: clone_strings(&self.blocked_by),
            labels: clone_strings(&self.labels),
            attempts: self.attempts,
            last_error: clone_opt_string(&self.last_error),
        }
    }
}

/// The status vocabulary of the external work source, mapped to the internal
/// statuses; any unrecognized word defaults to `Ready`.
pub open spec fn status_of_label(s: Seq<char>) -> TaskStatus {
    if s == "open"@ {
        TaskStatus::Ready
    } else if s == "in-progress"@ {
        TaskStatus::InProgress
    } else if s == "blocked"@ {
        TaskStatus::Blocked
    } else if s == "closed"@ {
        TaskStatus::Completed
    } else {
        TaskStatus::Ready
    }
}

/// Maps a work-source status word to the internal status.
pub fn status_from_str(s: &str) -> (st: TaskStatus)
    ensures
        st == status_of_label(s@),
{
    if str_eq(s, "open") {
        TaskStatus::Ready
    } else if str_eq(s, "in-progress") {
        TaskStatus::InProgress
    } else if str_eq(s, "blocked") {
        TaskStatus::Blocked
    } else if str_eq(s, "closed") {
        TaskStatus::Completed
    } else {
        TaskStatus::Ready
    }
}

/// An item as the external work source reports it, before ingestion.
pub struct BeadItem {
    pub id: String,
    pub title: String,
    pub description: Option<String>,
    pub priority: i32,
    pub status: String,
    pub parent: Option<String>,
    pub blocked_by: Vec<String>,
    pub labels: Vec<String>,
    pub is_epic: Option<bool>,
}

/// Mathematical image of a `BeadItem`.
pub struct BeadItemView {
    pub id: Seq<char>,
    pub title: Seq<char>,
    pub description: Option<Seq<char>>,
    pub priority: int,
    pub status: Seq<char>,
    pub parent: Option<Seq<char>>,
    pub blocked_by: Seq<Seq<char>>,
    pub labels: Seq<Seq<char>>,
    pub is_epic: Option<bool>,
}

impl View for BeadItem {
    type V = BeadItemView;

    open spec fn view(&self) -> BeadItemView {
        BeadItemView {
            id: self.id@,
            title: self.title@,
            description: self.description.deep_view(),
            priority: self.priority as int,
            status: self.status@,
            parent: self.parent.deep_view(),
            blocked_by: self.blocked_by.deep_view(),
            labels: self.labels.deep_view(),
            is_epic: self.is_epic,
        }
    }
}

/// The task that ingesting an item yields: fresh attempt counter, no recorded
/// error, the given parent taking precedence over the item's own.
pub open spec fn task_of_item(b: BeadItemView, parent_override: Option<Seq<char>>) -> TaskView {
    TaskView {
        id: b.id,
        title: b.title,
        description: b.description,
        priority: b.priority,
        status: status_of_label(b.status),
        parent_epic: if parent_override is Some {
            parent_override
        } else {
            b.parent
        },
        blocked_by: b.blocked_by,
        labels: b.labels,
        attempts: 0,
        last_error: None,
    }
}

impl BeadItem {
    /// Ingests the item as a task.
    pub fn into_task(self, parent_override: Option<String>) -> (r: Task)
        ensures
            r@ == task_of_item(self@, parent_override.deep_view()),
    {
        let status = status_from_str(self.status.as_str());
        Task {
            id: self.id,
            title: self.title,
            description: self.description,
            priority: self.priority,
            status,
            parent_epic: if parent_override.is_some() {
                parent_override
            } else {
                self.parent
            },
            blocked_by: self.blocked_by,
            labels: self.labels,
            attempts: 0,
            last_error: None,
        }
    }
}

/// Ingests a borrowed item as a task.
pub fn item_to_task(b: &BeadItem, parent_override: Option<String>) -> (r: Task)
    ensures
        r@ == task_of_item(b@, parent_override.deep_view()),
{
    let status = status_from_str(b.status.as_str());
    Task {
        id: b.id.clone(),
        title: b.title.clone(),
        description: clone_opt_string(&b.description),
        priority: b.priority,
        status,
        parent_epic: if parent_override.is_some() {
            parent_override
        } else {
            clone_opt_string(&b.parent)
        },
        blocked_by: clone_strings(&b.blocked_by),
        labels: clone_strings(&b.labels),
        attempts: 0,
        last_error: None,
    }
}

/// The item is an epic: flagged as one, or labelled as one.
pub open spec fn is_epic_item(b: BeadItemView) -> bool {
    b.is_epic == Some(true) || b.labels.contains("epic"@)
}

/// Whether a borrowed item is an epic.
pub fn is_epic_item_exec(b: &BeadItem) -> (r: bool)
    ensures
        r == is_epic_item(b@),
{
    let flagged = match b.is_epic {
        Some(f) => f,
        None => false,
    };
    flagged || crate::text::contains_string(&b.labels, "epic")
}

/// The views of a sequence of tasks.
pub open spec fn task_views(s: Seq<Task>) -> Seq<TaskView> {
    s.map_values(|t: Task| t@)
}

/// How many tasks of `s` carry status `st`.
pub open spec fn count_status(s: Seq<TaskView>, st: TaskStatus) -> int
    decreases s.len(),
{
    if s.len() == 0 {
        0
    } else {
        count_status(s.drop_last(), st) + if s.last().status == st {
            1int
        } else {
            0int
        }
    }
}

/// The count never exceeds the length.
pub proof fn lemma_count_status_le(s: Seq<TaskView>, st: TaskStatus)
    ensures
        0 <= count_status(s, st) <= s.len(),
    decreases s.len(),
{
    if s.len() > 0 {
        lemma_count_status_le(s.drop_last(), st);
    }
}

/// Extending a prefix by one element adjusts the count by that element.
pub proof fn lemma_count_status_take_succ(s: Seq<TaskView>, st: TaskStatus, i: int)
    requires
        0 <= i < s.len(),
    ensures
        count_status(s.take(i + 1), st) == count_status(s.take(i), st) + if s[i].status == st {
            1int
        } else {
            0int
        },
{
    assert(s.take(i + 1).drop_last() =~= s.take(i));
    assert(s.take(i + 1).last() == s[i]);
}

/// Counts of ready, blocked and completed tasks in a collection.
pub struct TaskStats {
    pub ready: usize,
    pub blocked: usize,
    pub completed: usize,
}

/// Tallies the statuses of a collection of tasks.
pub fn calculate_stats(tasks: &[Task]) -> (r: TaskStats)
    ensures
        r.ready as int == count_status(task_views(tasks@), TaskStatus::Ready),
        r.blocked as int == count_status(task_views(tasks@), TaskStatus::Blocked),
        r.completed as int == count_status(task_views(tasks@), TaskStatus::Completed),
{
    let ghost tv = task_views(tasks@);
    let mut ready: usize = 0;
    let mut blocked: usize = 0;
    let mut completed: usize = 0;
    let mut i: usize = 0;
    while i < tasks.len()
        invariant
            i <= tasks.len(),
            tv == task_views(tasks@),
            tv.len() == tasks@.len(),
            ready as int == count_status(tv.take(i as int), TaskStatus::Ready),
            blocked as int == count_status(tv.take(i as int), TaskStatus::Blocked),
            completed as int == count_status(tv.take(i as int), TaskStatus::Completed),
        decreases tasks.len() - i,
    {
        proof {
            lemma_count_status_take_succ(tv, TaskStatus::Ready, i as int);
            lemma_count_status_take_succ(tv, TaskStatus::Blocked, i as int);
            lemma_count_status_take_succ(tv, TaskStatus::Completed, i as int);
            lemma_count_status_le(tv.take(i as int), TaskStatus::Ready);
            lemma_count_status_le(tv.take(i as int), TaskStatus::Blocked);
            lemma_count_status_le(tv.take(i as int), TaskStatus::Completed);
        }
        let st = tasks[i].status;
        if st == TaskStatus::Ready {
            ready += 1;
        } else if st == TaskStatus::Blocked {
            blocked += 1;
        } else if st == TaskStatus::Completed {
            completed += 1;
        }
        i += 1;
    }
    proof {
        assert(tv.take(tasks@.len() as int) =~= tv);
    }
    TaskStats { ready, blocked, completed }
}

/// The views of a sequence of task references.
pub open spec fn ref_task_views(s: Seq<&Task>) -> Seq<TaskView> {
    s.map_values(|t: &Task| t@)
}

/// Tallies the statuses of a collection of borrowed tasks.
pub fn calculate_stats_from_refs(tasks: &[&Task]) -> (r: TaskStats)
    ensures
        r.ready as int == count_status(ref_task_views(tasks@), TaskStatus::Ready),
        r.blocked as int == count_status(ref_task_views(tasks@), TaskStatus::Blocked),
        r.completed as int == count_status(ref_task_views(tasks@), TaskStatus::Completed),
{
    let ghost tv = ref_task_views(tasks@);
    let mut ready: usize = 0;
    let mut blocked: usize = 0;
    let mut completed: usize = 0;
    let mut i: usize = 0;
    while i < tasks.len()
        invariant
            i <= tasks.len(),
            tv == ref_task_views(tasks@),
            tv.len() == tasks@.len(),
            ready as int == count_status(tv.take(i as int), TaskStatus::Ready),
            blocked as int == count_status(tv.take(i as int), TaskStatus::Blocked),
            completed as int == count_status(tv.take(i as int), TaskStatus::Completed),
        decreases tasks.len() - i,
    {
        proof {
            lemma_count_status_take_succ(tv, TaskStatus::Ready, i as int);
            lemma_count_status_take_succ(tv, TaskStatus::Blocked, i as int);
            lemma_count_status_take_succ(tv, TaskStatus::Completed, i as int);
            lemma_count_status_le(tv.take(i as int), TaskStatus::Ready);
            lemma_count_status_le(tv.take(i as int), TaskStatus::Blocked);
            lemma_count_status_le(tv.take(i as int), TaskStatus::Completed);
        }
        let st = tasks[i].status;
        if st == TaskStatus::Ready {
            ready += 1;
        } else if st == TaskStatus::Blocked {
            blocked += 1;
        } else if st == TaskStatus::Completed {
            completed += 1;
        }
        i += 1;
    }
    proof {
        assert(tv.take(tasks@.len() as int) =~= tv);
    }
    TaskStats { ready, blocked, completed }
}

/// Completion percentage of a collection of tasks, rounded down; an empty
/// collection counts as fully complete.
pub open spec fn progress_pct(s: Seq<TaskView>) -> int {
    if s.len() == 0 {
        100
    } else {
        count_status(s, TaskStatus::Completed) * 100 / s.len() as int
    }
}

/// The percentage is always within 0 and 100.
pub proof fn lemma_progress_pct_range(s: Seq<TaskView>)
    ensures
        0 <= progress_pct(s) <= 100,
{
    lemma_count_status_le(s, TaskStatus::Completed);
    if s.len() > 0 {
        let c = count_status(s, TaskStatus::Completed);
        let n = s.len() as int;
        assert(0 <= c * 100 / n <= 100) by (nonlinear_arith)
            requires
                0 <= c <= n,
                0 < n,
        ;
    }
}

/// Computes the completion percentage of `tasks`.
pub fn calculate_progress(tasks: &[Task]) -> (r: u32)
    ensures
        r as int == progress_pct(task_views(tasks@)),
{
    let ghost tv = task_views(tasks@);
    if tasks.len() == 0 {
        return 100;
    }
    let stats = calculate_stats(tasks);
    proof {
        lemma_count_status_le(tv, TaskStatus::Completed);
        lemma_progress_pct_range(tv);
    }
    let num: u128 = (stats.completed as u128) * 100;
    let pct: u128 = num / (tasks.len() as u128);
    proof {
        let c = count_status(tv, TaskStatus::Completed);
        let n = tv.len() as int;
        assert(c * 100 / n == progress_pct(tv));
    }
    pct as u32
}

} // verus!
