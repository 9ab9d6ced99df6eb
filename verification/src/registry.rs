//! Claim registry: the shared map from worker identity to claimed task,
//! guaranteeing at most one active executor per task. The scan-and-insert of
//! `claim_task` is one critical section; callers serialize access with a lock.

use vstd::prelude::*;
use crate::model::{Task, TaskStatus, TaskView, count_status, task_views, calculate_stats};
use crate::text::str_eq;

verus! {

/// One claim: a soft, revocable association of a worker with a task.
#[derive(Debug)]
pub struct Assignment {
    pub worker: String,
    pub task_id: String,
}

/// Mathematical image of an `Assignment`.
pub struct AssignmentView {
    pub worker: Seq<char>,
    pub task_id: Seq<char>,
}

impl View for Assignment {
    type V = AssignmentView;

    open spec fn view(&self) -> AssignmentView {
        AssignmentView { worker: self.worker@, task_id: self.task_id@ }
    }
}

/// Mathematical image of the registry.
pub struct WorkerStateView {
    pub tasks: Seq<TaskView>,
    pub assignments: Seq<AssignmentView>,
}

impl WorkerStateView {
    /// Well-formedness: task ids are unique, no worker holds two claims, and
    /// no task id appears in two claims.
    pub open spec fn wf(self) -> bool {
        &&& forall|i: int, j: int|
            0 <= i < j < self.tasks.len() ==> (#[trigger] self.tasks[i]).id != (
            #[trigger] self.tasks[j]).id
        &&& forall|i: int, j: int|
            0 <= i < j < self.assignments.len() ==> (#[trigger] self.assignments[i]).worker != (
            #[trigger] self.assignments[j]).worker
        &&& forall|i: int, j: int|
            0 <= i < j < self.assignments.len() ==> (#[trigger] self.assignments[i]).task_id != (
            #[trigger] self.assignments[j]).task_id
    }

    /// Some claim is held by worker `w`.
    pub open spec fn worker_assigned(self, w: Seq<char>) -> bool {
        exists|k: int|
            0 <= k < self.assignments.len() && (#[trigger] self.assignments[k]).worker == w
    }

    /// Some claim targets task id `tid`.
    pub open spec fn id_assigned(self, tid: Seq<char>) -> bool {
        exists|k: int|
            0 <= k < self.assignments.len() && (#[trigger] self.assignments[k]).task_id == tid
    }

    /// The task at index `i` can be claimed: it is ready and unclaimed.
    pub open spec fn eligible(self, i: int) -> bool {
        &&& 0 <= i < self.tasks.len()
        &&& self.tasks[i].status == TaskStatus::Ready
        &&& !self.id_assigned(self.tasks[i].id)
    }

    /// The indices of claimable tasks.
    pub open spec fn eligible_set(self) -> Set<int> {
        Set::new(|i: int| self.eligible(i))
    }

    /// `i` is the task a claim returns: claimable, of maximal priority, and
    /// first among claimable tasks of that priority (the deterministic
    /// tie-break).
    pub open spec fn is_best_choice(self, i: int) -> bool {
        &&& self.eligible(i)
        &&& forall|j: int| #[trigger] self.eligible(j) ==> self.tasks[j].priority <= self.tasks[i].priority
        &&& forall|j: int|
            #[trigger] self.eligible(j) && self.tasks[j].priority == self.tasks[i].priority ==> i
                <= j
    }
}

/// The best choice, when one exists, is unique.
pub proof fn lemma_best_choice_unique(v: WorkerStateView, i: int, j: int)
    requires
        v.is_best_choice(i),
        v.is_best_choice(j),
    ensures
        i == j,
{
}

/// No task id is ever held by two simultaneous claims: in a well-formed
/// registry, distinct claims target distinct task ids.
pub proof fn lemma_no_double_claim(v: WorkerStateView, k1: int, k2: int)
    requires
        v.wf(),
        0 <= k1 < v.assignments.len(),
        0 <= k2 < v.assignments.len(),
        k1 != k2,
    ensures
        v.assignments[k1].task_id != v.assignments[k2].task_id,
{
}

/// Whether a claim attempt on `v` succeeds.
pub open spec fn claim_succeeds(v: WorkerStateView) -> bool {
    exists|i: int| v.is_best_choice(i)
}

/// The registry after one claim attempt by worker `w`: on success the chosen
/// task becomes assigned to `w`; on failure nothing changes.
pub open spec fn claim_step_state(v: WorkerStateView, w: Seq<char>) -> WorkerStateView {
    if claim_succeeds(v) {
        let i = choose|i: int| v.is_best_choice(i);
        WorkerStateView {
            tasks: v.tasks,
            assignments: v.assignments.push(AssignmentView { worker: w, task_id: v.tasks[i].id }),
        }
    } else {
        v
    }
}

/// How many of the successive claim attempts by `workers` succeed, starting
/// from registry state `v`.
pub open spec fn successful_claims(v: WorkerStateView, workers: Seq<Seq<char>>) -> int
    decreases workers.len(),
{
    if workers.len() == 0 {
        0
    } else if claim_succeeds(v) {
        1 + successful_claims(claim_step_state(v, workers[0]), workers.drop_first())
    } else {
        successful_claims(v, workers.drop_first())
    }
}

/// Among the first `n` tasks, if any is claimable there is a best choice
/// within that prefix.
#[verifier::rlimit(100)]
proof fn lemma_best_in_prefix(v: WorkerStateView, n: int)
    requires
        0 <= n <= v.tasks.len(),
        exists|i: int| 0 <= i < n && v.eligible(i),
    ensures
        exists|b: int|
            {
                &&& 0 <= b < n
                &&& #[trigger] v.eligible(b)
                &&& forall|j: int|
                    0 <= j < n && #[trigger] v.eligible(j) ==> v.tasks[j].priority
                        <= v.tasks[b].priority
                &&& forall|j: int|
                    0 <= j < n && #[trigger] v.eligible(j) && v.tasks[j].priority
                        == v.tasks[b].priority ==> b <= j
            },
    decreases n,
{
    let i0 = choose|i: int| 0 <= i < n && v.eligible(i);
    if exists|i: int| 0 <= i < n - 1 && v.eligible(i) {
        lemma_best_in_prefix(v, n - 1);
        let b = choose|b: int|
            {
                &&& 0 <= b < n - 1
                &&& #[trigger] v.eligible(b)
                &&& forall|j: int|
                    0 <= j < n - 1 && #[trigger] v.eligible(j) ==> v.tasks[j].priority
                        <= v.tasks[b].priority
                &&& forall|j: int|
                    0 <= j < n - 1 && #[trigger] v.eligible(j) && v.tasks[j].priority
                        == v.tasks[b].priority ==> b <= j
            };
        if v.eligible(n - 1) && v.tasks[n - 1].priority > v.tasks[b].priority {
            assert(v.eligible(n - 1));
        } else {
            assert(v.eligible(b));
        }
    } else {
        assert(i0 == n - 1);
        assert(v.eligible(n - 1));
    }
}

/// A claim succeeds exactly when some task is claimable.
pub proof fn lemma_claim_succeeds_iff_eligible(v: WorkerStateView)
    ensures
        claim_succeeds(v) <==> exists|i: int| v.eligible(i),
{
    if exists|i: int| v.eligible(i) {
        let i0 = choose|i: int| v.eligible(i);
        assert(0 <= i0 < v.tasks.len() && v.eligible(i0));
        lemma_best_in_prefix(v, v.tasks.len() as int);
        let b = choose|b: int|
            {
                &&& 0 <= b < v.tasks.len()
                &&& #[trigger] v.eligible(b)
                &&& forall|j: int|
                    0 <= j < v.tasks.len() && #[trigger] v.eligible(j) ==> v.tasks[j].priority
                        <= v.tasks[b].priority
                &&& forall|j: int|
                    0 <= j < v.tasks.len() && #[trigger] v.eligible(j) && v.tasks[j].priority
                        == v.tasks[b].priority ==> b <= j
            };
        assert forall|j: int| #[trigger] v.eligible(j) implies v.tasks[j].priority
            <= v.tasks[b].priority by {
            assert(0 <= j < v.tasks.len());
        }
        assert(v.is_best_choice(b));
    }
    if claim_succeeds(v) {
        let b = choose|i: int| v.is_best_choice(i);
        assert(v.eligible(b));
    }
}

/// The set of claimable indices is finite, bounded by the task count.
pub proof fn lemma_eligible_finite(v: WorkerStateView)
    ensures
        v.eligible_set().finite(),
        v.eligible_set().len() <= v.tasks.len(),
{
    let rng = vstd::set_lib::set_int_range(0, v.tasks.len() as int);
    vstd::set_lib::lemma_int_range(0, v.tasks.len() as int);
    assert(v.eligible_set() =~= rng.intersect(v.eligible_set()));
    vstd::set_lib::lemma_len_intersect(rng, v.eligible_set());
    assert(rng.intersect(v.eligible_set()).finite());
}

/// A successful claim removes exactly the chosen index from the claimable
/// set and preserves well-formedness.
proof fn lemma_claim_step_effect(v: WorkerStateView, w: Seq<char>)
    requires
        v.wf(),
        !v.worker_assigned(w),
        claim_succeeds(v),
    ensures
        ({
            let i = choose|i: int| v.is_best_choice(i);
            let nv = claim_step_state(v, w);
            &&& nv.wf()
            &&& nv.tasks == v.tasks
            &&& nv.eligible_set() == v.eligible_set().remove(i)
            &&& v.eligible_set().contains(i)
            &&& forall|u: Seq<char>| u != w && !v.worker_assigned(u) ==> !nv.worker_assigned(u)
        }),
{
    let i = choose|i: int| v.is_best_choice(i);
    let nv = claim_step_state(v, w);
    let va = AssignmentView { worker: w, task_id: v.tasks[i].id };
    assert(nv.assignments == v.assignments.push(va));
    assert(v.eligible(i));

    assert forall|x: int, y: int| 0 <= x < y < nv.assignments.len() implies (
    #[trigger] nv.assignments[x]).worker != (#[trigger] nv.assignments[y]).worker by {
        if y == nv.assignments.len() - 1 {
            assert(nv.assignments[x] == v.assignments[x]);
        }
    }
    assert forall|x: int, y: int| 0 <= x < y < nv.assignments.len() implies (
    #[trigger] nv.assignments[x]).task_id != (#[trigger] nv.assignments[y]).task_id by {
        if y == nv.assignments.len() - 1 {
            assert(!v.id_assigned(v.tasks[i].id));
            assert(nv.assignments[x] == v.assignments[x]);
        }
    }

    assert forall|j: int| #[trigger] nv.eligible(j) implies v.eligible_set().remove(i).contains(
        j,
    ) by {
        assert(!nv.id_assigned(nv.tasks[j].id));
        assert(nv.assignments[nv.assignments.len() - 1] == va);
        assert(nv.tasks[j].id != v.tasks[i].id);
        assert(j != i);
        assert forall|k: int|
            0 <= k < v.assignments.len() implies (#[trigger] v.assignments[k]).task_id
            != v.tasks[j].id by {
            assert(nv.assignments[k] == v.assignments[k]);
        }
        assert(v.eligible(j));
    }
    assert forall|j: int| v.eligible_set().remove(i).contains(j) implies #[trigger] nv.eligible(
        j,
    ) by {
        assert(v.eligible(j) && j != i);
        assert forall|k: int|
            0 <= k < nv.assignments.len() implies (#[trigger] nv.assignments[k]).task_id
            != nv.tasks[j].id by {
            if k < v.assignments.len() {
                assert(v.assignments[k] == nv.assignments[k]);
                assert(!v.id_assigned(v.tasks[j].id));
            } else {
                assert(nv.assignments[k] == va);
                // distinct task ids: j != i so ids differ
                if j < i {
                    assert(v.tasks[j].id != v.tasks[i].id);
                } else {
                    assert(v.tasks[i].id != v.tasks[j].id);
                }
            }
        }
    }
    assert(nv.eligible_set() =~= v.eligible_set().remove(i));

    assert forall|u: Seq<char>| u != w && !v.worker_assigned(u) implies !nv.worker_assigned(u) by {
        if nv.worker_assigned(u) {
            let k = choose|k: int|
                0 <= k < nv.assignments.len() && (#[trigger] nv.assignments[k]).worker == u;
            if k < v.assignments.len() {
                assert(v.assignments[k] == nv.assignments[k]);
            }
        }
    }
}

/// Exactly `min(W, K)` of `W` successive claim attempts by distinct, idle
/// workers succeed, where `K` is the number of claimable tasks: every attempt
/// beyond the claimable supply returns nothing.
pub proof fn lemma_exact_claim_count(v: WorkerStateView, workers: Seq<Seq<char>>)
    requires
        v.wf(),
        forall|x: int, y: int|
            0 <= x < y < workers.len() ==> #[trigger] workers[x] != #[trigger] workers[y],
        forall|k: int| 0 <= k < workers.len() ==> !v.worker_assigned(#[trigger] workers[k]),
    ensures
        successful_claims(v, workers) == vstd::math::min(
            workers.len() as int,
            v.eligible_set().len() as int,
        ),
    decreases workers.len(),
{
    lemma_eligible_finite(v);
    lemma_claim_succeeds_iff_eligible(v);
    if workers.len() == 0 {
    } else if claim_succeeds(v) {
        let w0 = workers[0];
        let i = choose|i: int| v.is_best_choice(i);
        let nv = claim_step_state(v, w0);
        lemma_claim_step_effect(v, w0);
        assert(v.eligible_set().contains(i));
        assert(nv.eligible_set().len() == v.eligible_set().len() - 1);
        assert forall|k: int| 0 <= k < workers.drop_first().len() implies !nv.worker_assigned(
            #[trigger] workers.drop_first()[k],
        ) by {
            assert(workers.drop_first()[k] == workers[k + 1]);
            assert(workers[k + 1] != workers[0]);
            assert(!v.worker_assigned(workers[k + 1]));
        }
        lemma_exact_claim_count(nv, workers.drop_first());
    } else {
        assert forall|k: int| !v.eligible(k) by {
            lemma_claim_succeeds_iff_eligible(v);
        }
        assert(v.eligible_set() =~= Set::<int>::empty());
        lemma_exact_claim_count(v, workers.drop_first());
        assert(successful_claims(v, workers.drop_first()) == 0);
    }
}

/// Shared state between the workers and the orchestrator: the task snapshot
/// and the current claims.
#[derive(Debug)]
pub struct WorkerState {
    pub tasks: Vec<Task>,
    pub current_assignments: Vec<Assignment>,
}

impl View for WorkerState {
    type V = WorkerStateView;

    open spec fn view(&self) -> WorkerStateView {
        WorkerStateView {
            tasks: task_views(self.tasks@),
            assignments: self.current_assignments@.map_values(|a: Assignment| a@),
        }
    }
}

/// The tasks with every task of id `tid` taking status `st`.
pub open spec fn set_status_seq(s: Seq<TaskView>, tid: Seq<char>, st: TaskStatus) -> Seq<TaskView> {
    Seq::new(
        s.len(),
        |i: int|
            if s[i].id == tid {
                TaskView { status: st, ..s[i] }
            } else {
                s[i]
            },
    )
}

/// Whether some current claim targets task id `id`.
fn id_assigned_exec(assignments: &Vec<Assignment>, id: &str) -> (r: bool)
    ensures
        r == exists|k: int|
            0 <= k < assignments@.len() && (#[trigger] assignments@[k])@.task_id == id@,
{
    let mut k: usize = 0;
    while k < assignments.len()
        invariant
            k <= assignments@.len(),
            forall|m: int| 0 <= m < k ==> (#[trigger] assignments@[m])@.task_id != id@,
        decreases assignments@.len() - k,
    {
        if str_eq(assignments[k].task_id.as_str(), id) {
            return true;
        }
        k += 1;
    }
    false
}

impl WorkerState {
    /// Builds the registry over the given task snapshot, with no claims held.
    pub fn new(tasks: Vec<Task>) -> (r: WorkerState)
        requires
            forall|i: int, j: int|
                0 <= i < j < tasks@.len() ==> (#[trigger] tasks@[i])@.id != (#[trigger] tasks@[j])@.id,
        ensures
            r@.tasks == task_views(tasks@),
            r@.assignments.len() == 0,
            r@.wf(),
    {
        let r = WorkerState { tasks, current_assignments: Vec::new() };
        proof {
            assert forall|i: int, j: int| 0 <= i < j < r@.tasks.len() implies (
            #[trigger] r@.tasks[i]).id != (#[trigger] r@.tasks[j]).id by {
                assert(r@.tasks[i] == r.tasks@[i]@);
                assert(r@.tasks[j] == r.tasks@[j]@);
            }
        }
        r
    }

    /// Atomically claims the best ready, unclaimed task for `worker_id`, or
    /// returns `None` exactly when no task is claimable.
    pub fn claim_task(&mut self, worker_id: &str) -> (r: Option<Task>)
        requires
            old(self)@.wf(),
            !old(self)@.worker_assigned(worker_id@),
        ensures
            final(self)@.wf(),
            final(self)@.tasks == old(self)@.tasks,
            r is Some <==> claim_succeeds(old(self)@),
            final(self)@ == claim_step_state(old(self)@, worker_id@),
            match r {
                None => {
                    &&& final(self)@ == old(self)@
                    &&& forall|i: int| !old(self)@.eligible(i)
                },
                Some(t) => {
                    &&& exists|i: int| #[trigger] old(self)@.is_best_choice(i) && t@ == old(
                        self,
                    )@.tasks[i]
                    &&& final(self)@.assignments == old(self)@.assignments.push(
                        AssignmentView { worker: worker_id@, task_id: t@.id },
                    )
                },
            },
    {
        let ghost v = self@;
        let mut best: Option<usize> = None;
        let mut i: usize = 0;
        while i < self.tasks.len()
            invariant
                *self == *old(self),
                v == self@,
                i <= self.tasks@.len(),
                v.tasks.len() == self.tasks@.len(),
                match best {
                    None => forall|j: int| 0 <= j < i ==> !v.eligible(j),
                    Some(b) => {
                        &&& b < i
                        &&& v.eligible(b as int)
                        &&& forall|j: int|
                            0 <= j < i && #[trigger] v.eligible(j) ==> v.tasks[j].priority
                                <= v.tasks[b as int].priority
                        &&& forall|j: int|
                            0 <= j < i && #[trigger] v.eligible(j) && v.tasks[j].priority
                                == v.tasks[b as int].priority ==> b as int <= j
                    },
                },
            decreases self.tasks@.len() - i,
        {
            proof {
                assert(v.tasks[i as int] == self.tasks@[i as int]@);
            }
            if self.tasks[i].status == TaskStatus::Ready && !id_assigned_exec(
                &self.current_assignments,
                self.tasks[i].id.as_str(),
            ) {
                proof {
                    assert forall|k: int|
                        0 <= k < v.assignments.len() implies (#[trigger] v.assignments[k]).task_id
                        != v.tasks[i as int].id by {
                        assert(v.assignments[k] == self.current_assignments@[k]@);
                    }
                    assert(v.eligible(i as int));
                }
                match best {
                    None => {
                        best = Some(i);
                    },
                    Some(b) => {
                        if self.tasks[i].priority > self.tasks[b].priority {
                            best = Some(i);
                        }
                    },
                }
            } else {
                proof {
                    if self.tasks[i as int].status == TaskStatus::Ready {
                        let k = choose|k: int|
                            0 <= k < self.current_assignments@.len() && (
                            #[trigger] self.current_assignments@[k])@.task_id == self.tasks@[i as int]@.id;
                        assert(v.assignments[k].task_id == v.tasks[i as int].id);
                        assert(v.id_assigned(v.tasks[i as int].id));
                    }
                    assert(!v.eligible(i as int));
                }
            }
            i += 1;
        }
        match best {
            None => {
                proof {
                    assert(forall|j: int| !v.eligible(j));
                    lemma_claim_succeeds_iff_eligible(v);
                    assert(!claim_succeeds(v));
                    assert(claim_step_state(v, worker_id@) == v);
                }
                None
            },
            Some(b) => {
                proof {
                    assert(v.is_best_choice(b as int));
                }
                let t = self.tasks[b].clone();
                let a = Assignment { worker: worker_id.to_owned(), task_id: t.id.clone() };
                self.current_assignments.push(a);
                proof {
                    let va = AssignmentView { worker: worker_id@, task_id: t@.id };
                    assert(self@.assignments =~= v.assignments.push(va));
                    assert(self@.tasks =~= v.tasks);
                    let w = self@;
                    assert forall|x: int, y: int|
                        0 <= x < y < w.assignments.len() implies (
                    #[trigger] w.assignments[x]).worker != (#[trigger] w.assignments[y]).worker by {
                        if y == w.assignments.len() - 1 {
                            assert(!v.worker_assigned(worker_id@));
                            assert(v.assignments[x] == w.assignments[x]);
                        }
                    }
                    assert forall|x: int, y: int|
                        0 <= x < y < w.assignments.len() implies (
                    #[trigger] w.assignments[x]).task_id != (#[trigger] w.assignments[y]).task_id by {
                        if y == w.assignments.len() - 1 {
                            assert(!v.id_assigned(v.tasks[b as int].id));
                            assert(v.assignments[x] == w.assignments[x]);
                        }
                    }
                    assert(claim_succeeds(v));
                    let i = choose|i: int| v.is_best_choice(i);
                    lemma_best_choice_unique(v, i, b as int);
                    assert(w == claim_step_state(v, worker_id@));
                }
                Some(t)
            },
        }
    }

    /// Drops every claim held by `worker_id`; idempotent, a no-op when the
    /// worker holds none.
    pub fn release_task(&mut self, worker_id: &str)
        ensures
            final(self)@.tasks == old(self)@.tasks,
            final(self)@.assignments == old(self)@.assignments.filter(
                |a: AssignmentView| a.worker != worker_id@,
            ),
            old(self)@.wf() ==> final(self)@.wf(),
            !final(self)@.worker_assigned(worker_id@),
    {
        let ghost v = self@;
        let mut kept: Vec<Assignment> = Vec::new();
        let mut k: usize = 0;
        while k < self.current_assignments.len()
            invariant
                v == self@,
                k <= self.current_assignments@.len(),
                kept@.map_values(|a: Assignment| a@) =~= v.assignments.take(k as int).filter(
                    |a: AssignmentView| a.worker != worker_id@,
                ),
            decreases self.current_assignments@.len() - k,
        {
            proof {
                assert(v.assignments.take(k + 1).drop_last() =~= v.assignments.take(k as int));
                assert(v.assignments.take(k + 1).last() == v.assignments[k as int]);
                reveal(Seq::filter);
            }
            if !str_eq(self.current_assignments[k].worker.as_str(), worker_id) {
                kept.push(self.current_assignments[k].clone_assignment());
                proof {
                    assert(kept@.map_values(|a: Assignment| a@) =~= v.assignments.take(
                        k + 1,
                    ).filter(|a: AssignmentView| a.worker != worker_id@));
                }
            } else {
                proof {
                    assert(kept@.map_values(|a: Assignment| a@) =~= v.assignments.take(
                        k + 1,
                    ).filter(|a: AssignmentView| a.worker != worker_id@));
                }
            }
            k += 1;
        }
        proof {
            assert(v.assignments.take(v.assignments.len() as int) =~= v.assignments);
        }
        self.current_assignments = kept;
        proof {
            let w = self@;
            let pred = |a: AssignmentView| a.worker != worker_id@;
            assert(w.assignments == v.assignments.filter(pred));
            broadcast use vstd::seq_lib::group_filter_ensures;

            if v.wf() {
                assert forall|x: int, y: int|
                    0 <= x < y < w.assignments.len() implies ((#[trigger] w.assignments[x]).worker
                    != (#[trigger] w.assignments[y]).worker && w.assignments[x].task_id
                    != w.assignments[y].task_id) by {
                    lemma_filter_still_distinct(v.assignments, pred, x, y);
                }
            }
            assert forall|k2: int|
                0 <= k2 < w.assignments.len() implies (#[trigger] w.assignments[k2]).worker
                != worker_id@ by {}
        }
    }

    /// Whether the worker currently holds a claim.
    pub fn has_claim(&self, worker_id: &str) -> (r: bool)
        ensures
            r == self@.worker_assigned(worker_id@),
    {
        let mut k: usize = 0;
        while k < self.current_assignments.len()
            invariant
                k <= self.current_assignments@.len(),
                forall|m: int|
                    0 <= m < k ==> (#[trigger] self@.assignments[m]).worker != worker_id@,
            decreases self.current_assignments@.len() - k,
        {
            proof {
                assert(self@.assignments[k as int] == self.current_assignments@[k as int]@);
            }
            if str_eq(self.current_assignments[k].worker.as_str(), worker_id) {
                return true;
            }
            k += 1;
        }
        false
    }

    /// Whether the registry tracks a task with this id.
    pub fn has_task(&self, task_id: &str) -> (r: bool)
        ensures
            r == exists|i: int|
                0 <= i < self@.tasks.len() && (#[trigger] self@.tasks[i]).id == task_id@,
    {
        let mut k: usize = 0;
        while k < self.tasks.len()
            invariant
                k <= self.tasks@.len(),
                forall|m: int| 0 <= m < k ==> (#[trigger] self@.tasks[m]).id != task_id@,
            decreases self.tasks@.len() - k,
        {
            proof {
                assert(self@.tasks[k as int] == self.tasks@[k as int]@);
            }
            if str_eq(self.tasks[k].id.as_str(), task_id) {
                return true;
            }
            k += 1;
        }
        false
    }

    /// Mirrors a status decided by the orchestrator into the registry's
    /// snapshot: every task of the given id takes the status.
    pub fn set_status(&mut self, task_id: &str, st: TaskStatus)
        ensures
            final(self)@.assignments == old(self)@.assignments,
            final(self)@.tasks == set_status_seq(old(self)@.tasks, task_id@, st),
            old(self)@.wf() ==> final(self)@.wf(),
    {
        let ghost orig = self@.tasks;
        let ghost target = set_status_seq(orig, task_id@, st);
        let n = self.tasks.len();
        let mut i: usize = 0;
        while i < n
            invariant
                n == self.tasks@.len(),
                i <= n,
                orig.len() == n,
                target.len() == n,
                target == set_status_seq(orig, task_id@, st),
                self@.assignments == old(self)@.assignments,
                forall|k: int|
                    0 <= k < n ==> self@.tasks[k] == if k < i {
                        target[k]
                    } else {
                        orig[k]
                    },
            decreases n - i,
        {
            let ghost before = self.tasks@;
            let ghost vstart = self@.tasks;
            proof {
                assert(self@.tasks[i as int] == self.tasks@[i as int]@);
                assert(self.tasks@[i as int]@ == orig[i as int]);
            }
            if str_eq(self.tasks[i].id.as_str(), task_id) {
                let mut t = self.tasks[i].clone();
                t.status = st;
                self.tasks.set(i, t);
                proof {
                    assert(self.tasks@[i as int]@ == target[i as int]);
                }
            } else {
                proof {
                    assert(target[i as int] == orig[i as int]);
                }
            }
            proof {
                assert forall|k: int| 0 <= k < n implies self@.tasks[k] == (if k < i + 1 {
                    target[k]
                } else {
                    orig[k]
                }) by {
                    assert(self@.tasks[k] == self.tasks@[k]@);
                    if k != i {
                        assert(self.tasks@[k] == before[k]);
                        assert(vstart[k] == before[k]@);
                    }
                }
                assert(self@.assignments =~= old(self)@.assignments);
            }
            i += 1;
        }
        proof {
            assert(self@.tasks =~= target);
            if old(self)@.wf() {
                assert forall|x: int, y: int| 0 <= x < y < self@.tasks.len() implies (
                #[trigger] self@.tasks[x]).id != (#[trigger] self@.tasks[y]).id by {
                    assert(self@.tasks[x].id == orig[x].id);
                    assert(self@.tasks[y].id == orig[y].id);
                }
            }
        }
    }

    /// Adds a task the orchestrator created mid-run, so that workers can
    /// claim it. Its id must be fresh.
    pub fn add_task(&mut self, task: Task)
        requires
            forall|k: int|
                0 <= k < old(self)@.tasks.len() ==> (#[trigger] old(self)@.tasks[k]).id != task@.id,
        ensures
            final(self)@.tasks == old(self)@.tasks.push(task@),
            final(self)@.assignments == old(self)@.assignments,
            old(self)@.wf() ==> final(self)@.wf(),
    {
        let ghost v = self@;
        let ghost tv = task@;
        let ghost before = self.tasks@;
        self.tasks.push(task);
        proof {
            assert forall|k: int| 0 <= k < self.tasks@.len() implies self@.tasks[k] == v.tasks.push(
                tv,
            )[k] by {
                assert(self@.tasks[k] == self.tasks@[k]@);
                if k < before.len() {
                    assert(self.tasks@[k] == before[k]);
                    assert(task_views(before)[k] == before[k]@);
                }
            }
            assert(self@.tasks =~= v.tasks.push(tv));
            assert(self@.assignments =~= v.assignments);
            if v.wf() {
                assert forall|x: int, y: int| 0 <= x < y < self@.tasks.len() implies (
                #[trigger] self@.tasks[x]).id != (#[trigger] self@.tasks[y]).id by {
                    if y < v.tasks.len() {
                        assert(self@.tasks[x].id == v.tasks[x].id);
                        assert(self@.tasks[y].id == v.tasks[y].id);
                    } else {
                        assert(self@.tasks[y] == tv);
                        assert(self@.tasks[x].id == v.tasks[x].id);
                    }
                }
            }
        }
    }

    /// Count of tasks the registry currently sees as ready.
    pub fn ready_count(&self) -> (r: usize)
        ensures
            r as int == count_status(self@.tasks, TaskStatus::Ready),
    {
        let stats = calculate_stats(self.tasks.as_slice());
        stats.ready
    }
}

impl Assignment {
    /// Copies the claim.
    pub fn clone_assignment(&self) -> (r: Assignment)
        ensures
            r@ == self@,
    {
        Assignment { worker: self.worker.clone(), task_id: self.task_id.clone() }
    }
}

/// Filtering keeps pairwise-distinct fields pairwise distinct.
proof fn lemma_filter_still_distinct(
    s: Seq<AssignmentView>,
    pred: spec_fn(AssignmentView) -> bool,
    x: int,
    y: int,
)
    requires
        forall|i: int, j: int|
            0 <= i < j < s.len() ==> (#[trigger] s[i]).worker != (#[trigger] s[j]).worker,
        forall|i: int, j: int|
            0 <= i < j < s.len() ==> (#[trigger] s[i]).task_id != (#[trigger] s[j]).task_id,
        0 <= x < y < s.len() || (0 <= x < s.filter(pred).len() && 0 <= y < s.filter(pred).len() && x
            != y),
        0 <= x < s.filter(pred).len(),
        0 <= y < s.filter(pred).len(),
        x != y,
    ensures
        s.filter(pred)[x].worker != s.filter(pred)[y].worker,
        s.filter(pred)[x].task_id != s.filter(pred)[y].task_id,
    decreases s.len(),
{
    filtered_distinct_helper(s, pred, x, y);
}

/// Each element of a filtered sequence occurs in the original, at positions
/// that respect the original order.
proof fn filtered_distinct_helper(
    s: Seq<AssignmentView>,
    pred: spec_fn(AssignmentView) -> bool,
    x: int,
    y: int,
)
    requires
        forall|i: int, j: int|
            0 <= i < j < s.len() ==> (#[trigger] s[i]).worker != (#[trigger] s[j]).worker,
        forall|i: int, j: int|
            0 <= i < j < s.len() ==> (#[trigger] s[i]).task_id != (#[trigger] s[j]).task_id,
        0 <= x < s.filter(pred).len(),
        0 <= y < s.filter(pred).len(),
        x != y,
    ensures
        s.filter(pred)[x].worker != s.filter(pred)[y].worker,
        s.filter(pred)[x].task_id != s.filter(pred)[y].task_id,
    decreases s.len(),
{
    reveal(Seq::filter);
    if s.len() > 0 {
        let f = s.filter(pred);
        let fd = s.drop_last().filter(pred);
        s.drop_last().lemma_filter_len(pred);
        if pred(s.last()) {
            assert(f == fd.push(s.last()));
            if x < f.len() - 1 && y < f.len() - 1 {
                filtered_distinct_helper(s.drop_last(), pred, x, y);
            } else {
                let z = if x == f.len() - 1 { y } else { x };
                assert(f[z] == fd[z]);
                lemma_filter_member_index(s.drop_last(), pred, z);
                let i = choose|i: int|
                    0 <= i < s.drop_last().len() && s.drop_last()[i] == fd[z] && pred(
                        #[trigger] s.drop_last()[i],
                    );
                assert(s[i] == fd[z]);
                assert(s.last() == s[s.len() - 1]);
            }
        } else {
            filtered_distinct_helper(s.drop_last(), pred, x, y);
        }
    }
}

/// Every element of a filtered sequence is an element of the original at
/// some index where the predicate holds.
proof fn lemma_filter_member_index(
    s: Seq<AssignmentView>,
    pred: spec_fn(AssignmentView) -> bool,
    z: int,
)
    requires
        0 <= z < s.filter(pred).len(),
    ensures
        exists|i: int| 0 <= i < s.len() && s[i] == s.filter(pred)[z] && pred(#[trigger] s[i]),
    decreases s.len(),
{
    reveal(Seq::filter);
    if s.len() > 0 {
        let f = s.filter(pred);
        let fd = s.drop_last().filter(pred);
        if pred(s.last()) && z == f.len() - 1 {
            assert(s[s.len() - 1] == f[z]);
        } else {
            lemma_filter_member_index(s.drop_last(), pred, z);
            let i = choose|i: int|
                0 <= i < s.drop_last().len() && s.drop_last()[i] == fd[z] && pred(
                    #[trigger] s.drop_last()[i],
                );
            assert(s[i] == f[z]);
        }
    }
}

} // verus!
