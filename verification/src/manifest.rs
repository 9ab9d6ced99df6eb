//! The work manifest: the snapshot of epics and standalone tasks built once
//! from the items the external work source reports, with its aggregate
//! counts, and the derived project status.

use vstd::prelude::*;
use crate::model::{
    BeadItem, BeadItemView, Task, TaskStatus, TaskView, calculate_stats, count_status,
    progress_pct, task_of_item, task_views,
};
use crate::text::{dec_digits, str_eq, usize_to_dec};

verus! {

/// A grouping of related tasks with derived aggregate progress, in percent.
#[derive(Debug)]
pub struct Epic {
    pub id: String,
    pub title: String,
    pub tasks: Vec<Task>,
    pub progress: u32,
}

/// Mathematical image of an `Epic`.
pub struct EpicView {
    pub id: Seq<char>,
    pub title: Seq<char>,
    pub tasks: Seq<TaskView>,
    pub progress: int,
}

impl View for Epic {
    type V = EpicView;

    open spec fn view(&self) -> EpicView {
        EpicView {
            id: self.id@,
            title: self.title@,
            tasks: task_views(self.tasks@),
            progress: self.progress as int,
        }
    }
}

/// The snapshot of all work taken at run start.
#[derive(Debug)]
pub struct WorkManifest {
    pub epics: Vec<Epic>,
    pub standalone_tasks: Vec<Task>,
    pub total_tasks: usize,
    pub ready_tasks: usize,
    pub blocked_tasks: usize,
    pub completed_tasks: usize,
}

/// Mathematical image of a `WorkManifest`.
pub struct WorkManifestView {
    pub epics: Seq<EpicView>,
    pub standalone_tasks: Seq<TaskView>,
    pub total_tasks: int,
    pub ready_tasks: int,
    pub blocked_tasks: int,
    pub completed_tasks: int,
}

impl View for WorkManifest {
    type V = WorkManifestView;

    open spec fn view(&self) -> WorkManifestView {
        WorkManifestView {
            epics: self.epics@.map_values(|e: Epic| e@),
            standalone_tasks: task_views(self.standalone_tasks@),
            total_tasks: self.total_tasks as int,
            ready_tasks: self.ready_tasks as int,
            blocked_tasks: self.blocked_tasks as int,
            completed_tasks: self.completed_tasks as int,
        }
    }
}

/// The tasks of a run of epics, concatenated in order.
pub open spec fn epics_task_views(es: Seq<EpicView>) -> Seq<TaskView>
    decreases es.len(),
{
    if es.len() == 0 {
        Seq::empty()
    } else {
        epics_task_views(es.drop_last()) + es.last().tasks
    }
}

impl WorkManifestView {
    /// Every task the manifest tracks: the epics' tasks, then the standalone
    /// ones.
    pub open spec fn all_task_views(self) -> Seq<TaskView> {
        epics_task_views(self.epics) + self.standalone_tasks
    }

    /// The aggregate counts match the tracked tasks.
    pub open spec fn wf(self) -> bool {
        &&& self.total_tasks == self.all_task_views().len()
        &&& self.ready_tasks == count_status(self.all_task_views(), TaskStatus::Ready)
        &&& self.blocked_tasks == count_status(self.all_task_views(), TaskStatus::Blocked)
        &&& self.completed_tasks == count_status(self.all_task_views(), TaskStatus::Completed)
    }
}

/// Extending a run of epics by one.
pub proof fn lemma_epics_task_views_take_succ(es: Seq<EpicView>, i: int)
    requires
        0 <= i < es.len(),
    ensures
        epics_task_views(es.take(i + 1)) == epics_task_views(es.take(i)) + es[i].tasks,
{
    assert(es.take(i + 1).drop_last() =~= es.take(i));
    assert(es.take(i + 1).last() == es[i]);
}

impl WorkManifest {
    /// Every task the manifest tracks, borrowed in order: the epics' tasks,
    /// then the standalone ones.
    pub fn all_tasks(&self) -> (r: Vec<&Task>)
        ensures
            r@.map_values(|t: &Task| t@) == self@.all_task_views(),
    {
        let mut out: Vec<&Task> = Vec::new();
        let mut i: usize = 0;
        while i < self.epics.len()
            invariant
                i <= self.epics@.len(),
                out@.map_values(|t: &Task| t@) =~= epics_task_views(self@.epics.take(i as int)),
            decreases self.epics@.len() - i,
        {
            proof {
                lemma_epics_task_views_take_succ(self@.epics, i as int);
                assert(self@.epics[i as int] == self.epics@[i as int]@);
            }
            let e = &self.epics[i];
            let ghost base = out@.map_values(|t: &Task| t@);
            let mut j: usize = 0;
            while j < e.tasks.len()
                invariant
                    j <= e.tasks@.len(),
                    base == epics_task_views(self@.epics.take(i as int)),
                    out@.map_values(|t: &Task| t@) =~= base + task_views(e.tasks@).take(j as int),
                decreases e.tasks@.len() - j,
            {
                let ghost oprev = out@;
                out.push(&e.tasks[j]);
                proof {
                    assert(task_views(e.tasks@)[j as int] == e.tasks@[j as int]@);
                    let em = out@.map_values(|t: &Task| t@);
                    let cm = base + task_views(e.tasks@).take(j + 1);
                    assert(task_views(e.tasks@).take(j + 1) =~= task_views(e.tasks@).take(
                        j as int,
                    ).push(e.tasks@[j as int]@));
                    assert(oprev.map_values(|t: &Task| t@).len() == oprev.len());
                    assert forall|k: int| 0 <= k < em.len() implies #[trigger] em[k] == cm[k] by {
                        assert(em[k] == out@[k]@);
                        if k < oprev.len() {
                            assert(out@[k] == oprev[k]);
                            assert(oprev.map_values(|t: &Task| t@)[k] == oprev[k]@);
                        }
                    }
                    assert(em =~= cm);
                }
                j += 1;
            }
            proof {
                assert(task_views(e.tasks@).take(e.tasks@.len() as int) =~= task_views(e.tasks@));
                assert(task_views(e.tasks@) == self@.epics[i as int].tasks);
            }
            i += 1;
        }
        proof {
            assert(self@.epics.take(self.epics@.len() as int) =~= self@.epics);
        }
        let ghost base = out@.map_values(|t: &Task| t@);
        let mut j: usize = 0;
        while j < self.standalone_tasks.len()
            invariant
                j <= self.standalone_tasks@.len(),
                base == epics_task_views(self@.epics),
                out@.map_values(|t: &Task| t@) =~= base + self@.standalone_tasks.take(j as int),
            decreases self.standalone_tasks@.len() - j,
        {
            let ghost oprev = out@;
            out.push(&self.standalone_tasks[j]);
            proof {
                assert(self@.standalone_tasks[j as int] == self.standalone_tasks@[j as int]@);
                let em = out@.map_values(|t: &Task| t@);
                let cm = base + self@.standalone_tasks.take(j + 1);
                assert(self@.standalone_tasks.take(j + 1) =~= self@.standalone_tasks.take(
                    j as int,
                ).push(self.standalone_tasks@[j as int]@));
                assert(oprev.map_values(|t: &Task| t@).len() == oprev.len());
                assert forall|k: int| 0 <= k < em.len() implies #[trigger] em[k] == cm[k] by {
                    assert(em[k] == out@[k]@);
                    if k < oprev.len() {
                        assert(out@[k] == oprev[k]);
                        assert(oprev.map_values(|t: &Task| t@)[k] == oprev[k]@);
                    }
                }
                assert(em =~= cm);
            }
            j += 1;
        }
        proof {
            assert(self@.standalone_tasks.take(self.standalone_tasks@.len() as int)
                =~= self@.standalone_tasks);
        }
        out
    }

    /// One line describing the run's target: the single epic, or how many
    /// epics and standalone tasks are in play.
    pub fn target_description(&self) -> (r: String)
        ensures
            r@ == target_description_spec(self@),
    {
        if self.epics.len() == 1 && self.standalone_tasks.len() == 0 {
            let mut s = "Epic: ".to_owned();
            proof {
                assert(self@.epics[0] == self.epics@[0]@);
            }
            s.append(self.epics[0].title.as_str());
            s
        } else if self.epics.len() == 0 && self.standalone_tasks.len() > 0 {
            let mut s = usize_to_dec(self.standalone_tasks.len());
            s.append(" standalone tasks");
            s
        } else {
            let mut s = usize_to_dec(self.epics.len());
            s.append(" epics, ");
            let count = usize_to_dec(self.standalone_tasks.len());
            s.append(count.as_str());
            s.append(" standalone tasks");
            s
        }
    }
}

/// The target description: the single epic's title, or the counts of epics
/// and standalone tasks.
pub open spec fn target_description_spec(m: WorkManifestView) -> Seq<char> {
    if m.epics.len() == 1 && m.standalone_tasks.len() == 0 {
        "Epic: "@ + m.epics[0].title
    } else if m.epics.len() == 0 && m.standalone_tasks.len() > 0 {
        dec_digits(m.standalone_tasks.len() as nat) + " standalone tasks"@
    } else {
        dec_digits(m.epics.len() as nat) + " epics, "@ + dec_digits(
            m.standalone_tasks.len() as nat,
        ) + " standalone tasks"@
    }
}

/// The views of a sequence of work-source items.
pub open spec fn item_views(s: Seq<BeadItem>) -> Seq<BeadItemView> {
    s.map_values(|b: BeadItem| b@)
}

/// The ids of the epic items, in order of appearance.
pub open spec fn epic_ids_of(items: Seq<BeadItemView>) -> Seq<Seq<char>>
    decreases items.len(),
{
    if items.len() == 0 {
        Seq::empty()
    } else {
        epic_ids_of(items.drop_last()) + if crate::model::is_epic_item(items.last()) {
            seq![items.last().id]
        } else {
            Seq::empty()
        }
    }
}

/// The item ingests as a task of the epic with id `eid`: it is not itself an
/// epic, and names `eid` as its parent.
pub open spec fn epic_member(b: BeadItemView, ids: Seq<Seq<char>>, eid: Seq<char>) -> bool {
    !ids.contains(b.id) && b.parent == Some(eid)
}

/// The tasks of the epic with id `eid`, ingested in item order.
pub open spec fn tasks_for_epic(
    items: Seq<BeadItemView>,
    ids: Seq<Seq<char>>,
    eid: Seq<char>,
) -> Seq<TaskView>
    decreases items.len(),
{
    if items.len() == 0 {
        Seq::empty()
    } else {
        tasks_for_epic(items.drop_last(), ids, eid) + if epic_member(items.last(), ids, eid) {
            seq![task_of_item(items.last(), None)]
        } else {
            Seq::empty()
        }
    }
}

/// The epic built for the epic item `b`, with its tasks and progress.
pub open spec fn epic_of_item(
    items: Seq<BeadItemView>,
    ids: Seq<Seq<char>>,
    b: BeadItemView,
) -> EpicView {
    let ts = tasks_for_epic(items, ids, b.id);
    EpicView { id: b.id, title: b.title, tasks: ts, progress: progress_pct(ts) }
}

/// An epic stays in the manifest while some of its tasks is not completed.
pub open spec fn epic_active(e: EpicView) -> bool {
    count_status(e.tasks, TaskStatus::Completed) < e.tasks.len()
}

/// The epics of the manifest: one per epic item among the first `n` items,
/// keeping only the active ones.
pub open spec fn epics_built(
    items: Seq<BeadItemView>,
    ids: Seq<Seq<char>>,
    n: int,
) -> Seq<EpicView>
    decreases n,
{
    if n <= 0 {
        Seq::empty()
    } else {
        epics_built(items, ids, n - 1) + if 0 <= n - 1 < items.len() && crate::model::is_epic_item(
            items[n - 1],
        ) && epic_active(epic_of_item(items, ids, items[n - 1])) {
            seq![epic_of_item(items, ids, items[n - 1])]
        } else {
            Seq::empty()
        }
    }
}

/// The item ingests as a standalone task: it is not an epic, and its parent,
/// if any, is no epic either.
pub open spec fn is_standalone_item(b: BeadItemView, ids: Seq<Seq<char>>) -> bool {
    !ids.contains(b.id) && match b.parent {
        None => true,
        Some(p) => !ids.contains(p),
    }
}

/// The standalone tasks kept in the manifest, in item order: the standalone
/// items not yet completed.
pub open spec fn standalone_kept(items: Seq<BeadItemView>, ids: Seq<Seq<char>>) -> Seq<TaskView>
    decreases items.len(),
{
    if items.len() == 0 {
        Seq::empty()
    } else {
        standalone_kept(items.drop_last(), ids) + if is_standalone_item(items.last(), ids)
            && task_of_item(items.last(), None).status != TaskStatus::Completed {
            seq![task_of_item(items.last(), None)]
        } else {
            Seq::empty()
        }
    }
}

/// Whether the item ingests as a task of the epic with id `eid`.
fn epic_member_exec(b: &BeadItem, epic_ids: &Vec<String>, eid: &str) -> (r: bool)
    ensures
        r == epic_member(b@, epic_ids.deep_view(), eid@),
{
    if crate::text::contains_string(epic_ids, b.id.as_str()) {
        return false;
    }
    match &b.parent {
        Some(p) => str_eq(p.as_str(), eid),
        None => false,
    }
}

/// Builds the work manifest from the items the work source reports:
/// epics are identified first; every other item joins its parent epic when
/// that parent is an epic, and is standalone otherwise; fully completed
/// epics and completed standalone tasks are left out; the aggregate counts
/// are tallied over what remains.
pub fn assemble_manifest(items: &Vec<BeadItem>) -> (m: WorkManifest)
    ensures
        ({
            let iv = item_views(items@);
            let ids = epic_ids_of(iv);
            &&& m@.epics == epics_built(iv, ids, iv.len() as int)
            &&& m@.standalone_tasks == standalone_kept(iv, ids)
            &&& m@.wf()
        }),
{
    let ghost iv = item_views(items@);
    let n = items.len();

    // first pass: identify the epics
    let mut epic_ids: Vec<String> = Vec::new();
    let mut i: usize = 0;
    while i < n
        invariant
            n == items@.len(),
            iv == item_views(items@),
            iv.len() == n,
            i <= n,
            epic_ids.deep_view() =~= epic_ids_of(iv.take(i as int)),
        decreases n - i,
    {
        proof {
            assert(iv.take(i + 1).drop_last() =~= iv.take(i as int));
            assert(iv.take(i + 1).last() == iv[i as int]);
            assert(iv[i as int] == items@[i as int]@);
        }
        if crate::model::is_epic_item_exec(&items[i]) {
            epic_ids.push(items[i].id.clone());
        }
        proof {
            assert(epic_ids.deep_view() =~= epic_ids_of(iv.take(i + 1)));
        }
        i += 1;
    }
    proof {
        assert(iv.take(iv.len() as int) =~= iv);
    }
    let ghost ids = epic_ids_of(iv);

    // second pass: build each epic from its member items, keeping the active
    let mut epics: Vec<Epic> = Vec::new();
    let mut p: usize = 0;
    while p < n
        invariant
            n == items@.len(),
            iv == item_views(items@),
            iv.len() == n,
            p <= n,
            epic_ids.deep_view() == ids,
            ids == epic_ids_of(iv),
            epics@.map_values(|e: Epic| e@) =~= epics_built(iv, ids, p as int),
        decreases n - p,
    {
        proof {
            assert(iv[p as int] == items@[p as int]@);
        }
        if crate::model::is_epic_item_exec(&items[p]) {
            let eid = items[p].id.clone();
            let mut tasks: Vec<Task> = Vec::new();
            let mut j: usize = 0;
            while j < n
                invariant
                    n == items@.len(),
                    iv == item_views(items@),
                    iv.len() == n,
                    j <= n,
                    epic_ids.deep_view() == ids,
                    eid@ == iv[p as int].id,
                    p < n,
                    task_views(tasks@) =~= tasks_for_epic(iv.take(j as int), ids, eid@),
                decreases n - j,
            {
                proof {
                    assert(iv.take(j + 1).drop_last() =~= iv.take(j as int));
                    assert(iv.take(j + 1).last() == iv[j as int]);
                    assert(iv[j as int] == items@[j as int]@);
                }
                if epic_member_exec(&items[j], &epic_ids, eid.as_str()) {
                    tasks.push(crate::model::item_to_task(&items[j], None));
                }
                proof {
                    assert(task_views(tasks@) =~= tasks_for_epic(iv.take(j + 1), ids, eid@));
                }
                j += 1;
            }
            proof {
                assert(iv.take(iv.len() as int) =~= iv);
                assert(task_views(tasks@) =~= tasks_for_epic(iv, ids, eid@));
            }
            let stats = calculate_stats(tasks.as_slice());
            let progress = crate::model::calculate_progress(tasks.as_slice());
            let task_count = tasks.len();
            let epic = Epic { id: eid, title: items[p].title.clone(), tasks, progress };
            proof {
                assert(epic@ == epic_of_item(iv, ids, iv[p as int]));
                crate::model::lemma_count_status_le(epic@.tasks, TaskStatus::Completed);
            }
            if stats.completed < task_count {
                let ghost eprev = epics@;
                epics.push(epic);
                proof {
                    assert(epic_active(epic_of_item(iv, ids, iv[p as int])));
                    let em = epics@.map_values(|e: Epic| e@);
                    let cm = epics_built(iv, ids, p + 1);
                    assert(cm =~= epics_built(iv, ids, p as int).push(
                        epic_of_item(iv, ids, iv[p as int]),
                    ));
                    assert(eprev.map_values(|e: Epic| e@).len() == eprev.len());
                    assert forall|k: int| 0 <= k < em.len() implies #[trigger] em[k] == cm[k] by {
                        assert(em[k] == epics@[k]@);
                        if k < eprev.len() {
                            assert(epics@[k] == eprev[k]);
                            assert(eprev.map_values(|e: Epic| e@)[k] == eprev[k]@);
                        }
                    }
                    assert(em =~= cm);
                }
            } else {
                proof {
                    assert(!epic_active(epic_of_item(iv, ids, iv[p as int])));
                    assert(epics_built(iv, ids, p + 1) =~= epics_built(iv, ids, p as int));
                }
            }
        } else {
            proof {
                assert(epics_built(iv, ids, p + 1) =~= epics_built(iv, ids, p as int));
            }
        }
        p += 1;
    }

    // third pass: the standalone tasks still open
    let mut standalone: Vec<Task> = Vec::new();
    let mut j: usize = 0;
    while j < n
        invariant
            n == items@.len(),
            iv == item_views(items@),
            iv.len() == n,
            j <= n,
            epic_ids.deep_view() == ids,
            task_views(standalone@) =~= standalone_kept(iv.take(j as int), ids),
        decreases n - j,
    {
        proof {
            assert(iv.take(j + 1).drop_last() =~= iv.take(j as int));
            assert(iv.take(j + 1).last() == iv[j as int]);
            assert(iv[j as int] == items@[j as int]@);
        }
        let standalone_here = if crate::text::contains_string(&epic_ids, items[j].id.as_str()) {
            false
        } else {
            match &items[j].parent {
                None => true,
                Some(par) => !crate::text::contains_string(&epic_ids, par.as_str()),
            }
        };
        if standalone_here {
            let t = crate::model::item_to_task(&items[j], None);
            if !(t.status == TaskStatus::Completed) {
                standalone.push(t);
            }
        }
        proof {
            assert(task_views(standalone@) =~= standalone_kept(iv.take(j + 1), ids));
        }
        j += 1;
    }
    proof {
        assert(iv.take(iv.len() as int) =~= iv);
        assert(task_views(standalone@) =~= standalone_kept(iv, ids));
    }

    // aggregate counts over what remains
    let mut m = WorkManifest {
        epics,
        standalone_tasks: standalone,
        total_tasks: 0,
        ready_tasks: 0,
        blocked_tasks: 0,
        completed_tasks: 0,
    };
    let all = m.all_tasks();
    let total = all.len();
    let stats = crate::model::calculate_stats_from_refs(all.as_slice());
    proof {
        assert(crate::model::ref_task_views(all@) =~= all@.map_values(|t: &Task| t@));
    }
    m.total_tasks = total;
    m.ready_tasks = stats.ready;
    m.blocked_tasks = stats.blocked;
    m.completed_tasks = stats.completed;
    m
}

/// The manifest for a single epic: that epic alone, no standalone tasks, and
/// the counts over its tasks.
pub fn epic_manifest(epic: Epic) -> (m: WorkManifest)
    ensures
        m@.epics == seq![epic@],
        m@.standalone_tasks.len() == 0,
        m@.total_tasks == epic@.tasks.len(),
        m@.wf(),
{
    let ghost ev = epic@;
    let stats = calculate_stats(epic.tasks.as_slice());
    let total = epic.tasks.len();
    let mut epics: Vec<Epic> = Vec::new();
    epics.push(epic);
    let m = WorkManifest {
        epics,
        standalone_tasks: Vec::new(),
        total_tasks: total,
        ready_tasks: stats.ready,
        blocked_tasks: stats.blocked,
        completed_tasks: stats.completed,
    };
    proof {
        assert(m@.epics =~= seq![ev]);
        assert(m@.standalone_tasks =~= Seq::<TaskView>::empty());
        assert(seq![ev].drop_last() =~= Seq::<EpicView>::empty());
        assert(epics_task_views(seq![ev].drop_last()) == Seq::<TaskView>::empty());
        assert(epics_task_views(seq![ev]) =~= ev.tasks);
        assert(m@.all_task_views() =~= ev.tasks);
    }
    m
}

/// Derived status of the whole project.
#[derive(Debug)]
pub struct ProjectStatus {
    pub total: usize,
    pub completed: usize,
    pub ready: usize,
    pub blocked: usize,
    pub failed: usize,
    /// Percentage of tracked tasks completed, rounded down; an empty
    /// manifest counts as fully complete.
    pub progress: u32,
    pub elapsed_ms: Option<u64>,
    pub eta_ms: Option<u64>,
}

/// Derives the project status from a manifest: its stored counts, the count
/// of failed tasks, and the completion percentage.
pub fn project_status(m: &WorkManifest) -> (r: ProjectStatus)
    requires
        m@.wf(),
    ensures
        r.total == m@.total_tasks,
        r.completed == m@.completed_tasks,
        r.ready == m@.ready_tasks,
        r.blocked == m@.blocked_tasks,
        r.failed == count_status(m@.all_task_views(), TaskStatus::Failed),
        m@.total_tasks > 0 ==> r.progress == m@.completed_tasks * 100 / m@.total_tasks,
        m@.total_tasks == 0 ==> r.progress == 100,
        r.elapsed_ms is None,
        r.eta_ms is None,
{
    let all = m.all_tasks();
    let ghost av = m@.all_task_views();
    let mut failed: usize = 0;
    let mut i: usize = 0;
    while i < all.len()
        invariant
            all@.map_values(|t: &Task| t@) == av,
            av.len() == all@.len(),
            i <= all@.len(),
            failed as int == count_status(av.take(i as int), TaskStatus::Failed),
        decreases all@.len() - i,
    {
        proof {
            crate::model::lemma_count_status_take_succ(av, TaskStatus::Failed, i as int);
            crate::model::lemma_count_status_le(av.take(i as int), TaskStatus::Failed);
            assert(av[i as int] == all@[i as int]@);
        }
        if all[i].status == TaskStatus::Failed {
            failed += 1;
        }
        i += 1;
    }
    proof {
        assert(av.take(av.len() as int) =~= av);
        crate::model::lemma_count_status_le(av, TaskStatus::Completed);
    }
    let progress: u32 = if m.total_tasks > 0 {
        let num: u128 = (m.completed_tasks as u128) * 100;
        let pct: u128 = num / (m.total_tasks as u128);
        proof {
            let c = m@.completed_tasks;
            let n = m@.total_tasks;
            assert(0 <= c * 100 / n <= 100) by (nonlinear_arith)
                requires
                    0 <= c <= n,
                    0 < n,
            ;
        }
        pct as u32
    } else {
        100
    };
    ProjectStatus {
        total: m.total_tasks,
        completed: m.completed_tasks,
        ready: m.ready_tasks,
        blocked: m.blocked_tasks,
        failed,
        progress,
        elapsed_ms: None,
        eta_ms: None,
    }
}

} // verus!
