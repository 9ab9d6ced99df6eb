//! Checkpoint ledger: the record semantics of the durable store. Both
//! storage backends expose exactly these semantics; this module states them
//! over an in-memory ledger, and the run round trip is proved of them.

use vstd::prelude::*;
use crate::text::str_eq;

verus! {

/// The storage backend a database URL selects.
#[derive(Debug, Clone, Copy, PartialEq, Eq, Structural)]
pub enum DbScheme {
    Sqlite,
    Postgres,
    Unsupported,
}

/// The backend behind a database URL, by its scheme prefix.
pub open spec fn db_scheme_of(u: Seq<char>) -> DbScheme {
    if crate::text::is_prefix_of("sqlite://"@, u) {
        DbScheme::Sqlite
    } else if crate::text::is_prefix_of("postgres://"@, u) || crate::text::is_prefix_of(
        "postgresql://"@,
        u,
    ) {
        DbScheme::Postgres
    } else {
        DbScheme::Unsupported
    }
}

/// Selects the storage backend for a database URL.
pub fn database_scheme(url: &str) -> (r: DbScheme)
    ensures
        r == db_scheme_of(url@),
{
    if crate::text::starts_with_str(url, "sqlite://") {
        DbScheme::Sqlite
    } else if crate::text::starts_with_str(url, "postgres://") || crate::text::starts_with_str(
        url,
        "postgresql://",
    ) {
        DbScheme::Postgres
    } else {
        DbScheme::Unsupported
    }
}

/// The filesystem path of a sqlite URL: what follows the scheme prefix;
/// any other text is returned unchanged.
pub fn sqlite_path(url: &str) -> (r: String)
    ensures
        crate::text::is_prefix_of("sqlite://"@, url@) ==> r@ == url@.skip("sqlite://"@.len() as int),
        !crate::text::is_prefix_of("sqlite://"@, url@) ==> r@ == url@,
{
    if crate::text::starts_with_str(url, "sqlite://") {
        proof {
            reveal_strlit("sqlite://");
        }
        let n = url.unicode_len();
        url.substring_char(9, n).to_owned()
    } else {
        url.to_owned()
    }
}

/// Record of a run, as the checkpoint port reports it.
#[derive(Debug)]
pub struct RunRecord {
    pub id: String,
    pub started_at: String,
    pub completed_at: Option<String>,
    pub success: Option<bool>,
    pub tasks_total: i32,
    pub tasks_completed: i32,
    pub tasks_failed: i32,
}

/// Mathematical image of a `RunRecord`.
pub struct RunRecordView {
    pub id: Seq<char>,
    pub started_at: Seq<char>,
    pub completed_at: Option<Seq<char>>,
    pub success: Option<bool>,
    pub tasks_total: int,
    pub tasks_completed: int,
    pub tasks_failed: int,
}

impl View for RunRecord {
    type V = RunRecordView;

    open spec fn view(&self) -> RunRecordView {
        RunRecordView {
            id: self.id@,
            started_at: self.started_at@,
            completed_at: self.completed_at.deep_view(),
            success: self.success,
            tasks_total: self.tasks_total as int,
            tasks_completed: self.tasks_completed as int,
            tasks_failed: self.tasks_failed as int,
        }
    }
}

/// One stored row: the record together with the opaque manifest blob taken
/// at run start.
#[derive(Debug)]
pub struct StoredRun {
    pub record: RunRecord,
    pub manifest: String,
}

/// Mathematical image of a `StoredRun`.
pub struct StoredRunView {
    pub record: RunRecordView,
    pub manifest: Seq<char>,
}

impl View for StoredRun {
    type V = StoredRunView;

    open spec fn view(&self) -> StoredRunView {
        StoredRunView { record: self.record@, manifest: self.manifest@ }
    }
}

/// The row `start_run` records: counters at zero, no completion yet.
pub open spec fn started_row(
    id: Seq<char>,
    started_at: Seq<char>,
    tasks_total: int,
    manifest: Seq<char>,
) -> StoredRunView {
    StoredRunView {
        record: RunRecordView {
            id: id,
            started_at: started_at,
            completed_at: None,
            success: None,
            tasks_total: tasks_total,
            tasks_completed: 0,
            tasks_failed: 0,
        },
        manifest: manifest,
    }
}

/// The row after `complete_run` seals it, if it is the named run.
pub open spec fn sealed_row(
    row: StoredRunView,
    id: Seq<char>,
    completed_at: Seq<char>,
    success: bool,
    tasks_completed: int,
    tasks_failed: int,
) -> StoredRunView {
    if row.record.id == id {
        StoredRunView {
            record: RunRecordView {
                completed_at: Some(completed_at),
                success: Some(success),
                tasks_completed: tasks_completed,
                tasks_failed: tasks_failed,
                ..row.record
            },
            ..row
        }
    } else {
        row
    }
}

/// `complete_run` applied to every row.
pub open spec fn seal_rows(
    s: Seq<StoredRunView>,
    id: Seq<char>,
    completed_at: Seq<char>,
    success: bool,
    tasks_completed: int,
    tasks_failed: int,
) -> Seq<StoredRunView> {
    Seq::new(
        s.len(),
        |i: int| sealed_row(s[i], id, completed_at, success, tasks_completed, tasks_failed),
    )
}

/// The first row of the named run.
pub open spec fn find_run(s: Seq<StoredRunView>, id: Seq<char>) -> Option<StoredRunView>
    decreases s.len(),
{
    if s.len() == 0 {
        None
    } else if s[0].record.id == id {
        Some(s[0])
    } else {
        find_run(s.drop_first(), id)
    }
}

/// The in-memory ledger: rows in the order recorded.
#[derive(Debug)]
pub struct RunLedger {
    pub runs: Vec<StoredRun>,
}

/// Mathematical image of the ledger.
pub struct RunLedgerView {
    pub runs: Seq<StoredRunView>,
}

impl View for RunLedger {
    type V = RunLedgerView;

    open spec fn view(&self) -> RunLedgerView {
        RunLedgerView { runs: self.runs@.map_values(|r: StoredRun| r@) }
    }
}

impl RunLedgerView {
    /// Run ids are unique.
    pub open spec fn wf(self) -> bool {
        forall|i: int, j: int|
            0 <= i < j < self.runs.len() ==> (#[trigger] self.runs[i]).record.id != (
            #[trigger] self.runs[j]).record.id
    }

    /// A run with this id is recorded.
    pub open spec fn has_run(self, id: Seq<char>) -> bool {
        exists|i: int| 0 <= i < self.runs.len() && (#[trigger] self.runs[i]).record.id == id
    }
}

fn copy_record(r: &RunRecord) -> (c: RunRecord)
    ensures
        c@ == r@,
{
    RunRecord {
        id: r.id.clone(),
        started_at: r.started_at.clone(),
        completed_at: crate::model::clone_opt_string(&r.completed_at),
        success: r.success,
        tasks_total: r.tasks_total,
        tasks_completed: r.tasks_completed,
        tasks_failed: r.tasks_failed,
    }
}

impl RunLedger {
    /// An empty ledger.
    pub fn new() -> (r: RunLedger)
        ensures
            r@.runs.len() == 0,
            r@.wf(),
    {
        RunLedger { runs: Vec::new() }
    }

    /// Records the start of a run: the snapshot manifest, the task total,
    /// and counters at zero. The run id must be fresh, as the stores enforce
    /// through their primary key.
    pub fn start_run(
        &mut self,
        run_id: &str,
        started_at: &str,
        tasks_total: i32,
        manifest: &str,
    )
        requires
            !old(self)@.has_run(run_id@),
        ensures
            final(self)@.runs == old(self)@.runs.push(
                started_row(run_id@, started_at@, tasks_total as int, manifest@),
            ),
            old(self)@.wf() ==> final(self)@.wf(),
    {
        let ghost v = self@;
        let row = StoredRun {
            record: RunRecord {
                id: run_id.to_owned(),
                started_at: started_at.to_owned(),
                completed_at: None,
                success: None,
                tasks_total,
                tasks_completed: 0,
                tasks_failed: 0,
            },
            manifest: manifest.to_owned(),
        };
        proof {
            assert(row@ == started_row(run_id@, started_at@, tasks_total as int, manifest@));
        }
        let ghost rv = row@;
        self.runs.push(row);
        proof {
            assert(self@.runs =~= v.runs.push(rv));
            if v.wf() {
                assert forall|i: int, j: int| 0 <= i < j < self@.runs.len() implies (
                #[trigger] self@.runs[i]).record.id != (#[trigger] self@.runs[j]).record.id by {
                    if j == self@.runs.len() - 1 {
                        assert(self@.runs[i] == v.runs[i]);
                    }
                }
            }
        }
    }

    /// Seals the named run: completion time, success flag, and the final
    /// counters. A run never recorded is left untouched, as an update that
    /// matches no row.
    pub fn complete_run(
        &mut self,
        run_id: &str,
        completed_at: &str,
        success: bool,
        tasks_completed: i32,
        tasks_failed: i32,
    )
        ensures
            final(self)@.runs == seal_rows(
                old(self)@.runs,
                run_id@,
                completed_at@,
                success,
                tasks_completed as int,
                tasks_failed as int,
            ),
            old(self)@.wf() ==> final(self)@.wf(),
    {
        let ghost orig = self@.runs;
        let ghost target = seal_rows(
            orig,
            run_id@,
            completed_at@,
            success,
            tasks_completed as int,
            tasks_failed as int,
        );
        let n = self.runs.len();
        let mut i: usize = 0;
        while i < n
            invariant
                n == self.runs@.len(),
                i <= n,
                orig.len() == n,
                target.len() == n,
                target == seal_rows(
                    orig,
                    run_id@,
                    completed_at@,
                    success,
                    tasks_completed as int,
                    tasks_failed as int,
                ),
                forall|k: int|
                    0 <= k < n ==> self@.runs[k] == if k < i {
                        target[k]
                    } else {
                        orig[k]
                    },
            decreases n - i,
        {
            let ghost before = self.runs@;
            let ghost vstart = self@.runs;
            proof {
                assert(self@.runs[i as int] == self.runs@[i as int]@);
                assert(self.runs@[i as int]@ == orig[i as int]);
            }
            if str_eq(self.runs[i].record.id.as_str(), run_id) {
                let mut row = StoredRun {
                    record: copy_record(&self.runs[i].record),
                    manifest: self.runs[i].manifest.clone(),
                };
                row.record.completed_at = Some(completed_at.to_owned());
                row.record.success = Some(success);
                row.record.tasks_completed = tasks_completed;
                row.record.tasks_failed = tasks_failed;
                self.runs.set(i, row);
                proof {
                    assert(self.runs@[i as int]@ == target[i as int]);
                }
            } else {
                proof {
                    assert(target[i as int] == orig[i as int]);
                }
            }
            proof {
                assert forall|k: int| 0 <= k < n implies self@.runs[k] == (if k < i + 1 {
                    target[k]
                } else {
                    orig[k]
                }) by {
                    assert(self@.runs[k] == self.runs@[k]@);
                    if k != i {
                        assert(self.runs@[k] == before[k]);
                        assert(vstart[k] == before[k]@);
                    }
                }
            }
            i += 1;
        }
        proof {
            assert(self@.runs =~= target);
            if (RunLedgerView { runs: orig }).wf() {
                assert forall|x: int, y: int| 0 <= x < y < self@.runs.len() implies (
                #[trigger] self@.runs[x]).record.id != (#[trigger] self@.runs[y]).record.id by {
                    assert(self@.runs[x].record.id == orig[x].record.id);
                    assert(self@.runs[y].record.id == orig[y].record.id);
                }
            }
        }
    }

    /// Fetches the record of the named run, if one was recorded.
    pub fn get_run(&self, run_id: &str) -> (r: Option<RunRecord>)
        ensures
            match r {
                Some(rec) => find_run(self@.runs, run_id@) is Some && rec@ == find_run(
                    self@.runs,
                    run_id@,
                ).unwrap().record,
                None => find_run(self@.runs, run_id@) is None,
            },
    {
        let ghost full = self@.runs;
        proof {
            assert(full.skip(0) =~= full);
        }
        let mut i: usize = 0;
        while i < self.runs.len()
            invariant
                full == self@.runs,
                full.len() == self.runs@.len(),
                i <= self.runs@.len(),
                find_run(full, run_id@) == find_run(full.skip(i as int), run_id@),
            decreases self.runs@.len() - i,
        {
            proof {
                assert(full.skip(i as int)[0] == full[i as int]);
                assert(full[i as int] == self.runs@[i as int]@);
                assert(full.skip(i as int).drop_first() =~= full.skip(i + 1));
            }
            if str_eq(self.runs[i].record.id.as_str(), run_id) {
                let rec = copy_record(&self.runs[i].record);
                proof {
                    assert(find_run(full.skip(i as int), run_id@) == Some(full[i as int]));
                }
                return Some(rec);
            }
            i += 1;
        }
        proof {
            assert(full.skip(full.len() as int) =~= Seq::<StoredRunView>::empty());
        }
        None
    }

    /// All recorded runs, in the order recorded.
    pub fn list_runs(&self) -> (r: Vec<RunRecord>)
        ensures
            r@.map_values(|rec: RunRecord| rec@) == self@.runs.map_values(
                |row: StoredRunView| row.record,
            ),
    {
        let mut out: Vec<RunRecord> = Vec::new();
        let mut i: usize = 0;
        while i < self.runs.len()
            invariant
                i <= self.runs@.len(),
                out@.map_values(|rec: RunRecord| rec@) =~= self@.runs.take(i as int).map_values(
                    |row: StoredRunView| row.record,
                ),
            decreases self.runs@.len() - i,
        {
            proof {
                assert(self@.runs[i as int] == self.runs@[i as int]@);
            }
            let ghost oprev = out@;
            out.push(copy_record(&self.runs[i].record));
            proof {
                let em = out@.map_values(|rec: RunRecord| rec@);
                let cm = self@.runs.take(i + 1).map_values(|row: StoredRunView| row.record);
                assert(self@.runs.take(i + 1) =~= self@.runs.take(i as int).push(
                    self@.runs[i as int],
                ));
                assert(oprev.map_values(|rec: RunRecord| rec@).len() == oprev.len());
                assert(self@.runs.take(i as int).map_values(
                    |row: StoredRunView| row.record,
                ).len() == i);
                assert forall|k: int| 0 <= k < em.len() implies #[trigger] em[k] == cm[k] by {
                    assert(em[k] == out@[k]@);
                    if k < oprev.len() {
                        assert(out@[k] == oprev[k]);
                        assert(oprev.map_values(|rec: RunRecord| rec@)[k] == oprev[k]@);
                    } else {
                        assert(cm[k] == self@.runs[i as int].record);
                    }
                }
                assert(em =~= cm);
            }
            i += 1;
        }
        proof {
            assert(self@.runs.take(self@.runs.len() as int) =~= self@.runs);
        }
        out
    }
}

/// The round trip of a run through the checkpoint port: a run recorded by
/// `start_run` and sealed by `complete_run` is fetched by id with the same
/// task totals and counters, a present completion time, and the sealed
/// success flag.
pub proof fn lemma_run_round_trip(
    l: RunLedgerView,
    id: Seq<char>,
    started_at: Seq<char>,
    tasks_total: int,
    manifest: Seq<char>,
    completed_at: Seq<char>,
    success: bool,
    tasks_completed: int,
    tasks_failed: int,
)
    requires
        !l.has_run(id),
    ensures
        ({
            let after_start = l.runs.push(started_row(id, started_at, tasks_total, manifest));
            let after_complete = seal_rows(
                after_start,
                id,
                completed_at,
                success,
                tasks_completed,
                tasks_failed,
            );
            find_run(after_complete, id) == Some(
                StoredRunView {
                    record: RunRecordView {
                        id: id,
                        started_at: started_at,
                        completed_at: Some(completed_at),
                        success: Some(success),
                        tasks_total: tasks_total,
                        tasks_completed: tasks_completed,
                        tasks_failed: tasks_failed,
                    },
                    manifest: manifest,
                },
            )
        }),
{
    let after_start = l.runs.push(started_row(id, started_at, tasks_total, manifest));
    let after_complete = seal_rows(
        after_start,
        id,
        completed_at,
        success,
        tasks_completed,
        tasks_failed,
    );
    let n = l.runs.len() as int;
    assert forall|k: int| 0 <= k < n implies (#[trigger] after_complete[k]).record.id != id by {
        assert(after_start[k] == l.runs[k]);
        assert(after_complete[k] == sealed_row(
            l.runs[k],
            id,
            completed_at,
            success,
            tasks_completed,
            tasks_failed,
        ));
    }
    assert(after_complete[n] == sealed_row(
        started_row(id, started_at, tasks_total, manifest),
        id,
        completed_at,
        success,
        tasks_completed,
        tasks_failed,
    ));
    lemma_find_run_last(after_complete, id);
}

/// When only the last row carries the id, the scan finds exactly it.
proof fn lemma_find_run_last(s: Seq<StoredRunView>, id: Seq<char>)
    requires
        s.len() > 0,
        forall|k: int| 0 <= k < s.len() - 1 ==> (#[trigger] s[k]).record.id != id,
        s[s.len() - 1].record.id == id,
    ensures
        find_run(s, id) == Some(s[s.len() - 1]),
    decreases s.len(),
{
    if s.len() == 1 {
    } else {
        assert(s[0].record.id != id);
        let d = s.drop_first();
        assert forall|k: int| 0 <= k < d.len() - 1 implies (#[trigger] d[k]).record.id != id by {
            assert(d[k] == s[k + 1]);
        }
        assert(d[d.len() - 1] == s[s.len() - 1]);
        lemma_find_run_last(d, id);
    }
}

} // verus!
