//! Worker-side logic: the outcome events a worker emits, the classification
//! of an execution result into exactly one event, and the extraction of
//! blocker identifiers from an error message.

use vstd::prelude::*;
use crate::text::{contains_seq, contains_str};

verus! {

/// Events emitted by workers, consumed by the orchestrator in arrival order.
#[derive(Debug)]
pub enum WorkerEvent {
    TaskCompleted { task_id: String, duration_ms: u64 },
    TaskFailed { task_id: String, error: String, retriable: bool },
    TaskBlocked { task_id: String, blocked_by: Vec<String> },
    Stalled { duration_ms: u64 },
}

/// Mathematical image of a `WorkerEvent`.
pub enum WorkerEventView {
    TaskCompleted { task_id: Seq<char>, duration_ms: int },
    TaskFailed { task_id: Seq<char>, error: Seq<char>, retriable: bool },
    TaskBlocked { task_id: Seq<char>, blocked_by: Seq<Seq<char>> },
    Stalled { duration_ms: int },
}

impl View for WorkerEvent {
    type V = WorkerEventView;

    open spec fn view(&self) -> WorkerEventView {
        match self {
            WorkerEvent::TaskCompleted { task_id, duration_ms } => WorkerEventView::TaskCompleted {
                task_id: task_id@,
                duration_ms: *duration_ms as int,
            },
            WorkerEvent::TaskFailed { task_id, error, retriable } => WorkerEventView::TaskFailed {
                task_id: task_id@,
                error: error@,
                retriable: *retriable,
            },
            WorkerEvent::TaskBlocked { task_id, blocked_by } => WorkerEventView::TaskBlocked {
                task_id: task_id@,
                blocked_by: blocked_by.deep_view(),
            },
            WorkerEvent::Stalled { duration_ms } => WorkerEventView::Stalled {
                duration_ms: *duration_ms as int,
            },
        }
    }
}

/// Configuration of the worker pool.
#[derive(Debug, Clone)]
pub struct WorkerPoolConfig {
    pub max_workers: usize,
    pub task_timeout_secs: u64,
    pub project_dir: String,
    pub worktree_dir: String,
}

/// What one invocation of the external task runner came to: an elapsed time
/// on success, or the failure's descriptive text.
#[derive(Debug)]
pub enum ExecOutcome {
    Success { duration_ms: u64 },
    Failure { error: String },
}

/// A character a blocker identifier may contain after its prefix.
pub open spec fn is_token_char(c: char) -> bool {
    ('a' as u32 <= c as u32 && c as u32 <= 'z' as u32) || ('0' as u32 <= c as u32 && c as u32
        <= '9' as u32)
}

/// The end of the run of token characters starting at `j`.
pub open spec fn token_run_end(s: Seq<char>, j: int) -> int
    decreases s.len() - j,
    when 0 <= j <= s.len()
{
    if j < s.len() && is_token_char(s[j]) {
        token_run_end(s, j + 1)
    } else {
        j
    }
}

/// The run extends to an index between `j` and the end of `s`.
pub proof fn lemma_token_run_end_bounds(s: Seq<char>, j: int)
    requires
        0 <= j <= s.len(),
    ensures
        j <= token_run_end(s, j) <= s.len(),
    decreases s.len() - j,
{
    if j < s.len() && is_token_char(s[j]) {
        lemma_token_run_end_bounds(s, j + 1);
    }
}

/// A blocker identifier begins at `i`: the prefix and at least one token
/// character.
pub open spec fn blocker_starts_at(s: Seq<char>, i: int) -> bool {
    &&& 0 <= i
    &&& i + 4 <= s.len()
    &&& s[i] == 'b'
    &&& s[i + 1] == 'd'
    &&& s[i + 2] == '-'
    &&& is_token_char(s[i + 3])
}

/// The blocker identifiers found scanning `s` left to right from `i`: each is
/// the prefixed maximal run of token characters, and scanning resumes where
/// the identifier ends.
pub open spec fn blockers_from(s: Seq<char>, i: int) -> Seq<Seq<char>>
    decreases s.len() - i,
    when 0 <= i
    via blockers_from_decreases
{
    if i >= s.len() {
        Seq::empty()
    } else if blocker_starts_at(s, i) {
        let e = token_run_end(s, i + 4);
        seq![s.subrange(i, e)] + blockers_from(s, e)
    } else {
        blockers_from(s, i + 1)
    }
}

#[via_fn]
proof fn blockers_from_decreases(s: Seq<char>, i: int) {
    if i < s.len() && blocker_starts_at(s, i) {
        lemma_token_run_end_bounds(s, i + 4);
    }
}

/// The blocker identifiers of a whole message.
pub open spec fn blockers_of(s: Seq<char>) -> Seq<Seq<char>> {
    blockers_from(s, 0)
}

fn token_char_exec(c: char) -> (r: bool)
    ensures
        r == is_token_char(c),
{
    let u = c as u32;
    ('a' as u32 <= u && u <= 'z' as u32) || ('0' as u32 <= u && u <= '9' as u32)
}

/// Extracts every blocker identifier from an error message, in order of
/// occurrence.
pub fn extract_blockers(msg: &str) -> (r: Vec<String>)
    ensures
        r.deep_view() == blockers_of(msg@),
{
    let n = msg.unicode_len();
    let mut out: Vec<String> = Vec::new();
    let mut i: usize = 0;
    while i < n
        invariant
            0 <= i,
            n == msg@.len(),
            out.deep_view() + blockers_from(msg@, i as int) =~= blockers_of(msg@),
        decreases n - i,
    {
        if n - i >= 4 && msg.get_char(i) == 'b' && msg.get_char(i + 1) == 'd' && msg.get_char(
            i + 2,
        ) == '-' && token_char_exec(msg.get_char(i + 3)) {
            assert(blocker_starts_at(msg@, i as int));
            let mut j: usize = i + 4;
            while j < n && token_char_exec(msg.get_char(j))
                invariant
                    i + 4 <= j <= n,
                    n == msg@.len(),
                    token_run_end(msg@, i + 4) == token_run_end(msg@, j as int),
                decreases n - j,
            {
                j += 1;
            }
            proof {
                assert(token_run_end(msg@, j as int) == j);
            }
            let tok = msg.substring_char(i, j).to_owned();
            out.push(tok);
            proof {
                let e = token_run_end(msg@, i + 4);
                assert(e == j);
                assert(blockers_from(msg@, i as int) =~= seq![msg@.subrange(i as int, j as int)]
                    + blockers_from(msg@, j as int));
                assert(out.deep_view() + blockers_from(msg@, j as int) =~= blockers_of(msg@));
                lemma_token_run_end_bounds(msg@, i + 4);
            }
            i = j;
        } else {
            proof {
                assert(!blocker_starts_at(msg@, i as int));
                assert(blockers_from(msg@, i as int) == blockers_from(msg@, i + 1));
            }
            i += 1;
        }
    }
    proof {
        assert(blockers_from(msg@, i as int) =~= Seq::<Seq<char>>::empty());
        assert(out.deep_view() =~= blockers_of(msg@));
    }
    out
}

/// The event a worker emits for `outcome` of the task named `task_id`:
/// success becomes `TaskCompleted`; a failure whose text lacks the word
/// "blocked" is a retriable `TaskFailed`; one carrying the "blocked by"
/// phrase becomes `TaskBlocked` with the extracted blockers; any other
/// failure mentioning "blocked" is a non-retriable `TaskFailed`.
pub open spec fn classify_spec(task_id: Seq<char>, outcome: ExecOutcome) -> WorkerEventView {
    match outcome {
        ExecOutcome::Success { duration_ms } => WorkerEventView::TaskCompleted {
            task_id: task_id,
            duration_ms: duration_ms as int,
        },
        ExecOutcome::Failure { error } => {
            if !contains_seq(error@, "blocked"@) {
                WorkerEventView::TaskFailed { task_id: task_id, error: error@, retriable: true }
            } else if contains_seq(error@, "blocked by"@) {
                WorkerEventView::TaskBlocked { task_id: task_id, blocked_by: blockers_of(error@) }
            } else {
                WorkerEventView::TaskFailed { task_id: task_id, error: error@, retriable: false }
            }
        },
    }
}

/// Translates an execution outcome into exactly one worker event.
pub fn classify_outcome(task_id: &str, outcome: ExecOutcome) -> (r: WorkerEvent)
    ensures
        r@ == classify_spec(task_id@, outcome),
{
    match outcome {
        ExecOutcome::Success { duration_ms } => WorkerEvent::TaskCompleted {
            task_id: task_id.to_owned(),
            duration_ms,
        },
        ExecOutcome::Failure { error } => {
            if !contains_str(error.as_str(), "blocked") {
                WorkerEvent::TaskFailed { task_id: task_id.to_owned(), error, retriable: true }
            } else if contains_str(error.as_str(), "blocked by") {
                let blocked_by = extract_blockers(error.as_str());
                WorkerEvent::TaskBlocked { task_id: task_id.to_owned(), blocked_by }
            } else {
                WorkerEvent::TaskFailed { task_id: task_id.to_owned(), error, retriable: false }
            }
        },
    }
}

} // verus!
