//! Task-runner support: the prompt handed to the external agent, and the
//! worktree bookkeeping for isolated worker checkouts — path and branch
//! naming, and the parsing of the worktree listing.

use vstd::prelude::*;
use crate::model::{Task, TaskView};
use crate::text::{is_prefix_of, starts_with_str};

verus! {

/// A string in quotes.
pub open spec fn quoted(x: Seq<char>) -> Seq<char> {
    "\""@ + x + "\""@
}

/// The quoted strings, comma-separated.
pub open spec fn quoted_items(xs: Seq<Seq<char>>) -> Seq<char>
    decreases xs.len(),
{
    if xs.len() == 0 {
        Seq::empty()
    } else if xs.len() == 1 {
        quoted(xs[0])
    } else {
        quoted_items(xs.drop_last()) + ", "@ + quoted(xs.last())
    }
}

/// A bracketed, comma-separated list of quoted strings.
pub open spec fn quoted_list(xs: Seq<Seq<char>>) -> Seq<char> {
    "["@ + quoted_items(xs) + "]"@
}

/// Renders a bracketed, quoted list of the given ids.
pub fn render_quoted_list(xs: &Vec<String>) -> (r: String)
    ensures
        r@ == quoted_list(xs.deep_view()),
{
    let ghost dv = xs.deep_view();
    let mut s = "[".to_owned();
    let mut i: usize = 0;
    while i < xs.len()
        invariant
            dv == xs.deep_view(),
            dv.len() == xs@.len(),
            i <= xs@.len(),
            s@ == "["@ + quoted_items(dv.take(i as int)),
        decreases xs@.len() - i,
    {
        proof {
            assert(dv.take(i + 1).drop_last() =~= dv.take(i as int));
            assert(dv.take(i + 1).last() == dv[i as int]);
            assert(dv[i as int] == xs@[i as int]@);
        }
        if i > 0 {
            s.append(", ");
        }
        s.append("\"");
        s.append(xs[i].as_str());
        s.append("\"");
        proof {
            if i == 0 {
                assert(quoted_items(dv.take(0)) =~= Seq::<char>::empty());
                assert(s@ =~= "["@ + quoted_items(dv.take(1)));
            } else {
                assert(dv.take(i + 1).len() >= 2);
                assert(s@ =~= "["@ + quoted_items(dv.take(i + 1)));
            }
        }
        i += 1;
    }
    s.append("]");
    proof {
        assert(dv.take(dv.len() as int) =~= dv);
    }
    s
}

/// The prompt built from a task: its title, its description when present,
/// the standing closing line, and — for a task that had been blocked — the
/// quoted list of its former blockers.
pub open spec fn build_prompt_spec(t: TaskView) -> Seq<char> {
    let base = "Task: "@ + t.title + "\n"@ + (match t.description {
        Some(d) => "Description: "@ + d + "\n"@,
        None => Seq::<char>::empty(),
    }) + "\nSee this item through to the end."@;
    if t.blocked_by.len() > 0 {
        base + "\n\nNote: earlier blockers for this item were: "@ + quoted_list(t.blocked_by)
            + ". They are resolved."@
    } else {
        base
    }
}

/// Hands tasks to the external agent process; the invocation itself is made
/// by the embedding program.
#[derive(Debug)]
pub struct TaskExecutor {
    pub project_dir: String,
    pub worktree_dir: String,
}

impl TaskExecutor {
    /// An executor rooted at the given directories.
    pub fn new(project_dir: String, worktree_dir: String) -> (r: TaskExecutor)
        ensures
            r.project_dir == project_dir,
            r.worktree_dir == worktree_dir,
    {
        TaskExecutor { project_dir, worktree_dir }
    }

    /// Builds the agent prompt for a task.
    pub fn build_prompt(&self, task: &Task) -> (r: String)
        ensures
            r@ == build_prompt_spec(task@),
    {
        let mut prompt = "Task: ".to_owned();
        prompt.append(task.title.as_str());
        prompt.append("\n");
        match &task.description {
            Some(desc) => {
                prompt.append("Description: ");
                prompt.append(desc.as_str());
                prompt.append("\n");
            },
            None => {},
        }
        prompt.append("\nSee this item through to the end.");
        if task.blocked_by.len() > 0 {
            prompt.append("\n\nNote: earlier blockers for this item were: ");
            let list = render_quoted_list(&task.blocked_by);
            prompt.append(list.as_str());
            prompt.append(". They are resolved.");
        }
        prompt
    }
}

/// The end of the line starting at `j`: the next newline, or the end.
pub open spec fn line_end(s: Seq<char>, j: int) -> int
    decreases s.len() - j,
    when 0 <= j <= s.len()
{
    if j < s.len() && s[j] != '\n' {
        line_end(s, j + 1)
    } else {
        j
    }
}

/// The line extends to an index between `j` and the end of `s`.
pub proof fn lemma_line_end_bounds(s: Seq<char>, j: int)
    requires
        0 <= j <= s.len(),
    ensures
        j <= line_end(s, j) <= s.len(),
    decreases s.len() - j,
{
    if j < s.len() && s[j] != '\n' {
        lemma_line_end_bounds(s, j + 1);
    }
}

/// The lines of `s` from position `i`, split at newlines; a trailing
/// newline ends the last line rather than opening an empty one.
pub open spec fn lines_from(s: Seq<char>, i: int) -> Seq<Seq<char>>
    decreases s.len() - i,
    when 0 <= i
    via lines_from_decreases
{
    if i >= s.len() {
        Seq::empty()
    } else {
        let e = line_end(s, i);
        if e == s.len() {
            seq![s.subrange(i, e)]
        } else {
            seq![s.subrange(i, e)] + lines_from(s, e + 1)
        }
    }
}

#[via_fn]
proof fn lines_from_decreases(s: Seq<char>, i: int) {
    if i < s.len() {
        lemma_line_end_bounds(s, i);
    }
}

/// Splits a string into its lines.
pub fn split_lines(s: &str) -> (r: Vec<String>)
    ensures
        r.deep_view() == lines_from(s@, 0),
{
    let n = s.unicode_len();
    let mut out: Vec<String> = Vec::new();
    let mut i: usize = 0;
    while i < n
        invariant
            0 <= i,
            n == s@.len(),
            out.deep_view() + lines_from(s@, i as int) =~= lines_from(s@, 0),
        decreases n - i,
    {
        let mut j: usize = i;
        while j < n && s.get_char(j) != '\n'
            invariant
                i <= j <= n,
                n == s@.len(),
                line_end(s@, i as int) == line_end(s@, j as int),
            decreases n - j,
        {
            j += 1;
        }
        proof {
            assert(line_end(s@, j as int) == j);
            lemma_line_end_bounds(s@, i as int);
        }
        let line = s.substring_char(i, j).to_owned();
        out.push(line);
        if j < n {
            proof {
                assert(lines_from(s@, i as int) =~= seq![s@.subrange(i as int, j as int)]
                    + lines_from(s@, j + 1));
                assert(out.deep_view() + lines_from(s@, j + 1) =~= lines_from(s@, 0));
            }
            i = j + 1;
        } else {
            proof {
                assert(lines_from(s@, i as int) =~= seq![s@.subrange(i as int, j as int)]);
                assert(lines_from(s@, n as int) =~= Seq::<Seq<char>>::empty());
                assert(out.deep_view() + lines_from(s@, n as int) =~= lines_from(s@, 0));
            }
            i = n;
        }
    }
    proof {
        assert(lines_from(s@, i as int) =~= Seq::<Seq<char>>::empty());
        assert(out.deep_view() =~= lines_from(s@, 0));
    }
    out
}

/// The index of the last path separator, or `-1` when there is none.
pub open spec fn last_slash(p: Seq<char>) -> int
    decreases p.len(),
{
    if p.len() == 0 {
        -1
    } else if p.last() == '/' {
        p.len() - 1
    } else {
        last_slash(p.drop_last())
    }
}

/// The separator index stays within the path.
pub proof fn lemma_last_slash_bounds(p: Seq<char>)
    ensures
        -1 <= last_slash(p) < p.len(),
    decreases p.len(),
{
    if p.len() > 0 && p.last() != '/' {
        lemma_last_slash_bounds(p.drop_last());
    }
}

/// The final path component: what follows the last separator.
pub open spec fn file_name_of(p: Seq<char>) -> Seq<char> {
    p.skip(last_slash(p) + 1)
}

/// The worker names listed in a worktree listing: for each line of the form
/// `worktree <path>` whose path lies under `base`, the path's final
/// component, when it is not empty.
pub open spec fn worktree_names(s: Seq<char>, base: Seq<char>) -> Seq<Seq<char>>
    decreases s.len(),
    via worktree_names_decreases
{
    names_of_lines(lines_from(s, 0), base)
}

#[via_fn]
proof fn worktree_names_decreases(s: Seq<char>, base: Seq<char>) {
}

/// The names drawn from a sequence of lines.
pub open spec fn names_of_lines(ls: Seq<Seq<char>>, base: Seq<char>) -> Seq<Seq<char>>
    decreases ls.len(),
{
    if ls.len() == 0 {
        Seq::empty()
    } else {
        names_of_lines(ls.drop_last(), base) + ({
            let l = ls.last();
            if is_prefix_of("worktree "@, l) {
                let p = l.skip(9);
                if is_prefix_of(base, p) && file_name_of(p).len() > 0 {
                    seq![file_name_of(p)]
                } else {
                    Seq::empty()
                }
            } else {
                Seq::empty()
            }
        })
    }
}

/// Finds the last path separator of `p`, if any.
fn last_slash_exec(p: &str) -> (r: Option<usize>)
    ensures
        match r {
            Some(k) => k as int == last_slash(p@),
            None => last_slash(p@) == -1,
        },
{
    let n = p.unicode_len();
    let mut found: Option<usize> = None;
    let mut j: usize = 0;
    while j < n
        invariant
            j <= n,
            n == p@.len(),
            match found {
                Some(k) => k as int == last_slash(p@.take(j as int)),
                None => last_slash(p@.take(j as int)) == -1,
            },
        decreases n - j,
    {
        proof {
            assert(p@.take(j + 1).drop_last() =~= p@.take(j as int));
            assert(p@.take(j + 1).last() == p@[j as int]);
        }
        if p.get_char(j) == '/' {
            found = Some(j);
        }
        j += 1;
    }
    proof {
        assert(p@.take(n as int) =~= p@);
    }
    found
}

/// Manages per-worker checkout directories; the version-control commands
/// themselves are issued by the embedding program.
#[derive(Debug)]
pub struct WorktreeManager {
    pub project_dir: String,
    pub worktree_base: String,
}

impl WorktreeManager {
    /// A manager rooted at the given project and worktree directories.
    pub fn new(project_dir: String, worktree_base: String) -> (r: WorktreeManager)
        ensures
            r.project_dir == project_dir,
            r.worktree_base == worktree_base,
    {
        WorktreeManager { project_dir, worktree_base }
    }

    /// The checkout directory for a worker: the base, a separator, and the
    /// worker's name.
    pub fn worktree_path(&self, worker_id: &str) -> (r: String)
        ensures
            r@ == self.worktree_base@ + "/"@ + worker_id@,
    {
        let mut p = self.worktree_base.clone();
        p.append("/");
        p.append(worker_id);
        p
    }

    /// The branch created for a worker's checkout.
    pub fn branch_name(&self, worker_id: &str) -> (r: String)
        ensures
            r@ == "drover/"@ + worker_id@,
    {
        let mut b = "drover/".to_owned();
        b.append(worker_id);
        b
    }

    /// Extracts from a worktree listing the names of the checkouts that lie
    /// under this manager's base directory.
    pub fn parse_worktree_list(&self, listing: &str) -> (r: Vec<String>)
        ensures
            r.deep_view() == worktree_names(listing@, self.worktree_base@),
    {
        let lines = split_lines(listing);
        let ghost lv = lines.deep_view();
        let mut out: Vec<String> = Vec::new();
        let mut i: usize = 0;
        while i < lines.len()
            invariant
                lv == lines.deep_view(),
                lv.len() == lines@.len(),
                i <= lines@.len(),
                out.deep_view() =~= names_of_lines(lv.take(i as int), self.worktree_base@),
            decreases lines@.len() - i,
        {
            proof {
                assert(lv.take(i + 1).drop_last() =~= lv.take(i as int));
                assert(lv.take(i + 1).last() == lv[i as int]);
                assert(lv[i as int] == lines@[i as int]@);
            }
            let line = &lines[i];
            if starts_with_str(line.as_str(), "worktree ") {
                proof {
                    reveal_strlit("worktree ");
                }
                let line_len = line.as_str().unicode_len();
                let path = line.as_str().substring_char(9, line_len);
                proof {
                    assert(path@ =~= lv[i as int].skip(9));
                }
                if starts_with_str(path, self.worktree_base.as_str()) {
                    let path_len = path.unicode_len();
                    proof {
                        lemma_last_slash_bounds(path@);
                    }
                    let cut = match last_slash_exec(path) {
                        Some(k) => k + 1,
                        None => 0,
                    };
                    proof {
                        assert(path@.subrange(cut as int, path@.len() as int) =~= file_name_of(
                            path@,
                        ));
                    }
                    if cut < path_len {
                        let name = path.substring_char(cut, path_len).to_owned();
                        out.push(name);
                    }
                }
            }
            proof {
                assert(out.deep_view() =~= names_of_lines(
                    lv.take(i + 1),
                    self.worktree_base@,
                ));
            }
            i += 1;
        }
        proof {
            assert(lv.take(lv.len() as int) =~= lv);
        }
        out
    }
}

} // verus!
