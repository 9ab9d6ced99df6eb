use drover::text::{contains_str, starts_with_str, str_eq, u64_to_dec, usize_to_dec};
use drover::{Task, TaskExecutor, TaskStatus, WorktreeManager};

fn task(id: &str, title: &str) -> Task {
    Task {
        id: id.to_string(),
        title: title.to_string(),
        description: None,
        priority: 0,
        status: TaskStatus::Ready,
        parent_epic: None,
        blocked_by: Vec::new(),
        labels: Vec::new(),
        attempts: 0,
        last_error: None,
    }
}

#[test]
fn prompt_holds_title_and_closing_line() {
    let ex = TaskExecutor::new(".".to_string(), ".drover/worktrees".to_string());
    let t = task("a", "Mend the fence");
    assert_eq!(
        ex.build_prompt(&t),
        "Task: Mend the fence\n\nSee this item through to the end."
    );
}

#[test]
fn prompt_includes_description_and_past_blockers() {
    let ex = TaskExecutor::new(".".to_string(), ".drover/worktrees".to_string());
    let mut t = task("a", "Mend the fence");
    t.description = Some("The fence is leaning.".to_string());
    t.blocked_by = vec!["bd-1".to_string(), "bd-2".to_string()];
    assert_eq!(
        ex.build_prompt(&t),
        "Task: Mend the fence\nDescription: The fence is leaning.\n\nSee this item through to the end.\n\nNote: earlier blockers for this item were: [\"bd-1\", \"bd-2\"]. They are resolved."
    );
}

#[test]
fn worktree_paths_and_branches() {
    let wm = WorktreeManager::new("/repo".to_string(), "/repo/.drover/worktrees".to_string());
    assert_eq!(wm.worktree_path("worker-0"), "/repo/.drover/worktrees/worker-0");
    assert_eq!(wm.branch_name("worker-0"), "drover/worker-0");
}

#[test]
fn worktree_listing_is_filtered_to_the_base() {
    let wm = WorktreeManager::new("/repo".to_string(), "/repo/trees".to_string());
    let listing = "worktree /repo\nHEAD abc\n\nworktree /repo/trees/worker-0\nHEAD def\n\nworktree /repo/trees/worker-1\nbranch refs/heads/drover/worker-1\nworktree /elsewhere/worker-9\n";
    let names = wm.parse_worktree_list(listing);
    assert_eq!(names, vec!["worker-0".to_string(), "worker-1".to_string()]);
}

#[test]
fn worktree_listing_without_matches_is_empty() {
    let wm = WorktreeManager::new("/repo".to_string(), "/repo/trees".to_string());
    assert!(wm.parse_worktree_list("").is_empty());
    assert!(wm.parse_worktree_list("HEAD abc\nbranch main\n").is_empty());
}

#[test]
fn text_helpers() {
    assert!(str_eq("same", "same"));
    assert!(!str_eq("same", "other"));
    assert!(contains_str("fully blocked by things", "blocked by"));
    assert!(!contains_str("all clear", "blocked"));
    assert!(starts_with_str("sqlite://x", "sqlite://"));
    assert!(!starts_with_str("postgres://x", "sqlite://"));
    assert_eq!(u64_to_dec(0), "0");
    assert_eq!(u64_to_dec(90210), "90210");
    assert_eq!(usize_to_dec(7), "7");
}
