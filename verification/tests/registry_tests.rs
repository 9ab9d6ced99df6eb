use drover::{Task, TaskStatus, WorkerState};

fn task(id: &str, priority: i32, status: TaskStatus) -> Task {
    Task {
        id: id.to_string(),
        title: format!("title of {}", id),
        description: None,
        priority,
        status,
        parent_epic: None,
        blocked_by: Vec::new(),
        labels: Vec::new(),
        attempts: 0,
        last_error: None,
    }
}

#[test]
fn exactly_k_claims_succeed() {
    // two ready tasks, three claim attempts: two succeed, the third gets none
    let tasks = vec![
        task("a", 1, TaskStatus::Ready),
        task("b", 2, TaskStatus::Ready),
        task("c", 5, TaskStatus::Completed),
    ];
    let mut ws = WorkerState::new(tasks);
    let first = ws.claim_task("worker-0");
    let second = ws.claim_task("worker-1");
    let third = ws.claim_task("worker-2");
    let first = first.expect("first claim should succeed");
    let second = second.expect("second claim should succeed");
    assert!(third.is_none());
    // no task id is held by two simultaneous claims
    assert_ne!(first.id, second.id);
}

#[test]
fn claim_prefers_highest_priority() {
    let tasks = vec![
        task("low", 1, TaskStatus::Ready),
        task("high", 9, TaskStatus::Ready),
        task("mid", 5, TaskStatus::Ready),
    ];
    let mut ws = WorkerState::new(tasks);
    let t = ws.claim_task("w").expect("a task is claimable");
    assert_eq!(t.id, "high");
}

#[test]
fn claim_breaks_ties_by_tracking_order() {
    let tasks = vec![
        task("first", 5, TaskStatus::Ready),
        task("second", 5, TaskStatus::Ready),
    ];
    let mut ws = WorkerState::new(tasks);
    let t = ws.claim_task("w").expect("a task is claimable");
    assert_eq!(t.id, "first");
}

#[test]
fn claim_skips_non_ready_tasks() {
    let tasks = vec![
        task("blocked", 9, TaskStatus::Blocked),
        task("done", 8, TaskStatus::Completed),
        task("open", 1, TaskStatus::Ready),
    ];
    let mut ws = WorkerState::new(tasks);
    let t = ws.claim_task("w").expect("a task is claimable");
    assert_eq!(t.id, "open");
    assert!(ws.claim_task("w2").is_none());
}

#[test]
fn release_frees_the_claim() {
    let tasks = vec![task("a", 1, TaskStatus::Ready)];
    let mut ws = WorkerState::new(tasks);
    let t = ws.claim_task("w").expect("claimable");
    assert_eq!(t.id, "a");
    assert!(ws.claim_task("w2").is_none());
    ws.release_task("w");
    let again = ws.claim_task("w2").expect("claimable after release");
    assert_eq!(again.id, "a");
    // releasing a worker that holds nothing is a no-op
    ws.release_task("nobody");
}

#[test]
fn ready_count_counts_ready_tasks() {
    let tasks = vec![
        task("a", 1, TaskStatus::Ready),
        task("b", 1, TaskStatus::Blocked),
        task("c", 1, TaskStatus::Ready),
        task("d", 1, TaskStatus::Failed),
    ];
    let ws = WorkerState::new(tasks);
    assert_eq!(ws.ready_count(), 2);
}

#[test]
fn set_status_updates_the_snapshot() {
    let tasks = vec![task("a", 1, TaskStatus::Ready), task("b", 1, TaskStatus::Ready)];
    let mut ws = WorkerState::new(tasks);
    ws.set_status("a", TaskStatus::Completed);
    assert_eq!(ws.ready_count(), 1);
    let t = ws.claim_task("w").expect("b is claimable");
    assert_eq!(t.id, "b");
}

#[test]
fn add_task_makes_it_claimable() {
    let tasks = vec![task("a", 1, TaskStatus::Completed)];
    let mut ws = WorkerState::new(tasks);
    assert!(ws.claim_task("w").is_none());
    ws.add_task(task("fix", 100, TaskStatus::Ready));
    let t = ws.claim_task("w").expect("the added task is claimable");
    assert_eq!(t.id, "fix");
}
