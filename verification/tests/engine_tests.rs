use drover::drover::{success_rate_ratio, stall_exceeded};
use drover::workers::{classify_outcome, extract_blockers, ExecOutcome};
use drover::{RunState, SideEffect, Task, TaskStatus, WorkerEvent, WorkerState};

fn task(id: &str, priority: i32, status: TaskStatus) -> Task {
    Task {
        id: id.to_string(),
        title: format!("title of {}", id),
        description: None,
        priority,
        status,
        parent_epic: None,
        blocked_by: Vec::new(),
        labels: Vec::new(),
        attempts: 0,
        last_error: None,
    }
}

fn find<'a>(rs: &'a RunState, id: &str) -> &'a Task {
    rs.tasks.iter().find(|t| t.id == id).expect("task is tracked")
}

fn failed_event(id: &str, error: &str, retriable: bool) -> WorkerEvent {
    WorkerEvent::TaskFailed { task_id: id.to_string(), error: error.to_string(), retriable }
}

#[test]
fn retry_budget_requeues_then_fails() {
    // attempts = max - 1: a retriable failure re-queues at attempts = max;
    // one more retriable failure is terminal, and attempts never exceed max
    let mut t = task("a", 1, TaskStatus::Ready);
    t.attempts = 2;
    let mut rs = RunState::new(vec![t], 0);

    rs.handle_event(failed_event("a", "flaky", true), false, 3, 1);
    assert_eq!(find(&rs, "a").status, TaskStatus::Ready);
    assert_eq!(find(&rs, "a").attempts, 3);
    assert_eq!(find(&rs, "a").last_error.as_deref(), Some("flaky"));

    rs.handle_event(failed_event("a", "flaky again", true), false, 3, 2);
    assert_eq!(find(&rs, "a").status, TaskStatus::Failed);
    assert_eq!(find(&rs, "a").attempts, 3);
    let result = rs.compute_result(10);
    assert_eq!(result.tasks_failed, 1);
}

#[test]
fn non_retriable_failure_is_terminal() {
    let mut rs = RunState::new(vec![task("a", 1, TaskStatus::Ready)], 0);
    rs.handle_event(failed_event("a", "fatal", false), false, 3, 1);
    assert_eq!(find(&rs, "a").status, TaskStatus::Failed);
    assert_eq!(find(&rs, "a").attempts, 1);
}

#[test]
fn completion_unblocks_dependent_task() {
    // task a blocked by b: processing b's completion makes a ready again
    let mut a = task("a", 1, TaskStatus::Blocked);
    a.blocked_by = vec!["b".to_string()];
    let b = task("b", 1, TaskStatus::Ready);
    let mut rs = RunState::new(vec![a, b], 0);

    let effects = rs.handle_event(
        WorkerEvent::TaskCompleted { task_id: "b".to_string(), duration_ms: 7 },
        false,
        3,
        1,
    );
    assert_eq!(find(&rs, "a").status, TaskStatus::Ready);
    assert!(find(&rs, "a").blocked_by.is_empty());
    assert_eq!(find(&rs, "b").status, TaskStatus::Completed);
    assert_eq!(effects.len(), 1);
    match &effects[0] {
        SideEffect::CloseTask { task_id, reason } => {
            assert_eq!(task_id, "b");
            assert_eq!(reason, "Completed by Drover");
        },
        other => panic!("unexpected effect: {:?}", other),
    }
}

#[test]
fn completion_only_shrinks_other_blockers() {
    let mut a = task("a", 1, TaskStatus::Blocked);
    a.blocked_by = vec!["b".to_string(), "c".to_string()];
    let b = task("b", 1, TaskStatus::Ready);
    let mut rs = RunState::new(vec![a, b], 0);
    rs.handle_event(
        WorkerEvent::TaskCompleted { task_id: "b".to_string(), duration_ms: 7 },
        false,
        3,
        1,
    );
    assert_eq!(find(&rs, "a").status, TaskStatus::Blocked);
    assert_eq!(find(&rs, "a").blocked_by, vec!["c".to_string()]);
}

#[test]
fn success_rate_is_exact() {
    // exactly one when nothing ran; completed over completed + failed otherwise
    let r = success_rate_ratio(0, 0);
    assert_eq!((r.num, r.den), (1, 1));
    let r = success_rate_ratio(3, 1);
    assert_eq!((r.num, r.den), (3, 4));
    let r = success_rate_ratio(0, 5);
    assert_eq!((r.num, r.den), (0, 5));
    let r = success_rate_ratio(7, 0);
    assert_eq!((r.num, r.den), (7, 7));
}

#[test]
fn remediation_happens_once_per_blocker() {
    // two tasks blocked on the same blocker: one remediation task in all
    let t1 = task("t1", 1, TaskStatus::Ready);
    let t2 = task("t2", 1, TaskStatus::Ready);
    let mut rs = RunState::new(vec![t1, t2], 0);

    let effects1 = rs.handle_event(
        WorkerEvent::TaskBlocked {
            task_id: "t1".to_string(),
            blocked_by: vec!["bd-123".to_string()],
        },
        true,
        3,
        1,
    );
    assert_eq!(effects1.len(), 1);
    match &effects1[0] {
        SideEffect::CreateRemediation { task_id, title } => {
            assert_eq!(task_id, "drover-fix-bd-123");
            assert_eq!(title, "bd-123");
        },
        other => panic!("unexpected effect: {:?}", other),
    }
    let fix = find(&rs, "drover-fix-bd-123");
    assert_eq!(fix.status, TaskStatus::Ready);
    assert_eq!(fix.priority, 100);
    assert_eq!(fix.labels, vec!["drover-auto".to_string()]);
    assert_eq!(fix.title, "Fix: bd-123");

    let effects2 = rs.handle_event(
        WorkerEvent::TaskBlocked {
            task_id: "t2".to_string(),
            blocked_by: vec!["bd-123".to_string()],
        },
        true,
        3,
        2,
    );
    assert!(effects2.is_empty());
    let fixes = rs.tasks.iter().filter(|t| t.id.starts_with("drover-fix-")).count();
    assert_eq!(fixes, 1);
}

#[test]
fn duplicate_blockers_in_one_event_remediate_once() {
    let mut rs = RunState::new(vec![task("t1", 1, TaskStatus::Ready)], 0);
    let effects = rs.handle_event(
        WorkerEvent::TaskBlocked {
            task_id: "t1".to_string(),
            blocked_by: vec!["bd-9".to_string(), "bd-9".to_string()],
        },
        true,
        3,
        1,
    );
    assert_eq!(effects.len(), 1);
}

#[test]
fn auto_unblock_off_creates_nothing() {
    let mut rs = RunState::new(vec![task("t1", 1, TaskStatus::Ready)], 0);
    let effects = rs.handle_event(
        WorkerEvent::TaskBlocked {
            task_id: "t1".to_string(),
            blocked_by: vec!["bd-1".to_string()],
        },
        false,
        3,
        1,
    );
    assert!(effects.is_empty());
    assert_eq!(rs.tasks.len(), 1);
}

#[test]
fn long_blocker_id_is_truncated_in_task_id() {
    let mut rs = RunState::new(vec![task("t1", 1, TaskStatus::Ready)], 0);
    rs.handle_event(
        WorkerEvent::TaskBlocked {
            task_id: "t1".to_string(),
            blocked_by: vec!["bd-abcdefghij".to_string()],
        },
        true,
        3,
        1,
    );
    assert!(rs.tasks.iter().any(|t| t.id == "drover-fix-bd-abcde"));
}

#[test]
fn classify_success_and_failures() {
    let ev = classify_outcome("a", ExecOutcome::Success { duration_ms: 42 });
    match ev {
        WorkerEvent::TaskCompleted { task_id, duration_ms } => {
            assert_eq!(task_id, "a");
            assert_eq!(duration_ms, 42);
        },
        other => panic!("unexpected event: {:?}", other),
    }

    let ev = classify_outcome("a", ExecOutcome::Failure { error: "network hiccup".to_string() });
    match ev {
        WorkerEvent::TaskFailed { task_id, error, retriable } => {
            assert_eq!(task_id, "a");
            assert_eq!(error, "network hiccup");
            assert!(retriable);
        },
        other => panic!("unexpected event: {:?}", other),
    }

    let ev = classify_outcome(
        "a",
        ExecOutcome::Failure { error: "blocked by bd-123 and bd-456".to_string() },
    );
    match ev {
        WorkerEvent::TaskBlocked { task_id, blocked_by } => {
            assert_eq!(task_id, "a");
            assert_eq!(blocked_by, vec!["bd-123".to_string(), "bd-456".to_string()]);
        },
        other => panic!("unexpected event: {:?}", other),
    }

    let ev = classify_outcome("a", ExecOutcome::Failure { error: "pipeline blocked".to_string() });
    match ev {
        WorkerEvent::TaskFailed { retriable, .. } => assert!(!retriable),
        other => panic!("unexpected event: {:?}", other),
    }
}

#[test]
fn extract_blockers_finds_prefixed_tokens() {
    assert_eq!(
        extract_blockers("blocked by bd-123, bd-45z."),
        vec!["bd-123".to_string(), "bd-45z".to_string()]
    );
    assert!(extract_blockers("nothing here").is_empty());
    assert!(extract_blockers("bd- alone is no token").is_empty());
    assert_eq!(extract_blockers("xbd-7y"), vec!["bd-7y".to_string()]);
}

#[test]
fn stall_threshold_comparison() {
    assert!(!stall_exceeded(1000, 1000, 0));
    assert!(!stall_exceeded(300_000, 0, 300));
    assert!(stall_exceeded(300_001, 0, 300));
}

#[test]
fn stall_report_lists_blocked_tasks_when_nothing_is_ready() {
    let mut a = task("a", 1, TaskStatus::Blocked);
    a.blocked_by = vec!["bd-1".to_string()];
    let rs = RunState::new(vec![a, task("b", 1, TaskStatus::Completed)], 0);
    let report = rs.stall_report().expect("all work is blocked");
    assert_eq!(report, vec!["a".to_string()]);

    let rs2 = RunState::new(
        vec![task("a", 1, TaskStatus::Blocked), task("b", 1, TaskStatus::Ready)],
        0,
    );
    assert!(rs2.stall_report().is_none());
}

#[test]
fn run_completes_three_tasks_end_to_end() {
    // three ready tasks, one worker, a runner that always succeeds
    let tasks = vec![
        task("t1", 1, TaskStatus::Ready),
        task("t2", 2, TaskStatus::Ready),
        task("t3", 3, TaskStatus::Ready),
    ];
    let mirror: Vec<Task> = tasks.iter().cloned().collect();
    let mut rs = RunState::new(tasks, 0);
    let mut ws = WorkerState::new(mirror);

    let mut rounds = 0usize;
    while !rs.is_complete() {
        rounds += 1;
        assert!(rounds <= 10, "the run must terminate");
        let claimed = match ws.claim_task("worker-0") {
            Some(t) => t,
            None => break,
        };
        let ev = classify_outcome(&claimed.id, ExecOutcome::Success { duration_ms: 1 });
        ws.release_task("worker-0");
        rs.handle_event(ev, true, 3, rounds as u64);
        ws.set_status(&claimed.id, TaskStatus::Completed);
    }

    assert!(rs.is_complete());
    let result = rs.compute_result(100);
    assert!(result.success);
    assert_eq!(result.tasks_completed, 3);
    assert_eq!(result.tasks_failed, 0);
    assert!(result.blockers.is_empty());
    assert_eq!((result.success_rate.num, result.success_rate.den), (3, 3));
    assert_eq!(result.duration_ms, 100);
}

#[test]
fn run_with_blocked_task_reports_the_blocker() {
    // one task whose runner always fails blocked by bd-123, with auto-unblock
    let mut rs = RunState::new(vec![task("t1", 5, TaskStatus::Ready)], 0);
    let mut ws = WorkerState::new(vec![task("t1", 5, TaskStatus::Ready)]);

    let mut remediations = 0usize;
    let mut rounds = 0usize;
    loop {
        rounds += 1;
        assert!(rounds <= 10, "the run must terminate");
        let claimed = match ws.claim_task("worker-0") {
            Some(t) => t,
            None => break,
        };
        let ev = classify_outcome(
            &claimed.id,
            ExecOutcome::Failure { error: "blocked by bd-123".to_string() },
        );
        ws.release_task("worker-0");
        let effects = rs.handle_event(ev, true, 3, rounds as u64);
        ws.set_status(&claimed.id, TaskStatus::Blocked);
        for effect in effects {
            match effect {
                SideEffect::CreateRemediation { task_id, .. } => {
                    remediations += 1;
                    let created = rs
                        .tasks
                        .iter()
                        .find(|t| t.id == task_id)
                        .expect("the remediation task is tracked")
                        .clone();
                    ws.add_task(created);
                },
                SideEffect::CloseTask { .. } => {},
            }
        }
    }

    assert_eq!(remediations, 1);
    assert_eq!(find(&rs, "t1").status, TaskStatus::Blocked);
    let result = rs.compute_result(50);
    assert!(!result.success);
    assert_eq!(result.blockers, vec!["bd-123".to_string()]);
}
