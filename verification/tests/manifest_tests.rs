use drover::manifest::{assemble_manifest, epic_manifest, project_status};
use drover::model::{calculate_progress, calculate_stats, status_from_str, BeadItem};
use drover::{Epic, Task, TaskStatus};

fn item(id: &str, status: &str, parent: Option<&str>, is_epic: Option<bool>) -> BeadItem {
    BeadItem {
        id: id.to_string(),
        title: format!("title of {}", id),
        description: None,
        priority: 0,
        status: status.to_string(),
        parent: parent.map(|p| p.to_string()),
        blocked_by: Vec::new(),
        labels: Vec::new(),
        is_epic,
    }
}

fn task(id: &str, status: TaskStatus) -> Task {
    Task {
        id: id.to_string(),
        title: format!("title of {}", id),
        description: None,
        priority: 0,
        status,
        parent_epic: None,
        blocked_by: Vec::new(),
        labels: Vec::new(),
        attempts: 0,
        last_error: None,
    }
}

#[test]
fn status_vocabulary_maps_to_internal_statuses() {
    assert_eq!(status_from_str("open"), TaskStatus::Ready);
    assert_eq!(status_from_str("in-progress"), TaskStatus::InProgress);
    assert_eq!(status_from_str("blocked"), TaskStatus::Blocked);
    assert_eq!(status_from_str("closed"), TaskStatus::Completed);
    assert_eq!(status_from_str("anything else"), TaskStatus::Ready);
}

#[test]
fn into_task_starts_with_a_fresh_attempt_counter() {
    let b = item("x", "open", Some("p"), None);
    let t = b.into_task(None);
    assert_eq!(t.id, "x");
    assert_eq!(t.status, TaskStatus::Ready);
    assert_eq!(t.parent_epic.as_deref(), Some("p"));
    assert_eq!(t.attempts, 0);
    assert!(t.last_error.is_none());

    let b = item("y", "open", Some("p"), None);
    let t = b.into_task(Some("override".to_string()));
    assert_eq!(t.parent_epic.as_deref(), Some("override"));
}

#[test]
fn assemble_groups_tasks_under_their_epics() {
    let items = vec![
        item("e1", "open", None, Some(true)),
        item("a", "open", Some("e1"), None),
        item("b", "closed", Some("e1"), None),
        item("c", "open", None, None),
        item("d", "open", Some("missing"), None),
        item("done", "closed", None, None),
    ];
    let m = assemble_manifest(&items);
    assert_eq!(m.epics.len(), 1);
    let epic = &m.epics[0];
    assert_eq!(epic.id, "e1");
    assert_eq!(epic.tasks.len(), 2);
    assert_eq!(epic.tasks[0].id, "a");
    assert_eq!(epic.tasks[1].id, "b");
    assert_eq!(epic.progress, 50);
    // standalone tasks: not epics, parent missing or none, not completed
    let standalone: Vec<&str> = m.standalone_tasks.iter().map(|t| t.id.as_str()).collect();
    assert_eq!(standalone, vec!["c", "d"]);
    // counts cover the epic's tasks and the kept standalone ones
    assert_eq!(m.total_tasks, 4);
    assert_eq!(m.ready_tasks, 3);
    assert_eq!(m.blocked_tasks, 0);
    assert_eq!(m.completed_tasks, 1);
}

#[test]
fn assemble_drops_fully_completed_epics() {
    let items = vec![
        item("e1", "open", None, Some(true)),
        item("a", "closed", Some("e1"), None),
        item("e2", "open", None, Some(true)),
    ];
    let m = assemble_manifest(&items);
    // e1 is fully completed, e2 has no open task at all: both are dropped
    assert!(m.epics.is_empty());
    assert_eq!(m.total_tasks, 0);
}

#[test]
fn epic_label_marks_an_epic() {
    let mut labelled = item("e1", "open", None, None);
    labelled.labels.push("epic".to_string());
    let items = vec![labelled, item("a", "open", Some("e1"), None)];
    let m = assemble_manifest(&items);
    assert_eq!(m.epics.len(), 1);
    assert_eq!(m.epics[0].tasks.len(), 1);
    assert!(m.standalone_tasks.is_empty());
}

#[test]
fn epic_manifest_wraps_one_epic() {
    let tasks = vec![task("a", TaskStatus::Ready), task("b", TaskStatus::Completed)];
    let epic = Epic {
        id: "e1".to_string(),
        title: "the epic".to_string(),
        progress: calculate_progress(&tasks),
        tasks,
    };
    let m = epic_manifest(epic);
    assert_eq!(m.epics.len(), 1);
    assert_eq!(m.total_tasks, 2);
    assert_eq!(m.ready_tasks, 1);
    assert_eq!(m.completed_tasks, 1);
    assert!(m.standalone_tasks.is_empty());
}

#[test]
fn target_description_names_the_target() {
    let tasks = vec![task("a", TaskStatus::Ready)];
    let epic = Epic {
        id: "e1".to_string(),
        title: "Ship it".to_string(),
        progress: calculate_progress(&tasks),
        tasks,
    };
    let single = epic_manifest(epic);
    assert_eq!(single.target_description(), "Epic: Ship it");

    let items = vec![item("c", "open", None, None), item("d", "open", None, None)];
    let standalone_only = assemble_manifest(&items);
    assert_eq!(standalone_only.target_description(), "2 standalone tasks");

    let items = vec![
        item("e1", "open", None, Some(true)),
        item("a", "open", Some("e1"), None),
        item("c", "open", None, None),
    ];
    let mixed = assemble_manifest(&items);
    assert_eq!(mixed.target_description(), "1 epics, 1 standalone tasks");
}

#[test]
fn all_tasks_walks_epics_then_standalone() {
    let items = vec![
        item("e1", "open", None, Some(true)),
        item("a", "open", Some("e1"), None),
        item("c", "open", None, None),
    ];
    let m = assemble_manifest(&items);
    let ids: Vec<&str> = m.all_tasks().iter().map(|t| t.id.as_str()).collect();
    assert_eq!(ids, vec!["a", "c"]);
}

#[test]
fn stats_and_progress() {
    let tasks = vec![
        task("a", TaskStatus::Ready),
        task("b", TaskStatus::Blocked),
        task("c", TaskStatus::Completed),
        task("d", TaskStatus::Completed),
        task("e", TaskStatus::Failed),
    ];
    let stats = calculate_stats(&tasks);
    assert_eq!(stats.ready, 1);
    assert_eq!(stats.blocked, 1);
    assert_eq!(stats.completed, 2);
    assert_eq!(calculate_progress(&tasks), 40);
    assert_eq!(calculate_progress(&[]), 100);
}

#[test]
fn project_status_derives_from_the_manifest() {
    let items = vec![
        item("a", "open", None, None),
        item("b", "blocked", None, None),
    ];
    let m = assemble_manifest(&items);
    let status = project_status(&m);
    assert_eq!(status.total, 2);
    assert_eq!(status.ready, 1);
    assert_eq!(status.blocked, 1);
    assert_eq!(status.completed, 0);
    assert_eq!(status.failed, 0);
    assert_eq!(status.progress, 0);
    assert!(status.elapsed_ms.is_none());
    assert!(status.eta_ms.is_none());
}
