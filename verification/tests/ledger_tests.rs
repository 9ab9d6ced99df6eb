use drover::ledger::{database_scheme, sqlite_path, DbScheme};
use drover::RunLedger;

#[test]
fn run_round_trip() {
    // a run recorded, then sealed, is fetched by id with matching counters
    // and a present completion time
    let mut ledger = RunLedger::new();
    ledger.start_run("run-1", "2024-05-01T10:00:00Z", 3, "{}");
    ledger.complete_run("run-1", "2024-05-01T10:05:00Z", true, 3, 0);

    let rec = ledger.get_run("run-1").expect("the run was recorded");
    assert_eq!(rec.id, "run-1");
    assert_eq!(rec.started_at, "2024-05-01T10:00:00Z");
    assert_eq!(rec.completed_at.as_deref(), Some("2024-05-01T10:05:00Z"));
    assert_eq!(rec.success, Some(true));
    assert_eq!(rec.tasks_total, 3);
    assert_eq!(rec.tasks_completed, 3);
    assert_eq!(rec.tasks_failed, 0);
}

#[test]
fn started_run_has_no_completion() {
    let mut ledger = RunLedger::new();
    ledger.start_run("run-1", "2024-05-01T10:00:00Z", 2, "{}");
    let rec = ledger.get_run("run-1").expect("recorded");
    assert!(rec.completed_at.is_none());
    assert!(rec.success.is_none());
    assert_eq!(rec.tasks_total, 2);
    assert_eq!(rec.tasks_completed, 0);
    assert_eq!(rec.tasks_failed, 0);
}

#[test]
fn get_run_of_unknown_id_is_absent() {
    let mut ledger = RunLedger::new();
    ledger.start_run("run-1", "2024-05-01T10:00:00Z", 1, "{}");
    assert!(ledger.get_run("run-2").is_none());
}

#[test]
fn completing_an_unknown_run_changes_nothing() {
    let mut ledger = RunLedger::new();
    ledger.start_run("run-1", "2024-05-01T10:00:00Z", 1, "{}");
    ledger.complete_run("run-9", "2024-05-01T11:00:00Z", false, 0, 1);
    let rec = ledger.get_run("run-1").expect("recorded");
    assert!(rec.completed_at.is_none());
}

#[test]
fn list_runs_keeps_recording_order() {
    let mut ledger = RunLedger::new();
    ledger.start_run("run-1", "2024-05-01T10:00:00Z", 1, "{}");
    ledger.start_run("run-2", "2024-05-01T11:00:00Z", 2, "{}");
    let runs = ledger.list_runs();
    assert_eq!(runs.len(), 2);
    assert_eq!(runs[0].id, "run-1");
    assert_eq!(runs[1].id, "run-2");
}

#[test]
fn database_scheme_dispatch() {
    assert_eq!(database_scheme("sqlite://.drover.db"), DbScheme::Sqlite);
    assert_eq!(database_scheme("postgres://host/db"), DbScheme::Postgres);
    assert_eq!(database_scheme("postgresql://host/db"), DbScheme::Postgres);
    assert_eq!(database_scheme("mysql://host/db"), DbScheme::Unsupported);
}

#[test]
fn sqlite_path_strips_the_scheme() {
    assert_eq!(sqlite_path("sqlite://.drover.db"), ".drover.db");
    assert_eq!(sqlite_path("plain.db"), "plain.db");
}
