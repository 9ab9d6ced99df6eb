use drover::config::{
    default_auto_unblock, default_database, default_poll_interval, default_retries,
    default_stall_threshold, default_timeout, default_workers, default_worktree_dir,
};
use drover::{Config, DroverConfig};

#[test]
fn test_default_config() {
    let config = Config::default();
    assert_eq!(config.workers, 4);
    assert_eq!(config.timeout, 600);
    assert_eq!(config.retries, 3);
    assert!(config.auto_unblock);
}

#[test]
fn test_drover_config_from_config() {
    let config = Config::default();
    let drover_config = DroverConfig::from(config);
    assert_eq!(drover_config.max_workers, 4);
    assert_eq!(drover_config.task_timeout_secs, 600);
}

#[test]
fn test_default_values() {
    assert_eq!(default_workers(), 4);
    assert_eq!(default_timeout(), 600);
    assert_eq!(default_retries(), 3);
    assert!(default_auto_unblock());
    assert_eq!(default_database(), "sqlite://.drover.db");
    assert_eq!(default_stall_threshold(), 300);
    assert_eq!(default_poll_interval(), 5000);
    assert!(default_worktree_dir().is_none());
}

#[test]
fn test_from_config_remaining_fields() {
    let config = Config::default();
    let dc = DroverConfig::from(config);
    assert_eq!(dc.max_task_attempts, 3);
    assert_eq!(dc.stall_threshold_secs, 300);
    assert_eq!(dc.poll_interval_ms, 5000);
    assert!(dc.auto_unblock);
    assert_eq!(dc.project_dir, ".");
    assert!(dc.task_limit.is_none());
    assert_eq!(dc.worktree_dir, ".drover/worktrees");
}

#[test]
fn test_config_worktree_dir_kept() {
    let mut config = Config::default();
    config.worktree_dir = Some("trees".to_string());
    let dc = DroverConfig::from(config);
    assert_eq!(dc.worktree_dir, "trees");
}

#[test]
fn test_builders() {
    let dc = DroverConfig::from(Config::default())
        .with_project_dir("proj".to_string())
        .with_task_limit(Some(7));
    assert_eq!(dc.project_dir, "proj");
    assert_eq!(dc.task_limit, Some(7));
    assert_eq!(dc.max_workers, 4);
}
