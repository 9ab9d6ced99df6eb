//! Run configuration: the settings-file shape, its defaults, and the runtime
//! configuration derived from it.

use vstd::prelude::*;

verus! {

/// Default number of parallel workers.
pub fn default_workers() -> (r: usize)
    ensures
        r == 4,
{
    4
}

/// Default task timeout, in seconds.
pub fn default_timeout() -> (r: u64)
    ensures
        r == 600,
{
    600
}

/// Default maximum retry attempts per task.
pub fn default_retries() -> (r: u32)
    ensures
        r == 3,
{
    3
}

/// By default, remediation tasks are created for blockers.
pub fn default_auto_unblock() -> (r: bool)
    ensures
        r == true,
{
    true
}

/// Default database URL for durable state.
pub fn default_database() -> (r: String)
    ensures
        r@ == "sqlite://.drover.db"@,
{
    "sqlite://.drover.db".to_owned()
}

/// Default stall threshold, in seconds.
pub fn default_stall_threshold() -> (r: u64)
    ensures
        r == 300,
{
    300
}

/// Default poll interval, in milliseconds.
pub fn default_poll_interval() -> (r: u64)
    ensures
        r == 5000,
{
    5000
}

/// By default no worktree directory is configured.
pub fn default_worktree_dir() -> (r: Option<String>)
    ensures
        r is None,
{
    None
}

/// Settings loaded from the project's configuration file.
#[derive(Debug)]
pub struct Config {
    /// Number of parallel workers.
    pub workers: usize,
    /// Task timeout in seconds.
    pub timeout: u64,
    /// Max retry attempts per task.
    pub retries: u32,
    /// Auto-create tasks to fix blockers.
    pub auto_unblock: bool,
    /// Database URL for durable state.
    pub database: String,
    /// Stall threshold in seconds.
    pub stall_threshold: u64,
    /// Poll interval in milliseconds.
    pub poll_interval: u64,
    /// Worktree directory.
    pub worktree_dir: Option<String>,
}

impl Default for Config {
    /// The defaults used when no settings file is present.
    fn default() -> (r: Self)
        ensures
            r.workers == 4,
            r.timeout == 600,
            r.retries == 3,
            r.auto_unblock == true,
            r.database@ == "sqlite://.drover.db"@,
            r.stall_threshold == 300,
            r.poll_interval == 5000,
            r.worktree_dir is None,
    {
        Config {
            workers: default_workers(),
            timeout: default_timeout(),
            retries: default_retries(),
            auto_unblock: default_auto_unblock(),
            database: default_database(),
            stall_threshold: default_stall_threshold(),
            poll_interval: default_poll_interval(),
            worktree_dir: default_worktree_dir(),
        }
    }
}

/// Runtime configuration for one run.
#[derive(Debug)]
pub struct DroverConfig {
    pub max_workers: usize,
    pub max_task_attempts: u32,
    /// Task timeout, in seconds.
    pub task_timeout_secs: u64,
    /// Stall threshold, in seconds.
    pub stall_threshold_secs: u64,
    /// Poll interval, in milliseconds.
    pub poll_interval_ms: u64,
    pub auto_unblock: bool,
    pub project_dir: String,
    pub task_limit: Option<usize>,
    pub worktree_dir: String,
}

impl From<Config> for DroverConfig {
    /// Derives the runtime configuration: the current directory as project
    /// directory, no task cap, and a fallback worktree directory.
    fn from(config: Config) -> (r: Self)
        ensures
            r.max_workers == config.workers,
            r.max_task_attempts == config.retries,
            r.task_timeout_secs == config.timeout,
            r.stall_threshold_secs == config.stall_threshold,
            r.poll_interval_ms == config.poll_interval,
            r.auto_unblock == config.auto_unblock,
            r.project_dir@ == "."@,
            r.task_limit is None,
            match config.worktree_dir {
                Some(d) => r.worktree_dir == d,
                None => r.worktree_dir@ == ".drover/worktrees"@,
            },
    {
        DroverConfig {
            max_workers: config.workers,
            max_task_attempts: config.retries,
            task_timeout_secs: config.timeout,
            stall_threshold_secs: config.stall_threshold,
            poll_interval_ms: config.poll_interval,
            auto_unblock: config.auto_unblock,
            project_dir: ".".to_owned(),
            task_limit: None,
            worktree_dir: match config.worktree_dir {
                Some(d) => d,
                None => ".drover/worktrees".to_owned(),
            },
        }
    }
}

impl vstd::std_specs::convert::FromSpecImpl<Config> for DroverConfig {
    open spec fn obeys_from_spec() -> bool {
        false
    }

    open spec fn from_spec(c: Config) -> Self {
        arbitrary()
    }
}

impl DroverConfig {
    /// Replaces the project directory.
    pub fn with_project_dir(self, dir: String) -> (r: Self)
        ensures
            r == (DroverConfig { project_dir: dir, ..self }),
    {
        DroverConfig { project_dir: dir, ..self }
    }

    /// Replaces the task-processing cap.
    pub fn with_task_limit(self, limit: Option<usize>) -> (r: Self)
        ensures
            r == (DroverConfig { task_limit: limit, ..self }),
    {
        DroverConfig { task_limit: limit, ..self }
    }
}

} // verus!
