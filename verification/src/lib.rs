//! Task-orchestration engine: work model, claim registry, worker event
//! classification, the orchestrator's lifecycle state machine, and the
//! checkpoint ledger semantics.

pub mod config;
pub mod drover;
pub mod executor;
pub mod ledger;
pub mod manifest;
pub mod model;
pub mod registry;
pub mod text;
pub mod workers;

pub use config::Config;
pub use config::DroverConfig;
pub use drover::DroverResult;
pub use drover::RunState;
pub use drover::SideEffect;
pub use executor::TaskExecutor;
pub use executor::WorktreeManager;
pub use ledger::RunLedger;
pub use ledger::RunRecord;
pub use manifest::Epic;
pub use manifest::ProjectStatus;
pub use manifest::WorkManifest;
pub use model::BeadItem;
pub use model::Task;
pub use model::TaskStatus;
pub use registry::WorkerState;
pub use workers::WorkerEvent;
pub use workers::WorkerPoolConfig;
