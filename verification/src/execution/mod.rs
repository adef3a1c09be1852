//! Execution plans, execution state and reports.

pub mod plan;
pub mod report;
pub mod state;

pub use plan::{ExecutionNode, ExecutionPlan};
pub use report::{ExecutionReport, ReportGenerator, TaskReport};
pub use state::{ExecutionPhase, ExecutionState, ExecutionStatus, TaskState};
