//! Tasks: statuses, inputs and outputs, and the placeholder task.

pub mod task_io;
pub mod registry;
pub mod task_metadata;
pub mod task_trait;

pub use task_io::{TaskInput, TaskOutput};
pub use registry::TaskRegistry;
pub use task_metadata::TaskMetadata;
pub use task_trait::{EmptyTaskExecutor, TaskExecutionResult, TaskStatus};
