//! Task statuses, and the placeholder task.

use vstd::prelude::*;
use crate::error::Error;
use crate::foreign::{now_millis, timestamp_in_range};
use super::task_io::TaskOutput;

verus! {

/// The status of a task.
#[derive(Debug, Clone, Copy, PartialEq, Eq, Structural)]
pub enum TaskStatus {
    /// Not started.
    Pending,
    /// Running.
    Running,
    /// Finished successfully.
    Completed,
    /// Finished with a failure.
    Failed,
    /// Skipped.
    Skipped,
    /// Cancelled.
    Cancelled,
}

impl Default for TaskStatus {
    fn default() -> (s: Self)
        ensures
            s == TaskStatus::Pending,
    {
        TaskStatus::Pending
    }
}

/// The name of each status, as shown to users.
pub open spec fn task_status_name(s: TaskStatus) -> Seq<char> {
    match s {
        TaskStatus::Pending => "pending"@,
        TaskStatus::Running => "running"@,
        TaskStatus::Completed => "completed"@,
        TaskStatus::Failed => "failed"@,
        TaskStatus::Skipped => "skipped"@,
        TaskStatus::Cancelled => "cancelled"@,
    }
}

impl TaskStatus {
    /// The status's name, such as `pending`.
    pub fn as_str(&self) -> (s: &'static str)
        ensures
            s@ == task_status_name(*self),
    {
        match self {
            TaskStatus::Pending => "pending",
            TaskStatus::Running => "running",
            TaskStatus::Completed => "completed",
            TaskStatus::Failed => "failed",
            TaskStatus::Skipped => "skipped",
            TaskStatus::Cancelled => "cancelled",
        }
    }
}

/// A task that stands in where no real task is known, such as for a node read back from
/// storage. Running it always fails.
pub struct EmptyTaskExecutor;

impl EmptyTaskExecutor {
    /// Its id, `<placeholder>`.
    pub fn task_id(&self) -> (s: &'static str)
        ensures
            s@ == "<placeholder>"@,
    {
        "<placeholder>"
    }

    /// Its name, `<Placeholder Task>`.
    pub fn task_name(&self) -> (s: &'static str)
        ensures
            s@ == "<Placeholder Task>"@,
    {
        "<Placeholder Task>"
    }

    /// Its description.
    pub fn task_description(&self) -> (s: Option<&'static str>)
        ensures
            s matches Some(d) && d@ == "Placeholder task executor for deserialization"@,
    {
        Some("Placeholder task executor for deserialization")
    }

    /// What running it gives: an internal error.
    pub fn execution_error(&self) -> (e: Error)
        ensures
            e matches Error::Internal(m) && m@ == "EmptyTaskExecutor cannot be executed. This is a placeholder."@,
    {
        Error::Internal("EmptyTaskExecutor cannot be executed. This is a placeholder.".to_owned())
    }
}

/// The result of running one task, with its status and when it ran.
pub struct TaskExecutionResult {
    /// Task id.
    pub task_id: String,
    /// Task name.
    pub name: String,
    /// Completed or failed.
    pub status: TaskStatus,
    /// Its output, on success.
    pub output: Option<TaskOutput>,
    /// Its error message, on failure.
    pub error: Option<String>,
    /// How long it ran, in milliseconds.
    pub duration_ms: u64,
    /// When it started, in milliseconds since the epoch.
    pub start_time: Option<i64>,
    /// When it ended, in milliseconds since the epoch.
    pub end_time: Option<i64>,
}

impl TaskExecutionResult {
    /// A completed result ending now; its start is `duration_ms` earlier.
    pub fn success(task_id: String, name: String, output: TaskOutput, duration_ms: u64) -> (r: Self)
        ensures
            r.task_id == task_id,
            r.name == name,
            r.status == TaskStatus::Completed,
            r.output == Some(output),
            r.error is None,
            r.duration_ms == duration_ms,
            r.end_time matches Some(t) && timestamp_in_range(t as int) && r.start_time == Some(
                t.wrapping_sub(duration_ms as i64),
            ),
    {
        let now = now_millis();
        TaskExecutionResult {
            task_id,
            name,
            status: TaskStatus::Completed,
            output: Some(output),
            error: None,
            duration_ms,
            start_time: Some(now.wrapping_sub(duration_ms as i64)),
            end_time: Some(now),
        }
    }

    /// A failed result ending now; its start is `duration_ms` earlier.
    pub fn failure(task_id: String, name: String, error: String, duration_ms: u64) -> (r: Self)
        ensures
            r.task_id == task_id,
            r.name == name,
            r.status == TaskStatus::Failed,
            r.output is None,
            r.error == Some(error),
            r.duration_ms == duration_ms,
            r.end_time matches Some(t) && timestamp_in_range(t as int) && r.start_time == Some(
                t.wrapping_sub(duration_ms as i64),
            ),
    {
        let now = now_millis();
        TaskExecutionResult {
            task_id,
            name,
            status: TaskStatus::Failed,
            output: None,
            error: Some(error),
            duration_ms,
            start_time: Some(now.wrapping_sub(duration_ms as i64)),
            end_time: Some(now),
        }
    }

    /// Whether the task completed.
    pub fn is_success(&self) -> (b: bool)
        ensures
            b == (self.status == TaskStatus::Completed),
    {
        self.status == TaskStatus::Completed
    }
}

} // verus!
