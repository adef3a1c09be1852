//! The result of running one node of a DAG.

use vstd::prelude::*;
use crate::foreign::{now_millis, timestamp_in_range};

verus! {

/// What running one node produced: its output on success, its error otherwise, and when
/// it ran.
pub struct NodeExecutionResult {
    /// Node id.
    pub task_id: String,
    /// Node name.
    pub name: String,
    /// Whether the node succeeded.
    pub success: bool,
    /// The output, on success.
    pub output: Option<serde_json::Value>,
    /// The error message, on failure.
    pub error: Option<String>,
    /// How long the node ran, in milliseconds.
    pub duration_ms: u64,
    /// When the node started, in milliseconds since the epoch.
    pub start_time: Option<i64>,
    /// When the node ended, in milliseconds since the epoch.
    pub end_time: Option<i64>,
}

impl NodeExecutionResult {
    /// A successful result ending now; its start is `duration_ms` earlier.
    pub fn success(task_id: String, name: String, output: serde_json::Value, duration_ms: u64) -> (r: Self)
        ensures
            r.task_id == task_id,
            r.name == name,
            r.success,
            r.output == Some(output),
            r.error is None,
            r.duration_ms == duration_ms,
            r.end_time matches Some(t) && timestamp_in_range(t as int) && r.start_time == Some(
                t.wrapping_sub(duration_ms as i64),
            ),
    {
        let now = now_millis();
        NodeExecutionResult {
            task_id,
            name,
            success: true,
            output: Some(output),
            error: None,
            duration_ms,
            start_time: Some(now.wrapping_sub(duration_ms as i64)),
            end_time: Some(now),
        }
    }

    /// A failed result ending now; its start is `duration_ms` earlier.
    pub fn failure(task_id: String, name: String, error: String, duration_ms: u64) -> (r: Self)
        ensures
            r.task_id == task_id,
            r.name == name,
            !r.success,
            r.output is None,
            r.error == Some(error),
            r.duration_ms == duration_ms,
            r.end_time matches Some(t) && timestamp_in_range(t as int) && r.start_time == Some(
                t.wrapping_sub(duration_ms as i64),
            ),
    {
        let now = now_millis();
        NodeExecutionResult {
            task_id,
            name,
            success: false,
            output: None,
            error: Some(error),
            duration_ms,
            start_time: Some(now.wrapping_sub(duration_ms as i64)),
            end_time: Some(now),
        }
    }

    /// Whether the node succeeded.
    pub fn is_success(&self) -> (b: bool)
        ensures
            b == self.success,
    {
        self.success
    }

    /// The error message, if any.
    pub fn error_message(&self) -> (r: Option<&str>)
        ensures
            r is Some <==> self.error is Some,
            r matches Some(m) ==> self.error.unwrap()@ == m@,
    {
        match &self.error {
            Some(e) => Some(e.as_str()),
            None => None,
        }
    }
}

impl Clone for NodeExecutionResult {
    fn clone(&self) -> (r: Self)
        ensures
            r == *self,
    {
        let output = match &self.output {
            Some(v) => Some(v.clone()),
            None => None,
        };
        let error = match &self.error {
            Some(e) => Some(e.clone()),
            None => None,
        };
        NodeExecutionResult {
            task_id: self.task_id.clone(),
            name: self.name.clone(),
            success: self.success,
            output,
            error,
            duration_ms: self.duration_ms,
            start_time: self.start_time,
            end_time: self.end_time,
        }
    }
}

} // verus!
