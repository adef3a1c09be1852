//! Tracking the state of an execution and of each of its tasks.

use vstd::prelude::*;
use crate::assoc::StrMap;
use crate::foreign::{now_millis, timestamp_in_range};

verus! {

/// The status of a task.
#[derive(Debug, Clone, Copy, PartialEq, Eq, Structural)]
pub enum ExecutionStatus {
    /// Not started.
    Pending,
    /// Running.
    Running,
    /// Finished successfully.
    Completed,
    /// Finished with a failure.
    Failed,
    /// Cancelled.
    Cancelled,
}

impl ExecutionStatus {
    /// The status as shown to users: `pending`, `running`, `completed`, `failed`, `cancelled`.
    pub fn as_str(&self) -> (s: &'static str)
        ensures
            s@ == status_name(*self),
    {
        match self {
            ExecutionStatus::Pending => "pending",
            ExecutionStatus::Running => "running",
            ExecutionStatus::Completed => "completed",
            ExecutionStatus::Failed => "failed",
            ExecutionStatus::Cancelled => "cancelled",
        }
    }
}

impl Default for ExecutionStatus {
    fn default() -> (s: Self)
        ensures
            s == ExecutionStatus::Pending,
    {
        ExecutionStatus::Pending
    }
}

/// The name of each status.
pub open spec fn status_name(s: ExecutionStatus) -> Seq<char> {
    match s {
        ExecutionStatus::Pending => "pending"@,
        ExecutionStatus::Running => "running"@,
        ExecutionStatus::Completed => "completed"@,
        ExecutionStatus::Failed => "failed"@,
        ExecutionStatus::Cancelled => "cancelled"@,
    }
}

/// The phase an execution is in.
#[derive(Debug, Clone, Copy, PartialEq, Eq, Structural)]
pub enum ExecutionPhase {
    /// Setting up.
    Initializing,
    /// Checking the DAG and plan.
    Validating,
    /// Planning.
    Planning,
    /// Running tasks.
    Executing,
    /// Finished without a failed task.
    Completed,
    /// Undoing work after a failure.
    RollingBack,
    /// Finished with a failed task.
    Terminated,
}

impl ExecutionPhase {
    /// The phase as shown to users, such as `rolling_back`.
    pub fn as_str(&self) -> (s: &'static str)
        ensures
            s@ == phase_name(*self),
    {
        match self {
            ExecutionPhase::Initializing => "initializing",
            ExecutionPhase::Validating => "validating",
            ExecutionPhase::Planning => "planning",
            ExecutionPhase::Executing => "executing",
            ExecutionPhase::Completed => "completed",
            ExecutionPhase::RollingBack => "rolling_back",
            ExecutionPhase::Terminated => "terminated",
        }
    }
}

impl Default for ExecutionPhase {
    fn default() -> (p: Self)
        ensures
            p == ExecutionPhase::Initializing,
    {
        ExecutionPhase::Initializing
    }
}

/// The name of each phase.
pub open spec fn phase_name(p: ExecutionPhase) -> Seq<char> {
    match p {
        ExecutionPhase::Initializing => "initializing"@,
        ExecutionPhase::Validating => "validating"@,
        ExecutionPhase::Planning => "planning"@,
        ExecutionPhase::Executing => "executing"@,
        ExecutionPhase::Completed => "completed"@,
        ExecutionPhase::RollingBack => "rolling_back"@,
        ExecutionPhase::Terminated => "terminated"@,
    }
}

/// The state of one task.
#[derive(Debug)]
pub struct TaskState {
    /// Task id.
    pub task_id: String,
    /// Task name.
    pub name: String,
    /// Status.
    pub status: ExecutionStatus,
    /// Attempts so far.
    pub attempts: u32,
    /// The error, once failed.
    pub error: Option<String>,
    /// When the task started, in milliseconds since the epoch.
    pub start_time: Option<i64>,
    /// When the task ended, in milliseconds since the epoch.
    pub end_time: Option<i64>,
}

/// The time between two timestamps, when both are known.
pub open spec fn span_ms(start: Option<i64>, end: Option<i64>) -> Option<u64> {
    match (start, end) {
        (Some(s), Some(e)) => Some((e - s) as u64),
        _ => None,
    }
}

/// Subtracting the timestamps cannot overflow.
pub open spec fn span_fits(start: Option<i64>, end: Option<i64>) -> bool {
    match (start, end) {
        (Some(s), Some(e)) => i64::MIN <= e - s <= i64::MAX,
        _ => true,
    }
}

/// The time between two timestamps: the difference taken as an unsigned number.
fn span_of(start: Option<i64>, end: Option<i64>) -> (r: Option<u64>)
    requires
        span_fits(start, end),
    ensures
        r == span_ms(start, end),
{
    match (start, end) {
        (Some(s), Some(e)) => Some((e - s) as u64),
        _ => None,
    }
}

impl TaskState {
    /// A pending task that has not been attempted.
    pub fn new(task_id: String, name: String) -> (t: Self)
        ensures
            t.task_id == task_id,
            t.name == name,
            t.status == ExecutionStatus::Pending,
            t.attempts == 0,
            t.error is None,
            t.start_time is None,
            t.end_time is None,
    {
        TaskState {
            task_id,
            name,
            status: ExecutionStatus::Pending,
            attempts: 0,
            error: None,
            start_time: None,
            end_time: None,
        }
    }

    /// Marks the task running, starting now.
    pub fn start(&mut self)
        ensures
            final(self).status == ExecutionStatus::Running,
            final(self).start_time matches Some(t) && timestamp_in_range(t as int),
            final(self).task_id == old(self).task_id,
            final(self).name == old(self).name,
            final(self).attempts == old(self).attempts,
            final(self).error == old(self).error,
            final(self).end_time == old(self).end_time,
    {
        self.status = ExecutionStatus::Running;
        self.start_time = Some(now_millis());
    }

    /// Marks the task completed, ending now.
    pub fn complete(&mut self)
        ensures
            final(self).status == ExecutionStatus::Completed,
            final(self).end_time matches Some(t) && timestamp_in_range(t as int),
            final(self).task_id == old(self).task_id,
            final(self).name == old(self).name,
            final(self).attempts == old(self).attempts,
            final(self).error == old(self).error,
            final(self).start_time == old(self).start_time,
    {
        self.status = ExecutionStatus::Completed;
        self.end_time = Some(now_millis());
    }

    /// Marks the task failed with `error`, ending now.
    pub fn fail(&mut self, error: String)
        ensures
            final(self).status == ExecutionStatus::Failed,
            final(self).error == Some(error),
            final(self).end_time matches Some(t) && timestamp_in_range(t as int),
            final(self).task_id == old(self).task_id,
            final(self).name == old(self).name,
            final(self).attempts == old(self).attempts,
            final(self).start_time == old(self).start_time,
    {
        self.status = ExecutionStatus::Failed;
        self.error = Some(error);
        self.end_time = Some(now_millis());
    }

    /// Marks the task cancelled, ending now.
    pub fn cancel(&mut self)
        ensures
            final(self).status == ExecutionStatus::Cancelled,
            final(self).end_time matches Some(t) && timestamp_in_range(t as int),
            final(self).task_id == old(self).task_id,
            final(self).name == old(self).name,
            final(self).attempts == old(self).attempts,
            final(self).error == old(self).error,
            final(self).start_time == old(self).start_time,
    {
        self.status = ExecutionStatus::Cancelled;
        self.end_time = Some(now_millis());
    }

    /// Counts one more attempt.
    pub fn increment_attempts(&mut self)
        requires
            old(self).attempts < u32::MAX,
        ensures
            final(self).attempts == old(self).attempts + 1,
            final(self).task_id == old(self).task_id,
            final(self).name == old(self).name,
            final(self).status == old(self).status,
            final(self).error == old(self).error,
            final(self).start_time == old(self).start_time,
            final(self).end_time == old(self).end_time,
    {
        self.attempts = self.attempts + 1;
    }

    /// How long the task ran, once it has started and ended.
    pub fn duration_ms(&self) -> (r: Option<u64>)
        requires
            span_fits(self.start_time, self.end_time),
        ensures
            r == span_ms(self.start_time, self.end_time),
    {
        span_of(self.start_time, self.end_time)
    }
}

impl Clone for TaskState {
    fn clone(&self) -> (t: Self)
        ensures
            t == *self,
    {
        let error = match &self.error {
            Some(e) => Some(e.clone()),
            None => None,
        };
        TaskState {
            task_id: self.task_id.clone(),
            name: self.name.clone(),
            status: self.status,
            attempts: self.attempts,
            error,
            start_time: self.start_time,
            end_time: self.end_time,
        }
    }
}

impl Default for TaskState {
    fn default() -> (t: Self)
        ensures
            t.task_id@ == Seq::<char>::empty(),
            t.name@ == Seq::<char>::empty(),
            t.status == ExecutionStatus::Pending,
            t.attempts == 0,
            t.error is None,
            t.start_time is None,
            t.end_time is None,
    {
        TaskState::new(String::new(), String::new())
    }
}

/// The number of entries whose task has status `st`.
pub open spec fn count_status(p: Seq<(Seq<char>, TaskState)>, st: ExecutionStatus) -> nat
    decreases p.len(),
{
    if p.len() == 0 {
        0
    } else {
        count_status(p.drop_last(), st) + if p.last().1.status == st { 1nat } else { 0nat }
    }
}

/// Whether a status is final: completed, failed or cancelled.
pub open spec fn is_final(st: ExecutionStatus) -> bool {
    st == ExecutionStatus::Completed || st == ExecutionStatus::Failed || st == ExecutionStatus::Cancelled
}

/// The state of a whole execution: the tasks by id, the phase, and when it ran.
pub struct ExecutionState {
    /// Task states by task id, in the order the tasks were first added.
    pub task_states: StrMap<TaskState>,
    /// The current phase.
    pub phase: ExecutionPhase,
    /// When the execution started, in milliseconds since the epoch.
    pub start_time: Option<i64>,
    /// When the execution ended, in milliseconds since the epoch.
    pub end_time: Option<i64>,
}

impl ExecutionState {
    /// An execution with no tasks, initializing, not yet started.
    pub fn new() -> (s: Self)
        ensures
            s.task_states.pairs().len() == 0,
            s.phase == ExecutionPhase::Initializing,
            s.start_time is None,
            s.end_time is None,
    {
        ExecutionState { task_states: StrMap::new(), phase: ExecutionPhase::Initializing, start_time: None, end_time: None }
    }

    /// Starts the execution now, back in the initializing phase.
    pub fn start(&mut self)
        ensures
            final(self).start_time matches Some(t) && timestamp_in_range(t as int),
            final(self).phase == ExecutionPhase::Initializing,
            final(self).task_states == old(self).task_states,
            final(self).end_time == old(self).end_time,
    {
        self.start_time = Some(now_millis());
        self.phase = ExecutionPhase::Initializing;
    }

    /// Moves to `phase`.
    pub fn set_phase(&mut self, phase: ExecutionPhase)
        ensures
            final(self).phase == phase,
            final(self).task_states == old(self).task_states,
            final(self).start_time == old(self).start_time,
            final(self).end_time == old(self).end_time,
    {
        self.phase = phase;
    }

    /// Adds a pending task; a task with the same id is replaced by the new one.
    pub fn add_task(&mut self, task_id: String, name: String)
        ensures
            final(self).task_states@ == old(self).task_states@.insert(
                task_id@,
                final(self).task_states@[task_id@],
            ),
            final(self).task_states@[task_id@].task_id == task_id,
            final(self).task_states@[task_id@].name == name,
            final(self).task_states@[task_id@].status == ExecutionStatus::Pending,
            final(self).task_states@[task_id@].attempts == 0,
            final(self).task_states@[task_id@].error is None,
            final(self).task_states@[task_id@].start_time is None,
            final(self).task_states@[task_id@].end_time is None,
            final(self).phase == old(self).phase,
            final(self).start_time == old(self).start_time,
            final(self).end_time == old(self).end_time,
    {
        let key = task_id.clone();
        let _ = self.task_states.insert(key, TaskState::new(task_id, name));
    }

    /// Sets a task's status; an unknown task is first added with an empty name.
    pub fn update_task(&mut self, task_id: String, status: ExecutionStatus)
        ensures
            final(self).task_states@ == old(self).task_states@.insert(
                task_id@,
                final(self).task_states@[task_id@],
            ),
            final(self).task_states@[task_id@].status == status,
            old(self).task_states@.contains_key(task_id@) ==> {
                let t = old(self).task_states@[task_id@];
                let u = final(self).task_states@[task_id@];
                &&& u.task_id == t.task_id
                &&& u.name == t.name
                &&& u.attempts == t.attempts
                &&& u.error == t.error
                &&& u.start_time == t.start_time
                &&& u.end_time == t.end_time
            },
            !old(self).task_states@.contains_key(task_id@) ==> {
                let u = final(self).task_states@[task_id@];
                &&& u.task_id == task_id
                &&& u.name@ == Seq::<char>::empty()
                &&& u.attempts == 0
                &&& u.error is None
                &&& u.start_time is None
                &&& u.end_time is None
            },
            final(self).phase == old(self).phase,
            final(self).start_time == old(self).start_time,
            final(self).end_time == old(self).end_time,
    {
        let current = match self.task_states.get(task_id.as_str()) {
            Some(t) => t.clone(),
            None => TaskState::new(task_id.clone(), String::new()),
        };
        let mut updated = current;
        updated.status = status;
        let _ = self.task_states.insert(task_id, updated);
    }

    /// The state of task `task_id`.
    pub fn get_task_state(&self, task_id: &str) -> (r: Option<&TaskState>)
        ensures
            r is Some <==> self.task_states@.contains_key(task_id@),
            r matches Some(t) ==> *t == self.task_states@[task_id@],
    {
        self.task_states.get(task_id)
    }

    /// The number of tasks with status `st`.
    fn count_with(&self, st: ExecutionStatus) -> (n: usize)
        ensures
            n == count_status(self.task_states.pairs(), st),
    {
        let mut n: usize = 0;
        let mut i: usize = 0;
        let len = self.task_states.len();
        while i < len
            invariant
                i <= len,
                len == self.task_states.pairs().len(),
                n == count_status(self.task_states.pairs().take(i as int), st),
                n <= i,
            decreases len - i,
        {
            let (_, t) = self.task_states.entry_at(i);
            proof {
                assert(self.task_states.pairs().take(i + 1).drop_last() =~= self.task_states.pairs().take(i as int));
            }
            if t.status == st {
                n = n + 1;
            }
            i = i + 1;
        }
        proof {
            assert(self.task_states.pairs().take(i as int) =~= self.task_states.pairs());
        }
        n
    }

    /// The number of completed tasks.
    pub fn completed_count(&self) -> (n: usize)
        ensures
            n == count_status(self.task_states.pairs(), ExecutionStatus::Completed),
    {
        self.count_with(ExecutionStatus::Completed)
    }

    /// The number of failed tasks.
    pub fn failed_count(&self) -> (n: usize)
        ensures
            n == count_status(self.task_states.pairs(), ExecutionStatus::Failed),
    {
        self.count_with(ExecutionStatus::Failed)
    }

    /// The number of running tasks.
    pub fn running_count(&self) -> (n: usize)
        ensures
            n == count_status(self.task_states.pairs(), ExecutionStatus::Running),
    {
        self.count_with(ExecutionStatus::Running)
    }

    /// The number of pending tasks.
    pub fn pending_count(&self) -> (n: usize)
        ensures
            n == count_status(self.task_states.pairs(), ExecutionStatus::Pending),
    {
        self.count_with(ExecutionStatus::Pending)
    }

    /// The number of tasks.
    pub fn total_count(&self) -> (n: usize)
        ensures
            n == self.task_states.pairs().len(),
    {
        self.task_states.len()
    }

    /// Whether the execution is over: completed or terminated.
    pub fn is_completed(&self) -> (b: bool)
        ensures
            b == (self.phase == ExecutionPhase::Completed || self.phase == ExecutionPhase::Terminated),
    {
        self.phase == ExecutionPhase::Completed || self.phase == ExecutionPhase::Terminated
    }

    /// Whether some task failed.
    pub fn is_failed(&self) -> (b: bool)
        ensures
            b == exists|i: int| 0 <= i < self.task_states.pairs().len()
                && (#[trigger] self.task_states.pairs()[i]).1.status == ExecutionStatus::Failed,
    {
        let len = self.task_states.len();
        let mut i: usize = 0;
        while i < len
            invariant
                i <= len,
                len == self.task_states.pairs().len(),
                forall|j: int| 0 <= j < i ==> (#[trigger] self.task_states.pairs()[j]).1.status != ExecutionStatus::Failed,
            decreases len - i,
        {
            let (_, t) = self.task_states.entry_at(i);
            if t.status == ExecutionStatus::Failed {
                proof {
                    assert(self.task_states.pairs()[i as int].1.status == ExecutionStatus::Failed);
                }
                return true;
            }
            i = i + 1;
        }
        false
    }

    /// Whether every task has reached a final status: completed, failed or cancelled.
    pub fn all_completed(&self) -> (b: bool)
        ensures
            b == forall|i: int| 0 <= i < self.task_states.pairs().len() ==> is_final(
                (#[trigger] self.task_states.pairs()[i]).1.status,
            ),
    {
        let len = self.task_states.len();
        let mut i: usize = 0;
        while i < len
            invariant
                i <= len,
                len == self.task_states.pairs().len(),
                forall|j: int| 0 <= j < i ==> is_final((#[trigger] self.task_states.pairs()[j]).1.status),
            decreases len - i,
        {
            let (_, t) = self.task_states.entry_at(i);
            if !(t.status == ExecutionStatus::Completed || t.status == ExecutionStatus::Failed
                || t.status == ExecutionStatus::Cancelled) {
                proof {
                    assert(!is_final(self.task_states.pairs()[i as int].1.status));
                }
                return false;
            }
            i = i + 1;
        }
        true
    }

    /// How long the execution ran, once it has started and ended.
    pub fn duration_ms(&self) -> (r: Option<u64>)
        requires
            span_fits(self.start_time, self.end_time),
        ensures
            r == span_ms(self.start_time, self.end_time),
    {
        span_of(self.start_time, self.end_time)
    }

    /// Ends the execution now: terminated when some task failed, completed otherwise.
    pub fn finish(&mut self)
        ensures
            final(self).end_time matches Some(t) && timestamp_in_range(t as int),
            final(self).phase == if exists|i: int| 0 <= i < old(self).task_states.pairs().len()
                && (#[trigger] old(self).task_states.pairs()[i]).1.status == ExecutionStatus::Failed {
                ExecutionPhase::Terminated
            } else {
                ExecutionPhase::Completed
            },
            final(self).task_states == old(self).task_states,
            final(self).start_time == old(self).start_time,
    {
        self.end_time = Some(now_millis());
        if self.is_failed() {
            self.phase = ExecutionPhase::Terminated;
        } else {
            self.phase = ExecutionPhase::Completed;
        }
    }
}

impl Default for ExecutionState {
    fn default() -> (s: Self)
        ensures
            s.task_states.pairs().len() == 0,
            s.phase == ExecutionPhase::Initializing,
            s.start_time is None,
            s.end_time is None,
    {
        ExecutionState::new()
    }
}

} // verus!
