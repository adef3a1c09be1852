//! Strategy settings and the result of running a DAG.

use vstd::prelude::*;
use crate::dag::NodeExecutionResult;
use crate::task::TaskOutput;
use crate::foreign::{now_millis, timestamp_in_range};
use crate::text::{debug_list, debug_list_text, decimal, push_decimal, views_of};

verus! {

/// The settings of an orchestration strategy.
pub struct StrategyConfig {
    /// Strategy name.
    pub name: String,
    /// The most nodes to run at once.
    pub max_parallelism: Option<usize>,
    /// Timeout in milliseconds.
    pub timeout_ms: Option<u64>,
    /// Whether failed tasks are retried.
    pub enable_retry: bool,
    /// The most retries.
    pub max_retries: u32,
    /// Milliseconds between retries.
    pub retry_interval_ms: u64,
}

impl Default for StrategyConfig {
    fn default() -> (c: Self)
        ensures
            c.name@ == "default"@,
            c.max_parallelism == Some(10usize),
            c.timeout_ms == Some(60000u64),
            c.enable_retry,
            c.max_retries == 3,
            c.retry_interval_ms == 1000,
    {
        StrategyConfig {
            name: "default".to_owned(),
            max_parallelism: Some(10),
            timeout_ms: Some(60000),
            enable_retry: true,
            max_retries: 3,
            retry_interval_ms: 1000,
        }
    }
}

impl StrategyConfig {
    /// The default settings under the name `name`.
    pub fn new(name: &str) -> (c: Self)
        ensures
            c.name@ == name@,
            c.max_parallelism == Some(10usize),
            c.timeout_ms == Some(60000u64),
            c.enable_retry,
            c.max_retries == 3,
            c.retry_interval_ms == 1000,
    {
        StrategyConfig { name: name.to_owned(), ..StrategyConfig::default() }
    }

    /// Sets the most nodes to run at once.
    pub fn with_parallelism(self, parallelism: usize) -> (c: Self)
        ensures
            c == (StrategyConfig { max_parallelism: Some(parallelism), ..self }),
    {
        StrategyConfig { max_parallelism: Some(parallelism), ..self }
    }

    /// Sets the timeout.
    pub fn with_timeout(self, timeout_ms: u64) -> (c: Self)
        ensures
            c == (StrategyConfig { timeout_ms: Some(timeout_ms), ..self }),
    {
        StrategyConfig { timeout_ms: Some(timeout_ms), ..self }
    }

    /// Turns retries on, with the given count and interval.
    pub fn with_retry(self, max_retries: u32, interval_ms: u64) -> (c: Self)
        ensures
            c == (StrategyConfig { enable_retry: true, max_retries, retry_interval_ms: interval_ms, ..self }),
    {
        StrategyConfig { enable_retry: true, max_retries, retry_interval_ms: interval_ms, ..self }
    }

    /// Turns retries off.
    pub fn without_retry(self) -> (c: Self)
        ensures
            c == (StrategyConfig { enable_retry: false, ..self }),
    {
        StrategyConfig { enable_retry: false, ..self }
    }
}

impl Clone for StrategyConfig {
    fn clone(&self) -> (c: Self)
        ensures
            c == *self,
    {
        StrategyConfig {
            name: self.name.clone(),
            max_parallelism: self.max_parallelism,
            timeout_ms: self.timeout_ms,
            enable_retry: self.enable_retry,
            max_retries: self.max_retries,
            retry_interval_ms: self.retry_interval_ms,
        }
    }
}

/// The number of successful results.
pub open spec fn count_success(rs: Seq<NodeExecutionResult>) -> nat
    decreases rs.len(),
{
    if rs.len() == 0 {
        0
    } else {
        count_success(rs.drop_last()) + if rs.last().success { 1nat } else { 0nat }
    }
}

/// Successful results are no more than all results.
pub proof fn lemma_count_success_bound(rs: Seq<NodeExecutionResult>)
    ensures
        count_success(rs) <= rs.len(),
    decreases rs.len(),
{
    if rs.len() > 0 {
        lemma_count_success_bound(rs.drop_last());
    }
}

/// The number of successful results among `rs`.
pub fn success_count_of(rs: &[NodeExecutionResult]) -> (n: usize)
    ensures
        n == count_success(rs@),
{
    let mut n: usize = 0;
    let mut i: usize = 0;
    while i < rs.len()
        invariant
            i <= rs@.len(),
            n == count_success(rs@.take(i as int)),
            n <= i,
        decreases rs@.len() - i,
    {
        proof {
            assert(rs@.take(i + 1).drop_last() =~= rs@.take(i as int));
        }
        if rs[i].success {
            n = n + 1;
        }
        i = i + 1;
    }
    proof {
        assert(rs@.take(i as int) =~= rs@);
    }
    n
}

/// The outcome of running a DAG with a strategy.
pub struct ExecutionResult {
    /// Whether every node succeeded.
    pub success: bool,
    /// The results of the nodes, in the order they finished.
    pub node_results: Vec<NodeExecutionResult>,
    /// Total duration in milliseconds.
    pub total_duration_ms: u64,
    /// When the run started, in milliseconds since the epoch.
    pub start_time: i64,
    /// When the run ended, in milliseconds since the epoch.
    pub end_time: i64,
    /// What went wrong, on failure.
    pub error: Option<String>,
}

impl ExecutionResult {
    /// A successful run ending now.
    pub fn success(node_results: Vec<NodeExecutionResult>, total_duration_ms: u64) -> (r: Self)
        ensures
            r.success,
            r.node_results == node_results,
            r.total_duration_ms == total_duration_ms,
            timestamp_in_range(r.end_time as int),
            r.start_time == r.end_time.wrapping_sub(total_duration_ms as i64),
            r.error is None,
    {
        let now = now_millis();
        ExecutionResult {
            success: true,
            node_results,
            total_duration_ms,
            start_time: now.wrapping_sub(total_duration_ms as i64),
            end_time: now,
            error: None,
        }
    }

    /// A failed run ending now, with the given error.
    pub fn failure(error: String, node_results: Vec<NodeExecutionResult>, total_duration_ms: u64) -> (r: Self)
        ensures
            !r.success,
            r.node_results == node_results,
            r.total_duration_ms == total_duration_ms,
            timestamp_in_range(r.end_time as int),
            r.start_time == r.end_time.wrapping_sub(total_duration_ms as i64),
            r.error == Some(error),
    {
        let now = now_millis();
        ExecutionResult {
            success: false,
            node_results,
            total_duration_ms,
            start_time: now.wrapping_sub(total_duration_ms as i64),
            end_time: now,
            error: Some(error),
        }
    }

    /// Whether the run succeeded.
    pub fn is_success(&self) -> (b: bool)
        ensures
            b == self.success,
    {
        self.success
    }

    /// The number of failed nodes.
    pub fn failed_count(&self) -> (n: usize)
        ensures
            n == self.node_results@.len() - count_success(self.node_results@),
    {
        let s = success_count_of(self.node_results.as_slice());
        proof {
            lemma_count_success_bound(self.node_results@);
        }
        self.node_results.len() - s
    }

    /// The number of successful nodes.
    pub fn succeeded_count(&self) -> (n: usize)
        ensures
            n == count_success(self.node_results@),
    {
        success_count_of(self.node_results.as_slice())
    }

    /// The number of node results.
    pub fn total_count(&self) -> (n: usize)
        ensures
            n == self.node_results@.len(),
    {
        self.node_results.len()
    }
}

/// The error messages of the failed results, in order; a failure without a message counts
/// as an empty one.
pub open spec fn failed_messages(rs: Seq<NodeExecutionResult>) -> Seq<Seq<char>>
    decreases rs.len(),
{
    if rs.len() == 0 {
        Seq::empty()
    } else {
        let prev = failed_messages(rs.drop_last());
        let r = rs.last();
        if r.success {
            prev
        } else {
            prev.push(
                match r.error {
                    Some(e) => e@,
                    None => Seq::empty(),
                },
            )
        }
    }
}

/// There is one failure message per failed result: as many as the results less the
/// successes, and a failed result that carries an error gives exactly that error's text.
pub proof fn lemma_one_message_per_failure(rs: Seq<NodeExecutionResult>)
    ensures
        failed_messages(rs).len() + count_success(rs) == rs.len(),
        rs.len() > 0 && !rs.last().success && rs.last().error is Some ==> failed_messages(rs).last()
            == rs.last().error.unwrap()@,
    decreases rs.len(),
{
    if rs.len() > 0 {
        lemma_one_message_per_failure(rs.drop_last());
    }
}

/// Whether every result is a success.
pub fn all_succeeded(rs: &[NodeExecutionResult]) -> (b: bool)
    ensures
        b == forall|i: int| 0 <= i < rs@.len() ==> (#[trigger] rs@[i]).success,
{
    let mut i: usize = 0;
    while i < rs.len()
        invariant
            i <= rs@.len(),
            forall|j: int| 0 <= j < i ==> (#[trigger] rs@[j]).success,
        decreases rs@.len() - i,
    {
        if !rs[i].success {
            return false;
        }
        i = i + 1;
    }
    true
}

/// What a strategy reports when some nodes failed: how many, and their messages as a list.
pub fn failure_message(rs: &[NodeExecutionResult]) -> (m: String)
    ensures
        m@ == decimal(failed_messages(rs@).len()) + " tasks failed: "@ + debug_list(failed_messages(rs@)),
{
    let mut failed: Vec<String> = Vec::new();
    let mut i: usize = 0;
    while i < rs.len()
        invariant
            i <= rs@.len(),
            views_of(failed@) == failed_messages(rs@.take(i as int)),
            failed@.len() <= i,
        decreases rs@.len() - i,
    {
        let ghost before = failed@;
        proof {
            assert(rs@.take(i + 1).drop_last() =~= rs@.take(i as int));
        }
        if !rs[i].success {
            let e = match &rs[i].error {
                Some(e) => e.clone(),
                None => String::new(),
            };
            failed.push(e);
            proof {
                assert(views_of(failed@) =~= views_of(before).push(failed@.last()@));
            }
        }
        i = i + 1;
    }
    proof {
        assert(rs@.take(i as int) =~= rs@);
        assert(views_of(failed@).len() == failed@.len());
    }
    let mut m = String::new();
    push_decimal(&mut m, failed.len() as u64);
    m.append(" tasks failed: ");
    let listed = debug_list_text(&failed);
    m.append(listed.as_str());
    proof {
        assert(Seq::<char>::empty() + decimal(failed@.len()) =~= decimal(failed@.len()));
    }
    m
}

/// The result of one task as a strategy sees it.
pub struct TaskExecutionResult {
    /// Task id.
    pub task_id: String,
    /// Task name.
    pub name: String,
    /// Whether the task succeeded.
    pub success: bool,
    /// Its output, on success.
    pub output: Option<TaskOutput>,
    /// Its error message, on failure.
    pub error: Option<String>,
    /// How long it ran, in milliseconds.
    pub duration_ms: u64,
}

impl TaskExecutionResult {
    /// A successful result.
    pub fn success(task_id: String, name: String, output: TaskOutput, duration_ms: u64) -> (r: Self)
        ensures
            r == (TaskExecutionResult { task_id, name, success: true, output: Some(output), error: None, duration_ms }),
    {
        TaskExecutionResult { task_id, name, success: true, output: Some(output), error: None, duration_ms }
    }

    /// A failed result.
    pub fn failure(task_id: String, name: String, error: String, duration_ms: u64) -> (r: Self)
        ensures
            r == (TaskExecutionResult { task_id, name, success: false, output: None, error: Some(error), duration_ms }),
    {
        TaskExecutionResult { task_id, name, success: false, output: None, error: Some(error), duration_ms }
    }
}

} // verus!
