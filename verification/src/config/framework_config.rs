//! Framework settings: execution, logging, strategy and DAG limits.

use vstd::prelude::*;
use crate::error::Error;
use crate::strategy::StrategyType;

verus! {

/// Calls `num_cpus::get()`, the number of logical CPUs available. The number depends on the
/// machine; the crate documents that it is always at least 1.
#[verifier::external_body]
fn cpu_count() -> (n: usize)
    ensures
        n >= 1,
{
    num_cpus::get()
}

/// How tasks are executed.
pub struct ExecutionConfig {
    /// The most tasks run at once.
    pub max_workers: usize,
    /// Default timeout in milliseconds.
    pub default_timeout: Option<u64>,
    /// The most retries.
    pub max_retries: u32,
    /// Milliseconds between retries.
    pub retry_interval_ms: u64,
}

/// Why an execution configuration is refused, if it is.
pub open spec fn execution_config_problem(c: ExecutionConfig) -> Option<Seq<char>> {
    if c.max_workers == 0 {
        Some("max_workers must be greater than 0"@)
    } else if c.max_workers > 1000 {
        Some("max_workers exceeds maximum limit (1000)"@)
    } else if c.default_timeout == Some(0u64) {
        Some("default_timeout must be greater than 0"@)
    } else {
        None
    }
}

impl Default for ExecutionConfig {
    /// One worker per CPU, a minute's timeout, three retries a second apart.
    fn default() -> (c: Self)
        ensures
            c.max_workers >= 1,
            c.default_timeout == Some(60000u64),
            c.max_retries == 3,
            c.retry_interval_ms == 1000,
    {
        ExecutionConfig { max_workers: cpu_count(), default_timeout: Some(60000), max_retries: 3, retry_interval_ms: 1000 }
    }
}

impl ExecutionConfig {
    /// `max_workers` workers, a minute's timeout, three retries a second apart.
    pub fn new(max_workers: usize) -> (c: Self)
        ensures
            c.max_workers == max_workers,
            c.default_timeout == Some(60000u64),
            c.max_retries == 3,
            c.retry_interval_ms == 1000,
    {
        ExecutionConfig { max_workers, default_timeout: Some(60000), max_retries: 3, retry_interval_ms: 1000 }
    }

    /// Sets the default timeout.
    pub fn with_timeout(self, timeout_ms: u64) -> (c: Self)
        ensures
            c == (ExecutionConfig { default_timeout: Some(timeout_ms), ..self }),
    {
        ExecutionConfig { default_timeout: Some(timeout_ms), ..self }
    }

    /// Sets the retry count and interval.
    pub fn with_retries(self, max_retries: u32, interval_ms: u64) -> (c: Self)
        ensures
            c == (ExecutionConfig { max_retries, retry_interval_ms: interval_ms, ..self }),
    {
        ExecutionConfig { max_retries, retry_interval_ms: interval_ms, ..self }
    }

    /// Checks the settings: between 1 and 1000 workers, and a positive timeout if any.
    pub fn validate(&self) -> (r: Result<(), Error>)
        ensures
            execution_config_problem(*self) is None ==> r is Ok,
            execution_config_problem(*self) matches Some(m) ==> (r matches Err(Error::Config(d)) && d@ == m),
    {
        if self.max_workers == 0 {
            return Err(Error::Config("max_workers must be greater than 0".to_owned()));
        }
        if self.max_workers > 1000 {
            return Err(Error::Config("max_workers exceeds maximum limit (1000)".to_owned()));
        }
        match self.default_timeout {
            Some(t) => {
                if t == 0 {
                    return Err(Error::Config("default_timeout must be greater than 0".to_owned()));
                }
            },
            None => {},
        }
        Ok(())
    }
}

/// How logs are written.
pub struct LoggingConfig {
    /// Log level.
    pub level: String,
    /// Log format.
    pub format: String,
    /// Where logs go.
    pub target: Option<String>,
}

impl Default for LoggingConfig {
    /// Level `info`, format `json`, no target.
    fn default() -> (c: Self)
        ensures
            c.level@ == "info"@,
            c.format@ == "json"@,
            c.target is None,
    {
        LoggingConfig { level: "info".to_owned(), format: "json".to_owned(), target: None }
    }
}

impl LoggingConfig {
    /// Logging at `level`, in JSON, without a target.
    pub fn new(level: &str) -> (c: Self)
        ensures
            c.level@ == level@,
            c.format@ == "json"@,
            c.target is None,
    {
        LoggingConfig { level: level.to_owned(), format: "json".to_owned(), target: None }
    }

    /// Sets the format.
    pub fn with_format(self, format: &str) -> (c: Self)
        ensures
            c.level == self.level,
            c.format@ == format@,
            c.target == self.target,
    {
        LoggingConfig { format: format.to_owned(), ..self }
    }

    /// Sets the target.
    pub fn with_target(self, target: &str) -> (c: Self)
        ensures
            c.level == self.level,
            c.format == self.format,
            c.target matches Some(t) && t@ == target@,
    {
        LoggingConfig { target: Some(target.to_owned()), ..self }
    }
}

/// Limits on DAGs.
#[derive(Debug, Clone, Copy, PartialEq, Eq, Structural)]
pub struct DAGConfig {
    /// The most nodes a DAG may have.
    pub max_nodes: Option<usize>,
    /// Whether nodes run in parallel.
    pub parallel: bool,
    /// The most nodes to run at once.
    pub max_parallelism: Option<usize>,
}

impl Default for DAGConfig {
    /// At most 1000 nodes, in parallel, at most 10 at once.
    fn default() -> (c: Self)
        ensures
            c == (DAGConfig { max_nodes: Some(1000usize), parallel: true, max_parallelism: Some(10usize) }),
    {
        DAGConfig { max_nodes: Some(1000), parallel: true, max_parallelism: Some(10) }
    }
}

impl DAGConfig {
    /// The default limits.
    pub fn new() -> (c: Self)
        ensures
            c == (DAGConfig { max_nodes: Some(1000usize), parallel: true, max_parallelism: Some(10usize) }),
    {
        Self::default()
    }

    /// Sets the most nodes.
    pub fn with_max_nodes(self, max: usize) -> (c: Self)
        ensures
            c == (DAGConfig { max_nodes: Some(max), ..self }),
    {
        DAGConfig { max_nodes: Some(max), ..self }
    }

    /// Sets the most nodes to run at once.
    pub fn with_parallelism(self, max: usize) -> (c: Self)
        ensures
            c == (DAGConfig { max_parallelism: Some(max), ..self }),
    {
        DAGConfig { max_parallelism: Some(max), ..self }
    }
}

/// Which strategy runs by default, and DAG limits.
#[derive(Debug, Clone, Copy, PartialEq, Eq, Structural)]
pub struct StrategyConfig {
    /// The default strategy.
    pub default_type: StrategyType,
    /// DAG limits.
    pub dag: Option<DAGConfig>,
}

impl Default for StrategyConfig {
    /// The DAG strategy, without DAG limits.
    fn default() -> (c: Self)
        ensures
            c == (StrategyConfig { default_type: StrategyType::Dag, dag: None }),
    {
        StrategyConfig { default_type: StrategyType::Dag, dag: None }
    }
}

impl StrategyConfig {
    /// The given default strategy, without DAG limits.
    pub fn new(default_type: StrategyType) -> (c: Self)
        ensures
            c == (StrategyConfig { default_type, dag: None }),
    {
        StrategyConfig { default_type, dag: None }
    }

    /// Sets the DAG limits.
    pub fn with_dag_config(self, dag: DAGConfig) -> (c: Self)
        ensures
            c == (StrategyConfig { dag: Some(dag), ..self }),
    {
        StrategyConfig { dag: Some(dag), ..self }
    }
}

} // verus!
