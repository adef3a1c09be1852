//! The framework's error type: one variant per kind of failure, each with a stable error
//! code and a rule for whether retrying can help.

use vstd::prelude::*;

verus! {

/// A framework error. Each variant carries a human-readable detail.
///
/// `Io`, `Json`, `TomlParse` and `TomlSerialize` carry the text of the underlying
/// I/O, JSON or TOML error.
#[derive(Debug)]
pub enum Error {
    /// A task failed while executing.
    TaskExecution(String),
    /// A task was not found.
    TaskNotFound(String),
    /// A DAG is malformed.
    DAGValidation(String),
    /// A DAG contains a cycle.
    DAGCycle(String),
    /// An LLM call failed.
    LLMCall(String),
    /// Configuration is invalid.
    Config(String),
    /// The execution context is unusable.
    Context(String),
    /// A strategy failed.
    Strategy(String),
    /// Data could not be serialized.
    Serialization(String),
    /// An operation timed out.
    Timeout(String),
    /// An operation was cancelled.
    Cancelled(String),
    /// A resource is unavailable.
    Resource(String),
    /// Input failed validation.
    Validation(String),
    /// An internal invariant broke.
    Internal(String),
    /// An I/O error.
    Io(String),
    /// A JSON error.
    Json(String),
    /// A TOML parse error.
    TomlParse(String),
    /// A TOML serialization error.
    TomlSerialize(String),
    /// Any other error.
    Other(String),
}

/// The stable error code of each kind of error.
pub open spec fn code_of(e: Error) -> Seq<char> {
    match e {
        Error::TaskExecution(_) => "TASK_001"@,
        Error::TaskNotFound(_) => "TASK_002"@,
        Error::DAGValidation(_) => "DAG_001"@,
        Error::DAGCycle(_) => "DAG_002"@,
        Error::LLMCall(_) => "LLM_001"@,
        Error::Config(_) => "CFG_001"@,
        Error::Context(_) => "CTX_001"@,
        Error::Strategy(_) => "STR_001"@,
        Error::Serialization(_) => "SER_001"@,
        Error::Timeout(_) => "TMO_001"@,
        Error::Cancelled(_) => "CNL_001"@,
        Error::Resource(_) => "RES_001"@,
        Error::Validation(_) => "VAL_001"@,
        Error::Internal(_) => "INT_001"@,
        Error::Io(_) => "IO_001"@,
        Error::Json(_) => "JSON_001"@,
        Error::TomlParse(_) => "TOML_001"@,
        Error::TomlSerialize(_) => "TOML_002"@,
        Error::Other(_) => "OTH_001"@,
    }
}

/// Whether retrying may help: task, timeout, LLM and resource errors are transient.
pub open spec fn recoverable(e: Error) -> bool {
    match e {
        Error::TaskExecution(_) | Error::Timeout(_) | Error::LLMCall(_) | Error::Resource(_) => true,
        _ => false,
    }
}

/// The detail an error carries.
pub open spec fn detail_of(e: Error) -> Seq<char> {
    match e {
        Error::TaskExecution(s) => s@,
        Error::TaskNotFound(s) => s@,
        Error::DAGValidation(s) => s@,
        Error::DAGCycle(s) => s@,
        Error::LLMCall(s) => s@,
        Error::Config(s) => s@,
        Error::Context(s) => s@,
        Error::Strategy(s) => s@,
        Error::Serialization(s) => s@,
        Error::Timeout(s) => s@,
        Error::Cancelled(s) => s@,
        Error::Resource(s) => s@,
        Error::Validation(s) => s@,
        Error::Internal(s) => s@,
        Error::Io(s) => s@,
        Error::Json(s) => s@,
        Error::TomlParse(s) => s@,
        Error::TomlSerialize(s) => s@,
        Error::Other(s) => s@,
    }
}

/// The words that introduce each kind of error in its message.
pub open spec fn prefix_of(e: Error) -> Seq<char> {
    match e {
        Error::TaskExecution(_) => "Task execution failed: "@,
        Error::TaskNotFound(_) => "Task not found: "@,
        Error::DAGValidation(_) => "DAG validation error: "@,
        Error::DAGCycle(_) => "DAG contains cycle: "@,
        Error::LLMCall(_) => "LLM call failed: "@,
        Error::Config(_) => "Configuration error: "@,
        Error::Context(_) => "Execution context error: "@,
        Error::Strategy(_) => "Strategy error: "@,
        Error::Serialization(_) => "Serialization error: "@,
        Error::Timeout(_) => "Operation timed out: "@,
        Error::Cancelled(_) => "Operation cancelled: "@,
        Error::Resource(_) => "Resource error: "@,
        Error::Validation(_) => "Validation error: "@,
        Error::Internal(_) => "Internal error: "@,
        Error::Io(_) => "IO error: "@,
        Error::Json(_) => "JSON error: "@,
        Error::TomlParse(_) => "TOML parse error: "@,
        Error::TomlSerialize(_) => "TOML serialize error: "@,
        Error::Other(_) => ""@,
    }
}

/// The full message of an error: its prefix followed by its detail.
pub open spec fn message_of(e: Error) -> Seq<char> {
    prefix_of(e) + detail_of(e)
}

impl Error {
    /// Whether the error is transient, so that retrying may succeed.
    pub fn is_recoverable(&self) -> (b: bool)
        ensures
            b == recoverable(*self),
    {
        match self {
            Error::TaskExecution(_) | Error::Timeout(_) | Error::LLMCall(_) | Error::Resource(_) => true,
            _ => false,
        }
    }

    /// The stable error code, such as `TASK_001`.
    pub fn error_code(&self) -> (c: &'static str)
        ensures
            c@ == code_of(*self),
    {
        match self {
            Error::TaskExecution(_) => "TASK_001",
            Error::TaskNotFound(_) => "TASK_002",
            Error::DAGValidation(_) => "DAG_001",
            Error::DAGCycle(_) => "DAG_002",
            Error::LLMCall(_) => "LLM_001",
            Error::Config(_) => "CFG_001",
            Error::Context(_) => "CTX_001",
            Error::Strategy(_) => "STR_001",
            Error::Serialization(_) => "SER_001",
            Error::Timeout(_) => "TMO_001",
            Error::Cancelled(_) => "CNL_001",
            Error::Resource(_) => "RES_001",
            Error::Validation(_) => "VAL_001",
            Error::Internal(_) => "INT_001",
            Error::Io(_) => "IO_001",
            Error::Json(_) => "JSON_001",
            Error::TomlParse(_) => "TOML_001",
            Error::TomlSerialize(_) => "TOML_002",
            Error::Other(_) => "OTH_001",
        }
    }

    /// The detail the error carries.
    pub fn detail(&self) -> (d: &String)
        ensures
            d@ == detail_of(*self),
    {
        match self {
            Error::TaskExecution(s) => s,
            Error::TaskNotFound(s) => s,
            Error::DAGValidation(s) => s,
            Error::DAGCycle(s) => s,
            Error::LLMCall(s) => s,
            Error::Config(s) => s,
            Error::Context(s) => s,
            Error::Strategy(s) => s,
            Error::Serialization(s) => s,
            Error::Timeout(s) => s,
            Error::Cancelled(s) => s,
            Error::Resource(s) => s,
            Error::Validation(s) => s,
            Error::Internal(s) => s,
            Error::Io(s) => s,
            Error::Json(s) => s,
            Error::TomlParse(s) => s,
            Error::TomlSerialize(s) => s,
            Error::Other(s) => s,
        }
    }

    /// The words that introduce this kind of error in its message.
    pub fn prefix(&self) -> (p: &'static str)
        ensures
            p@ == prefix_of(*self),
    {
        match self {
            Error::TaskExecution(_) => "Task execution failed: ",
            Error::TaskNotFound(_) => "Task not found: ",
            Error::DAGValidation(_) => "DAG validation error: ",
            Error::DAGCycle(_) => "DAG contains cycle: ",
            Error::LLMCall(_) => "LLM call failed: ",
            Error::Config(_) => "Configuration error: ",
            Error::Context(_) => "Execution context error: ",
            Error::Strategy(_) => "Strategy error: ",
            Error::Serialization(_) => "Serialization error: ",
            Error::Timeout(_) => "Operation timed out: ",
            Error::Cancelled(_) => "Operation cancelled: ",
            Error::Resource(_) => "Resource error: ",
            Error::Validation(_) => "Validation error: ",
            Error::Internal(_) => "Internal error: ",
            Error::Io(_) => "IO error: ",
            Error::Json(_) => "JSON error: ",
            Error::TomlParse(_) => "TOML parse error: ",
            Error::TomlSerialize(_) => "TOML serialize error: ",
            Error::Other(_) => "",
        }
    }

    /// The error's full message, as shown to users.
    pub fn message(&self) -> (m: String)
        ensures
            m@ == message_of(*self),
    {
        let mut m = self.prefix().to_owned();
        m.append(self.detail().as_str());
        m
    }

    /// A task-execution error for the named task: the detail reads `task: message`.
    pub fn task_execution(task_name: &str, msg: &str) -> (e: Error)
        ensures
            e matches Error::TaskExecution(s) && s@ == task_name@ + ": "@ + msg@,
    {
        let mut s = task_name.to_owned();
        s.append(": ");
        s.append(msg);
        Error::TaskExecution(s)
    }

    /// A DAG validation error.
    pub fn dag_validation(msg: &str) -> (e: Error)
        ensures
            e matches Error::DAGValidation(s) && s@ == msg@,
    {
        Error::DAGValidation(msg.to_owned())
    }

    /// A DAG cycle error.
    pub fn dag_cycle(msg: &str) -> (e: Error)
        ensures
            e matches Error::DAGCycle(s) && s@ == msg@,
    {
        Error::DAGCycle(msg.to_owned())
    }
}

} // verus!
