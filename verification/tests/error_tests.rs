use cortex_flow::error::Error;
use cortex_flow::error_recovery::compensation::next_compensation;
use cortex_flow::error_recovery::retry::{recovery_step, should_retry, RecoveryStep};
use cortex_flow::error_recovery::{
    CompensationResult, ErrorAction, ErrorCategory, ErrorHandler, NoOpCompensation,
};

#[test]
fn error_codes_and_messages() {
    let e = Error::task_execution("fetch", "connection reset");
    assert_eq!(e.error_code(), "TASK_001");
    assert_eq!(e.message(), "Task execution failed: fetch: connection reset");
    assert!(e.is_recoverable());
    let c = Error::dag_cycle("a -> b -> a");
    assert_eq!(c.error_code(), "DAG_002");
    assert_eq!(c.message(), "DAG contains cycle: a -> b -> a");
    assert!(!c.is_recoverable());
    assert_eq!(Error::Other("plain".to_string()).message(), "plain");
    assert_eq!(Error::TomlSerialize("x".to_string()).error_code(), "TOML_002");
    assert_eq!(Error::Timeout("t".to_string()).prefix(), "Operation timed out: ");
    assert_eq!(Error::dag_validation("empty").detail(), "empty");
}

#[test]
fn handler_uses_registered_actions() {
    let mut h = ErrorHandler::default_handler();
    let r = h.handle(&Error::dag_validation("no nodes"));
    assert_eq!(r.action, ErrorAction::Abort);
    assert_eq!(r.category, ErrorCategory::Unrecoverable);
    assert_eq!(r.message, "DAG validation error: no nodes");
    let r = h.handle(&Error::LLMCall("rate limited".to_string()));
    assert_eq!(r.action, ErrorAction::Retry);
    assert_eq!(r.category, ErrorCategory::Recoverable);
    let r = h.handle(&Error::Context("missing".to_string()));
    assert_eq!(r.action, ErrorAction::Abort);
    assert_eq!(h.consecutive_error_count(), 3);
    h.register_action("CTX_001", ErrorAction::Skip);
    assert_eq!(h.handle(&Error::Context("missing".to_string())).action, ErrorAction::Skip);
    h.reset_consecutive_errors();
    assert_eq!(h.consecutive_error_count(), 0);
}

#[test]
fn default_handler_retries_recoverable_and_aborts_the_rest() {
    let errors = vec![
        Error::task_execution("t", "boom"),
        Error::TaskNotFound("t".to_string()),
        Error::dag_validation("v"),
        Error::DAGCycle("c".to_string()),
        Error::LLMCall("l".to_string()),
        Error::Config("c".to_string()),
        Error::Context("x".to_string()),
        Error::Strategy("s".to_string()),
        Error::Serialization("s".to_string()),
        Error::Timeout("t".to_string()),
        Error::Cancelled("c".to_string()),
        Error::Resource("r".to_string()),
        Error::Validation("v".to_string()),
        Error::Internal("i".to_string()),
        Error::Io("i".to_string()),
        Error::Json("j".to_string()),
        Error::TomlParse("p".to_string()),
        Error::TomlSerialize("s".to_string()),
        Error::Other("o".to_string()),
    ];
    for e in errors.iter() {
        let mut h = ErrorHandler::default_handler();
        let expected = if e.is_recoverable() { ErrorAction::Retry } else { ErrorAction::Abort };
        assert_eq!(h.handle(e).action, expected);
    }
    let mut h = ErrorHandler::default_handler();
    assert_eq!(h.handle(&Error::TaskNotFound("missing".to_string())).action, ErrorAction::Abort);
    assert_eq!(h.handle(&Error::Resource("disk".to_string())).action, ErrorAction::Retry);
}

#[test]
fn error_count_follows_handle_calls() {
    let mut h = ErrorHandler::new(ErrorAction::Skip);
    for k in 1..=4u32 {
        h.handle(&Error::Internal("x".to_string()));
        assert_eq!(h.consecutive_error_count(), k);
        assert_eq!(h.consecutive_error_count(), k);
    }
    h.reset_consecutive_errors();
    assert_eq!(h.consecutive_error_count(), 0);
    h.handle(&Error::Internal("y".to_string()));
    assert_eq!(h.consecutive_error_count(), 1);
}

#[test]
fn handler_aborts_after_too_many_errors() {
    let mut h = ErrorHandler::new(ErrorAction::Ignore).with_max_consecutive_errors(2);
    assert_eq!(h.handle(&Error::Internal("a".to_string())).action, ErrorAction::Ignore);
    assert_eq!(h.handle(&Error::Internal("b".to_string())).action, ErrorAction::Ignore);
    let r = h.handle(&Error::Internal("c".to_string()));
    assert_eq!(r.action, ErrorAction::Abort);
    assert_eq!(r.category, ErrorCategory::Unrecoverable);
    assert_eq!(r.message, "Too many consecutive errors (3), aborting");
    h.reset_consecutive_errors();
    assert_eq!(h.handle(&Error::Internal("d".to_string())).action, ErrorAction::Ignore);
}

#[test]
fn categories() {
    assert_eq!(ErrorHandler::categorize(&Error::Resource("r".to_string())), ErrorCategory::Recoverable);
    assert_eq!(
        ErrorHandler::categorize(&Error::task_execution("t", "m")),
        ErrorCategory::Recoverable
    );
    assert_eq!(ErrorHandler::categorize(&Error::Config("c".to_string())), ErrorCategory::Unrecoverable);
    assert_eq!(ErrorHandler::default().consecutive_error_count(), 0);
}

#[test]
fn test_should_retry() {
    let none: Vec<String> = Vec::new();
    assert!(should_retry(3, &none, 0, None));
    assert!(should_retry(3, &none, 2, None));
    assert!(!should_retry(3, &none, 3, None));
}

#[test]
fn test_should_retry_with_error_code() {
    let codes = vec!["TIMEOUT".to_string()];
    assert!(should_retry(3, &codes, 0, Some("TIMEOUT")));
    assert!(!should_retry(3, &codes, 0, Some("VALIDATION")));
}

#[test]
fn retry_limits_and_codes() {
    let none: Vec<String> = Vec::new();
    assert!(!should_retry(0, &none, 0, None));
    let codes = vec!["TMO_001".to_string(), "LLM_001".to_string()];
    assert!(!should_retry(3, &codes, 0, None));
    assert!(should_retry(3, &codes, 1, Some("LLM_001")));
    assert!(!should_retry(3, &codes, 3, Some("LLM_001")));
}

#[test]
fn recovery_steps() {
    let none: Vec<String> = Vec::new();
    let mut h = ErrorHandler::default_handler();
    h.register_action("RES_001", ErrorAction::Compensate);
    let timeout = Error::Timeout("slow".to_string());
    assert_eq!(recovery_step(&mut h, 3, &none, 0, &timeout), RecoveryStep::Retry);
    assert_eq!(recovery_step(&mut h, 3, &none, 3, &timeout), RecoveryStep::GiveUp);
    assert_eq!(
        recovery_step(&mut h, 3, &none, 0, &Error::Config("bad".to_string())),
        RecoveryStep::GiveUp
    );
    assert_eq!(
        recovery_step(&mut h, 3, &none, 0, &Error::Resource("disk".to_string())),
        RecoveryStep::Compensate
    );
    let only_llm = vec!["LLM_001".to_string()];
    assert_eq!(recovery_step(&mut h, 3, &only_llm, 0, &timeout), RecoveryStep::GiveUp);
    assert_eq!(h.consecutive_error_count(), 5);
}

#[test]
fn compensation_outcomes() {
    let noop = NoOpCompensation;
    assert_eq!(noop.name(), "noop");
    assert!(matches!(noop.outcome(), CompensationResult::Skipped));
    assert!(CompensationResult::Success.continues_chain());
    assert!(CompensationResult::Skipped.continues_chain());
    let failed = CompensationResult::Failed("rollback failed".to_string());
    assert!(!failed.continues_chain());
    assert!(matches!(failed.clone(), CompensationResult::Failed(m) if m == "rollback failed"));
}

#[test]
fn compensation_chain_stops_at_first_failure() {
    let mut done: Vec<CompensationResult> = Vec::new();
    assert_eq!(next_compensation(&done, 0), None);
    assert_eq!(next_compensation(&done, 3), Some(0));
    done.push(CompensationResult::Success);
    assert_eq!(next_compensation(&done, 3), Some(1));
    done.push(CompensationResult::Skipped);
    assert_eq!(next_compensation(&done, 3), Some(2));
    done.push(CompensationResult::Success);
    assert_eq!(next_compensation(&done, 3), None);
    let stopped = vec![CompensationResult::Success, CompensationResult::Failed("x".to_string())];
    assert_eq!(next_compensation(&stopped, 3), None);
}
