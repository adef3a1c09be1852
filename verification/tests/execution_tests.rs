use cortex_flow::dag::NodeExecutionResult;
use cortex_flow::execution::report::output_summary;
use cortex_flow::execution::{
    ExecutionNode, ExecutionPhase, ExecutionPlan, ExecutionState, ExecutionStatus, ReportGenerator, TaskState,
};
use cortex_flow::strategy::ExecutionResult;
use serde_json::Value;

#[test]
fn status_and_phase_names() {
    assert_eq!(ExecutionStatus::Pending.as_str(), "pending");
    assert_eq!(ExecutionStatus::Cancelled.as_str(), "cancelled");
    assert_eq!(ExecutionPhase::RollingBack.as_str(), "rolling_back");
    assert_eq!(ExecutionPhase::Terminated.as_str(), "terminated");
    assert_eq!(ExecutionStatus::default(), ExecutionStatus::Pending);
    assert_eq!(ExecutionPhase::default(), ExecutionPhase::Initializing);
}

#[test]
fn task_state_lifecycle() {
    let mut t = TaskState::new("t1".to_string(), "Task".to_string());
    assert_eq!(t.status, ExecutionStatus::Pending);
    assert_eq!(t.duration_ms(), None);
    t.increment_attempts();
    t.start();
    assert_eq!(t.status, ExecutionStatus::Running);
    assert!(t.start_time.is_some());
    t.fail("boom".to_string());
    assert_eq!(t.status, ExecutionStatus::Failed);
    assert_eq!(t.error, Some("boom".to_string()));
    assert_eq!(t.attempts, 1);
    t.start_time = Some(1_000);
    t.end_time = Some(1_250);
    assert_eq!(t.duration_ms(), Some(250));
    t.cancel();
    assert_eq!(t.status, ExecutionStatus::Cancelled);
}

#[test]
fn execution_state_counts_and_finish() {
    let mut s = ExecutionState::new();
    s.start();
    assert!(s.start_time.is_some());
    s.add_task("a".to_string(), "A".to_string());
    s.add_task("b".to_string(), "B".to_string());
    s.add_task("c".to_string(), "C".to_string());
    assert_eq!(s.total_count(), 3);
    assert_eq!(s.pending_count(), 3);
    s.update_task("a".to_string(), ExecutionStatus::Completed);
    s.update_task("b".to_string(), ExecutionStatus::Running);
    assert_eq!(s.completed_count(), 1);
    assert_eq!(s.running_count(), 1);
    assert!(!s.all_completed());
    assert!(!s.is_failed());
    s.update_task("b".to_string(), ExecutionStatus::Failed);
    s.update_task("c".to_string(), ExecutionStatus::Cancelled);
    assert!(s.all_completed());
    assert!(s.is_failed());
    assert_eq!(s.failed_count(), 1);
    assert_eq!(s.get_task_state("a").map(|t| t.name.clone()), Some("A".to_string()));
    // an unknown task is added with an empty name
    s.update_task("d".to_string(), ExecutionStatus::Completed);
    assert_eq!(s.total_count(), 4);
    assert_eq!(s.get_task_state("d").map(|t| t.name.clone()), Some(String::new()));
    assert!(!s.is_completed());
    s.finish();
    assert_eq!(s.phase, ExecutionPhase::Terminated);
    assert!(s.is_completed());
    assert!(s.end_time.is_some());
}

#[test]
fn execution_state_without_failures_completes() {
    let mut s = ExecutionState::default();
    s.add_task("a".to_string(), "A".to_string());
    s.update_task("a".to_string(), ExecutionStatus::Completed);
    s.set_phase(ExecutionPhase::Executing);
    assert_eq!(s.phase, ExecutionPhase::Executing);
    s.finish();
    assert_eq!(s.phase, ExecutionPhase::Completed);
    s.start_time = Some(10);
    s.end_time = Some(40);
    assert_eq!(s.duration_ms(), Some(30));
}

#[test]
fn output_summary_cuts_long_text() {
    assert_eq!(output_summary("short"), "short");
    let long = "x".repeat(250);
    let cut = output_summary(&long);
    assert_eq!(cut, format!("{}...", "x".repeat(200)));
    let exact = "y".repeat(200);
    assert_eq!(output_summary(&exact), exact);
}

fn results() -> Vec<NodeExecutionResult> {
    let mut a = NodeExecutionResult::success("a".to_string(), "A".to_string(), Value::from("done"), 10);
    a.start_time = Some(100);
    a.end_time = Some(110);
    let mut b = NodeExecutionResult::failure("b".to_string(), "B".to_string(), "bad input".to_string(), 5);
    b.start_time = Some(110);
    b.end_time = Some(115);
    let mut c = NodeExecutionResult::failure("c".to_string(), "C".to_string(), "timeout".to_string(), 7);
    c.start_time = Some(115);
    c.end_time = Some(122);
    vec![a, b, c]
}

#[test]
fn report_from_node_results() {
    let rs = results();
    let rep = ReportGenerator::from_node_results(&rs);
    assert_eq!(rep.report_id.len(), 36);
    assert!(!rep.success);
    assert_eq!(rep.total_tasks, 3);
    assert_eq!(rep.succeeded_tasks, 1);
    assert_eq!(rep.failed_tasks, 2);
    assert_eq!(rep.skipped_tasks, 0);
    assert_eq!(rep.total_duration_ms, 22);
    assert_eq!(rep.start_time, Some(100));
    assert_eq!(rep.end_time, Some(122));
    assert_eq!(rep.error_summary, Some("2 tasks failed: bad input; timeout".to_string()));
    assert_eq!(rep.tasks[0].output_summary, Some("\"done\"".to_string()));
    assert_eq!(rep.tasks[1].output_summary, None);
    assert_eq!(rep.tasks[1].error, Some("bad input".to_string()));
}

#[test]
fn report_of_all_successes_has_no_error_summary() {
    let rs = vec![NodeExecutionResult::success("a".to_string(), "A".to_string(), Value::from(1), 3)];
    let rep = ReportGenerator::from_node_results(&rs);
    assert!(rep.success);
    assert_eq!(rep.error_summary, None);
    let empty = ReportGenerator::from_node_results(&[]);
    assert!(empty.success);
    assert_eq!(empty.total_tasks, 0);
    assert_eq!(empty.start_time, None);
    assert!(empty.end_time.is_some());
}

#[test]
fn report_from_execution_result() {
    let r = ExecutionResult::failure("stopped".to_string(), results(), 99);
    let rep = ReportGenerator::from_execution_result(&r);
    assert!(!rep.success);
    assert_eq!(rep.total_duration_ms, 99);
    assert_eq!(rep.start_time, Some(r.start_time));
    assert_eq!(rep.failed_tasks, 2);
    assert_eq!(rep.error_summary, Some("2 tasks failed: bad input; timeout".to_string()));
}

#[test]
fn checked_report_refuses_overflowing_durations() {
    let rs = vec![
        NodeExecutionResult::success("a".to_string(), "A".to_string(), Value::Null, u64::MAX),
        NodeExecutionResult::success("b".to_string(), "B".to_string(), Value::Null, 1),
    ];
    assert!(ReportGenerator::try_from_node_results(&rs).is_none());
    let ok = ReportGenerator::try_from_node_results(&results()).unwrap();
    assert_eq!(ok.total_duration_ms, 22);
}

#[test]
fn execution_plan_queries() {
    let nodes = vec![
        ExecutionNode::new("a".to_string(), "A".to_string(), 1u8),
        ExecutionNode::new("b".to_string(), "B".to_string(), 2u8).with_dependency("a"),
        ExecutionNode::new("c".to_string(), "C".to_string(), 3u8).with_dependencies(vec!["a".to_string()]),
    ];
    assert!(nodes[1].has_dependency("a"));
    assert!(!nodes[0].has_dependency("a"));
    let plan = ExecutionPlan::new(
        nodes,
        vec!["a".to_string()],
        vec!["a".to_string(), "b".to_string(), "c".to_string()],
    )
    .with_layers(vec![vec!["a".to_string()], vec!["b".to_string(), "c".to_string()]])
    .with_estimated_duration(2000);
    assert_eq!(plan.node_count(), 3);
    assert_eq!(plan.root_count(), 1);
    assert_eq!(plan.layer_count(), 2);
    assert!(!plan.is_empty());
    assert_eq!(plan.max_parallelism(), 2);
    assert_eq!(plan.get_layer(1).map(|l| l.len()), Some(2));
    assert!(plan.get_layer(2).is_none());
    assert!(plan.contains_node("c"));
    assert!(!plan.contains_node("z"));
    assert_eq!(plan.get_node("b").map(|n| n.task), Some(2u8));
    assert_eq!(plan.order().len(), 3);
    assert!(plan.dag().is_none());
}
