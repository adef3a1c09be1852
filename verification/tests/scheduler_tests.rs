use cortex_flow::assoc::StrMap;
use cortex_flow::dag::executor::{collect_upstream, upstream_input_of};
use cortex_flow::dag::{DAGNode, ExecutionProgress, NodeExecutionResult, Scheduler, SchedulerStep, DAG};
use cortex_flow::error::Error;
use serde_json::Value;

fn chain_and_fan() -> DAG<()> {
    let mut dag = DAG::new();
    for id in ["a", "b", "c", "d", "e"] {
        dag.add_node(DAGNode::new(id, id, ()));
    }
    dag.add_dependency("a", "c");
    dag.add_dependency("b", "c");
    dag.add_dependency("c", "d");
    dag.add_dependency("c", "e");
    dag
}

fn run_batch(step: SchedulerStep) -> Vec<String> {
    match step {
        SchedulerStep::Run(b) => b,
        _ => panic!("expected a batch"),
    }
}

#[test]
fn scheduler_runs_in_dependency_order() {
    let dag = chain_and_fan();
    let mut s = Scheduler::new(&dag, 10).unwrap();
    assert_eq!(s.node_count(), 5);
    assert_eq!(s.waiting_count(), 2);
    let b1 = run_batch(s.next_step(false));
    assert_eq!(b1, vec!["a", "b"]);
    assert!(s.is_running("a"));
    s.record("a");
    assert_eq!(s.waiting_count(), 0);
    assert!(matches!(s.next_step(false), SchedulerStep::Finished));
    s.record("b");
    assert_eq!(s.completed_count(), 2);
    let b2 = run_batch(s.next_step(false));
    assert_eq!(b2, vec!["c"]);
    s.record("c");
    let b3 = run_batch(s.next_step(false));
    assert_eq!(b3, vec!["d", "e"]);
    s.record("e");
    s.record("d");
    assert!(matches!(s.next_step(false), SchedulerStep::Finished));
    assert_eq!(s.completed_count(), 5);
}

#[test]
fn scheduler_batches_respect_limit_and_cancel() {
    let dag = chain_and_fan();
    let mut s = Scheduler::new(&dag, 1).unwrap();
    assert_eq!(run_batch(s.next_step(false)), vec!["a"]);
    assert!(matches!(s.next_step(true), SchedulerStep::Cancelled));
    assert_eq!(run_batch(s.next_step(false)), vec!["b"]);
    assert!(!s.is_running("c"));
}

#[test]
fn scheduler_refuses_bad_graphs() {
    let empty: DAG<()> = DAG::new();
    match Scheduler::new(&empty, 2) {
        Err(Error::DAGValidation(m)) => assert_eq!(m, "DAG has no nodes"),
        _ => panic!("expected a validation error"),
    }
    let mut cyc: DAG<()> = DAG::new();
    cyc.add_node(DAGNode::new("x", "x", ()));
    cyc.add_dependency("x", "x");
    assert!(matches!(Scheduler::new(&cyc, 2), Err(Error::DAGCycle(_))));
}

#[test]
fn repeated_edges_wait_for_both() {
    let mut dag: DAG<()> = DAG::new();
    dag.add_node(DAGNode::new("p", "p", ()));
    dag.add_node(DAGNode::new("q", "q", ()));
    dag.add_dependency("p", "q");
    dag.add_dependency("p", "q");
    let mut s = Scheduler::new(&dag, 4).unwrap();
    assert_eq!(run_batch(s.next_step(false)), vec!["p"]);
    s.record("p");
    assert_eq!(run_batch(s.next_step(false)), vec!["q"]);
}

#[test]
fn upstream_inputs() {
    let mut outputs: StrMap<Value> = StrMap::new();
    outputs.insert("a".to_string(), Value::from(1));
    outputs.insert("b".to_string(), Value::from("two"));
    assert_eq!(collect_upstream(&vec![], &outputs), Value::Null);
    assert_eq!(collect_upstream(&vec!["a".to_string()], &outputs), Value::from(1));
    assert_eq!(collect_upstream(&vec!["z".to_string()], &outputs), Value::Null);
    let merged = collect_upstream(&vec!["a".to_string(), "b".to_string(), "z".to_string()], &outputs);
    let mut expected = serde_json::Map::new();
    expected.insert("a".to_string(), Value::from(1));
    expected.insert("b".to_string(), Value::from("two"));
    assert_eq!(merged, Value::Object(expected));
    let mut dag: DAG<()> = DAG::new();
    dag.add_node(DAGNode::new("a", "a", ()));
    dag.add_node(DAGNode::new("c", "c", ()));
    dag.add_dependency("a", "c");
    assert_eq!(upstream_input_of(&dag, "c", &outputs), Value::from(1));
    assert_eq!(upstream_input_of(&dag, "a", &outputs), Value::Null);
}

#[test]
fn node_results_and_progress() {
    let ok = NodeExecutionResult::success("t".to_string(), "T".to_string(), Value::from(5), 20);
    assert!(ok.is_success());
    assert_eq!(ok.output, Some(Value::from(5)));
    assert_eq!(ok.start_time.unwrap() + 20, ok.end_time.unwrap());
    let bad = NodeExecutionResult::failure("t".to_string(), "T".to_string(), "boom".to_string(), 0);
    assert!(!bad.is_success());
    assert_eq!(bad.error_message(), Some("boom"));
    assert_eq!(bad.clone().error, Some("boom".to_string()));
    let p = ExecutionProgress::new(7);
    assert_eq!((p.completed, p.total, p.running, p.percent), (0, 7, 0, 0));
}
