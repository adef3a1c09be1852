use cortex_flow::config::{DAGConfig, ExecutionConfig, LoggingConfig, StrategyConfig as FrameworkStrategyConfig};
use cortex_flow::dag::DAG;
use cortex_flow::demo::{get_pipelines, model_info, progress_percent};
use cortex_flow::error::Error;
use cortex_flow::strategy::strategy_trait::{all_succeeded, failure_message, success_count_of};
use cortex_flow::strategy::{
    parse_type_name, BuiltinStrategy, DAGStrategy, SequentialStrategy, StrategyConfig, StrategyFactory, StrategyType,
};
use cortex_flow::dag::NodeExecutionResult;
use cortex_flow::task::{EmptyTaskExecutor, TaskInput, TaskOutput, TaskStatus};
use serde_json::Value;

fn diamond() -> DAG<u8> {
    let mut dag = DAG::new();
    for (id, t) in [("a", 1u8), ("b", 2), ("c", 3), ("d", 4)] {
        dag.add_node(cortex_flow::dag::DAGNode::new(id, &id.to_uppercase(), t));
    }
    dag.add_dependency("a", "b");
    dag.add_dependency("a", "c");
    dag.add_dependency("b", "d");
    dag.add_dependency("c", "d");
    dag
}

#[test]
fn strategy_type_names_and_parsing() {
    assert_eq!(StrategyType::MapReduce.as_str(), "map_reduce");
    assert_eq!(StrategyType::ProducerChecker.debug_str(), "ProducerChecker");
    assert_eq!(StrategyType::default(), StrategyType::Dag);
    assert!(matches!(StrategyType::parse("DAG"), Ok(StrategyType::Dag)));
    assert!(matches!(StrategyType::parse("MapReduce"), Ok(StrategyType::MapReduce)));
    assert!(matches!(StrategyType::parse("producer_checker"), Ok(StrategyType::ProducerChecker)));
    match StrategyType::parse("swarm") {
        Err(Error::Strategy(m)) => assert_eq!(m, "Unknown strategy type: swarm"),
        _ => panic!("expected a strategy error"),
    }
    let parsed: StrategyType = "Sequential".parse().unwrap();
    assert_eq!(parsed, StrategyType::Sequential);
    assert!(matches!(parse_type_name("SEQ"), Ok(StrategyType::Sequential)));
    match parse_type_name("hierarchical") {
        Err(Error::Strategy(m)) => {
            assert_eq!(m, "Unknown strategy name: 'hierarchical'. Available: dag, sequential")
        }
        _ => panic!("expected a strategy error"),
    }
}

#[test]
fn factory_creates_builtin_strategies() {
    match StrategyFactory::create(StrategyType::Dag) {
        Ok(BuiltinStrategy::Dag(s)) => {
            assert_eq!(s.name(), "default");
            assert_eq!(s.max_parallelism(), 10);
        }
        _ => panic!("expected the DAG strategy"),
    }
    match StrategyFactory::create(StrategyType::Sequential) {
        Ok(BuiltinStrategy::Sequential(s)) => assert_eq!(s.name(), "sequential"),
        _ => panic!("expected the sequential strategy"),
    }
    match StrategyFactory::create(StrategyType::Consensus) {
        Err(Error::Strategy(m)) => {
            assert_eq!(m, "Strategy Consensus not yet implemented. Available: Dag, Sequential")
        }
        _ => panic!("expected a strategy error"),
    }
    let config = StrategyConfig::new("custom").with_parallelism(4);
    match StrategyFactory::create_with_config(StrategyType::Dag, config) {
        Ok(BuiltinStrategy::Dag(s)) => {
            assert_eq!(s.name(), "custom");
            assert_eq!(s.max_parallelism(), 4);
        }
        _ => panic!("expected the DAG strategy"),
    }
}

#[test]
fn factory_named_constructors() {
    match StrategyFactory::dag_strategy() {
        BuiltinStrategy::Dag(s) => {
            assert_eq!(s.name(), "default");
            assert_eq!(s.max_parallelism(), 10);
        }
        _ => panic!("expected the DAG strategy"),
    }
    match StrategyFactory::dag_strategy_with(StrategyConfig::new("wide").with_parallelism(3)) {
        BuiltinStrategy::Dag(s) => {
            assert_eq!(s.name(), "wide");
            assert_eq!(s.max_parallelism(), 3);
        }
        _ => panic!("expected the DAG strategy"),
    }
    match StrategyFactory::sequential_strategy() {
        BuiltinStrategy::Sequential(s) => assert_eq!(s.name(), "sequential"),
        _ => panic!("expected the sequential strategy"),
    }
    match StrategyFactory::sequential_strategy_with(StrategyConfig::new("one_by_one")) {
        BuiltinStrategy::Sequential(s) => assert_eq!(s.name(), "one_by_one"),
        _ => panic!("expected the sequential strategy"),
    }
}

#[test]
fn strategy_configs() {
    let c = StrategyConfig::default();
    assert_eq!(c.name, "default");
    assert_eq!(c.max_parallelism, Some(10));
    let c = StrategyConfig::new("x").with_timeout(500).with_retry(5, 20);
    assert_eq!(c.timeout_ms, Some(500));
    assert_eq!(c.max_retries, 5);
    assert_eq!(c.retry_interval_ms, 20);
    assert!(c.enable_retry);
    let c = c.without_retry();
    assert!(!c.enable_retry);
    let s = DAGStrategy::new(StrategyConfig::new("n")).with_max_parallelism(3);
    assert_eq!(s.max_parallelism(), 3);
    assert_eq!(s.config().name, "n");
}

#[test]
fn dag_strategy_plans_layers() {
    let dag = diamond();
    let s = DAGStrategy::default();
    assert!(s.validate(&dag).is_ok());
    let plan = s.plan(&dag).unwrap();
    assert_eq!(plan.execution_order.first().map(|s| s.as_str()), Some("a"));
    assert_eq!(plan.execution_order.last().map(|s| s.as_str()), Some("d"));
    assert_eq!(plan.layers.len(), 3);
    assert_eq!(plan.max_parallelism(), 2);
    assert_eq!(plan.estimated_duration_ms, Some(3000));
    assert_eq!(plan.root_nodes, vec!["a".to_string()]);
    assert!(plan.dag().is_some());
    let empty: DAG<u8> = DAG::new();
    assert!(matches!(s.plan(&empty), Err(Error::DAGValidation(_))));
}

#[test]
fn sequential_strategy_plans_one_node_per_layer() {
    let dag = diamond();
    let s = SequentialStrategy::default();
    let plan = s.plan(&dag).unwrap();
    assert_eq!(plan.layers.len(), 4);
    assert!(plan.layers.iter().all(|l| l.len() == 1));
    assert_eq!(plan.max_parallelism(), 1);
    let mut cyclic = diamond();
    cyclic.add_dependency("d", "a");
    assert!(matches!(s.validate(&cyclic), Err(Error::DAGCycle(_))));
}

#[test]
fn result_counts() {
    let rs = vec![
        NodeExecutionResult::success("a".to_string(), "A".to_string(), Value::Null, 1),
        NodeExecutionResult::failure("b".to_string(), "B".to_string(), "oops".to_string(), 1),
        NodeExecutionResult::failure("c".to_string(), "C".to_string(), "again".to_string(), 1),
    ];
    assert_eq!(success_count_of(&rs), 1);
    assert!(!all_succeeded(&rs));
    assert!(all_succeeded(&rs[..1]));
    assert_eq!(failure_message(&rs), "2 tasks failed: [\"oops\", \"again\"]");
}

#[test]
fn framework_configs() {
    let c = ExecutionConfig::new(4).with_timeout(100).with_retries(2, 50);
    assert_eq!(c.default_timeout, Some(100));
    assert_eq!(c.max_retries, 2);
    assert!(c.validate().is_ok());
    assert!(ExecutionConfig::default().max_workers >= 1);
    match ExecutionConfig::new(0).validate() {
        Err(Error::Config(m)) => assert_eq!(m, "max_workers must be greater than 0"),
        _ => panic!("expected a configuration error"),
    }
    match ExecutionConfig::new(1001).validate() {
        Err(Error::Config(m)) => assert_eq!(m, "max_workers exceeds maximum limit (1000)"),
        _ => panic!("expected a configuration error"),
    }
    match ExecutionConfig::new(8).with_timeout(0).validate() {
        Err(Error::Config(m)) => assert_eq!(m, "default_timeout must be greater than 0"),
        _ => panic!("expected a configuration error"),
    }
    let l = LoggingConfig::new("debug").with_format("pretty").with_target("stdout");
    assert_eq!(l.level, "debug");
    assert_eq!(l.format, "pretty");
    assert_eq!(l.target, Some("stdout".to_string()));
    assert_eq!(LoggingConfig::default().level, "info");
    let d = DAGConfig::new().with_max_nodes(5).with_parallelism(2);
    assert_eq!(d.max_nodes, Some(5));
    assert_eq!(d.max_parallelism, Some(2));
    assert!(d.parallel);
    let s = FrameworkStrategyConfig::new(StrategyType::Sequential).with_dag_config(DAGConfig::default());
    assert_eq!(s.default_type, StrategyType::Sequential);
    assert_eq!(s.dag.and_then(|d| d.max_nodes), Some(1000));
}

#[test]
fn demo_pipelines() {
    let ps = get_pipelines();
    assert_eq!(ps[0].id, "basic");
    assert_eq!(ps[0].nodes.len(), 6);
    assert_eq!(ps[0].edges.len(), 6);
    assert_eq!(ps[1].id, "llm");
    for p in &ps {
        let mut dag = DAG::new();
        for n in &p.nodes {
            dag.add_node(cortex_flow::dag::DAGNode::new(&n.id, &n.name, ()));
        }
        for (from, to) in &p.edges {
            dag.add_dependency(from, to);
        }
        assert!(!dag.has_cycle());
    }
    assert_eq!(progress_percent(1, 3), 33);
    assert_eq!(progress_percent(3, 3), 100);
    assert_eq!(progress_percent(0, 0), 0);
}

#[test]
fn task_inputs_outputs_and_status() {
    let input = TaskInput::from_task("up", Value::from(5)).with_metadata("k", Value::from("v"));
    assert_eq!(input.source_task_id, Some("up".to_string()));
    assert_eq!(input.get_metadata("k"), Some(&Value::from("v")));
    assert_eq!(input.get_metadata("z"), None);
    assert_eq!(TaskInput::default().data, Value::Null);
    let mut out = TaskOutput::new(Value::from(1)).to_tasks(vec!["x".to_string()]);
    out.add_target("y");
    assert_eq!(out.target_task_ids, vec!["x".to_string(), "y".to_string()]);
    let out = out.with_metadata("m", Value::Bool(true));
    assert_eq!(out.get_metadata("m"), Some(&Value::Bool(true)));
    assert_eq!(TaskStatus::Skipped.as_str(), "skipped");
    assert_eq!(TaskStatus::default(), TaskStatus::Pending);
    let e = EmptyTaskExecutor;
    assert_eq!(e.task_id(), "<placeholder>");
    assert_eq!(e.task_name(), "<Placeholder Task>");
    assert_eq!(e.task_description(), Some("Placeholder task executor for deserialization"));
    assert_eq!(
        e.execution_error().message(),
        "Internal error: EmptyTaskExecutor cannot be executed. This is a placeholder."
    );
}

#[test]
fn model_info_by_name() {
    let default = Some("gpt4".to_string());
    let m = model_info("gpt4".to_string(), &default);
    assert_eq!((m.provider.as_str(), m.model.as_str(), m.is_default), ("OpenAI", "gpt-4", true));
    let m = model_info("my-llama".to_string(), &default);
    assert_eq!((m.provider.as_str(), m.model.as_str(), m.is_default), ("Ollama", "llama3", false));
    let m = model_info("doubao".to_string(), &None);
    assert_eq!((m.provider.as_str(), m.model.as_str()), ("Custom", "doubao-pro-32k"));
    let m = model_info("mistral".to_string(), &default);
    assert_eq!((m.provider.as_str(), m.model.as_str()), ("Unknown", "mistral"));
}
