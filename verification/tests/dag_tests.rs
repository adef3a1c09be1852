use cortex_flow::dag::{DAGBuilder, DAGEdge, DAGNode, DAG};
use cortex_flow::error::Error;

fn diamond() -> DAG<u32> {
    let mut dag = DAG::new();
    dag.add_node(DAGNode::new("a", "A", 1));
    dag.add_node(DAGNode::new("b", "B", 2));
    dag.add_node(DAGNode::new("c", "C", 3));
    dag.add_node(DAGNode::new("d", "D", 4));
    dag.add_dependency("a", "b");
    dag.add_dependency("a", "c");
    dag.add_dependency("b", "d");
    dag.add_dependency("c", "d");
    dag
}

fn cyclic() -> DAG<u32> {
    let mut dag = DAG::new();
    dag.add_node(DAGNode::new("x", "X", 1));
    dag.add_node(DAGNode::new("y", "Y", 2));
    dag.add_dependency("x", "y");
    dag.add_dependency("y", "x");
    dag
}

fn ids(nodes: &[&DAGNode<u32>]) -> Vec<String> {
    nodes.iter().map(|n| n.id.clone()).collect()
}

#[test]
fn counts_and_lookups() {
    let dag = diamond();
    assert_eq!(dag.node_count(), 4);
    assert_eq!(dag.edge_count(), 4);
    assert!(!dag.is_empty());
    assert_eq!(dag.get_node("c").unwrap().task, 3);
    assert!(dag.get_node("z").is_none());
    assert!(dag.contains_node("d"));
    assert_eq!(dag.node_ids(), vec!["a", "b", "c", "d"]);
    assert_eq!(dag.in_degree_of("d"), 2);
    assert_eq!(dag.out_degree_of("a"), 2);
    assert!(dag.has_dependencies("b"));
    assert!(!dag.has_dependencies("a"));
    assert_eq!(dag.get_edges().len(), 4);
    assert_eq!(dag.edges()[0], DAGEdge::new("a", "b"));
}

#[test]
fn roots_leaves_neighbours() {
    let dag = diamond();
    assert_eq!(ids(&dag.roots()), vec!["a"]);
    assert_eq!(ids(&dag.leaves()), vec!["d"]);
    assert_eq!(dag.root_count(), 1);
    assert_eq!(ids(&dag.successors("a")), vec!["b", "c"]);
    assert_eq!(ids(&dag.predecessors("d")), vec!["b", "c"]);
    assert!(dag.successors("d").is_empty());
    assert!(dag.successors("missing").is_empty());
}

#[test]
fn add_node_replaces_same_id() {
    let mut dag = diamond();
    dag.add_node(DAGNode::new("b", "B2", 20));
    assert_eq!(dag.node_count(), 4);
    assert_eq!(dag.get_node("b").unwrap().name, "B2");
    assert_eq!(dag.edge_count(), 4);
}

#[test]
fn topological_sort_respects_edges() {
    let dag = diamond();
    let order = dag.topological_sort().unwrap();
    assert_eq!(order, vec!["a", "b", "c", "d"]);
    let pos = |x: &str| order.iter().position(|o| o == x).unwrap();
    for e in dag.edges() {
        assert!(pos(&e.from) < pos(&e.to));
    }
}

#[test]
fn cycle_detected_everywhere() {
    let dag = cyclic();
    assert!(dag.has_cycle());
    let c = dag.find_cycle().unwrap();
    assert!(c.len() >= 2);
    assert_eq!(c.first(), c.last());
    match dag.topological_sort() {
        Err(Error::DAGCycle(m)) => assert_eq!(m, "Cannot perform topological sort on DAG with cycle"),
        _ => panic!("expected a cycle error"),
    }
    match dag.compute_layers() {
        Err(Error::DAGCycle(m)) => assert_eq!(m, "Cannot compute layers for DAG with cycle"),
        _ => panic!("expected a cycle error"),
    }
    match dag.validate() {
        Err(Error::DAGCycle(m)) => {
            assert!(m.starts_with("DAG contains cycle: Some([\""));
            assert!(m.ends_with("\"])"));
        }
        _ => panic!("expected a cycle error"),
    }
    assert!(!diamond().has_cycle());
    assert!(diamond().find_cycle().is_none());
}

#[test]
fn self_loop_is_a_cycle() {
    let mut dag: DAG<u32> = DAG::new();
    dag.add_node(DAGNode::new("s", "S", 0));
    dag.add_dependency("s", "s");
    assert!(dag.has_cycle());
    assert_eq!(dag.find_cycle().unwrap(), vec!["s", "s"]);
}

#[test]
fn layers_group_parallel_nodes() {
    let dag = diamond();
    let layers = dag.compute_layers().unwrap();
    assert_eq!(layers, vec![vec!["a".to_string()], vec!["b".to_string(), "c".to_string()], vec!["d".to_string()]]);
}

#[test]
fn validate_reports_empty_graph() {
    let dag: DAG<u32> = DAG::new();
    match dag.validate() {
        Err(Error::DAGValidation(m)) => assert_eq!(m, "DAG has no nodes"),
        _ => panic!("expected a validation error"),
    }
    assert!(diamond().validate().is_ok());
}

#[test]
fn execution_plan_of_diamond() {
    let plan = diamond().build_execution_plan().unwrap();
    assert_eq!(plan.execution_order, vec!["a", "b", "c", "d"]);
    assert_eq!(plan.root_nodes, vec!["a"]);
    assert_eq!(plan.layer_count(), 3);
    assert_eq!(plan.estimated_duration_ms, Some(3000));
    assert_eq!(plan.node_count(), 4);
    assert_eq!(plan.nodes[3].id, "d");
    assert_eq!(plan.nodes[3].task, 4);
    assert_eq!(plan.max_parallelism(), 2);
    assert!(plan.contains_node("c"));
    assert_eq!(plan.get_layer(1).unwrap(), &["b".to_string(), "c".to_string()]);
    assert!(plan.get_layer(3).is_none());
    assert!(plan.dag().is_none());
    assert!(cyclic().build_execution_plan().is_err());
}

#[test]
fn merge_adds_new_nodes_and_edges_once() {
    let mut dag = diamond();
    let mut other: DAG<u32> = DAG::new();
    other.add_node(DAGNode::new("d", "other D", 40));
    other.add_node(DAGNode::new("e", "E", 5));
    other.add_dependency("d", "e");
    other.add_dependency("d", "e");
    dag.merge(&other);
    assert_eq!(dag.node_count(), 5);
    assert_eq!(dag.get_node("d").unwrap().name, "D");
    assert_eq!(dag.get_node("e").unwrap().task, 5);
    assert_eq!(dag.edge_count(), 5);
    let copy = dag.clone();
    dag.merge(&copy);
    assert_eq!(dag.node_count(), 5);
    assert_eq!(dag.edge_count(), 5);
}

#[test]
fn renderings() {
    let mut dag: DAG<u32> = DAG::new();
    dag.add_node(DAGNode::new("a", "Say \"hi\"", 1));
    dag.add_node(DAGNode::new("b", "b", 2));
    dag.add_edge(DAGEdge::new("a", "b").with_label("n\"x"));
    let dot = dag.to_dot();
    assert_eq!(
        dot,
        "digraph DAG {\n    rankdir=TB;\n    node [shape=box, style=rounded];\n    edge [arrowhead=normal];\n\n\
         \x20   \"a\" [label=\"Say \\\"hi\\\"\n(a)\", shape=ellipse];\n\
         \x20   \"b\" [label=\"b\", shape=box];\n\
         \n\
         \x20   \"a\" -> \"b\" [label=\"n\\\"x\"];\n\
         \n}\n"
    );
    let md = dag.to_mermaid();
    assert_eq!(
        md,
        "```mermaid\nflowchart LR\n    direction LR\n\n\
         \x20   subgraph layer0 [\"Layer 0\"]\n        a(Say 'hi')\n    end\n\n\
         \x20   subgraph layer1 [\"Layer 1\"]\n        b(b)\n    end\n\n\
         \x20   a --> b\n```\n"
    );
    let ascii = dag.to_ascii();
    assert_eq!(
        ascii,
        "DAG Structure:\n  Nodes: 2\n  Edges: 1\n  Roots: [\"Say \\\"hi\\\"\"]\n  Leaves: [\"b\"]\n\
         \nLayers (nodes in same layer can execute in parallel):\n  Layer 0: [\"Say \\\"hi\\\"\"]\n  Layer 1: [\"b\"]\n"
    );
    let cyc = cyclic().to_ascii();
    assert!(!cyc.contains("Layers"));
}

#[test]
fn node_and_edge_builders() {
    let n = DAGNode::new("n", "N", ()).with_name("M").depends_on("x");
    assert_eq!(n.name, "M");
    assert_eq!(n.dependencies, vec!["x"]);
    assert!(n.result.is_none());
    assert!(n.same_node(&DAGNode::new("n", "other", ())));
    let e = DAGEdge::new("a", "b").with_label("l");
    assert_eq!(e.label.as_deref(), Some("l"));
    assert_eq!(e, DAGEdge::new("a", "b"));
    assert_ne!(e, DAGEdge::new("b", "a"));
}

#[test]
fn builder_validates() {
    let mut b: DAGBuilder<u32> = DAGBuilder::new();
    b.add_node("a", "A", 1);
    b.add_node("b", "B", 2);
    b.add_dependency("a", "b");
    assert_eq!(b.dag().node_count(), 2);
    let dag = b.build().unwrap();
    assert_eq!(dag.topological_sort().unwrap(), vec!["a", "b"]);
    let empty: DAGBuilder<u32> = DAGBuilder::new();
    assert!(empty.build().is_err());
}

#[test]
fn incoming_and_outgoing_edges() {
    let g = diamond();
    let into_d: Vec<String> = g.incoming_edges("d").iter().map(|e| e.from.clone()).collect();
    assert_eq!(into_d, vec!["b".to_string(), "c".to_string()]);
    let out_a: Vec<String> = g.outgoing_edges("a").iter().map(|e| e.to.clone()).collect();
    assert_eq!(out_a, vec!["b".to_string(), "c".to_string()]);
    assert!(g.incoming_edges("a").is_empty());
    assert!(g.outgoing_edges("zz").is_empty());
}

#[test]
fn get_node_mut_changes_the_node_in_place() {
    let mut dag = diamond();
    match dag.get_node_mut("b") {
        Some(n) => {
            n.task = 20;
            n.name = "Bee".to_string();
        }
        None => panic!("node b is present"),
    }
    let b = dag.get_node("b").unwrap();
    assert_eq!(b.task, 20);
    assert_eq!(b.name, "Bee");
    assert_eq!(dag.get_node("a").unwrap().task, 1);
    assert!(dag.get_node_mut("z").is_none());
    assert_eq!(dag.node_count(), 4);
}
