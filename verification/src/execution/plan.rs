//! Execution plans: the order, layers and nodes a DAG will run in.

use vstd::prelude::*;
use std::sync::Arc;
use crate::dag::DAG;
use crate::dag::node::copy_strings;

verus! {

/// A node as a plan holds it: id, name, declared dependencies and the task to run.
pub struct ExecutionNode<T> {
    /// Node id.
    pub id: String,
    /// Display name.
    pub name: String,
    /// Ids of the nodes it declares it depends on.
    pub dependencies: Vec<String>,
    /// The task run for this node.
    pub task: T,
}

impl<T> ExecutionNode<T> {
    /// Creates a node without dependencies.
    pub fn new(id: String, name: String, task: T) -> (n: Self)
        ensures
            n.id == id,
            n.name == name,
            n.dependencies@.len() == 0,
            n.task == task,
    {
        ExecutionNode { id, name, dependencies: Vec::new(), task }
    }

    /// Adds a dependency at the end of the list.
    pub fn with_dependency(self, dep: &str) -> (n: Self)
        ensures
            n.id == self.id,
            n.name == self.name,
            n.task == self.task,
            n.dependencies@.len() == self.dependencies@.len() + 1,
            n.dependencies@.drop_last() == self.dependencies@,
            n.dependencies@.last()@ == dep@,
    {
        let mut n = self;
        n.dependencies.push(dep.to_owned());
        proof {
            assert(n.dependencies@.drop_last() =~= self.dependencies@);
        }
        n
    }

    /// Replaces the dependency list.
    pub fn with_dependencies(self, deps: Vec<String>) -> (n: Self)
        ensures
            n.id == self.id,
            n.name == self.name,
            n.task == self.task,
            n.dependencies == deps,
    {
        ExecutionNode { dependencies: deps, ..self }
    }

    /// Whether `dep` is among the declared dependencies.
    pub fn has_dependency(&self, dep: &str) -> (b: bool)
        ensures
            b == exists|i: int| 0 <= i < self.dependencies@.len() && (#[trigger] self.dependencies@[i])@ == dep@,
    {
        let d = dep.to_owned();
        let mut i: usize = 0;
        while i < self.dependencies.len()
            invariant
                i <= self.dependencies@.len(),
                d@ == dep@,
                forall|j: int| 0 <= j < i ==> (#[trigger] self.dependencies@[j])@ != dep@,
            decreases self.dependencies@.len() - i,
        {
            if self.dependencies[i] == d {
                return true;
            }
            i = i + 1;
        }
        false
    }
}

/// How a DAG will run: its nodes in execution order, its roots, the order itself, the layers
/// that can run in parallel, an estimate of the duration, and optionally the DAG.
pub struct ExecutionPlan<T> {
    /// The nodes, in execution order.
    pub nodes: Vec<ExecutionNode<T>>,
    /// Ids of the nodes no edge ends at.
    pub root_nodes: Vec<String>,
    /// Node ids in execution order.
    pub execution_order: Vec<String>,
    /// Layers of node ids; the nodes of one layer can run in parallel.
    pub layers: Vec<Vec<String>>,
    /// Estimated duration in milliseconds.
    pub estimated_duration_ms: Option<u64>,
    /// The DAG the plan was made from.
    pub dag: Option<Arc<DAG<T>>>,
}

impl<T> ExecutionPlan<T> {
    /// Creates a plan with no layers, no estimate and no DAG.
    pub fn new(nodes: Vec<ExecutionNode<T>>, root_nodes: Vec<String>, execution_order: Vec<String>) -> (p: Self)
        ensures
            p.nodes == nodes,
            p.root_nodes == root_nodes,
            p.execution_order == execution_order,
            p.layers@.len() == 0,
            p.estimated_duration_ms is None,
            p.dag is None,
    {
        ExecutionPlan { nodes, root_nodes, execution_order, layers: Vec::new(), estimated_duration_ms: None, dag: None }
    }

    /// Attaches the DAG.
    pub fn with_dag(self, dag: Arc<DAG<T>>) -> (p: Self)
        ensures
            p.nodes == self.nodes,
            p.root_nodes == self.root_nodes,
            p.execution_order == self.execution_order,
            p.layers == self.layers,
            p.estimated_duration_ms == self.estimated_duration_ms,
            p.dag == Some(dag),
    {
        ExecutionPlan { dag: Some(dag), ..self }
    }

    /// Replaces the layers.
    pub fn with_layers(self, layers: Vec<Vec<String>>) -> (p: Self)
        ensures
            p.nodes == self.nodes,
            p.root_nodes == self.root_nodes,
            p.execution_order == self.execution_order,
            p.layers == layers,
            p.estimated_duration_ms == self.estimated_duration_ms,
            p.dag == self.dag,
    {
        ExecutionPlan { layers, ..self }
    }

    /// Sets the estimated duration.
    pub fn with_estimated_duration(self, duration_ms: u64) -> (p: Self)
        ensures
            p.nodes == self.nodes,
            p.root_nodes == self.root_nodes,
            p.execution_order == self.execution_order,
            p.layers == self.layers,
            p.estimated_duration_ms == Some(duration_ms),
            p.dag == self.dag,
    {
        ExecutionPlan { estimated_duration_ms: Some(duration_ms), ..self }
    }

    /// The number of nodes.
    pub fn node_count(&self) -> (n: usize)
        ensures
            n == self.nodes@.len(),
    {
        self.nodes.len()
    }

    /// The number of roots.
    pub fn root_count(&self) -> (n: usize)
        ensures
            n == self.root_nodes@.len(),
    {
        self.root_nodes.len()
    }

    /// The number of layers.
    pub fn layer_count(&self) -> (n: usize)
        ensures
            n == self.layers@.len(),
    {
        self.layers.len()
    }

    /// Whether the plan has no nodes.
    pub fn is_empty(&self) -> (b: bool)
        ensures
            b == (self.nodes@.len() == 0),
    {
        self.nodes.len() == 0
    }

    /// The first node with id `id`.
    pub fn get_node(&self, id: &str) -> (r: Option<&ExecutionNode<T>>)
        ensures
            r is None <==> forall|i: int| 0 <= i < self.nodes@.len() ==> (#[trigger] self.nodes@[i]).id@ != id@,
            r matches Some(n) ==> exists|i: int| 0 <= i < self.nodes@.len() && *n == self.nodes@[i]
                && n.id@ == id@ && forall|j: int| 0 <= j < i ==> (#[trigger] self.nodes@[j]).id@ != id@,
    {
        let k = id.to_owned();
        let mut i: usize = 0;
        while i < self.nodes.len()
            invariant
                i <= self.nodes@.len(),
                k@ == id@,
                forall|j: int| 0 <= j < i ==> (#[trigger] self.nodes@[j]).id@ != id@,
            decreases self.nodes@.len() - i,
        {
            if self.nodes[i].id == k {
                return Some(&self.nodes[i]);
            }
            i = i + 1;
        }
        None
    }

    /// The execution order.
    pub fn order(&self) -> (r: &[String])
        ensures
            r@ == self.execution_order@,
    {
        self.execution_order.as_slice()
    }

    /// Whether some node has id `id`.
    pub fn contains_node(&self, id: &str) -> (b: bool)
        ensures
            b == exists|i: int| 0 <= i < self.nodes@.len() && (#[trigger] self.nodes@[i]).id@ == id@,
    {
        self.get_node(id).is_some()
    }

    /// The DAG the plan was made from, if attached.
    pub fn dag(&self) -> (r: Option<&Arc<DAG<T>>>)
        ensures
            r is Some <==> self.dag is Some,
            r matches Some(d) ==> self.dag == Some(*d),
    {
        match &self.dag {
            Some(d) => Some(d),
            None => None,
        }
    }

    /// Layer `layer_index`, if there is one.
    pub fn get_layer(&self, layer_index: usize) -> (r: Option<&[String]>)
        ensures
            r is Some <==> layer_index < self.layers@.len(),
            r matches Some(l) ==> l@ == self.layers@[layer_index as int]@,
    {
        if layer_index < self.layers.len() {
            Some(self.layers[layer_index].as_slice())
        } else {
            None
        }
    }

    /// The size of the largest layer, or 1 when there are no layers.
    pub fn max_parallelism(&self) -> (m: usize)
        ensures
            self.layers@.len() == 0 ==> m == 1,
            self.layers@.len() > 0 ==> (exists|j: int| 0 <= j < self.layers@.len() && m == (#[trigger] self.layers@[j])@.len())
                && forall|j: int| 0 <= j < self.layers@.len() ==> (#[trigger] self.layers@[j])@.len() <= m,
    {
        if self.layers.len() == 0 {
            return 1;
        }
        let mut m = self.layers[0].len();
        let mut j: usize = 1;
        while j < self.layers.len()
            invariant
                1 <= j <= self.layers@.len(),
                exists|t: int| 0 <= t < j && m == (#[trigger] self.layers@[t])@.len(),
                forall|t: int| 0 <= t < j ==> (#[trigger] self.layers@[t])@.len() <= m,
            decreases self.layers@.len() - j,
        {
            if self.layers[j].len() > m {
                m = self.layers[j].len();
            }
            j = j + 1;
        }
        m
    }
}

/// A plan node made from the given fields, with a copy of the dependency list.
pub(crate) fn execution_node_of<T>(id: String, name: String, dependencies: &Vec<String>, task: T) -> (n: ExecutionNode<T>)
    ensures
        n.id == id,
        n.name == name,
        n.dependencies@ == dependencies@,
        n.task == task,
{
    ExecutionNode { id, name, dependencies: copy_strings(dependencies), task }
}

} // verus!
