//! Nodes of a DAG.

use vstd::prelude::*;

verus! {

/// A node of a DAG: an id, a display name, the task it runs, and declared dependencies.
///
/// The task is any value the caller wants to run for this node; the graph logic never
/// looks inside it.
pub struct DAGNode<T> {
    /// Node id, unique within a DAG.
    pub id: String,
    /// Display name.
    pub name: String,
    /// The task run for this node.
    pub task: T,
    /// Ids of the nodes this node declares it depends on.
    pub dependencies: Vec<String>,
    /// The node's result, once it has one.
    pub result: Option<serde_json::Value>,
}

impl<T> DAGNode<T> {
    /// Creates a node with no declared dependencies.
    pub fn new(id: &str, name: &str, task: T) -> (n: Self)
        ensures
            n.id@ == id@,
            n.name@ == name@,
            n.task == task,
            n.dependencies@.len() == 0,
            n.result is None,
    {
        DAGNode { id: id.to_owned(), name: name.to_owned(), task, dependencies: Vec::new(), result: None }
    }

    /// Replaces the node's display name.
    pub fn with_name(self, name: &str) -> (n: Self)
        ensures
            n.id == self.id,
            n.name@ == name@,
            n.task == self.task,
            n.dependencies == self.dependencies,
            n.result == self.result,
    {
        DAGNode { name: name.to_owned(), ..self }
    }

    /// Adds a declared dependency at the end of the list.
    pub fn depends_on(self, dependency_id: &str) -> (n: Self)
        ensures
            n.id == self.id,
            n.name == self.name,
            n.task == self.task,
            n.dependencies@.len() == self.dependencies@.len() + 1,
            n.dependencies@.drop_last() == self.dependencies@,
            n.dependencies@.last()@ == dependency_id@,
            n.result == self.result,
    {
        let mut n = self;
        n.dependencies.push(dependency_id.to_owned());
        n
    }

    /// Whether two nodes are the same node: nodes compare by id alone.
    pub fn same_node(&self, other: &DAGNode<T>) -> (b: bool)
        ensures
            b == (self.id@ == other.id@),
    {
        self.id == other.id
    }
}

/// A copy of a list of strings.
pub fn copy_strings(v: &Vec<String>) -> (r: Vec<String>)
    ensures
        r@ == v@,
{
    let mut r: Vec<String> = Vec::new();
    let mut i: usize = 0;
    while i < v.len()
        invariant
            i <= v@.len(),
            r@ == v@.take(i as int),
        decreases v@.len() - i,
    {
        r.push(v[i].clone());
        proof {
            assert(v@.take(i + 1) =~= v@.take(i as int).push(v@[i as int]));
        }
        i = i + 1;
    }
    proof {
        assert(v@.take(v@.len() as int) =~= v@);
    }
    r
}

impl<T: Clone> Clone for DAGNode<T> {
    fn clone(&self) -> (n: Self)
        ensures
            n.id == self.id,
            n.name == self.name,
            n.dependencies@ == self.dependencies@,
            n.result == self.result,
            cloned::<T>(self.task, n.task),
    {
        let result = match &self.result {
            Some(v) => Some(v.clone()),
            None => None,
        };
        DAGNode {
            id: self.id.clone(),
            name: self.name.clone(),
            task: self.task.clone(),
            dependencies: copy_strings(&self.dependencies),
            result,
        }
    }
}

} // verus!
