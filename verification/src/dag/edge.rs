//! Edges of a DAG.

use vstd::prelude::*;

verus! {

/// A directed edge: `from` must finish before `to` starts.
#[derive(Debug)]
pub struct DAGEdge {
    /// Id of the source node.
    pub from: String,
    /// Id of the target node.
    pub to: String,
    /// Optional label of the edge.
    pub label: Option<String>,
}

impl DAGEdge {
    /// The edge's two ends, by text.
    pub open spec fn ends(&self) -> (Seq<char>, Seq<char>) {
        (self.from@, self.to@)
    }

    /// Creates an edge from `from` to `to` without a label.
    pub fn new(from: &str, to: &str) -> (e: Self)
        ensures
            e.from@ == from@,
            e.to@ == to@,
            e.label is None,
    {
        DAGEdge { from: from.to_owned(), to: to.to_owned(), label: None }
    }

    /// Sets the edge's label.
    pub fn with_label(self, label: &str) -> (e: Self)
        ensures
            e.from == self.from,
            e.to == self.to,
            e.label matches Some(l) && l@ == label@,
    {
        DAGEdge { label: Some(label.to_owned()), ..self }
    }

    /// Two edges are the same edge when they join the same nodes; labels do not count.
    pub fn same_ends(&self, other: &DAGEdge) -> (b: bool)
        ensures
            b == (self.ends() == other.ends()),
    {
        self.from == other.from && self.to == other.to
    }
}

impl Clone for DAGEdge {
    fn clone(&self) -> (e: Self)
        ensures
            e == *self,
    {
        let label = match &self.label {
            Some(l) => Some(l.clone()),
            None => None,
        };
        DAGEdge { from: self.from.clone(), to: self.to.clone(), label }
    }
}

impl PartialEq for DAGEdge {
    fn eq(&self, other: &DAGEdge) -> (b: bool) {
        self.same_ends(other)
    }
}

impl vstd::std_specs::cmp::PartialEqSpecImpl for DAGEdge {
    open spec fn obeys_eq_spec() -> bool {
        true
    }

    open spec fn eq_spec(&self, other: &DAGEdge) -> bool {
        self.from@ == other.from@ && self.to@ == other.to@
    }
}

impl Eq for DAGEdge {}

} // verus!
