//! Building a DAG step by step, checking it at the end.

use vstd::prelude::*;
use super::dag_impl::DAG;
use super::edge::DAGEdge;
use super::node::DAGNode;
use super::props::{contains_cycle, is_cycle_path};
use crate::error::Error;
use crate::text::debug_list;

verus! {

/// Builds a DAG node by node and edge by edge.
pub struct DAGBuilder<T> {
    dag: DAG<T>,
}

impl<T> DAGBuilder<T> {
    /// The graph built so far.
    pub closed spec fn graph(&self) -> DAG<T> {
        self.dag
    }

    /// A builder with an empty graph.
    pub fn new() -> (b: Self)
        ensures
            b.graph().wf(),
            b.graph().node_seq().len() == 0,
            b.graph().edge_seq().len() == 0,
    {
        DAGBuilder { dag: DAG::new() }
    }

    /// Adds a node for `task`, with the given id and name.
    pub fn add_node(&mut self, id: &str, name: &str, task: T)
        requires
            old(self).graph().wf(),
        ensures
            final(self).graph().wf(),
            final(self).graph().edge_seq() == old(self).graph().edge_seq(),
            final(self).graph().ids() == if old(self).graph().ids().contains(id@) {
                old(self).graph().ids()
            } else {
                old(self).graph().ids().push(id@)
            },
    {
        let ghost old_ids = self.dag.ids();
        self.dag.add_node(DAGNode::new(id, name, task));
        proof {
            if old_ids.contains(id@) {
                self.dag.lemma_wf();
                assert(self.dag.ids() =~= old_ids);
            } else {
                assert(self.dag.ids() =~= old_ids.push(id@));
            }
        }
    }

    /// Adds an edge from `from` to `to`; both must be nodes already.
    pub fn add_dependency(&mut self, from: &str, to: &str)
        requires
            old(self).graph().wf(),
            old(self).graph().ids().contains(from@),
            old(self).graph().ids().contains(to@),
        ensures
            final(self).graph().wf(),
            final(self).graph().node_seq() == old(self).graph().node_seq(),
            final(self).graph().ends() == old(self).graph().ends().push((from@, to@)),
    {
        self.dag.add_dependency(from, to);
        proof {
            assert(self.dag.edge_seq() =~= old(self).dag.edge_seq().push(self.dag.edge_seq().last()));
            assert(self.dag.ends() =~= old(self).dag.ends().push((from@, to@)));
        }
    }

    /// Adds an edge; both ends must be nodes already.
    pub fn add_edge(&mut self, edge: DAGEdge)
        requires
            old(self).graph().wf(),
            old(self).graph().ids().contains(edge.from@),
            old(self).graph().ids().contains(edge.to@),
        ensures
            final(self).graph().wf(),
            final(self).graph().node_seq() == old(self).graph().node_seq(),
            final(self).graph().edge_seq() == old(self).graph().edge_seq().push(edge),
    {
        self.dag.add_edge(edge);
    }

    /// The graph, once it passes [`DAG::validate`]; its error otherwise.
    pub fn build(self) -> (r: Result<DAG<T>, Error>)
        requires
            self.graph().wf(),
        ensures
            r is Ok <==> (self.graph().node_seq().len() > 0 && !contains_cycle(self.graph().ends())),
            r matches Ok(g) ==> g == self.graph(),
            self.graph().node_seq().len() == 0 ==> (r matches Err(Error::DAGValidation(m)) && m@ == "DAG has no nodes"@),
            self.graph().node_seq().len() > 0 && contains_cycle(self.graph().ends()) ==> (r matches Err(Error::DAGCycle(m))
                && exists|c: Seq<Seq<char>>| is_cycle_path(self.graph().ends(), c) && m@ == "DAG contains cycle: Some("@
                    + debug_list(c) + ")"@),
    {
        match self.dag.validate() {
            Ok(()) => Ok(self.dag),
            Err(e) => Err(e),
        }
    }

    /// The graph built so far.
    pub fn dag(&self) -> (g: &DAG<T>)
        ensures
            *g == self.graph(),
    {
        &self.dag
    }
}

} // verus!
