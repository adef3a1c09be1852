//! The sequential strategy: nodes run one at a time, in topological order.

use vstd::prelude::*;
use std::sync::Arc;
use super::strategy_trait::StrategyConfig;
use crate::dag::props::{contains_cycle, is_cycle_path, is_topological_order};
use crate::dag::DAG;
use crate::error::Error;
use crate::execution::ExecutionPlan;
use crate::text::{debug_list, views_of};

verus! {

/// The sequential strategy and its settings.
pub struct SequentialStrategy {
    config: StrategyConfig,
}

/// One layer per id, in order.
pub open spec fn single_layers(order: Seq<Seq<char>>) -> Seq<Seq<Seq<char>>> {
    order.map_values(|id: Seq<char>| seq![id])
}

impl SequentialStrategy {
    /// The strategy's settings.
    pub closed spec fn settings(&self) -> StrategyConfig {
        self.config
    }

    /// A sequential strategy with these settings.
    pub fn new(config: StrategyConfig) -> (s: Self)
        ensures
            s.settings() == config,
    {
        SequentialStrategy { config }
    }

    /// The strategy's name.
    pub fn name(&self) -> (n: &str)
        ensures
            n@ == self.settings().name@,
    {
        self.config.name.as_str()
    }

    /// The strategy's settings.
    pub fn config(&self) -> (c: &StrategyConfig)
        ensures
            *c == self.settings(),
    {
        &self.config
    }

    /// Checks the DAG as [`DAG::validate`] does.
    pub fn validate<T>(&self, dag: &DAG<T>) -> (r: Result<(), Error>)
        requires
            dag.wf(),
        ensures
            dag.node_seq().len() == 0 ==> (r matches Err(Error::DAGValidation(m)) && m@ == "DAG has no nodes"@),
            dag.node_seq().len() > 0 && contains_cycle(dag.ends()) ==> (r matches Err(Error::DAGCycle(m))
                && exists|c: Seq<Seq<char>>| is_cycle_path(dag.ends(), c) && m@ == "DAG contains cycle: Some("@
                    + debug_list(c) + ")"@),
            dag.node_seq().len() > 0 && !contains_cycle(dag.ends()) ==> r is Ok,
    {
        dag.validate()
    }

    /// Plans the DAG one node per layer: no plan nodes, its roots, a topological order, a
    /// layer for each node in that order, an estimate of one second per node, and a copy of
    /// the DAG.
    pub fn plan<T: Clone>(&self, dag: &DAG<T>) -> (r: Result<ExecutionPlan<T>, Error>)
        requires
            dag.wf(),
            dag.node_seq().len() * 1000 <= u64::MAX,
        ensures
            r is Ok <==> (dag.node_seq().len() > 0 && !contains_cycle(dag.ends())),
            dag.node_seq().len() == 0 ==> (r matches Err(Error::DAGValidation(m)) && m@ == "DAG has no nodes"@),
            dag.node_seq().len() > 0 && contains_cycle(dag.ends()) ==> (r matches Err(Error::DAGCycle(m))
                && exists|c: Seq<Seq<char>>| is_cycle_path(dag.ends(), c) && m@ == "DAG contains cycle: Some("@
                    + debug_list(c) + ")"@),
            r matches Ok(p) ==> {
                &&& p.nodes@.len() == 0
                &&& views_of(p.root_nodes@) == dag.root_ids()
                &&& is_topological_order(dag.ids(), dag.ends(), views_of(p.execution_order@))
                &&& crate::dag::dag_impl::layer_views(p.layers@) == single_layers(views_of(p.execution_order@))
                &&& p.estimated_duration_ms == Some((p.execution_order@.len() * 1000) as u64)
                &&& p.dag matches Some(d) && d.ids() == dag.ids() && d.edge_seq() == dag.edge_seq() && d.wf()
            },
    {
        dag.validate()?;
        let execution_order = dag.topological_sort()?;
        let roots = dag.root_id_list();
        let mut layers: Vec<Vec<String>> = Vec::new();
        let mut i: usize = 0;
        while i < execution_order.len()
            invariant
                i <= execution_order@.len(),
                crate::dag::dag_impl::layer_views(layers@) == single_layers(views_of(execution_order@).take(i as int)),
            decreases execution_order@.len() - i,
        {
            let ghost before = layers@;
            let mut layer: Vec<String> = Vec::new();
            layer.push(execution_order[i].clone());
            layers.push(layer);
            proof {
                assert(views_of(layer@) =~= seq![execution_order@[i as int]@]);
                assert(crate::dag::dag_impl::layer_views(layers@) =~= crate::dag::dag_impl::layer_views(before).push(
                    seq![execution_order@[i as int]@],
                ));
                assert(views_of(execution_order@).take(i + 1) =~= views_of(execution_order@).take(i as int).push(
                    execution_order@[i as int]@,
                ));
                assert(single_layers(views_of(execution_order@).take(i + 1)) =~= single_layers(
                    views_of(execution_order@).take(i as int),
                ).push(seq![execution_order@[i as int]@]));
            }
            i = i + 1;
        }
        proof {
            assert(views_of(execution_order@).take(i as int) =~= views_of(execution_order@));
            // a topological order lists each node once, so it is no longer than the node list
            dag.lemma_wf();
            crate::dag::dag_impl::lemma_order_len(dag.ids(), dag.ends(), views_of(execution_order@));
        }
        let estimate = execution_order.len() as u64 * 1000;
        let copy = dag.clone();
        let plan = ExecutionPlan::new(Vec::new(), roots, execution_order)
            .with_dag(Arc::new(copy))
            .with_layers(layers)
            .with_estimated_duration(estimate);
        Ok(plan)
    }
}

impl Default for SequentialStrategy {
    fn default() -> (s: Self)
        ensures
            s.settings().name@ == "sequential"@,
            s.settings().max_parallelism == Some(1usize),
            s.settings().timeout_ms == Some(60000u64),
            s.settings().enable_retry,
            s.settings().max_retries == 3,
            s.settings().retry_interval_ms == 1000,
    {
        SequentialStrategy::new(StrategyConfig::new("sequential").with_parallelism(1))
    }
}

} // verus!
