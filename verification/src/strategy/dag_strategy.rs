//! The DAG strategy: nodes run layer by layer, in parallel where the edges allow.

use vstd::prelude::*;
use std::sync::Arc;
use super::strategy_trait::StrategyConfig;
use crate::dag::dag_impl::layer_views;
use crate::dag::props::{contains_cycle, is_cycle_path, is_layered, is_topological_order};
use crate::dag::DAG;
use crate::error::Error;
use crate::execution::ExecutionPlan;
use crate::text::{debug_list, views_of};

verus! {

/// The DAG strategy and its settings.
pub struct DAGStrategy {
    config: StrategyConfig,
    max_parallelism: usize,
}

impl DAGStrategy {
    /// The strategy's settings.
    pub closed spec fn settings(&self) -> StrategyConfig {
        self.config
    }

    /// The most nodes the strategy runs at once.
    pub closed spec fn parallelism(&self) -> usize {
        self.max_parallelism
    }

    /// A DAG strategy with these settings; it runs at most the configured number of nodes at
    /// once, 10 when none is configured.
    pub fn new(config: StrategyConfig) -> (s: Self)
        ensures
            s.settings() == config,
            s.parallelism() == match config.max_parallelism {
                Some(p) => p,
                None => 10,
            },
    {
        let max_parallelism = match config.max_parallelism {
            Some(p) => p,
            None => 10,
        };
        DAGStrategy { config, max_parallelism }
    }

    /// Sets the most nodes to run at once.
    pub fn with_max_parallelism(self, parallelism: usize) -> (s: Self)
        ensures
            s.settings() == self.settings(),
            s.parallelism() == parallelism,
    {
        DAGStrategy { max_parallelism: parallelism, ..self }
    }

    /// The strategy's name.
    pub fn name(&self) -> (n: &str)
        ensures
            n@ == self.settings().name@,
    {
        self.config.name.as_str()
    }

    /// The strategy's settings.
    pub fn config(&self) -> (c: &StrategyConfig)
        ensures
            *c == self.settings(),
    {
        &self.config
    }

    /// The most nodes the strategy runs at once.
    pub fn max_parallelism(&self) -> (p: usize)
        ensures
            p == self.parallelism(),
    {
        self.max_parallelism
    }

    /// Checks the DAG as [`DAG::validate`] does.
    pub fn validate<T>(&self, dag: &DAG<T>) -> (r: Result<(), Error>)
        requires
            dag.wf(),
        ensures
            dag.node_seq().len() == 0 ==> (r matches Err(Error::DAGValidation(m)) && m@ == "DAG has no nodes"@),
            dag.node_seq().len() > 0 && contains_cycle(dag.ends()) ==> (r matches Err(Error::DAGCycle(m))
                && exists|c: Seq<Seq<char>>| is_cycle_path(dag.ends(), c) && m@ == "DAG contains cycle: Some("@
                    + debug_list(c) + ")"@),
            dag.node_seq().len() > 0 && !contains_cycle(dag.ends()) ==> r is Ok,
    {
        dag.validate()
    }

    /// Plans the DAG: no plan nodes, its roots, a topological order, its layers, an estimate
    /// of one second per layer, and a copy of the DAG.
    pub fn plan<T: Clone>(&self, dag: &DAG<T>) -> (r: Result<ExecutionPlan<T>, Error>)
        requires
            dag.wf(),
            dag.node_seq().len() * 1000 <= u64::MAX,
        ensures
            r is Ok <==> (dag.node_seq().len() > 0 && !contains_cycle(dag.ends())),
            dag.node_seq().len() == 0 ==> (r matches Err(Error::DAGValidation(m)) && m@ == "DAG has no nodes"@),
            dag.node_seq().len() > 0 && contains_cycle(dag.ends()) ==> (r matches Err(Error::DAGCycle(m))
                && exists|c: Seq<Seq<char>>| is_cycle_path(dag.ends(), c) && m@ == "DAG contains cycle: Some("@
                    + debug_list(c) + ")"@),
            r matches Ok(p) ==> {
                &&& p.nodes@.len() == 0
                &&& views_of(p.root_nodes@) == dag.root_ids()
                &&& is_topological_order(dag.ids(), dag.ends(), views_of(p.execution_order@))
                &&& is_layered(dag.ids(), dag.ends(), layer_views(p.layers@))
                &&& p.estimated_duration_ms == Some((p.layers@.len() * 1000) as u64)
                &&& p.dag matches Some(d) && d.ids() == dag.ids() && d.edge_seq() == dag.edge_seq() && d.wf()
            },
    {
        dag.validate()?;
        let execution_order = dag.topological_sort()?;
        let layers = dag.compute_layers()?;
        proof {
            dag.lemma_wf();
            dag.lemma_links();
            crate::dag::dag_impl::lemma_layers_bound_of(dag.ids(), dag.ends(), layer_views(layers@));
        }
        let estimated = if layers.len() > 0 {
            Some(layers.len() as u64 * 1000)
        } else {
            None
        };
        let roots = dag.root_id_list();
        let copy = dag.clone();
        let plan = ExecutionPlan::new(Vec::new(), roots, execution_order)
            .with_dag(Arc::new(copy))
            .with_layers(layers);
        let estimate = match estimated {
            Some(e) => e,
            None => 0,
        };
        Ok(plan.with_estimated_duration(estimate))
    }
}

impl Default for DAGStrategy {
    fn default() -> (s: Self)
        ensures
            s.settings().name@ == "default"@,
            s.settings().max_parallelism == Some(10usize),
            s.parallelism() == 10,
    {
        DAGStrategy::new(StrategyConfig::default())
    }
}

} // verus!
