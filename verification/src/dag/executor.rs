//! The parts of running a DAG that decide rather than wait: progress counts, and the input
//! a node receives from the nodes before it.

use vstd::prelude::*;
use super::dag_impl::{sources_of, DAG};
use super::result::NodeExecutionResult;
use crate::assoc::StrMap;
use crate::foreign::{json_from_option, json_object, json_object_of, json_of_option};
use crate::text::views_of;

verus! {

/// How far a run has come.
pub struct ExecutionProgress {
    /// Nodes finished.
    pub completed: usize,
    /// Nodes in the DAG.
    pub total: usize,
    /// Nodes not yet finished.
    pub running: usize,
    /// Share finished, from 0 to 100.
    pub percent: u8,
    /// Nodes finished successfully.
    pub success_count: usize,
    /// Nodes finished with a failure.
    pub failure_count: usize,
}

impl ExecutionProgress {
    /// The progress of a run of `total` nodes that has not started.
    pub fn new(total: usize) -> (p: Self)
        ensures
            p.completed == 0,
            p.total == total,
            p.running == 0,
            p.percent == 0,
            p.success_count == 0,
            p.failure_count == 0,
    {
        ExecutionProgress { completed: 0, total, running: 0, percent: 0, success_count: 0, failure_count: 0 }
    }
}

/// The outputs available for the given upstream ids, as key-value pairs in the order of the
/// ids; ids without an output are left out.
pub open spec fn upstream_entries(
    preds: Seq<Seq<char>>,
    outputs: Map<Seq<char>, serde_json::Value>,
) -> Seq<(Seq<char>, serde_json::Value)>
    decreases preds.len(),
{
    if preds.len() == 0 {
        Seq::empty()
    } else {
        let prev = upstream_entries(preds.drop_last(), outputs);
        if outputs.contains_key(preds.last()) {
            prev.push((preds.last(), outputs[preds.last()]))
        } else {
            prev
        }
    }
}

/// The input a node receives from its upstream nodes `preds`: nothing (JSON `null`) without
/// upstream nodes, the single upstream output as it is, or an object keyed by upstream id
/// holding the outputs there are.
pub open spec fn upstream_input(preds: Seq<Seq<char>>, outputs: Map<Seq<char>, serde_json::Value>) -> serde_json::Value {
    if preds.len() == 0 {
        json_of_option(None)
    } else if preds.len() == 1 {
        json_of_option(if outputs.contains_key(preds[0]) { Some(outputs[preds[0]]) } else { None })
    } else {
        json_object_of(upstream_entries(preds, outputs))
    }
}

/// Every entry gathered from the upstream ids is an upstream id with an output, paired with
/// that output; and every upstream id with an output has an entry.
pub proof fn lemma_upstream_entries_are_the_outputs(
    preds: Seq<Seq<char>>,
    outputs: Map<Seq<char>, serde_json::Value>,
)
    ensures
        forall|i: int| 0 <= i < upstream_entries(preds, outputs).len() ==> {
            let e = #[trigger] upstream_entries(preds, outputs)[i];
            &&& preds.contains(e.0)
            &&& outputs.contains_key(e.0)
            &&& e.1 == outputs[e.0]
        },
        forall|p: Seq<char>| preds.contains(p) && outputs.contains_key(p) ==> exists|i: int|
            0 <= i < upstream_entries(preds, outputs).len() && (#[trigger] upstream_entries(preds, outputs)[i]).0 == p,
    decreases preds.len(),
{
    if preds.len() > 0 {
        let rest = preds.drop_last();
        lemma_upstream_entries_are_the_outputs(rest, outputs);
        let prev = upstream_entries(rest, outputs);
        let es = upstream_entries(preds, outputs);
        assert forall|i: int| 0 <= i < es.len() implies {
            let e = #[trigger] es[i];
            &&& preds.contains(e.0)
            &&& outputs.contains_key(e.0)
            &&& e.1 == outputs[e.0]
        } by {
            if i < prev.len() {
                assert(es[i] == prev[i]);
                let e = prev[i];
                let j = choose|j: int| 0 <= j < rest.len() && rest[j] == e.0;
                assert(preds[j] == rest[j]);
            } else {
                assert(preds[preds.len() - 1] == preds.last());
            }
        }
        assert forall|p: Seq<char>| preds.contains(p) && outputs.contains_key(p) implies exists|i: int|
            0 <= i < es.len() && (#[trigger] es[i]).0 == p by {
            let j = choose|j: int| 0 <= j < preds.len() && preds[j] == p;
            if j < preds.len() - 1 {
                assert(rest[j] == p);
                assert(rest.contains(p));
                let i = choose|i: int| 0 <= i < prev.len() && (#[trigger] prev[i]).0 == p;
                assert(es[i] == prev[i]);
            } else {
                assert(es[es.len() - 1].0 == p);
            }
        }
    }
}

/// With two or more upstream nodes, a node's input is the object of entries that hold, in
/// upstream order, exactly the outputs there are: each upstream id with an output is a key,
/// mapped to that output, and each key is an upstream id with that output.
pub proof fn lemma_upstream_object_holds_every_output(
    preds: Seq<Seq<char>>,
    outputs: Map<Seq<char>, serde_json::Value>,
)
    requires
        preds.len() >= 2,
    ensures
        exists|es: Seq<(Seq<char>, serde_json::Value)>| {
            &&& upstream_input(preds, outputs) == json_object_of(es)
            &&& forall|i: int| 0 <= i < es.len() ==> preds.contains((#[trigger] es[i]).0) && outputs.contains_key(
                es[i].0,
            ) && es[i].1 == outputs[es[i].0]
            &&& forall|p: Seq<char>| preds.contains(p) && outputs.contains_key(p) ==> exists|i: int|
                0 <= i < es.len() && (#[trigger] es[i]).0 == p
        },
{
    lemma_upstream_entries_are_the_outputs(preds, outputs);
    let es = upstream_entries(preds, outputs);
    assert(upstream_input(preds, outputs) == json_object_of(es));
}

/// Combines the outputs of the upstream nodes `preds` into one input.
pub fn collect_upstream(preds: &Vec<String>, outputs: &StrMap<serde_json::Value>) -> (v: serde_json::Value)
    ensures
        v == upstream_input(views_of(preds@), outputs@),
{
    if preds.len() == 0 {
        return json_from_option(None);
    }
    if preds.len() == 1 {
        let single = match outputs.get(preds[0].as_str()) {
            Some(o) => Some(o.clone()),
            None => None,
        };
        return json_from_option(single);
    }
    let mut entries: Vec<(String, serde_json::Value)> = Vec::new();
    let mut i: usize = 0;
    while i < preds.len()
        invariant
            i <= preds@.len(),
            entries@.map_values(|e: (String, serde_json::Value)| (e.0@, e.1)) == upstream_entries(
                views_of(preds@).take(i as int),
                outputs@,
            ),
        decreases preds@.len() - i,
    {
        let ghost before = entries@;
        proof {
            assert(views_of(preds@).take(i + 1).drop_last() =~= views_of(preds@).take(i as int));
            assert(views_of(preds@).take(i + 1).last() == preds@[i as int]@);
        }
        match outputs.get(preds[i].as_str()) {
            Some(o) => {
                entries.push((preds[i].clone(), o.clone()));
                proof {
                    assert(entries@.map_values(|e: (String, serde_json::Value)| (e.0@, e.1)) =~= before.map_values(
                        |e: (String, serde_json::Value)| (e.0@, e.1),
                    ).push((preds@[i as int]@, *o)));
                }
            },
            None => {},
        }
        i = i + 1;
    }
    proof {
        assert(views_of(preds@).take(i as int) =~= views_of(preds@));
    }
    json_object(entries)
}

/// The input node `node_id` receives: its upstream nodes are the sources of the edges into
/// it, one per edge, in edge order.
pub fn upstream_input_of<T>(dag: &DAG<T>, node_id: &str, outputs: &StrMap<serde_json::Value>) -> (v: serde_json::Value)
    requires
        dag.wf(),
    ensures
        v == upstream_input(sources_of(dag.ends(), node_id@), outputs@),
{
    let preds = dag.predecessors(node_id);
    let mut ids: Vec<String> = Vec::new();
    let mut i: usize = 0;
    while i < preds.len()
        invariant
            i <= preds@.len(),
            dag.wf(),
            super::dag_impl::deref_all(preds@) == dag.nodes_for(sources_of(dag.ends(), node_id@)),
            views_of(ids@) == sources_of(dag.ends(), node_id@).take(i as int),
        decreases preds@.len() - i,
    {
        let ghost before = ids@;
        ids.push(preds[i].id.clone());
        proof {
            let srcs = sources_of(dag.ends(), node_id@);
            dag.lemma_sources_are_ids(node_id@);
            assert(super::dag_impl::deref_all(preds@).len() == preds@.len());
            assert(dag.nodes_for(srcs).len() == srcs.len());
            assert(super::dag_impl::deref_all(preds@)[i as int] == dag.nodes_for(srcs)[i as int]);
            assert(super::dag_impl::deref_all(preds@)[i as int] == dag.node_of(srcs[i as int]));
            dag.lemma_node_of_id(srcs[i as int]);
            assert(views_of(ids@) =~= views_of(before).push(srcs[i as int]));
            assert(srcs.take(i + 1) =~= srcs.take(i as int).push(srcs[i as int]));
        }
        i = i + 1;
    }
    proof {
        assert(super::dag_impl::deref_all(preds@).len() == preds@.len());
        assert(dag.nodes_for(sources_of(dag.ends(), node_id@)).len() == sources_of(dag.ends(), node_id@).len());
        assert(sources_of(dag.ends(), node_id@).take(i as int) =~= sources_of(dag.ends(), node_id@));
    }
    collect_upstream(&ids, outputs)
}

/// The results with the given outcome, in order.
pub open spec fn with_outcome(rs: Seq<NodeExecutionResult>, success: bool) -> Seq<NodeExecutionResult>
    decreases rs.len(),
{
    if rs.len() == 0 {
        Seq::empty()
    } else {
        let prev = with_outcome(rs.drop_last(), success);
        if rs.last().success == success {
            prev.push(rs.last())
        } else {
            prev
        }
    }
}

/// Copies of the results that succeeded (with `success` true) or failed (with it false), in
/// order.
pub fn results_with_outcome(rs: &[NodeExecutionResult], success: bool) -> (r: Vec<NodeExecutionResult>)
    ensures
        r@ == with_outcome(rs@, success),
{
    let mut r: Vec<NodeExecutionResult> = Vec::new();
    let mut i: usize = 0;
    while i < rs.len()
        invariant
            i <= rs@.len(),
            r@ == with_outcome(rs@.take(i as int), success),
        decreases rs@.len() - i,
    {
        proof {
            assert(rs@.take(i + 1).drop_last() =~= rs@.take(i as int));
        }
        if rs[i].success == success {
            r.push(rs[i].clone());
        }
        i = i + 1;
    }
    proof {
        assert(rs@.take(i as int) =~= rs@);
    }
    r
}

/// Splitting results by outcome keeps every result exactly once: each result lands among
/// those with its outcome, each selected result has the outcome asked for, the two parts
/// together are as many as the results, and the successful part counts the successes.
pub proof fn lemma_outcomes_split_results(rs: Seq<NodeExecutionResult>)
    ensures
        with_outcome(rs, true).len() + with_outcome(rs, false).len() == rs.len(),
        with_outcome(rs, true).len() == crate::strategy::strategy_trait::count_success(rs),
        forall|b: bool, i: int| 0 <= i < with_outcome(rs, b).len() ==> (#[trigger] with_outcome(rs, b)[i]).success == b
            && rs.contains(with_outcome(rs, b)[i]),
        forall|i: int| 0 <= i < rs.len() ==> with_outcome(rs, (#[trigger] rs[i]).success).contains(rs[i]),
    decreases rs.len(),
{
    if rs.len() > 0 {
        let rest = rs.drop_last();
        lemma_outcomes_split_results(rest);
        let last = rs.len() - 1;
        assert(rs[last] == rs.last());
        assert forall|b: bool, i: int| 0 <= i < with_outcome(rs, b).len() implies (#[trigger] with_outcome(
            rs,
            b,
        )[i]).success == b && rs.contains(with_outcome(rs, b)[i]) by {
            let prev = with_outcome(rest, b);
            if i < prev.len() {
                assert(with_outcome(rs, b)[i] == prev[i]);
                let j = choose|j: int| 0 <= j < rest.len() && rest[j] == prev[i];
                assert(rs[j] == rest[j]);
            }
        }
        assert forall|i: int| 0 <= i < rs.len() implies with_outcome(rs, (#[trigger] rs[i]).success).contains(rs[i]) by {
            let b = rs[i].success;
            let prev = with_outcome(rest, b);
            if i < last {
                assert(rest[i] == rs[i]);
                assert(with_outcome(rest, rest[i].success).contains(rest[i]));
                let j = choose|j: int| 0 <= j < prev.len() && prev[j] == rs[i];
                assert(with_outcome(rs, b)[j] == prev[j]);
            } else {
                assert(with_outcome(rs, b)[with_outcome(rs, b).len() - 1] == rs[i]);
            }
        }
    }
}

} // verus!
