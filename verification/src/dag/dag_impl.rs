//! The DAG itself: nodes with unique ids, edges between existing nodes, and the queries,
//! orderings and checks that orchestration needs.

use vstd::prelude::*;
use super::edge::DAGEdge;
use super::node::DAGNode;
use super::graph::{lemma_distinct_below, is_layering, is_link_cycle, layering, lemma_layering_acyclic, links_in_range, order_or_cycle, respects_links};
use super::props::{
    contains_cycle, in_layer_of, lemma_cycle_down, ids_at, is_cycle_path, is_layered, is_topological_order, lemma_cycle_up,
    lemma_layers_up, lemma_order_up, numbered_edges,
};
use crate::error::Error;
use crate::execution::plan::{execution_node_of, ExecutionNode, ExecutionPlan};
use crate::text::{debug_list, debug_list_text, views_of};

verus! {

/// The ids of a list of nodes, in order.
pub open spec fn ids_of<T>(ns: Seq<DAGNode<T>>) -> Seq<Seq<char>> {
    ns.map_values(|n: DAGNode<T>| n.id@)
}

/// The two ends of each edge, in order.
pub open spec fn ends_of(es: Seq<DAGEdge>) -> Seq<(Seq<char>, Seq<char>)> {
    es.map_values(|e: DAGEdge| e.ends())
}

/// No edge ends at `id`.
pub open spec fn no_edge_into(e: Seq<(Seq<char>, Seq<char>)>, id: Seq<char>) -> bool {
    forall|k: int| 0 <= k < e.len() ==> (#[trigger] e[k]).1 != id
}

/// No edge starts at `id`.
pub open spec fn no_edge_out_of(e: Seq<(Seq<char>, Seq<char>)>, id: Seq<char>) -> bool {
    forall|k: int| 0 <= k < e.len() ==> (#[trigger] e[k]).0 != id
}

/// The number of edges that end at `id`, counting repeated edges.
pub open spec fn in_degree(e: Seq<(Seq<char>, Seq<char>)>, id: Seq<char>) -> nat
    decreases e.len(),
{
    if e.len() == 0 {
        0
    } else {
        in_degree(e.drop_last(), id) + if e.last().1 == id { 1nat } else { 0nat }
    }
}

/// The number of edges that start at `id`, counting repeated edges.
pub open spec fn out_degree(e: Seq<(Seq<char>, Seq<char>)>, id: Seq<char>) -> nat
    decreases e.len(),
{
    if e.len() == 0 {
        0
    } else {
        out_degree(e.drop_last(), id) + if e.last().0 == id { 1nat } else { 0nat }
    }
}

/// The targets of the edges that start at `id`, in edge order.
pub open spec fn targets_of(e: Seq<(Seq<char>, Seq<char>)>, id: Seq<char>) -> Seq<Seq<char>>
    decreases e.len(),
{
    if e.len() == 0 {
        Seq::empty()
    } else if e.last().0 == id {
        targets_of(e.drop_last(), id).push(e.last().1)
    } else {
        targets_of(e.drop_last(), id)
    }
}

/// The sources of the edges that end at `id`, in edge order.
pub open spec fn sources_of(e: Seq<(Seq<char>, Seq<char>)>, id: Seq<char>) -> Seq<Seq<char>>
    decreases e.len(),
{
    if e.len() == 0 {
        Seq::empty()
    } else if e.last().1 == id {
        sources_of(e.drop_last(), id).push(e.last().0)
    } else {
        sources_of(e.drop_last(), id)
    }
}

/// The text of each string of each layer.
pub open spec fn layer_views(ls: Seq<Vec<String>>) -> Seq<Seq<Seq<char>>> {
    ls.map_values(|l: Vec<String>| views_of(l@))
}

/// A graph of positions that can be split into layers gives ids without a cycle.
proof fn lemma_no_cycle_of_layering(
    ids: Seq<Seq<char>>,
    e: Seq<(Seq<char>, Seq<char>)>,
    l: Seq<(usize, usize)>,
    ls: Seq<Seq<usize>>,
)
    requires
        numbered_edges(ids, e, l),
        is_layering(l, ids.len(), ls),
    ensures
        !contains_cycle(e),
{
    if contains_cycle(e) {
        let p = choose|p: Seq<Seq<char>>| #[trigger] is_cycle_path(e, p);
        let c = lemma_cycle_down(ids, e, l, p);
        lemma_layering_acyclic(l, ids.len(), ls, c);
    }
}

/// A layering of ids has no more layers than there are ids.
proof fn lemma_layers_bound(ids: Seq<Seq<char>>, e: Seq<(Seq<char>, Seq<char>)>, ls: Seq<Seq<Seq<char>>>)
    requires
        ids.no_duplicates(),
        ids.len() <= usize::MAX,
        is_layered(ids, e, ls),
    ensures
        ls.len() <= ids.len(),
{
    // the first entry of each layer is a distinct node id
    let firsts = Seq::new(ls.len(), |j: int| ids.index_of(ls[j][0]));
    assert forall|j: int| 0 <= j < ls.len() implies 0 <= #[trigger] firsts[j] < ids.len() && ids[firsts[j]] == ls[j][0] by {
        assert(ls[j].len() > 0);
        assert(ids.contains(ls[j][0]));
    }
    assert forall|a: int, b: int| 0 <= a < firsts.len() && 0 <= b < firsts.len() && a != b implies firsts[a] != firsts[b] by {
        if firsts[a] == firsts[b] {
            assert(in_layer_of(ls, ls[a][0], a));
            assert(in_layer_of(ls, ls[b][0], b));
            assert(ls[a][0] == ls[b][0]);
        }
    }
    let fu = firsts.map_values(|x: int| x as usize);
    assert forall|a: int, b: int| 0 <= a < fu.len() && 0 <= b < fu.len() && a != b implies fu[a] != fu[b] by {
        assert(firsts[a] != firsts[b]);
        assert(0 <= firsts[a] < ids.len() && 0 <= firsts[b] < ids.len());
    }
    assert forall|i: int| 0 <= i < fu.len() implies fu[i] < ids.len() by {}
    lemma_distinct_below(fu, ids.len());
}

/// The sources of the edges into `id` are starts of edges, so they lie in any set holding
/// every edge's start.
proof fn lemma_sources_in(e: Seq<(Seq<char>, Seq<char>)>, id: Seq<char>, ids: Seq<Seq<char>>)
    requires
        forall|k: int| 0 <= k < e.len() ==> ids.contains(#[trigger] e[k].0) && ids.contains(e[k].1),
    ensures
        forall|i: int| 0 <= i < sources_of(e, id).len() ==> ids.contains(#[trigger] sources_of(e, id)[i]),
    decreases e.len(),
{
    if e.len() > 0 {
        let e0 = e.drop_last();
        assert forall|k: int| 0 <= k < e0.len() implies ids.contains(#[trigger] e0[k].0) && ids.contains(e0[k].1) by {
            assert(e0[k] == e[k]);
        }
        lemma_sources_in(e0, id, ids);
        assert(ids.contains(e[e.len() - 1].0));
        let sp = sources_of(e0, id);
        assert forall|i: int| 0 <= i < sources_of(e, id).len() implies ids.contains(#[trigger] sources_of(e, id)[i]) by {
            if e.last().1 == id {
                assert(sources_of(e, id) == sp.push(e.last().0));
                if i < sp.len() {
                    assert(ids.contains(sp[i]));
                }
            } else {
                assert(sources_of(e, id) == sp);
                assert(ids.contains(sp[i]));
            }
        }
    }
}

/// A layering of the nodes of a well-formed graph has no more layers than nodes.
pub proof fn lemma_layers_bound_of(ids: Seq<Seq<char>>, e: Seq<(Seq<char>, Seq<char>)>, ls: Seq<Seq<Seq<char>>>)
    requires
        ids.no_duplicates(),
        ids.len() <= usize::MAX,
        is_layered(ids, e, ls),
    ensures
        ls.len() <= ids.len(),
{
    lemma_layers_bound(ids, e, ls);
}

/// A topological order has as many entries as there are nodes.
pub proof fn lemma_order_len(ids: Seq<Seq<char>>, e: Seq<(Seq<char>, Seq<char>)>, o: Seq<Seq<char>>)
    requires
        ids.no_duplicates(),
        is_topological_order(ids, e, o),
    ensures
        o.len() == ids.len(),
{
    o.unique_seq_to_set();
    ids.unique_seq_to_set();
    assert(o.to_set() =~= ids.to_set()) by {
        assert forall|x: Seq<char>| o.to_set().contains(x) <==> ids.to_set().contains(x) by {
            assert(o.contains(x) <==> ids.contains(x));
        }
    }
}

/// The nodes a list of references points to.
pub open spec fn deref_all<T>(s: Seq<&DAGNode<T>>) -> Seq<DAGNode<T>> {
    s.map_values(|n: &DAGNode<T>| *n)
}

/// The edges a list of references points to.
pub open spec fn deref_edges(s: Seq<&DAGEdge>) -> Seq<DAGEdge> {
    s.map_values(|e: &DAGEdge| *e)
}

/// Whether an edge ends at `id` (with `into`) or starts at it (without).
pub open spec fn edge_test(id: Seq<char>, into: bool) -> spec_fn(DAGEdge) -> bool {
    |e: DAGEdge| if into { e.to@ == id } else { e.from@ == id }
}

/// Keeping the first `i + 1` entries and filtering is filtering the first `i` and then
/// looking at entry `i`.
pub proof fn lemma_filter_step<A>(s: Seq<A>, i: int, p: spec_fn(A) -> bool)
    requires
        0 <= i < s.len(),
    ensures
        s.take(i + 1).filter(p) == if p(s[i]) {
            s.take(i).filter(p).push(s[i])
        } else {
            s.take(i).filter(p)
        },
{
    assert(s.take(i + 1) =~= s.take(i).push(s[i]));
    s.take(i).lemma_filter_push(s[i], p);
}

/// Merging edges: each edge of `b` in turn joins `a`, unless an edge with the same ends is
/// already there.
pub open spec fn merged_edges(a: Seq<DAGEdge>, b: Seq<DAGEdge>) -> Seq<DAGEdge>
    decreases b.len(),
{
    if b.len() == 0 {
        a
    } else {
        let m = merged_edges(a, b.drop_last());
        if ends_of(m).contains(b.last().ends()) {
            m
        } else {
            m.push(b.last())
        }
    }
}

/// Merging edges that are all present already changes nothing.
pub proof fn lemma_merge_present_edges(a: Seq<DAGEdge>, b: Seq<DAGEdge>)
    requires
        forall|k: int| 0 <= k < b.len() ==> ends_of(a).contains(#[trigger] b[k].ends()),
    ensures
        merged_edges(a, b) == a,
    decreases b.len(),
{
    if b.len() > 0 {
        let b0 = b.drop_last();
        assert forall|k: int| 0 <= k < b0.len() implies ends_of(a).contains(#[trigger] b0[k].ends()) by {
            assert(b0[k] == b[k]);
        }
        lemma_merge_present_edges(a, b0);
        assert(ends_of(a).contains(b[b.len() - 1].ends()));
    }
}

/// Merging a graph with a copy of itself changes nothing: no id is new and every edge is
/// already present.
pub proof fn lemma_merge_copy_changes_nothing(ids: Seq<Seq<char>>, edges: Seq<DAGEdge>)
    ensures
        ids + ids.filter(|x: Seq<char>| !ids.contains(x)) == ids,
        merged_edges(edges, edges) == edges,
{
    let p = |x: Seq<char>| !ids.contains(x);
    assert(ids.filter(p) =~= Seq::<Seq<char>>::empty()) by {
        broadcast use vstd::seq_lib::group_filter_ensures;
        if ids.filter(p).len() > 0 {
            let x = ids.filter(p)[0];
            assert(p(x));
            ids.lemma_filter_contains_rev(p, x);
        }
    }
    assert(ids + ids.filter(p) =~= ids);
    assert forall|k: int| 0 <= k < edges.len() implies ends_of(edges).contains(#[trigger] edges[k].ends()) by {
        assert(ends_of(edges)[k] == edges[k].ends());
    }
    lemma_merge_present_edges(edges, edges);
}

/// `m` is a copy of `n`: the same id, name, dependencies and result, and a clone of its task.
pub open spec fn copy_of<T: Clone>(m: DAGNode<T>, n: DAGNode<T>) -> bool {
    &&& m.id@ == n.id@
    &&& m.name@ == n.name@
    &&& m.dependencies@ == n.dependencies@
    &&& m.result == n.result
    &&& cloned::<T>(n.task, m.task)
}

/// `en` is the plan's copy of node `n`.
pub open spec fn plan_copy_of<T: Clone>(en: ExecutionNode<T>, n: DAGNode<T>) -> bool {
    &&& en.id@ == n.id@
    &&& en.name@ == n.name@
    &&& en.dependencies@ == n.dependencies@
    &&& cloned::<T>(n.task, en.task)
}

/// A directed graph of tasks. Node ids are unique; every edge joins two nodes of the graph.
///
/// Nodes keep the order in which they were first added, edges the order in which they were
/// added; every listing and ordering the graph gives follows these orders where it has a
/// choice.
pub struct DAG<T> {
    nodes: Vec<DAGNode<T>>,
    edges: Vec<DAGEdge>,
    /// For each edge, the positions of its two ends in `nodes`.
    links: Vec<(usize, usize)>,
}

/// Putting in a node with the same id as the one it replaces keeps the ids.
proof fn lemma_update_keeps_ids<T>(ns: Seq<DAGNode<T>>, i: int, n: DAGNode<T>)
    requires
        0 <= i < ns.len(),
    ensures
        n.id@ == ns[i].id@ ==> ids_of(ns.update(i, n)) == ids_of(ns),
{
    if n.id@ == ns[i].id@ {
        assert(ids_of(ns.update(i, n)) =~= ids_of(ns));
    }
}

impl<T> DAG<T> {
    /// The nodes, in the order they were first added.
    pub closed spec fn node_seq(&self) -> Seq<DAGNode<T>> {
        self.nodes@
    }

    /// The edges, in the order they were added.
    pub closed spec fn edge_seq(&self) -> Seq<DAGEdge> {
        self.edges@
    }

    /// The node ids, in order.
    pub open spec fn ids(&self) -> Seq<Seq<char>> {
        ids_of(self.node_seq())
    }

    /// The ends of the edges, in order.
    pub open spec fn ends(&self) -> Seq<(Seq<char>, Seq<char>)> {
        ends_of(self.edge_seq())
    }

    /// The node with id `id` (meaningful when the graph has one).
    pub open spec fn node_of(&self, id: Seq<char>) -> DAGNode<T> {
        self.node_seq()[self.ids().index_of(id)]
    }

    /// The ids of the nodes no edge ends at, in node order.
    pub open spec fn root_ids(&self) -> Seq<Seq<char>> {
        ids_of(self.node_seq().filter(|n: DAGNode<T>| no_edge_into(self.ends(), n.id@)))
    }

    /// The nodes with the given ids, in order.
    pub open spec fn nodes_for(&self, ts: Seq<Seq<char>>) -> Seq<DAGNode<T>> {
        ts.map_values(|t: Seq<char>| self.node_of(t))
    }

    /// The graph is well formed: ids are unique and the recorded positions of the edges'
    /// ends agree with the nodes.
    pub closed spec fn wf(&self) -> bool {
        &&& self.links@.len() == self.edges@.len()
        &&& numbered_edges(self.ids(), self.ends(), self.links@)
    }

    /// For each edge, the positions of its two ends.
    pub closed spec fn link_seq(&self) -> Seq<(usize, usize)> {
        self.links@
    }

    /// In a well-formed graph, the recorded positions number the edges.
    pub proof fn lemma_links(&self)
        requires
            self.wf(),
        ensures
            numbered_edges(self.ids(), self.ends(), self.link_seq()),
    {
    }

    /// The positions of the edges' ends.
    pub(crate) fn link_vec(&self) -> (r: &Vec<(usize, usize)>)
        ensures
            r@ == self.link_seq(),
    {
        &self.links
    }

    /// In a well-formed graph, ids are unique and every edge joins two of its nodes.
    pub proof fn lemma_wf(&self)
        requires
            self.wf(),
        ensures
            self.ids().no_duplicates(),
            forall|k: int| 0 <= k < self.ends().len() ==> self.ids().contains(#[trigger] self.ends()[k].0)
                && self.ids().contains(self.ends()[k].1),
    {
        assert forall|k: int| 0 <= k < self.ends().len() implies self.ids().contains(#[trigger] self.ends()[k].0)
            && self.ids().contains(self.ends()[k].1) by {
            let l = self.links@;
            assert(self.ends()[k] == (self.ids()[l[k].0 as int], self.ids()[l[k].1 as int]));
            assert(l[k].0 < self.ids().len() && l[k].1 < self.ids().len());
        }
    }

    /// The node found for an id of the graph has that id.
    pub proof fn lemma_node_of_id(&self, x: Seq<char>)
        requires
            self.wf(),
            self.ids().contains(x),
        ensures
            self.node_of(x).id@ == x,
    {
        let i = self.ids().index_of(x);
        self.ids().index_of_first(x);
        assert(self.ids()[i] == x);
    }

    /// The sources of the edges into a node are node ids.
    pub proof fn lemma_sources_are_ids(&self, id: Seq<char>)
        requires
            self.wf(),
        ensures
            forall|i: int| 0 <= i < sources_of(self.ends(), id).len() ==> self.ids().contains(
                #[trigger] sources_of(self.ends(), id)[i],
            ),
    {
        self.lemma_wf();
        lemma_sources_in(self.ends(), id, self.ids());
    }

    proof fn lemma_node_of(&self, i: int)
        requires
            self.wf(),
            0 <= i < self.node_seq().len(),
        ensures
            self.ids().index_of(self.ids()[i]) == i,
            self.node_of(self.ids()[i]) == self.node_seq()[i],
    {
        self.ids().index_of_first(self.ids()[i]);
        assert(self.ids().contains(self.ids()[i]));
        let j = self.ids().index_of(self.ids()[i]);
        assert(self.ids()[j] == self.ids()[i]);
    }

    /// Creates an empty graph.
    pub fn new() -> (g: Self)
        ensures
            g.wf(),
            g.node_seq().len() == 0,
            g.edge_seq().len() == 0,
    {
        let g = DAG { nodes: Vec::new(), edges: Vec::new(), links: Vec::new() };
        proof {
            assert(g.ids().no_duplicates());
        }
        g
    }

    /// The position of the node with id `id`, if any.
    fn position(&self, id: &str) -> (r: Option<usize>)
        requires
            self.wf(),
        ensures
            r is None <==> !self.ids().contains(id@),
            r matches Some(i) ==> i < self.node_seq().len() && self.ids()[i as int] == id@
                && self.ids().index_of(id@) == i,
    {
        let k = id.to_owned();
        let mut i: usize = 0;
        while i < self.nodes.len()
            invariant
                i <= self.nodes@.len(),
                k@ == id@,
                self.wf(),
                forall|j: int| 0 <= j < i ==> self.ids()[j] != id@,
            decreases self.nodes@.len() - i,
        {
            if self.nodes[i].id == k {
                proof {
                    self.lemma_node_of(i as int);
                }
                return Some(i);
            }
            i = i + 1;
        }
        proof {
            if self.ids().contains(id@) {
                let j = choose|j: int| 0 <= j < self.ids().len() && self.ids()[j] == id@;
                assert(self.ids()[j] != id@);
            }
        }
        None
    }

    /// Adds a node. A node whose id is already present replaces that node in place; the
    /// edges stay as they are.
    pub fn add_node(&mut self, node: DAGNode<T>)
        requires
            old(self).wf(),
        ensures
            final(self).wf(),
            final(self).edge_seq() == old(self).edge_seq(),
            old(self).ids().contains(node.id@) ==> final(self).node_seq() == old(self).node_seq().update(
                old(self).ids().index_of(node.id@),
                node,
            ),
            !old(self).ids().contains(node.id@) ==> final(self).node_seq() == old(self).node_seq().push(node),
    {
        let ghost old_ids = self.ids();
        let ghost nid = node.id@;
        match self.position(node.id.as_str()) {
            Some(i) => {
                self.nodes.set(i, node);
                proof {
                    assert(self.ids() =~= old_ids);
                    assert(self.ends() == old(self).ends());
                }
            },
            None => {
                self.nodes.push(node);
                let _count = self.nodes.len();
                proof {
                    assert(self.ids() =~= old_ids.push(nid));
                    assert(self.ends() == old(self).ends());
                    assert forall|a: int, b: int| 0 <= a < self.ids().len() && 0 <= b < self.ids().len() && a != b
                        implies self.ids()[a] != self.ids()[b] by {
                        if a == old_ids.len() as int {
                            assert(old_ids.contains(old_ids[b]));
                            assert(self.ids()[a] == nid);
                            assert(self.ids()[b] == old_ids[b]);
                        } else if b == old_ids.len() as int {
                            assert(old_ids.contains(old_ids[a]));
                            assert(self.ids()[b] == nid);
                            assert(self.ids()[a] == old_ids[a]);
                        } else {
                            assert(self.ids()[a] == old_ids[a]);
                            assert(self.ids()[b] == old_ids[b]);
                        }
                    }
                    assert forall|k: int| 0 <= k < self.links@.len() implies #[trigger] self.ends()[k] == (
                        self.ids()[self.links@[k].0 as int],
                        self.ids()[self.links@[k].1 as int],
                    ) by {
                        assert(self.links@[k].0 < old_ids.len());
                        assert(self.links@[k].1 < old_ids.len());
                    }
                }
            },
        }
    }

    /// Adds an edge between two nodes of the graph. Both ends must already be nodes.
    pub fn add_edge(&mut self, edge: DAGEdge)
        requires
            old(self).wf(),
            old(self).ids().contains(edge.from@),
            old(self).ids().contains(edge.to@),
        ensures
            final(self).wf(),
            final(self).node_seq() == old(self).node_seq(),
            final(self).edge_seq() == old(self).edge_seq().push(edge),
    {
        let a = self.position(edge.from.as_str());
        let b = self.position(edge.to.as_str());
        match (a, b) {
            (Some(i), Some(j)) => {
                let ghost old_ends = self.ends();
                let ghost old_links = self.links@;
                let ghost e = edge;
                self.edges.push(edge);
                self.links.push((i, j));
                proof {
                    assert(self.ends() =~= old_ends.push(e.ends()));
                    assert(self.links@ =~= old_links.push((i, j)));
                    assert forall|k: int| 0 <= k < self.links@.len() implies #[trigger] self.ends()[k] == (
                        self.ids()[self.links@[k].0 as int],
                        self.ids()[self.links@[k].1 as int],
                    ) by {
                        if k < old_links.len() {
                            assert(self.ends()[k] == old_ends[k]);
                        }
                    }
                    assert(links_in_range(self.links@, self.ids().len()));
                }
            },
            _ => {},
        }
    }

    /// Adds an edge from `from` to `to`, without a label. Both must already be nodes.
    pub fn add_dependency(&mut self, from: &str, to: &str)
        requires
            old(self).wf(),
            old(self).ids().contains(from@),
            old(self).ids().contains(to@),
        ensures
            final(self).wf(),
            final(self).node_seq() == old(self).node_seq(),
            final(self).edge_seq().len() == old(self).edge_seq().len() + 1,
            final(self).edge_seq().drop_last() == old(self).edge_seq(),
            final(self).edge_seq().last().from@ == from@,
            final(self).edge_seq().last().to@ == to@,
            final(self).edge_seq().last().label is None,
    {
        self.add_edge(DAGEdge::new(from, to));
        proof {
            assert(self.edge_seq().drop_last() =~= old(self).edge_seq());
        }
    }

    /// The node with id `id`.
    pub fn get_node(&self, id: &str) -> (r: Option<&DAGNode<T>>)
        requires
            self.wf(),
        ensures
            r is Some <==> self.ids().contains(id@),
            r matches Some(n) ==> *n == self.node_of(id@),
    {
        match self.position(id) {
            Some(i) => Some(&self.nodes[i]),
            None => None,
        }
    }

    /// The node with id `id`, for changing in place. Whatever is written through the reference
    /// becomes that node; the edges stay as they are, and the graph stays well formed as long as
    /// the node keeps its id.
    pub fn get_node_mut(&mut self, id: &str) -> (r: Option<&mut DAGNode<T>>)
        requires
            old(self).wf(),
        ensures
            r is Some <==> old(self).ids().contains(id@),
            r is None ==> *final(self) == *old(self),
            r matches Some(n) ==> {
                &&& *n == old(self).node_of(id@)
                &&& final(self).node_seq() == old(self).node_seq().update(
                    old(self).ids().index_of(id@),
                    *final(n),
                )
                &&& final(self).edge_seq() == old(self).edge_seq()
                &&& final(self).link_seq() == old(self).link_seq()
                &&& final(n).id@ == id@ ==> final(self).ids() == old(self).ids() && final(self).wf()
            },
    {
        match self.position(id) {
            Some(i) => {
                let ghost before = self.nodes@;
                let n = &mut self.nodes[i];
                proof {
                    lemma_update_keeps_ids(before, i as int, *final(n));
                }
                Some(n)
            },
            None => None,
        }
    }

    /// Whether the graph has a node with id `id`.
    pub fn contains_node(&self, id: &str) -> (b: bool)
        requires
            self.wf(),
        ensures
            b == self.ids().contains(id@),
    {
        self.position(id).is_some()
    }

    /// The node ids, in the order the nodes were first added.
    pub fn node_ids(&self) -> (r: Vec<&String>)
        ensures
            r@.map_values(|s: &String| s@) == self.ids(),
    {
        let mut r: Vec<&String> = Vec::new();
        let mut i: usize = 0;
        while i < self.nodes.len()
            invariant
                i <= self.nodes@.len(),
                r@.map_values(|s: &String| s@) == self.ids().take(i as int),
            decreases self.nodes@.len() - i,
        {
            let ghost before = r@;
            r.push(&self.nodes[i].id);
            proof {
                assert(r@ == before.push(&self.nodes@[i as int].id));
                assert(r@.map_values(|s: &String| s@) =~= before.map_values(|s: &String| s@).push(self.ids()[i as int]));
                assert(r@.map_values(|s: &String| s@) =~= self.ids().take(i + 1));
            }
            i = i + 1;
        }
        proof {
            assert(self.ids().take(i as int) =~= self.ids());
        }
        r
    }

    /// All nodes, in the order they were first added.
    pub fn nodes(&self) -> (r: &[DAGNode<T>])
        ensures
            r@ == self.node_seq(),
    {
        self.nodes.as_slice()
    }

    /// All edges, in the order they were added.
    pub fn edges(&self) -> (r: &[DAGEdge])
        ensures
            r@ == self.edge_seq(),
    {
        self.edges.as_slice()
    }

    /// A copy of the edges, in order.
    pub fn get_edges(&self) -> (r: Vec<DAGEdge>)
        ensures
            r@ == self.edge_seq(),
    {
        let mut r: Vec<DAGEdge> = Vec::new();
        let mut i: usize = 0;
        while i < self.edges.len()
            invariant
                i <= self.edges@.len(),
                r@ == self.edges@.take(i as int),
            decreases self.edges@.len() - i,
        {
            r.push(self.edges[i].clone());
            proof {
                assert(r@ =~= self.edges@.take(i + 1));
            }
            i = i + 1;
        }
        proof {
            assert(self.edges@.take(i as int) =~= self.edges@);
        }
        r
    }

    /// The edges ending at `node_id`, in edge order.
    pub fn incoming_edges(&self, node_id: &str) -> (r: Vec<&DAGEdge>)
        ensures
            deref_edges(r@) == self.edge_seq().filter(edge_test(node_id@, true)),
    {
        self.edges_where(node_id, true)
    }

    /// The edges starting at `node_id`, in edge order.
    pub fn outgoing_edges(&self, node_id: &str) -> (r: Vec<&DAGEdge>)
        ensures
            deref_edges(r@) == self.edge_seq().filter(edge_test(node_id@, false)),
    {
        self.edges_where(node_id, false)
    }

    /// The edges `edge_test(node_id, into)` accepts, in edge order.
    fn edges_where(&self, node_id: &str, into: bool) -> (r: Vec<&DAGEdge>)
        ensures
            deref_edges(r@) == self.edge_seq().filter(edge_test(node_id@, into)),
    {
        let ghost p = edge_test(node_id@, into);
        let wanted = node_id.to_owned();
        let mut r: Vec<&DAGEdge> = Vec::new();
        let mut i: usize = 0;
        while i < self.edges.len()
            invariant
                i <= self.edges@.len(),
                wanted@ == node_id@,
                p == edge_test(node_id@, into),
                deref_edges(r@) == self.edges@.take(i as int).filter(p),
            decreases self.edges@.len() - i,
        {
            let ghost before = r@;
            proof {
                lemma_filter_step(self.edges@, i as int, p);
            }
            let e = &self.edges[i];
            let hit = if into { e.to == wanted } else { e.from == wanted };
            if hit {
                r.push(e);
                proof {
                    assert(deref_edges(r@) =~= deref_edges(before).push(self.edges@[i as int]));
                }
            }
            i = i + 1;
        }
        proof {
            assert(self.edges@.take(i as int) =~= self.edges@);
        }
        r
    }

    /// Whether the graph has no nodes.
    pub fn is_empty(&self) -> (b: bool)
        ensures
            b == (self.node_seq().len() == 0),
    {
        self.nodes.len() == 0
    }

    /// The number of nodes.
    pub fn node_count(&self) -> (n: usize)
        ensures
            n == self.node_seq().len(),
    {
        self.nodes.len()
    }

    /// The number of edges.
    pub fn edge_count(&self) -> (n: usize)
        ensures
            n == self.edge_seq().len(),
    {
        self.edges.len()
    }

    /// Whether some edge ends at `id`.
    pub(crate) fn has_incoming(&self, id: &String) -> (b: bool)
        ensures
            b == !no_edge_into(self.ends(), id@),
    {
        let mut k: usize = 0;
        while k < self.edges.len()
            invariant
                k <= self.edges@.len(),
                forall|j: int| 0 <= j < k ==> (#[trigger] self.ends()[j]).1 != id@,
            decreases self.edges@.len() - k,
        {
            if self.edges[k].to == *id {
                proof {
                    assert(self.ends()[k as int].1 == id@);
                }
                return true;
            }
            k = k + 1;
        }
        false
    }

    /// Whether some edge starts at `id`.
    pub(crate) fn has_outgoing(&self, id: &String) -> (b: bool)
        ensures
            b == !no_edge_out_of(self.ends(), id@),
    {
        let mut k: usize = 0;
        while k < self.edges.len()
            invariant
                k <= self.edges@.len(),
                forall|j: int| 0 <= j < k ==> (#[trigger] self.ends()[j]).0 != id@,
            decreases self.edges@.len() - k,
        {
            if self.edges[k].from == *id {
                proof {
                    assert(self.ends()[k as int].0 == id@);
                }
                return true;
            }
            k = k + 1;
        }
        false
    }

    /// The nodes no edge ends at, in node order.
    pub fn roots(&self) -> (r: Vec<&DAGNode<T>>)
        ensures
            deref_all(r@) == self.node_seq().filter(
                |n: DAGNode<T>| no_edge_into(self.ends(), n.id@),
            ),
    {
        let ghost p = |n: DAGNode<T>| no_edge_into(self.ends(), n.id@);
        let mut r: Vec<&DAGNode<T>> = Vec::new();
        let mut i: usize = 0;
        while i < self.nodes.len()
            invariant
                i <= self.nodes@.len(),
                p == (|n: DAGNode<T>| no_edge_into(self.ends(), n.id@)),
                deref_all(r@) == self.nodes@.take(i as int).filter(p),
            decreases self.nodes@.len() - i,
        {
            let ghost before = r@;
            proof {
                lemma_filter_step(self.nodes@, i as int, p);
            }
            if !self.has_incoming(&self.nodes[i].id) {
                r.push(&self.nodes[i]);
                proof {
                    assert(deref_all(r@) =~= deref_all(before).push(self.nodes@[i as int]));
                }
            }
            i = i + 1;
        }
        proof {
            assert(self.nodes@.take(i as int) =~= self.nodes@);
        }
        r
    }

    /// The nodes no edge starts at, in node order.
    pub fn leaves(&self) -> (r: Vec<&DAGNode<T>>)
        ensures
            deref_all(r@) == self.node_seq().filter(
                |n: DAGNode<T>| no_edge_out_of(self.ends(), n.id@),
            ),
    {
        let ghost p = |n: DAGNode<T>| no_edge_out_of(self.ends(), n.id@);
        let mut r: Vec<&DAGNode<T>> = Vec::new();
        let mut i: usize = 0;
        while i < self.nodes.len()
            invariant
                i <= self.nodes@.len(),
                p == (|n: DAGNode<T>| no_edge_out_of(self.ends(), n.id@)),
                deref_all(r@) == self.nodes@.take(i as int).filter(p),
            decreases self.nodes@.len() - i,
        {
            let ghost before = r@;
            proof {
                lemma_filter_step(self.nodes@, i as int, p);
            }
            if !self.has_outgoing(&self.nodes[i].id) {
                r.push(&self.nodes[i]);
                proof {
                    assert(deref_all(r@) =~= deref_all(before).push(self.nodes@[i as int]));
                }
            }
            i = i + 1;
        }
        proof {
            assert(self.nodes@.take(i as int) =~= self.nodes@);
        }
        r
    }

    /// The ids of the nodes no edge ends at, in node order.
    pub fn root_id_list(&self) -> (r: Vec<String>)
        ensures
            views_of(r@) == self.root_ids(),
    {
        let roots = self.roots();
        let mut root_nodes: Vec<String> = Vec::new();
        let mut i: usize = 0;
        while i < roots.len()
            invariant
                i <= roots@.len(),
                views_of(root_nodes@) == ids_of(deref_all(roots@).take(i as int)),
            decreases roots@.len() - i,
        {
            let ghost before = root_nodes@;
            root_nodes.push(roots[i].id.clone());
            proof {
                assert(deref_all(roots@).take(i + 1) =~= deref_all(roots@).take(i as int).push(*roots@[i as int]));
                assert(views_of(root_nodes@) =~= views_of(before).push(roots@[i as int].id@));
                assert(ids_of(deref_all(roots@).take(i + 1)) =~= ids_of(deref_all(roots@).take(i as int)).push(roots@[i as int].id@));
            }
            i = i + 1;
        }
        proof {
            assert(deref_all(roots@).take(i as int) =~= deref_all(roots@));
        }
        root_nodes
    }

    /// The number of nodes no edge ends at.
    pub fn root_count(&self) -> (n: usize)
        ensures
            n == self.node_seq().filter(|n: DAGNode<T>| no_edge_into(self.ends(), n.id@)).len(),
    {
        let r = self.roots();
        proof {
            assert(deref_all(r@).len() == r@.len());
        }
        r.len()
    }

    /// The number of edges that end at `id`, counting repeated edges.
    pub fn in_degree_of(&self, id: &str) -> (n: usize)
        ensures
            n == in_degree(self.ends(), id@),
    {
        let k_id = id.to_owned();
        let mut n: usize = 0;
        let mut k: usize = 0;
        while k < self.edges.len()
            invariant
                k <= self.edges@.len(),
                k_id@ == id@,
                n == in_degree(self.ends().take(k as int), id@),
                n <= k,
            decreases self.edges@.len() - k,
        {
            proof {
                assert(self.ends().take(k + 1).drop_last() =~= self.ends().take(k as int));
            }
            if self.edges[k].to == k_id {
                n = n + 1;
            }
            k = k + 1;
        }
        proof {
            assert(self.ends().take(k as int) =~= self.ends());
        }
        n
    }

    /// The number of edges that start at `id`, counting repeated edges.
    pub fn out_degree_of(&self, id: &str) -> (n: usize)
        ensures
            n == out_degree(self.ends(), id@),
    {
        let k_id = id.to_owned();
        let mut n: usize = 0;
        let mut k: usize = 0;
        while k < self.edges.len()
            invariant
                k <= self.edges@.len(),
                k_id@ == id@,
                n == out_degree(self.ends().take(k as int), id@),
                n <= k,
            decreases self.edges@.len() - k,
        {
            proof {
                assert(self.ends().take(k + 1).drop_last() =~= self.ends().take(k as int));
            }
            if self.edges[k].from == k_id {
                n = n + 1;
            }
            k = k + 1;
        }
        proof {
            assert(self.ends().take(k as int) =~= self.ends());
        }
        n
    }

    /// Whether some edge ends at `id`.
    pub fn has_dependencies(&self, id: &str) -> (b: bool)
        ensures
            b == (in_degree(self.ends(), id@) > 0),
    {
        self.in_degree_of(id) > 0
    }

    /// The nodes the edges from `id` lead to, one per edge, in edge order.
    pub fn successors(&self, id: &str) -> (r: Vec<&DAGNode<T>>)
        requires
            self.wf(),
        ensures
            deref_all(r@) == self.nodes_for(targets_of(self.ends(), id@)),
    {
        let k_id = id.to_owned();
        let mut r: Vec<&DAGNode<T>> = Vec::new();
        let mut k: usize = 0;
        while k < self.edges.len()
            invariant
                k <= self.edges@.len(),
                k_id@ == id@,
                self.wf(),
                deref_all(r@) == self.nodes_for(targets_of(self.ends().take(k as int), id@)),
            decreases self.edges@.len() - k,
        {
            let ghost before = r@;
            proof {
                assert(self.ends().take(k + 1).drop_last() =~= self.ends().take(k as int));
                assert(self.ends().take(k + 1).last() == self.ends()[k as int]);
            }
            if self.edges[k].from == k_id {
                let j = self.links[k].1;
                r.push(&self.nodes[j]);
                proof {
                    let ts = targets_of(self.ends().take(k as int), id@);
                    assert(self.ends()[k as int].1 == self.ids()[j as int]);
                    self.lemma_node_of(j as int);
                    assert(self.node_of(self.ends()[k as int].1) == self.nodes@[j as int]);
                    assert(r@ == before.push(&self.nodes@[j as int]));
                    assert(deref_all(before) == self.nodes_for(ts));
                    let x = self.ends()[k as int].1;
                    let lhs = deref_all(r@);
                    let rhs = self.nodes_for(ts.push(x));
                    assert(deref_all(before).len() == before.len());
                    assert(self.nodes_for(ts).len() == ts.len());
                    assert(lhs.len() == r@.len());
                    assert(rhs.len() == ts.len() + 1);
                    assert(lhs.len() == rhs.len());
                    assert forall|i: int| 0 <= i < lhs.len() implies lhs[i] == rhs[i] by {
                        if i < before.len() {
                            assert(lhs[i] == deref_all(before)[i]);
                            assert(rhs[i] == self.nodes_for(ts)[i]);
                        } else {
                            assert(lhs[i] == self.nodes@[j as int]);
                            assert(rhs[i] == self.node_of(x));
                        }
                    }
                    assert(lhs =~= rhs);
                }
            }
            k = k + 1;
        }
        proof {
            assert(self.ends().take(k as int) =~= self.ends());
        }
        r
    }

    /// The nodes the edges into `id` come from, one per edge, in edge order.
    pub fn predecessors(&self, id: &str) -> (r: Vec<&DAGNode<T>>)
        requires
            self.wf(),
        ensures
            deref_all(r@) == self.nodes_for(sources_of(self.ends(), id@)),
    {
        let k_id = id.to_owned();
        let mut r: Vec<&DAGNode<T>> = Vec::new();
        let mut k: usize = 0;
        while k < self.edges.len()
            invariant
                k <= self.edges@.len(),
                k_id@ == id@,
                self.wf(),
                deref_all(r@) == self.nodes_for(sources_of(self.ends().take(k as int), id@)),
            decreases self.edges@.len() - k,
        {
            let ghost before = r@;
            proof {
                assert(self.ends().take(k + 1).drop_last() =~= self.ends().take(k as int));
                assert(self.ends().take(k + 1).last() == self.ends()[k as int]);
            }
            if self.edges[k].to == k_id {
                let j = self.links[k].0;
                r.push(&self.nodes[j]);
                proof {
                    let ts = sources_of(self.ends().take(k as int), id@);
                    assert(self.ends()[k as int].0 == self.ids()[j as int]);
                    self.lemma_node_of(j as int);
                    assert(self.node_of(self.ends()[k as int].0) == self.nodes@[j as int]);
                    assert(r@ == before.push(&self.nodes@[j as int]));
                    assert(deref_all(before) == self.nodes_for(ts));
                    let x = self.ends()[k as int].0;
                    let lhs = deref_all(r@);
                    let rhs = self.nodes_for(ts.push(x));
                    assert(deref_all(before).len() == before.len());
                    assert(self.nodes_for(ts).len() == ts.len());
                    assert(lhs.len() == r@.len());
                    assert(rhs.len() == ts.len() + 1);
                    assert(lhs.len() == rhs.len());
                    assert forall|i: int| 0 <= i < lhs.len() implies lhs[i] == rhs[i] by {
                        if i < before.len() {
                            assert(lhs[i] == deref_all(before)[i]);
                            assert(rhs[i] == self.nodes_for(ts)[i]);
                        } else {
                            assert(lhs[i] == self.nodes@[j as int]);
                            assert(rhs[i] == self.node_of(x));
                        }
                    }
                    assert(lhs =~= rhs);
                }
            }
            k = k + 1;
        }
        proof {
            assert(self.ends().take(k as int) =~= self.ends());
        }
        r
    }

    /// The ids of the nodes at the given positions.
    fn ids_at_positions(&self, pos: &Vec<usize>) -> (r: Vec<String>)
        requires
            forall|i: int| 0 <= i < pos@.len() ==> (#[trigger] pos@[i]) < self.node_seq().len(),
        ensures
            views_of(r@) == ids_at(self.ids(), pos@),
    {
        let mut r: Vec<String> = Vec::new();
        let mut i: usize = 0;
        while i < pos.len()
            invariant
                i <= pos@.len(),
                forall|t: int| 0 <= t < pos@.len() ==> (#[trigger] pos@[t]) < self.node_seq().len(),
                views_of(r@) == ids_at(self.ids(), pos@.take(i as int)),
            decreases pos@.len() - i,
        {
            let ghost before = r@;
            let id = self.nodes[pos[i]].id.clone();
            r.push(id);
            proof {
                assert(pos@.take(i + 1) =~= pos@.take(i as int).push(pos@[i as int]));
                assert(views_of(r@) =~= views_of(before).push(self.ids()[pos@[i as int] as int]));
                assert(ids_at(self.ids(), pos@.take(i + 1)) =~= ids_at(self.ids(), pos@.take(i as int)).push(
                    self.ids()[pos@[i as int] as int],
                ));
            }
            i = i + 1;
        }
        proof {
            assert(pos@.take(i as int) =~= pos@);
        }
        r
    }

    /// Whether the edges close a cycle.
    pub fn has_cycle(&self) -> (b: bool)
        requires
            self.wf(),
        ensures
            b == contains_cycle(self.ends()),
    {
        match order_or_cycle(&self.links, self.nodes.len()) {
            Ok(o) => {
                proof {
                    lemma_order_up(self.ids(), self.ends(), self.links@, o@);
                }
                false
            },
            Err(c) => {
                proof {
                    lemma_cycle_up(self.ids(), self.ends(), self.links@, c@);
                }
                true
            },
        }
    }

    /// A cycle, if the edges close one: a walk along edges whose first and last ids agree.
    pub fn find_cycle(&self) -> (r: Option<Vec<String>>)
        requires
            self.wf(),
        ensures
            r is Some <==> contains_cycle(self.ends()),
            r matches Some(c) ==> is_cycle_path(self.ends(), views_of(c@)),
    {
        match order_or_cycle(&self.links, self.nodes.len()) {
            Ok(o) => {
                proof {
                    lemma_order_up(self.ids(), self.ends(), self.links@, o@);
                }
                None
            },
            Err(c) => {
                let ids = self.ids_at_positions(&c);
                proof {
                    lemma_cycle_up(self.ids(), self.ends(), self.links@, c@);
                }
                Some(ids)
            },
        }
    }

    /// The node ids in an order where every edge's source comes before its target; an
    /// error when the edges close a cycle, since then there is no such order.
    ///
    /// Nodes are taken first-in first-out as they become free of pending edges, starting
    /// from the roots in node order.
    pub fn topological_sort(&self) -> (r: Result<Vec<String>, Error>)
        requires
            self.wf(),
        ensures
            r is Ok <==> !contains_cycle(self.ends()),
            r matches Ok(o) ==> is_topological_order(self.ids(), self.ends(), views_of(o@)),
            r matches Err(e) ==> e matches Error::DAGCycle(m)
                && m@ == "Cannot perform topological sort on DAG with cycle"@,
    {
        match order_or_cycle(&self.links, self.nodes.len()) {
            Ok(o) => {
                let r = self.ids_at_positions(&o);
                proof {
                    lemma_order_up(self.ids(), self.ends(), self.links@, o@);
                }
                Ok(r)
            },
            Err(c) => {
                proof {
                    lemma_cycle_up(self.ids(), self.ends(), self.links@, c@);
                }
                Err(Error::dag_cycle("Cannot perform topological sort on DAG with cycle"))
            },
        }
    }

    /// Splits the node ids into layers that can run one after another, the nodes of a layer
    /// in parallel: layer `j` holds the nodes whose longest chain of predecessors has `j`
    /// edges, in node order. An error when the edges close a cycle.
    pub fn compute_layers(&self) -> (r: Result<Vec<Vec<String>>, Error>)
        requires
            self.wf(),
        ensures
            r is Ok <==> !contains_cycle(self.ends()),
            r matches Ok(ls) ==> is_layered(self.ids(), self.ends(), layer_views(ls@)),
            r matches Err(e) ==> e matches Error::DAGCycle(m)
                && m@ == "Cannot compute layers for DAG with cycle"@,
    {
        match layering(&self.links, self.nodes.len()) {
            Ok(ls) => {
                let ghost pls = ls@.map_values(|v: Vec<usize>| v@);
                let mut out: Vec<Vec<String>> = Vec::new();
                let mut j: usize = 0;
                while j < ls.len()
                    invariant
                        j <= ls@.len(),
                        pls == ls@.map_values(|v: Vec<usize>| v@),
                        is_layering(self.links@, self.ids().len(), pls),
                        out@.len() == j,
                        forall|t: int| 0 <= t < j ==> views_of((#[trigger] out@[t])@) == ids_at(self.ids(), pls[t]),
                    decreases ls@.len() - j,
                {
                    proof {
                        assert forall|i: int| 0 <= i < ls@[j as int]@.len() implies (#[trigger] ls@[j as int]@[i]) < self.node_seq().len() by {
                            assert(pls[j as int][i] < self.ids().len());
                        }
                    }
                    let layer = self.ids_at_positions(&ls[j]);
                    out.push(layer);
                    j = j + 1;
                }
                proof {
                    lemma_layers_up(self.ids(), self.ends(), self.links@, pls);
                    assert(layer_views(out@) =~= pls.map_values(|layer: Seq<usize>| ids_at(self.ids(), layer)));
                    lemma_no_cycle_of_layering(self.ids(), self.ends(), self.links@, pls);
                }
                Ok(out)
            },
            Err(c) => {
                proof {
                    lemma_cycle_up(self.ids(), self.ends(), self.links@, c@);
                }
                Err(Error::dag_cycle("Cannot compute layers for DAG with cycle"))
            },
        }
    }

    /// A position order that covers every node and respects the links starts with a node no
    /// edge ends at, so the graph has a root.
    proof fn lemma_root_of_order(&self, o: Seq<usize>)
        requires
            self.wf(),
            o.len() > 0,
            forall|i: int| 0 <= i < o.len() ==> (#[trigger] o[i]) < self.node_seq().len(),
            forall|v: usize| v < self.node_seq().len() ==> o.contains(v),
            respects_links(self.links@, o),
        ensures
            self.node_seq().filter(|n: DAGNode<T>| no_edge_into(self.ends(), n.id@)).len() > 0,
    {
        let p = |n: DAGNode<T>| no_edge_into(self.ends(), n.id@);
        let v = o[0];
        let l = self.links@;
        assert forall|k: int| 0 <= k < self.ends().len() implies (#[trigger] self.ends()[k]).1 != self.ids()[v as int] by {
            if self.ends()[k].1 == self.ids()[v as int] {
                assert(self.ends()[k] == (self.ids()[l[k].0 as int], self.ids()[l[k].1 as int]));
                assert(l[k].1 == v);
                assert(o.contains(l[k].0));
                let i = choose|i: int| 0 <= i < o.len() && o[i] == l[k].0;
                assert(o[i] == l[k].0 && o[0] == l[k].1);
            }
        }
        assert(p(self.node_seq()[v as int]));
        broadcast use vstd::seq_lib::group_filter_ensures;
        assert(self.node_seq().filter(p).contains(self.node_seq()[v as int]));
    }

    /// Checks the graph: it must have nodes, no cycle, edges between its nodes, and a root.
    /// A cycle is reported with the ids along it.
    pub fn validate(&self) -> (r: Result<(), Error>)
        requires
            self.wf(),
        ensures
            self.node_seq().len() == 0 ==> (r matches Err(Error::DAGValidation(m)) && m@
                == "DAG has no nodes"@),
            self.node_seq().len() > 0 && contains_cycle(self.ends()) ==> (r matches Err(
                Error::DAGCycle(m),
            ) && exists|c: Seq<Seq<char>>|
                is_cycle_path(self.ends(), c) && m@ == "DAG contains cycle: Some("@ + debug_list(c) + ")"@),
            self.node_seq().len() > 0 && !contains_cycle(self.ends()) ==> r is Ok,
    {
        if self.nodes.len() == 0 {
            return Err(Error::dag_validation("DAG has no nodes"));
        }
        let checked = order_or_cycle(&self.links, self.nodes.len());
        match checked {
            Err(c) => {
                proof {
                    lemma_cycle_up(self.ids(), self.ends(), self.links@, c@);
                }
                match self.find_cycle() {
                    Some(cycle) => {
                        let mut m = "DAG contains cycle: Some(".to_owned();
                        let listed = debug_list_text(&cycle);
                        m.append(listed.as_str());
                        m.append(")");
                        return Err(Error::DAGCycle(m));
                    },
                    None => {
                        return Err(Error::dag_cycle("DAG contains cycle: None"));
                    },
                }
            },
            Ok(o) => {
                proof {
                    lemma_order_up(self.ids(), self.ends(), self.links@, o@);
                    self.lemma_wf();
                }
                let mut k: usize = 0;
                while k < self.edges.len()
                    invariant
                        k <= self.edges@.len(),
                        self.wf(),
                        forall|j: int| 0 <= j < self.ends().len() ==> self.ids().contains(#[trigger] self.ends()[j].0)
                            && self.ids().contains(self.ends()[j].1),
                    decreases self.edges@.len() - k,
                {
                    proof {
                        assert(self.ends()[k as int] == self.edges@[k as int].ends());
                    }
                    if !self.contains_node(self.edges[k].from.as_str()) {
                        let mut m = "Source node not found: ".to_owned();
                        m.append(self.edges[k].from.as_str());
                        return Err(Error::DAGValidation(m));
                    }
                    if !self.contains_node(self.edges[k].to.as_str()) {
                        let mut m = "Target node not found: ".to_owned();
                        m.append(self.edges[k].to.as_str());
                        return Err(Error::DAGValidation(m));
                    }
                    k = k + 1;
                }
                proof {
                    self.lemma_root_of_order(o@);
                }
                if self.root_count() == 0 {
                    return Err(Error::dag_validation("DAG has no root nodes"));
                }
                Ok(())
            },
        }
    }

    /// Whether an edge with the same ends as `e` is present.
    fn contains_edge(&self, e: &DAGEdge) -> (b: bool)
        ensures
            b == self.ends().contains(e.ends()),
    {
        let mut k: usize = 0;
        while k < self.edges.len()
            invariant
                k <= self.edges@.len(),
                forall|j: int| 0 <= j < k ==> (#[trigger] self.ends()[j]) != e.ends(),
            decreases self.edges@.len() - k,
        {
            if self.edges[k].same_ends(e) {
                proof {
                    assert(self.ends()[k as int] == e.ends());
                }
                return true;
            }
            k = k + 1;
        }
        false
    }
}

impl<T: Clone> DAG<T> {
    /// Adds the nodes and edges of `other`: each node whose id is new, in `other`'s order,
    /// then each edge of `other` in order unless an edge with the same ends is present.
    pub fn merge(&mut self, other: &DAG<T>)
        requires
            old(self).wf(),
            other.wf(),
        ensures
            final(self).wf(),
            final(self).ids() == old(self).ids() + other.ids().filter(
                |x: Seq<char>| !old(self).ids().contains(x),
            ),
            final(self).node_seq().take(old(self).node_seq().len() as int) == old(self).node_seq(),
            forall|j: int| old(self).node_seq().len() <= j < final(self).node_seq().len() ==> copy_of(
                #[trigger] final(self).node_seq()[j],
                other.node_of(final(self).ids()[j]),
            ),
            final(self).edge_seq() == merged_edges(old(self).edge_seq(), other.edge_seq()),
    {
        let ghost old_ids = self.ids();
        let ghost old_nodes = self.node_seq();
        let ghost p = |x: Seq<char>| !old_ids.contains(x);
        proof {
            other.lemma_wf();
        }
        let mut i: usize = 0;
        while i < other.nodes.len()
            invariant
                i <= other.nodes@.len(),
                self.wf(),
                other.wf(),
                other.ids().no_duplicates(),
                p == (|x: Seq<char>| !old_ids.contains(x)),
                self.ids() == old_ids + other.ids().take(i as int).filter(p),
                self.node_seq().len() >= old_nodes.len(),
                self.node_seq().take(old_nodes.len() as int) == old_nodes,
                self.edge_seq() == old(self).edge_seq(),
                forall|j: int| old_nodes.len() <= j < self.node_seq().len() ==> copy_of(
                    #[trigger] self.node_seq()[j],
                    other.node_of(self.ids()[j]),
                ),
            decreases other.nodes@.len() - i,
        {
            let ghost x = other.ids()[i as int];
            proof {
                lemma_filter_step(other.ids(), i as int, p);
                other.lemma_node_of(i as int);
                // `x` is not among the ids of `other` taken so far
                assert(!other.ids().take(i as int).filter(p).contains(x)) by {
                    if other.ids().take(i as int).filter(p).contains(x) {
                        other.ids().take(i as int).lemma_filter_contains_rev(p, x);
                        let t = choose|t: int| 0 <= t < i && other.ids().take(i as int)[t] == x;
                        assert(other.ids()[t] == other.ids()[i as int]);
                    }
                }
                assert(self.ids().contains(x) <==> old_ids.contains(x)) by {
                    if self.ids().contains(x) {
                        let t = choose|t: int| 0 <= t < self.ids().len() && self.ids()[t] == x;
                        if t >= old_ids.len() {
                            assert(other.ids().take(i as int).filter(p)[t - old_ids.len()] == x);
                        }
                    }
                    if old_ids.contains(x) {
                        let t = choose|t: int| 0 <= t < old_ids.len() && old_ids[t] == x;
                        assert(self.ids()[t] == x);
                    }
                }
            }
            if !self.contains_node(other.nodes[i].id.as_str()) {
                let ghost before = self.node_seq();
                let n = other.nodes[i].clone();
                self.add_node(n);
                proof {
                    assert(self.ids() =~= old_ids + other.ids().take(i + 1).filter(p));
                    assert(self.node_seq().take(old_nodes.len() as int) =~= before.take(old_nodes.len() as int));
                    assert forall|j: int| old_nodes.len() <= j < self.node_seq().len() implies copy_of(
                        #[trigger] self.node_seq()[j],
                        other.node_of(self.ids()[j]),
                    ) by {
                        if j < before.len() {
                            assert(self.node_seq()[j] == before[j]);
                        } else {
                            assert(self.ids()[j] == x);
                        }
                    }
                }
            } else {
                proof {
                    assert(self.ids() =~= old_ids + other.ids().take(i + 1).filter(p));
                }
            }
            i = i + 1;
        }
        proof {
            assert(other.ids().take(i as int) =~= other.ids());
            // every id of `other` is now a node id
            assert forall|x: Seq<char>| other.ids().contains(x) implies self.ids().contains(x) by {
                if old_ids.contains(x) {
                    let t = choose|t: int| 0 <= t < old_ids.len() && old_ids[t] == x;
                    assert(self.ids()[t] == x);
                } else {
                    broadcast use vstd::seq_lib::group_filter_ensures;
                    let t = choose|t: int| 0 <= t < other.ids().len() && other.ids()[t] == x;
                    assert(other.ids().filter(p).contains(x));
                    let u = choose|u: int| 0 <= u < other.ids().filter(p).len() && other.ids().filter(p)[u] == x;
                    assert(self.ids()[old_ids.len() + u] == x);
                }
            }
        }
        let ghost mid_nodes = self.node_seq();
        let ghost mid_ids = self.ids();
        let mut k: usize = 0;
        while k < other.edges.len()
            invariant
                k <= other.edges@.len(),
                self.wf(),
                other.wf(),
                self.node_seq() == mid_nodes,
                mid_ids == self.ids(),
                forall|x: Seq<char>| other.ids().contains(x) ==> mid_ids.contains(x),
                forall|j: int| 0 <= j < other.ends().len() ==> other.ids().contains(#[trigger] other.ends()[j].0)
                    && other.ids().contains(other.ends()[j].1),
                self.edge_seq() == merged_edges(old(self).edge_seq(), other.edge_seq().take(k as int)),
            decreases other.edges@.len() - k,
        {
            proof {
                assert(other.edge_seq().take(k + 1).drop_last() =~= other.edge_seq().take(k as int));
                assert(other.edge_seq().take(k + 1).last() == other.edge_seq()[k as int]);
                assert(other.ends()[k as int] == other.edge_seq()[k as int].ends());
            }
            if !self.contains_edge(&other.edges[k]) {
                let e = other.edges[k].clone();
                self.add_edge(e);
            }
            k = k + 1;
        }
        proof {
            assert(other.edge_seq().take(k as int) =~= other.edge_seq());
        }
    }

    /// Validates the graph and plans its execution: nodes and ids in topological order,
    /// roots, layers, and an estimate of one second per layer.
    pub fn build_execution_plan(&self) -> (r: Result<ExecutionPlan<T>, Error>)
        requires
            self.wf(),
            self.node_seq().len() * 1000 <= u64::MAX,
        ensures
            r is Ok <==> (self.node_seq().len() > 0 && !contains_cycle(self.ends())),
            self.node_seq().len() == 0 ==> (r matches Err(Error::DAGValidation(m)) && m@
                == "DAG has no nodes"@),
            self.node_seq().len() > 0 && contains_cycle(self.ends()) ==> (r matches Err(
                Error::DAGCycle(m),
            ) && exists|c: Seq<Seq<char>>|
                is_cycle_path(self.ends(), c) && m@ == "DAG contains cycle: Some("@ + debug_list(c) + ")"@),
            r matches Ok(p) ==> {
                &&& is_topological_order(self.ids(), self.ends(), views_of(p.execution_order@))
                &&& is_layered(self.ids(), self.ends(), layer_views(p.layers@))
                &&& views_of(p.root_nodes@) == self.root_ids()
                &&& p.nodes@.len() == p.execution_order@.len()
                &&& forall|i: int| 0 <= i < p.nodes@.len() ==> plan_copy_of(
                    #[trigger] p.nodes@[i],
                    self.node_of(p.execution_order@[i]@),
                )
                &&& p.estimated_duration_ms == Some((p.layers@.len() * 1000) as u64)
                &&& p.dag is None
            },
    {
        self.validate()?;
        let order = self.topological_sort()?;
        let layers = self.compute_layers()?;
        let layers_count = layers.len();
        proof {
            let ls = layer_views(layers@);
            // every layer is non-empty and holds distinct nodes, so there are no more layers than nodes
            lemma_layers_bound(self.ids(), self.ends(), ls);
        }
        let root_nodes = self.root_id_list();
        let mut nodes: Vec<ExecutionNode<T>> = Vec::new();
        let mut j: usize = 0;
        while j < order.len()
            invariant
                j <= order@.len(),
                self.wf(),
                is_topological_order(self.ids(), self.ends(), views_of(order@)),
                nodes@.len() == j,
                forall|t: int| 0 <= t < j ==> plan_copy_of(#[trigger] nodes@[t], self.node_of(order@[t]@)),
            decreases order@.len() - j,
        {
            proof {
                assert(views_of(order@).contains(order@[j as int]@) ) by {
                    assert(views_of(order@)[j as int] == order@[j as int]@);
                }
            }
            match self.get_node(order[j].as_str()) {
                Some(n) => {
                    let en = execution_node_of(n.id.clone(), n.name.clone(), &n.dependencies, n.task.clone());
                    nodes.push(en);
                },
                None => {
                    proof {
                        assert(false);
                    }
                },
            }
            j = j + 1;
        }
        let estimate = layers_count as u64 * 1000;
        Ok(ExecutionPlan {
            nodes,
            root_nodes,
            execution_order: order,
            layers,
            estimated_duration_ms: Some(estimate),
            dag: None,
        })
    }
}

impl<T: Clone> Clone for DAG<T> {
    /// A copy of the graph: the same ids, names, dependencies and edges, with each task cloned.
    fn clone(&self) -> (g: Self)
        ensures
            self.wf() ==> g.wf(),
            g.ids() == self.ids(),
            g.edge_seq() == self.edge_seq(),
            g.node_seq().len() == self.node_seq().len(),
            forall|i: int| 0 <= i < g.node_seq().len() ==> copy_of(#[trigger] g.node_seq()[i], self.node_seq()[i]),
    {
        let mut nodes: Vec<DAGNode<T>> = Vec::new();
        let mut i: usize = 0;
        while i < self.nodes.len()
            invariant
                i <= self.nodes@.len(),
                nodes@.len() == i,
                forall|t: int| 0 <= t < i ==> copy_of(#[trigger] nodes@[t], self.nodes@[t]),
            decreases self.nodes@.len() - i,
        {
            nodes.push(self.nodes[i].clone());
            i = i + 1;
        }
        let mut edges: Vec<DAGEdge> = Vec::new();
        let mut links: Vec<(usize, usize)> = Vec::new();
        let mut k: usize = 0;
        while k < self.edges.len()
            invariant
                k <= self.edges@.len(),
                self.links@.len() == self.edges@.len() ==> k <= self.links@.len(),
                edges@ == self.edges@.take(k as int),
                self.links@.len() == self.edges@.len() ==> links@ == self.links@.take(k as int),
            decreases self.edges@.len() - k,
        {
            edges.push(self.edges[k].clone());
            if k < self.links.len() {
                links.push(self.links[k]);
            }
            proof {
                assert(self.edges@.take(k + 1) =~= self.edges@.take(k as int).push(self.edges@[k as int]));
                if self.links@.len() == self.edges@.len() {
                    assert(self.links@.take(k + 1) =~= self.links@.take(k as int).push(self.links@[k as int]));
                }
            }
            k = k + 1;
        }
        let g = DAG { nodes, edges, links };
        proof {
            assert(self.edges@.take(k as int) =~= self.edges@);
            assert(g.ids() =~= self.ids()) by {
                assert forall|t: int| 0 <= t < g.ids().len() implies g.ids()[t] == self.ids()[t] by {
                    assert(copy_of(g.nodes@[t], self.nodes@[t]));
                }
            }
            if self.wf() {
                assert(self.links@.take(k as int) =~= self.links@);
                assert(g.ends() == self.ends());
            }
        }
        g
    }
}

} // verus!
