//! The decisions of a DAG run: which nodes may start, in which batches, and which nodes a
//! finished node releases. The caller runs the tasks and reports each finished node back.
//!
//! A run starts with the roots waiting. Each step hands out the first waiting nodes, at most
//! the batch limit of them. Recording a finished node lowers the pending count of every node
//! it has edges to; a node whose count reaches zero starts waiting.

use vstd::prelude::*;
use super::dag_impl::{ids_of, lemma_filter_step, no_edge_into, DAG};
use super::node::DAGNode;
use super::props::lemma_cycle_up;
use super::graph::{
    has_link, initial_counts, lemma_open_in_mark, lemma_open_in_pos, lemma_open_in_zero, lemma_pair_count_mono,
    links_in_range, open_in, order_or_cycle, pair_count, respects_links,
};
use super::props::{contains_cycle, ids_at, is_cycle_path, numbered_edges};
use crate::error::Error;
use crate::text::{debug_list, views_of};

verus! {

/// Among the first `k` edges, the number that end at `v` and start at a node outside `done`.
pub open spec fn pending(e: Seq<(Seq<char>, Seq<char>)>, done: Set<Seq<char>>, v: Seq<char>, k: int) -> nat
    decreases k,
{
    if k <= 0 {
        0
    } else {
        pending(e, done, v, k - 1) + if e[k - 1].1 == v && !done.contains(e[k - 1].0) {
            1nat
        } else {
            0nat
        }
    }
}

/// Among the first `k` edges, the number that go from `u` to `v`.
pub open spec fn between(e: Seq<(Seq<char>, Seq<char>)>, u: Seq<char>, v: Seq<char>, k: int) -> nat
    decreases k,
{
    if k <= 0 {
        0
    } else {
        between(e, u, v, k - 1) + if e[k - 1] == (u, v) {
            1nat
        } else {
            0nat
        }
    }
}

/// The nodes that finishing `u` releases, looking at the first `k` edges: a node is released
/// at the edge from `u` that takes its pending count (with `done` finished) to zero.
pub open spec fn released_by(e: Seq<(Seq<char>, Seq<char>)>, done: Set<Seq<char>>, u: Seq<char>, k: int) -> Seq<Seq<char>>
    decreases k,
{
    if k <= 0 {
        Seq::empty()
    } else {
        let prev = released_by(e, done, u, k - 1);
        let x = e[k - 1];
        if x.0 == u && between(e, u, x.1, k) == pending(e, done, x.1, e.len() as int) {
            prev.push(x.1)
        } else {
            prev
        }
    }
}

/// The first `n` entries of `s`, or all of them when there are fewer.
pub open spec fn first_n<A>(s: Seq<A>, n: nat) -> Seq<A> {
    if s.len() <= n {
        s
    } else {
        s.take(n as int)
    }
}

/// What a step of a run decided.
pub enum SchedulerStep {
    /// No node is waiting: the run is over.
    Finished,
    /// The run was cancelled while nodes were still waiting.
    Cancelled,
    /// These nodes may start now.
    Run(Vec<String>),
}

/// The ids at the positions marked in `marks`.
pub open spec fn marked_ids(ids: Seq<Seq<char>>, marks: Seq<bool>) -> Set<Seq<char>> {
    Set::new(|x: Seq<char>| exists|w: int| 0 <= w < ids.len() && marks[w] && ids[w] == x)
}

/// The bookkeeping of one run of a DAG.
pub struct Scheduler {
    ids: Vec<String>,
    links: Vec<(usize, usize)>,
    /// Per node, its edges from nodes not yet recorded.
    remaining: Vec<usize>,
    /// Every node that has started waiting, in order; those before `head` were handed out.
    queue: Vec<usize>,
    head: usize,
    dispatched: Vec<bool>,
    recorded: Vec<bool>,
    completed: usize,
    max_parallelism: usize,
    /// An order of all nodes in which every edge goes forward.
    order: Ghost<Seq<usize>>,
}

impl Scheduler {
    /// The node ids, in the DAG's node order.
    pub closed spec fn ids(&self) -> Seq<Seq<char>> {
        views_of(self.ids@)
    }

    /// The ends of the DAG's edges, in order.
    pub closed spec fn ends(&self) -> Seq<(Seq<char>, Seq<char>)> {
        self.links@.map_values(|p: (usize, usize)| (self.ids()[p.0 as int], self.ids()[p.1 as int]))
    }

    /// The nodes waiting to start, in the order they will be handed out.
    pub closed spec fn waiting(&self) -> Seq<Seq<char>> {
        ids_at(self.ids(), self.queue@.skip(self.head as int))
    }

    /// The nodes handed out so far.
    pub closed spec fn dispatched(&self) -> Set<Seq<char>> {
        marked_ids(self.ids(), self.dispatched@)
    }

    /// The nodes reported finished so far.
    pub closed spec fn recorded(&self) -> Set<Seq<char>> {
        marked_ids(self.ids(), self.recorded@)
    }

    /// The largest number of nodes handed out at once.
    pub closed spec fn batch_limit(&self) -> nat {
        self.max_parallelism as nat
    }

    /// The bookkeeping is consistent.
    pub closed spec fn wf(&self) -> bool {
        let n = self.ids@.len();
        let l = self.links@;
        let m = l.len();
        &&& self.ids().no_duplicates()
        &&& n <= usize::MAX
        &&& links_in_range(l, n)
        &&& self.remaining@.len() == n
        &&& self.dispatched@.len() == n
        &&& self.recorded@.len() == n
        &&& self.max_parallelism > 0
        &&& forall|v: int| 0 <= v < n ==> #[trigger] self.remaining@[v] == open_in(l, self.recorded@, v as usize, m as int)
        &&& self.queue@.no_duplicates()
        &&& forall|i: int| 0 <= i < self.queue@.len() ==> (#[trigger] self.queue@[i]) < n
        &&& self.head <= self.queue@.len()
        &&& forall|v: int| 0 <= v < n ==> (self.remaining@[v] == 0 <==> self.queue@.contains(v as usize))
        &&& forall|v: int| 0 <= v < n ==> (self.dispatched@[v] <==> self.queue@.take(self.head as int).contains(v as usize))
        &&& forall|v: int| 0 <= v < n && #[trigger] self.recorded@[v] ==> self.dispatched@[v]
        &&& self.completed as nat == count_marked(self.recorded@)
        &&& self.order@.no_duplicates()
        &&& self.order@.len() == n
        &&& forall|i: int| 0 <= i < self.order@.len() ==> (#[trigger] self.order@[i]) < n
        &&& forall|v: usize| v < n ==> self.order@.contains(v)
        &&& respects_links(l, self.order@)
    }
}

/// The number of marks set.
pub open spec fn count_marked(s: Seq<bool>) -> nat
    decreases s.len(),
{
    if s.len() == 0 {
        0
    } else {
        count_marked(s.drop_last()) + if s.last() { 1nat } else { 0nat }
    }
}

/// The nodes `u` releases, by position: as [`released_by`], with `cnt0` the pending counts
/// before `u` finished.
pub open spec fn released_at(l: Seq<(usize, usize)>, u: usize, cnt0: Seq<usize>, k: int) -> Seq<usize>
    decreases k,
{
    if k <= 0 {
        Seq::empty()
    } else {
        let prev = released_at(l, u, cnt0, k - 1);
        let x = l[k - 1];
        if x.0 == u && pair_count(l, u, x.1, k) == cnt0[x.1 as int] {
            prev.push(x.1)
        } else {
            prev
        }
    }
}

/// Counting pending edges by position agrees with counting them by id.
proof fn lemma_pending_bridge(
    ids: Seq<Seq<char>>,
    e: Seq<(Seq<char>, Seq<char>)>,
    l: Seq<(usize, usize)>,
    done: Seq<bool>,
    v: usize,
    k: int,
)
    requires
        numbered_edges(ids, e, l),
        done.len() == ids.len(),
        v < ids.len(),
        0 <= k <= l.len(),
    ensures
        open_in(l, done, v, k) == pending(e, marked_ids(ids, done), ids[v as int], k),
    decreases k,
{
    if k > 0 {
        lemma_pending_bridge(ids, e, l, done, v, k - 1);
        let x = l[k - 1];
        assert(e[k - 1] == (ids[x.0 as int], ids[x.1 as int]));
        assert(x.0 < ids.len() && x.1 < ids.len());
        assert((x.1 == v) <==> (ids[x.1 as int] == ids[v as int]));
        assert(done[x.0 as int] <==> marked_ids(ids, done).contains(ids[x.0 as int])) by {
            if marked_ids(ids, done).contains(ids[x.0 as int]) {
                let w = choose|w: int| 0 <= w < ids.len() && done[w] && ids[w] == ids[x.0 as int];
                assert(w == x.0);
            }
        }
    }
}

/// Counting edges between two nodes by position agrees with counting them by id.
proof fn lemma_between_bridge(
    ids: Seq<Seq<char>>,
    e: Seq<(Seq<char>, Seq<char>)>,
    l: Seq<(usize, usize)>,
    a: usize,
    b: usize,
    k: int,
)
    requires
        numbered_edges(ids, e, l),
        a < ids.len(),
        b < ids.len(),
        0 <= k <= l.len(),
    ensures
        pair_count(l, a, b, k) == between(e, ids[a as int], ids[b as int], k),
    decreases k,
{
    if k > 0 {
        lemma_between_bridge(ids, e, l, a, b, k - 1);
        let x = l[k - 1];
        assert(e[k - 1] == (ids[x.0 as int], ids[x.1 as int]));
        assert(x.0 < ids.len() && x.1 < ids.len());
        assert((x == (a, b)) <==> (e[k - 1] == (ids[a as int], ids[b as int])));
    }
}

/// The nodes released by position are the nodes released by id.
proof fn lemma_released_bridge(
    ids: Seq<Seq<char>>,
    e: Seq<(Seq<char>, Seq<char>)>,
    l: Seq<(usize, usize)>,
    done: Seq<bool>,
    cnt0: Seq<usize>,
    u: usize,
    k: int,
)
    requires
        numbered_edges(ids, e, l),
        done.len() == ids.len(),
        cnt0.len() == ids.len(),
        forall|w: int| 0 <= w < ids.len() ==> #[trigger] cnt0[w] == open_in(l, done, w as usize, l.len() as int),
        u < ids.len(),
        0 <= k <= l.len(),
    ensures
        ids_at(ids, released_at(l, u, cnt0, k)) == released_by(e, marked_ids(ids, done), ids[u as int], k),
    decreases k,
{
    if k > 0 {
        lemma_released_bridge(ids, e, l, done, cnt0, u, k - 1);
        let x = l[k - 1];
        assert(e[k - 1] == (ids[x.0 as int], ids[x.1 as int]));
        assert(x.0 < ids.len() && x.1 < ids.len());
        assert((x.0 == u) <==> (ids[x.0 as int] == ids[u as int]));
        if x.0 == u {
            lemma_between_bridge(ids, e, l, u, x.1, k);
            lemma_pending_bridge(ids, e, l, done, x.1, l.len() as int);
            assert(cnt0[x.1 as int] == open_in(l, done, x.1, l.len() as int));
        }
        let prev = released_at(l, u, cnt0, k - 1);
        assert(ids_at(ids, prev.push(x.1)) =~= ids_at(ids, prev).push(ids[x.1 as int]));
    }
}

/// A set of positions marked true, taken as ids, has as many ids as marks.
proof fn lemma_marked_len(ids: Seq<Seq<char>>, marks: Seq<bool>)
    requires
        ids.no_duplicates(),
        ids.len() == marks.len(),
    ensures
        marked_ids(ids, marks).finite(),
        marked_ids(ids, marks).len() == count_marked(marks),
    decreases marks.len(),
{
    if marks.len() == 0 {
        assert(marked_ids(ids, marks) =~= Set::empty());
    } else {
        let ids0 = ids.drop_last();
        let marks0 = marks.drop_last();
        lemma_marked_len(ids0, marks0);
        let last = ids.last();
        assert(!marked_ids(ids0, marks0).contains(last)) by {
            if marked_ids(ids0, marks0).contains(last) {
                let w = choose|w: int| 0 <= w < ids0.len() && marks0[w] && ids0[w] == last;
                assert(ids[w] == ids[ids.len() - 1]);
            }
        }
        if marks.last() {
            assert(marked_ids(ids, marks) =~= marked_ids(ids0, marks0).insert(last)) by {
                assert forall|x: Seq<char>| marked_ids(ids, marks).contains(x) implies marked_ids(ids0, marks0).insert(last).contains(x) by {
                    let w = choose|w: int| 0 <= w < ids.len() && marks[w] && ids[w] == x;
                    if w < ids0.len() {
                        assert(marks0[w] && ids0[w] == x);
                    }
                }
                assert forall|x: Seq<char>| marked_ids(ids0, marks0).insert(last).contains(x) implies marked_ids(ids, marks).contains(x) by {
                    if x == last {
                        assert(marks[ids.len() - 1] && ids[ids.len() - 1] == x);
                    } else {
                        let w = choose|w: int| 0 <= w < ids0.len() && marks0[w] && ids0[w] == x;
                        assert(marks[w] && ids[w] == x);
                    }
                }
            }
        } else {
            assert(marked_ids(ids, marks) =~= marked_ids(ids0, marks0)) by {
                assert forall|x: Seq<char>| marked_ids(ids, marks).contains(x) implies marked_ids(ids0, marks0).contains(x) by {
                    let w = choose|w: int| 0 <= w < ids.len() && marks[w] && ids[w] == x;
                    assert(w < ids0.len());
                    assert(marks0[w] && ids0[w] == x);
                }
                assert forall|x: Seq<char>| marked_ids(ids0, marks0).contains(x) implies marked_ids(ids, marks).contains(x) by {
                    let w = choose|w: int| 0 <= w < ids0.len() && marks0[w] && ids0[w] == x;
                    assert(marks[w] && ids[w] == x);
                }
            }
        }
    }
}

/// Setting one more mark adds one to the count.
proof fn lemma_count_marked_set(marks: Seq<bool>, u: int)
    requires
        0 <= u < marks.len(),
        !marks[u],
    ensures
        count_marked(marks.update(u, true)) == count_marked(marks) + 1,
        count_marked(marks) < marks.len(),
    decreases marks.len(),
{
    let m2 = marks.update(u, true);
    if u == marks.len() - 1 {
        assert(m2.drop_last() =~= marks.drop_last());
        lemma_count_marked_bound(marks.drop_last());
    } else {
        assert(m2.drop_last() =~= marks.drop_last().update(u, true));
        lemma_count_marked_set(marks.drop_last(), u);
    }
}

proof fn lemma_count_marked_bound(marks: Seq<bool>)
    ensures
        count_marked(marks) <= marks.len(),
    decreases marks.len(),
{
    if marks.len() > 0 {
        lemma_count_marked_bound(marks.drop_last());
    }
}

/// Position `v`'s id is in the marked set exactly when `v` is marked.
proof fn lemma_marked_at(ids: Seq<Seq<char>>, marks: Seq<bool>, v: int)
    requires
        ids.no_duplicates(),
        ids.len() == marks.len(),
        0 <= v < ids.len(),
    ensures
        marked_ids(ids, marks).contains(ids[v]) <==> marks[v],
{
    if marked_ids(ids, marks).contains(ids[v]) {
        let w = choose|w: int| 0 <= w < ids.len() && marks[w] && ids[w] == ids[v];
        assert(w == v);
    }
}

/// With nothing finished, a node has no pending edge exactly when no edge ends at it.
proof fn lemma_pending_none(e: Seq<(Seq<char>, Seq<char>)>, x: Seq<char>, k: int)
    requires
        0 <= k <= e.len(),
    ensures
        (pending(e, Set::empty(), x, k) == 0) <==> forall|j: int| 0 <= j < k ==> (#[trigger] e[j]).1 != x,
    decreases k,
{
    if k > 0 {
        lemma_pending_none(e, x, k - 1);
    }
}

proof fn lemma_count_marked_none(n: nat)
    ensures
        count_marked(Seq::new(n, |i: int| false)) == 0,
    decreases n,
{
    if n > 0 {
        assert(Seq::new(n, |i: int| false).drop_last() =~= Seq::new((n - 1) as nat, |i: int| false));
        lemma_count_marked_none((n - 1) as nat);
    }
}

impl Scheduler {
    proof fn lemma_numbered(&self)
        requires
            self.wf(),
        ensures
            numbered_edges(self.ids(), self.ends(), self.links@),
    {
        assert forall|k: int| 0 <= k < self.links@.len() implies #[trigger] self.ends()[k] == (
            self.ids()[self.links@[k].0 as int],
            self.ids()[self.links@[k].1 as int],
        ) by {}
    }

    /// Starts a run of `dag`, handing out at most `max_parallelism` nodes at a time. The
    /// graph is validated first; its roots start waiting, in node order.
    pub fn new<T>(dag: &DAG<T>, max_parallelism: usize) -> (r: Result<Scheduler, Error>)
        requires
            dag.wf(),
            max_parallelism > 0,
        ensures
            r is Ok <==> (dag.node_seq().len() > 0 && !contains_cycle(dag.ends())),
            dag.node_seq().len() == 0 ==> (r matches Err(Error::DAGValidation(m)) && m@
                == "DAG has no nodes"@),
            dag.node_seq().len() > 0 && contains_cycle(dag.ends()) ==> (r matches Err(
                Error::DAGCycle(m),
            ) && exists|c: Seq<Seq<char>>|
                is_cycle_path(dag.ends(), c) && m@ == "DAG contains cycle: Some("@ + debug_list(c) + ")"@),
            r matches Ok(s) ==> {
                &&& s.wf()
                &&& s.ids() == dag.ids()
                &&& s.ends() == dag.ends()
                &&& s.waiting() == dag.root_ids()
                &&& s.dispatched() == Set::<Seq<char>>::empty()
                &&& s.recorded() == Set::<Seq<char>>::empty()
                &&& s.batch_limit() == max_parallelism
            },
    {
        dag.validate()?;
        let n = dag.node_count();
        let links_ref = dag.link_vec();
        proof {
            dag.lemma_links();
        }
        let order = match order_or_cycle(links_ref, n) {
            Ok(o) => o,
            Err(c) => {
                proof {
                    lemma_cycle_up(dag.ids(), dag.ends(), dag.link_seq(), c@);
                }
                return Err(Error::dag_cycle("Cannot perform topological sort on DAG with cycle"));
            },
        };
        let nodes = dag.nodes();
        let mut ids: Vec<String> = Vec::new();
        let mut i: usize = 0;
        while i < nodes.len()
            invariant
                i <= nodes@.len(),
                nodes@ == dag.node_seq(),
                views_of(ids@) == dag.ids().take(i as int),
            decreases nodes@.len() - i,
        {
            let ghost before = ids@;
            ids.push(nodes[i].id.clone());
            proof {
                assert(views_of(ids@) =~= views_of(before).push(dag.ids()[i as int]));
                assert(dag.ids().take(i + 1) =~= dag.ids().take(i as int).push(dag.ids()[i as int]));
            }
            i = i + 1;
        }
        proof {
            assert(dag.ids().take(i as int) =~= dag.ids());
        }
        let mut links: Vec<(usize, usize)> = Vec::new();
        let mut k: usize = 0;
        while k < links_ref.len()
            invariant
                k <= links_ref@.len(),
                links@ == links_ref@.take(k as int),
            decreases links_ref@.len() - k,
        {
            links.push(links_ref[k]);
            proof {
                assert(links_ref@.take(k + 1) =~= links_ref@.take(k as int).push(links_ref@[k as int]));
            }
            k = k + 1;
        }
        proof {
            assert(links_ref@.take(k as int) =~= links_ref@);
        }
        let ghost l = links@;
        let ghost none = Seq::new(n as nat, |i: int| false);
        let remaining = initial_counts(&links, n);
        let ghost p = |nd: DAGNode<T>| no_edge_into(dag.ends(), nd.id@);
        let mut queue: Vec<usize> = Vec::new();
        let mut dispatched: Vec<bool> = Vec::new();
        let mut recorded: Vec<bool> = Vec::new();
        let mut v: usize = 0;
        while v < n
            invariant
                v <= n,
                n == dag.node_seq().len(),
                l == links@,
                l == dag.link_seq(),
                views_of(ids@) == dag.ids(),
                numbered_edges(dag.ids(), dag.ends(), l),
                none == Seq::new(n as nat, |i: int| false),
                remaining@.len() == n,
                forall|w: int| 0 <= w < n ==> remaining@[w] == open_in(l, none, w as usize, l.len() as int),
                p == (|nd: DAGNode<T>| no_edge_into(dag.ends(), nd.id@)),
                queue@.no_duplicates(),
                forall|t: int| 0 <= t < queue@.len() ==> (#[trigger] queue@[t]) < v,
                forall|w: int| 0 <= w < v ==> (remaining@[w] == 0 <==> queue@.contains(w as usize)),
                ids_at(dag.ids(), queue@) == ids_of(dag.node_seq().take(v as int).filter(p)),
                dispatched@ == Seq::new(v as nat, |i: int| false),
                recorded@ == Seq::new(v as nat, |i: int| false),
            decreases n - v,
        {
            let ghost before = queue@;
            proof {
                lemma_filter_step(dag.node_seq(), v as int, p);
                lemma_pending_bridge(dag.ids(), dag.ends(), l, none, v, l.len() as int);
                assert(marked_ids(dag.ids(), none) =~= Set::<Seq<char>>::empty());
                lemma_pending_none(dag.ends(), dag.ids()[v as int], dag.ends().len() as int);
                assert(dag.node_seq()[v as int].id@ == dag.ids()[v as int]);
            }
            if remaining[v] == 0 {
                queue.push(v);
                proof {
                    assert(ids_at(dag.ids(), queue@) =~= ids_at(dag.ids(), before).push(dag.ids()[v as int]));
                    assert(ids_of(dag.node_seq().take(v as int).filter(p).push(dag.node_seq()[v as int])) =~= ids_of(
                        dag.node_seq().take(v as int).filter(p),
                    ).push(dag.ids()[v as int]));
                    assert forall|w: int| 0 <= w <= v implies (remaining@[w] == 0 <==> queue@.contains(w as usize)) by {
                        if w < v {
                            if queue@.contains(w as usize) {
                                let t = choose|t: int| 0 <= t < queue@.len() && queue@[t] == w as usize;
                                if t < before.len() {
                                    assert(before.contains(w as usize));
                                }
                            }
                            if before.contains(w as usize) {
                                let t = choose|t: int| 0 <= t < before.len() && before[t] == w as usize;
                                assert(queue@[t] == w as usize);
                            }
                        } else {
                            assert(queue@[before.len() as int] == v);
                        }
                    }
                }
            } else {
                proof {
                    assert forall|w: int| 0 <= w <= v implies (remaining@[w] == 0 <==> queue@.contains(w as usize)) by {
                        if w == v {
                            if queue@.contains(w as usize) {
                                let t = choose|t: int| 0 <= t < queue@.len() && queue@[t] == w as usize;
                                assert(queue@[t] < v);
                            }
                        }
                    }
                }
            }
            dispatched.push(false);
            recorded.push(false);
            proof {
                assert(dispatched@ =~= Seq::new((v + 1) as nat, |i: int| false));
                assert(recorded@ =~= Seq::new((v + 1) as nat, |i: int| false));
            }
            v = v + 1;
        }
        proof {
            assert(dag.node_seq().take(v as int) =~= dag.node_seq());
            lemma_count_marked_none(n as nat);
        }
        let s = Scheduler {
            ids,
            links,
            remaining,
            queue,
            head: 0,
            dispatched,
            recorded,
            completed: 0,
            max_parallelism,
            order: Ghost(order@),
        };
        proof {
            assert(s.ids() == dag.ids());
            assert(s.ends() =~= dag.ends()) by {
                assert forall|k: int| 0 <= k < s.ends().len() implies s.ends()[k] == dag.ends()[k] by {
                    assert(dag.ends()[k] == (dag.ids()[l[k].0 as int], dag.ids()[l[k].1 as int]));
                }
            }
            assert(s.queue@.skip(0) =~= s.queue@);
            assert(s.recorded@ =~= none);
            assert(s.dispatched() =~= Set::<Seq<char>>::empty());
            assert(s.recorded() =~= Set::<Seq<char>>::empty());
            assert forall|w: int| 0 <= w < n implies (s.dispatched@[w] <==> s.queue@.take(0).contains(w as usize)) by {}
        }
        Ok(s)
    }

    /// Decides the next step: finished when nothing waits, cancelled when asked to stop
    /// while nodes wait, and otherwise hands out the first waiting nodes, up to the batch
    /// limit. A node handed out has never been handed out before, and every edge into it
    /// comes from a recorded node.
    pub fn next_step(&mut self, cancelled: bool) -> (r: SchedulerStep)
        requires
            old(self).wf(),
        ensures
            final(self).wf(),
            final(self).ids() == old(self).ids(),
            final(self).ends() == old(self).ends(),
            final(self).recorded() == old(self).recorded(),
            final(self).batch_limit() == old(self).batch_limit(),
            old(self).waiting().len() == 0 ==> r is Finished && final(self).waiting() == old(self).waiting()
                && final(self).dispatched() == old(self).dispatched(),
            old(self).waiting().len() > 0 && cancelled ==> r is Cancelled && final(self).waiting()
                == old(self).waiting() && final(self).dispatched() == old(self).dispatched(),
            old(self).waiting().len() > 0 && !cancelled ==> r is Run,
            r matches SchedulerStep::Run(b) ==> {
                &&& views_of(b@) == first_n(old(self).waiting(), old(self).batch_limit())
                &&& final(self).waiting() == old(self).waiting().skip(b@.len() as int)
                &&& final(self).dispatched() == old(self).dispatched().union(views_of(b@).to_set())
                &&& forall|i: int| 0 <= i < b@.len() ==> !old(self).dispatched().contains(#[trigger] b@[i]@)
                &&& forall|i: int, k: int|
                    #![trigger b@[i], old(self).ends()[k]]
                    0 <= i < b@.len() && 0 <= k < old(self).ends().len() && old(self).ends()[k].1 == b@[i]@
                        ==> old(self).recorded().contains(old(self).ends()[k].0)
            },
    {
        let ghost ids = self.ids();
        let ghost waiting0 = self.waiting();
        let ghost disp0 = self.dispatched();
        let ghost l = self.links@;
        let ghost m = l.len();
        proof {
            self.lemma_numbered();
        }
        if self.head == self.queue.len() {
            proof {
                assert(self.waiting() =~= Seq::<Seq<char>>::empty());
            }
            return SchedulerStep::Finished;
        }
        if cancelled {
            return SchedulerStep::Cancelled;
        }
        let avail = self.queue.len() - self.head;
        let size = if avail < self.max_parallelism { avail } else { self.max_parallelism };
        let ghost head0 = self.head;
        let ghost q = self.queue@;
        let ghost rec = self.recorded@;
        let ghost d0 = self.dispatched@;
        let qlen = self.queue.len();
        proof {
            assert(d0 == old(self).dispatched@);
        }
        let mut batch: Vec<String> = Vec::new();
        let mut t: usize = 0;
        while t < size
            invariant
                t <= size,
                q.len() == qlen,
                self.ids@ == old(self).ids@,
                self.links@ == old(self).links@,
                self.remaining@ == old(self).remaining@,
                self.completed == old(self).completed,
                self.max_parallelism == old(self).max_parallelism,
                self.order == old(self).order,
                ids.len() <= usize::MAX,
                d0.len() == ids.len(),
                size <= self.queue@.len() - head0,
                self.queue@ == q,
                self.head == head0,
                head0 <= q.len(),
                self.recorded@ == rec,
                self.ids() == ids,
                self.ids@.len() == ids.len(),
                self.dispatched@.len() == ids.len(),
                q.no_duplicates(),
                forall|i: int| 0 <= i < q.len() ==> (#[trigger] q[i]) < ids.len(),
                forall|v: int| 0 <= v < ids.len() ==> (d0[v] <==> q.take(head0 as int).contains(v as usize)),
                forall|v: int| 0 <= v < ids.len() ==> (self.dispatched@[v] <==> q.take(head0 + t).contains(v as usize)),
                views_of(batch@) == ids_at(ids, q.subrange(head0 as int, head0 + t)),
            decreases size - t,
        {
            let v = self.queue[self.head + t];
            let ghost before = batch@;
            let ghost dprev = self.dispatched@;
            batch.push(self.ids[v].clone());
            self.dispatched.set(v, true);
            proof {
                assert(self.dispatched@ == dprev.update(v as int, true));
                assert(q[head0 + t] == v);
                assert(q.subrange(head0 as int, head0 + t + 1) =~= q.subrange(head0 as int, head0 + t).push(q[head0 + t]));
                assert(views_of(batch@) =~= views_of(before).push(ids[v as int]));
                assert forall|w: int| 0 <= w < ids.len() implies (self.dispatched@[w] <==> q.take(head0 + t + 1).contains(w as usize)) by {
                    let qa = q.take(head0 + t);
                    let qb = q.take(head0 + t + 1);
                    assert(qb =~= qa.push(q[head0 + t]));
                    if w == v as int {
                        assert(qb[qa.len() as int] == w as usize);
                    } else {
                        assert(self.dispatched@[w] == dprev[w]);
                        if qb.contains(w as usize) {
                            let j = choose|j: int| 0 <= j < qb.len() && qb[j] == w as usize;
                            assert(j < qa.len());
                            assert(qa[j] == w as usize);
                        }
                        if qa.contains(w as usize) {
                            let j = choose|j: int| 0 <= j < qa.len() && qa[j] == w as usize;
                            assert(qb[j] == w as usize);
                        }
                    }
                }
            }
            t = t + 1;
        }
        self.head = self.head + size;
        proof {
            let newb = q.subrange(head0 as int, head0 + size);
            // the batch is a prefix of the waiting nodes
            assert(q.skip(head0 as int).take(size as int) =~= newb);
            assert(views_of(batch@).len() == size);
            assert(waiting0.len() == q.len() - head0);
            if waiting0.len() <= self.max_parallelism {
                assert(size == waiting0.len());
                assert(q.skip(head0 as int) =~= newb);
            }
            assert(views_of(batch@) =~= first_n(waiting0, self.max_parallelism as nat));
            assert(q.skip(self.head as int) =~= q.skip(head0 as int).skip(size as int));
            assert(self.waiting() =~= waiting0.skip(size as int));
            // the nodes handed out were waiting: not dispatched, with no pending edge
            assert forall|i: int| 0 <= i < size implies !d0[newb[i] as int] && #[trigger] open_in(l, rec, newb[i], m as int) == 0 by {
                assert(newb[i] == q[head0 + i]);
                assert(old(self).remaining@[newb[i] as int] == 0) by {
                    assert(q.contains(newb[i]));
                }
                if d0[newb[i] as int] {
                    let q0 = q.take(head0 as int);
                    let j = choose|j: int| 0 <= j < q0.len() && q0[j] == newb[i];
                    assert(q[j] == q[head0 + i]);
                }
            }
            assert forall|i: int| 0 <= i < batch@.len() implies !disp0.contains(#[trigger] batch@[i]@) by {
                assert(batch@[i]@ == views_of(batch@)[i]);
                assert(views_of(batch@)[i] == ids[newb[i] as int]);
                lemma_marked_at(ids, d0, newb[i] as int);
            }
            assert forall|i: int, k: int|
                #![trigger batch@[i], old(self).ends()[k]]
                0 <= i < batch@.len() && 0 <= k < old(self).ends().len() && old(self).ends()[k].1 == batch@[i]@
                    implies old(self).recorded().contains(old(self).ends()[k].0) by {
                assert(batch@[i]@ == views_of(batch@)[i]);
                let v = newb[i];
                assert(views_of(batch@)[i] == ids[v as int]);
                lemma_open_in_zero(l, rec, v, m as int);
                assert(old(self).ends()[k] == (ids[l[k].0 as int], ids[l[k].1 as int]));
                assert(l[k].1 == v);
                assert(rec[l[k].0 as int]);
                lemma_marked_at(ids, rec, l[k].0 as int);
            }
            // the dispatched set grew by the batch
            assert(self.dispatched() =~= disp0.union(views_of(batch@).to_set())) by {
                assert forall|x: Seq<char>| self.dispatched().contains(x) <==> disp0.union(views_of(batch@).to_set()).contains(x) by {
                    if self.dispatched().contains(x) {
                        let w = choose|w: int| 0 <= w < ids.len() && self.dispatched@[w] && ids[w] == x;
                        if !d0[w] {
                            let qh = q.take(self.head as int);
                            let j = choose|j: int| 0 <= j < qh.len() && qh[j] == w as usize;
                            assert(j >= head0) by {
                                if j < head0 {
                                    assert(q.take(head0 as int)[j] == w as usize);
                                }
                            }
                            assert(views_of(batch@)[j - head0] == x);
                        }
                    }
                    if views_of(batch@).to_set().contains(x) {
                        let i = choose|i: int| 0 <= i < views_of(batch@).len() && views_of(batch@)[i] == x;
                        let w = newb[i];
                        assert(q.take(self.head as int)[head0 + i] == w);
                        assert(self.dispatched@[w as int]);
                    }
                    if disp0.contains(x) {
                        let w = choose|w: int| 0 <= w < ids.len() && d0[w] && ids[w] == x;
                        let q0 = q.take(head0 as int);
                        let j = choose|j: int| 0 <= j < q0.len() && q0[j] == w as usize;
                        assert(q.take(self.head as int)[j] == w as usize);
                    }
                }
            }
            assert forall|v: int| 0 <= v < ids.len() && #[trigger] self.recorded@[v] implies self.dispatched@[v] by {
                assert(d0[v]);
                let q0 = q.take(head0 as int);
                let j = choose|j: int| 0 <= j < q0.len() && q0[j] == v as usize;
                assert(q.take(self.head as int)[j] == v as usize);
            }
        }
        SchedulerStep::Run(batch)
    }

    /// The position of the node with id `id`.
    fn position(&self, id: &str) -> (r: Option<usize>)
        requires
            self.wf(),
        ensures
            r is None <==> !self.ids().contains(id@),
            r matches Some(u) ==> u < self.ids().len() && self.ids()[u as int] == id@,
    {
        let k = id.to_owned();
        let mut i: usize = 0;
        while i < self.ids.len()
            invariant
                i <= self.ids@.len(),
                k@ == id@,
                forall|j: int| 0 <= j < i ==> self.ids()[j] != id@,
            decreases self.ids@.len() - i,
        {
            if self.ids[i] == k {
                proof {
                    assert(self.ids()[i as int] == self.ids@[i as int]@);
                }
                return Some(i);
            }
            proof {
                assert(self.ids()[i as int] == self.ids@[i as int]@);
            }
            i = i + 1;
        }
        proof {
            if self.ids().contains(id@) {
                let j = choose|j: int| 0 <= j < self.ids().len() && self.ids()[j] == id@;
                assert(self.ids()[j] != id@);
            }
        }
        None
    }

    /// Records that node `id`, handed out earlier, has finished. Every node it has edges to
    /// has its pending count lowered by the number of those edges; the nodes whose count
    /// reaches zero start waiting, in the order of the edge that released them.
    pub fn record(&mut self, id: &str)
        requires
            old(self).wf(),
            old(self).dispatched().contains(id@),
            !old(self).recorded().contains(id@),
        ensures
            final(self).wf(),
            final(self).ids() == old(self).ids(),
            final(self).ends() == old(self).ends(),
            final(self).dispatched() == old(self).dispatched(),
            final(self).batch_limit() == old(self).batch_limit(),
            final(self).recorded() == old(self).recorded().insert(id@),
            final(self).waiting() == old(self).waiting() + released_by(
                old(self).ends(),
                old(self).recorded(),
                id@,
                old(self).ends().len() as int,
            ),
    {
        let ghost ids = self.ids();
        let ghost l = self.links@;
        let ghost m = l.len();
        let ghost n = ids.len();
        let ghost rec0 = self.recorded@;
        let ghost rem0 = self.remaining@;
        let ghost q0 = self.queue@;
        proof {
            self.lemma_numbered();
        }
        let u = match self.position(id) {
            Some(u) => u,
            None => {
                proof {
                    let w = choose|w: int| 0 <= w < ids.len() && self.dispatched@[w] && ids[w] == id@;
                    assert(ids.contains(id@));
                }
                return;
            },
        };
        proof {
            lemma_marked_at(ids, rec0, u as int);
            lemma_count_marked_set(rec0, u as int);
        }
        self.recorded.set(u, true);
        self.completed = self.completed + 1;
        let ghost rec1 = self.recorded@;
        proof {
            assert forall|w: int| 0 <= w < n implies open_in(l, rec1, w as usize, m as int) + pair_count(l, u, w as usize, m as int) == rem0[w] by {
                lemma_open_in_mark(l, rec0, u, w as usize, m as int);
            }
        }
        let mut k: usize = 0;
        while k < self.links.len()
            invariant
                k <= m,
                m == self.links@.len(),
                self.links@ == l,
                self.ids@ == old(self).ids@,
                self.ids() == ids,
                n == ids.len(),
                n == self.ids@.len(),
                n <= usize::MAX,
                links_in_range(l, n),
                u < n,
                self.recorded@ == rec1,
                self.dispatched@ == old(self).dispatched@,
                self.head == old(self).head,
                self.completed == old(self).completed + 1,
                self.max_parallelism == old(self).max_parallelism,
                self.order == old(self).order,
                rem0.len() == n,
                self.remaining@.len() == n,
                forall|w: int| 0 <= w < n ==> open_in(l, rec1, w as usize, m as int) + pair_count(l, u, w as usize, m as int) == rem0[w],
                forall|w: int| 0 <= w < n ==> #[trigger] self.remaining@[w] + pair_count(l, u, w as usize, k as int) == rem0[w],
                forall|w: int| 0 <= w < n ==> (rem0[w] == 0 <==> q0.contains(w as usize)),
                self.queue@ == q0 + released_at(l, u, rem0, k as int),
                self.queue@.no_duplicates(),
                forall|i: int| 0 <= i < self.queue@.len() ==> (#[trigger] self.queue@[i]) < n,
                forall|w: int| 0 <= w < n ==> (self.remaining@[w] == 0 <==> self.queue@.contains(w as usize)),
            decreases m - k,
        {
            let (a, b) = self.links[k];
            proof {
                assert(l[k as int] == (a, b));
                assert(b < n);
            }
            let ghost before = self.queue@;
            if a == u {
                proof {
                    lemma_pair_count_mono(l, u, b, (k + 1) as int, m as int);
                    assert(pair_count(l, u, b, (k + 1) as int) == pair_count(l, u, b, k as int) + 1);
                }
                let c = self.remaining[b] - 1;
                self.remaining.set(b, c);
                if c == 0 {
                    proof {
                        // `b` was not waiting: its count was positive
                        assert(!before.contains(b)) by {
                            assert(rem0[b as int] > 0);
                        }
                    }
                    self.queue.push(b);
                }
            }
            proof {
                assert(l.take(k + 1) =~= l.take(k as int).push(l[k as int]));
                assert forall|w: int| 0 <= w < n implies #[trigger] self.remaining@[w] + pair_count(l, u, w as usize, (k + 1) as int) == rem0[w] by {
                    if !(a == u && w == b) {
                        assert(l[k as int] != (u, w as usize));
                    }
                }
                if a == u && self.remaining@[b as int] == 0 {
                    assert(self.queue@ =~= q0 + released_at(l, u, rem0, (k + 1) as int));
                    assert forall|w: int| 0 <= w < n implies (self.remaining@[w] == 0 <==> self.queue@.contains(w as usize)) by {
                        if w != b {
                            if self.queue@.contains(w as usize) {
                                let t = choose|t: int| 0 <= t < self.queue@.len() && self.queue@[t] == w as usize;
                                assert(t < before.len());
                                assert(before[t] == w as usize);
                            }
                            if before.contains(w as usize) {
                                let t = choose|t: int| 0 <= t < before.len() && before[t] == w as usize;
                                assert(self.queue@[t] == w as usize);
                            }
                        } else {
                            assert(self.queue@[before.len() as int] == b);
                        }
                    }
                } else {
                    assert(self.queue@ =~= q0 + released_at(l, u, rem0, (k + 1) as int));
                }
            }
            k = k + 1;
        }
        proof {
            assert(self.queue@.take(self.head as int) =~= q0.take(self.head as int));
            assert forall|v: int| 0 <= v < n && #[trigger] self.recorded@[v] implies self.dispatched@[v] by {
                if v == u {
                    lemma_marked_at(ids, old(self).dispatched@, u as int);
                } else {
                    assert(rec0[v]);
                }
            }
            assert forall|w: int| 0 <= w < n implies #[trigger] self.remaining@[w] == open_in(l, self.recorded@, w as usize, m as int) by {}
            // the waiting nodes grew by the released ones
            assert(self.queue@.skip(self.head as int) =~= q0.skip(self.head as int) + released_at(l, u, rem0, m as int));
            assert(ids_at(ids, q0.skip(self.head as int) + released_at(l, u, rem0, m as int)) =~= ids_at(ids, q0.skip(self.head as int)) + ids_at(ids, released_at(l, u, rem0, m as int)));
            lemma_released_bridge(ids, self.ends(), l, rec0, rem0, u, m as int);
            assert(self.ends().len() == m);
            // the recorded set grew by `id`
            assert(self.recorded() =~= old(self).recorded().insert(id@)) by {
                assert forall|x: Seq<char>| self.recorded().contains(x) <==> old(self).recorded().insert(id@).contains(x) by {
                    if self.recorded().contains(x) {
                        let w = choose|w: int| 0 <= w < ids.len() && self.recorded@[w] && ids[w] == x;
                        if w != u {
                            assert(rec0[w]);
                        }
                    }
                    if old(self).recorded().contains(x) {
                        let w = choose|w: int| 0 <= w < ids.len() && rec0[w] && ids[w] == x;
                        assert(self.recorded@[w]);
                    }
                    if x == id@ {
                        assert(self.recorded@[u as int]);
                    }
                }
            }
        }
    }

    /// Whether node `id` has been handed out and not yet recorded.
    pub fn is_running(&self, id: &str) -> (b: bool)
        requires
            self.wf(),
        ensures
            b == (self.dispatched().contains(id@) && !self.recorded().contains(id@)),
    {
        match self.position(id) {
            Some(u) => {
                proof {
                    lemma_marked_at(self.ids(), self.dispatched@, u as int);
                    lemma_marked_at(self.ids(), self.recorded@, u as int);
                }
                self.dispatched[u] && !self.recorded[u]
            },
            None => {
                proof {
                    if self.dispatched().contains(id@) {
                        let w = choose|w: int| 0 <= w < self.ids().len() && self.dispatched@[w] && self.ids()[w] == id@;
                        assert(self.ids().contains(id@));
                    }
                }
                false
            },
        }
    }

    /// The number of nodes waiting to start.
    pub fn waiting_count(&self) -> (n: usize)
        requires
            self.wf(),
        ensures
            n == self.waiting().len(),
    {
        self.queue.len() - self.head
    }

    /// The number of nodes recorded as finished.
    pub fn completed_count(&self) -> (n: usize)
        requires
            self.wf(),
        ensures
            n == self.recorded().len(),
    {
        proof {
            lemma_marked_len(self.ids(), self.recorded@);
        }
        self.completed
    }

    /// The number of nodes of the DAG.
    pub fn node_count(&self) -> (n: usize)
        ensures
            n == self.ids().len(),
    {
        self.ids.len()
    }

    proof fn lemma_recorded_prefix(&self, i: int)
        requires
            self.wf(),
            self.head == self.queue@.len(),
            forall|v: int| 0 <= v < self.ids@.len() ==> self.dispatched@[v] == self.recorded@[v],
            0 <= i < self.order@.len(),
        ensures
            forall|t: int| 0 <= t <= i ==> self.recorded@[#[trigger] self.order@[t] as int],
        decreases i,
    {
        let o = self.order@;
        let l = self.links@;
        let n = self.ids@.len();
        if i > 0 {
            self.lemma_recorded_prefix(i - 1);
        }
        let v = o[i];
        if !self.recorded@[v as int] {
            assert(!self.dispatched@[v as int]);
            assert(self.queue@.take(self.head as int) =~= self.queue@);
            assert(!self.queue@.contains(v));
            assert(self.remaining@[v as int] > 0);
            lemma_open_in_pos(l, self.recorded@, v, l.len() as int);
            let j = choose|j: int| 0 <= j < l.len() && (#[trigger] l[j]).1 == v && !self.recorded@[l[j].0 as int];
            let src = l[j].0;
            assert(o.contains(src));
            let i1 = choose|i1: int| 0 <= i1 < o.len() && o[i1] == src;
            assert(i1 < i);
            assert(self.recorded@[o[i1] as int]);
        }
    }

    /// When nothing waits and every node handed out has been recorded, every node of the DAG
    /// has been recorded: a run in which every started node is reported ends having run the
    /// whole graph.
    pub proof fn lemma_run_complete(&self)
        requires
            self.wf(),
            self.waiting().len() == 0,
            self.dispatched() == self.recorded(),
        ensures
            forall|x: Seq<char>| self.ids().contains(x) ==> self.recorded().contains(x),
    {
        let ids = self.ids();
        let n = ids.len();
        assert(self.head == self.queue@.len());
        assert forall|v: int| 0 <= v < n implies self.dispatched@[v] == self.recorded@[v] by {
            lemma_marked_at(ids, self.dispatched@, v);
            lemma_marked_at(ids, self.recorded@, v);
        }
        if n > 0 {
            self.lemma_recorded_prefix(n - 1);
        }
        assert forall|x: Seq<char>| ids.contains(x) implies self.recorded().contains(x) by {
            let v = choose|v: int| 0 <= v < n && ids[v] == x;
            assert(self.order@.contains(v as usize));
            let t = choose|t: int| 0 <= t < self.order@.len() && self.order@[t] == v as usize;
            assert(self.recorded@[self.order@[t] as int]);
            lemma_marked_at(ids, self.recorded@, v);
        }
    }
}

} // verus!
