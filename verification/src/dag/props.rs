//! What DAG operations promise, stated over node ids and edges as text, and the bridge
//! between these statements and the numbered graphs of [`super::graph`].

use vstd::prelude::*;
use super::graph::{has_link, in_layer, is_layering, is_link_cycle, lemma_order_excludes_cycle, links_in_range, placed, respects_links};

verus! {

/// Some edge goes from `a` to `b`.
pub open spec fn edge_between(e: Seq<(Seq<char>, Seq<char>)>, a: Seq<char>, b: Seq<char>) -> bool {
    exists|k: int| 0 <= k < e.len() && #[trigger] e[k] == (a, b)
}

/// `p` follows edges and comes back to where it started.
pub open spec fn is_cycle_path(e: Seq<(Seq<char>, Seq<char>)>, p: Seq<Seq<char>>) -> bool {
    &&& p.len() >= 2
    &&& p[0] == p.last()
    &&& forall|i: int| 0 <= i < p.len() - 1 ==> edge_between(e, #[trigger] p[i], p[i + 1])
}

/// The edges close a cycle.
pub open spec fn contains_cycle(e: Seq<(Seq<char>, Seq<char>)>) -> bool {
    exists|p: Seq<Seq<char>>| #[trigger] is_cycle_path(e, p)
}

/// `o` lists every node once, and every edge's source comes before its target.
pub open spec fn is_topological_order(
    ids: Seq<Seq<char>>,
    e: Seq<(Seq<char>, Seq<char>)>,
    o: Seq<Seq<char>>,
) -> bool {
    &&& o.no_duplicates()
    &&& forall|x: Seq<char>| #[trigger] o.contains(x) <==> ids.contains(x)
    &&& forall|k: int, i: int, j: int|
        #![trigger e[k], o[i], o[j]]
        0 <= k < e.len() && 0 <= i < o.len() && 0 <= j < o.len() && o[i] == e[k].0 && o[j]
            == e[k].1 ==> i < j
}

/// `x` is in layer `j` of `ls`.
pub open spec fn in_layer_of(ls: Seq<Seq<Seq<char>>>, x: Seq<char>, j: int) -> bool {
    0 <= j < ls.len() && ls[j].contains(x)
}

/// `x` is in some layer of `ls`.
pub open spec fn in_some_layer(ls: Seq<Seq<Seq<char>>>, x: Seq<char>) -> bool {
    exists|j: int| #[trigger] in_layer_of(ls, x, j)
}

/// `ls` splits the nodes into non-empty layers, each node in exactly one; every edge leads
/// to a later layer, and every node past the first layer has an edge from the layer just
/// before. Layer `j` is thus the set of nodes whose longest chain of predecessors has `j`
/// edges: the nodes of one layer can run in parallel once the earlier layers are done.
pub open spec fn is_layered(
    ids: Seq<Seq<char>>,
    e: Seq<(Seq<char>, Seq<char>)>,
    ls: Seq<Seq<Seq<char>>>,
) -> bool {
    &&& forall|j: int| 0 <= j < ls.len() ==> (#[trigger] ls[j]).len() > 0 && ls[j].no_duplicates()
    &&& forall|j: int, i: int| 0 <= j < ls.len() && 0 <= i < ls[j].len() ==> ids.contains(#[trigger] ls[j][i])
    &&& forall|x: Seq<char>, j1: int, j2: int| in_layer_of(ls, x, j1) && in_layer_of(ls, x, j2) ==> j1 == j2
    &&& forall|x: Seq<char>| ids.contains(x) ==> #[trigger] in_some_layer(ls, x)
    &&& forall|k: int, ja: int, jb: int|
        #![trigger e[k], in_layer_of(ls, e[k].0, ja), in_layer_of(ls, e[k].1, jb)]
        0 <= k < e.len() && in_layer_of(ls, e[k].0, ja) && in_layer_of(ls, e[k].1, jb) ==> ja < jb
    &&& forall|x: Seq<char>, j: int| 1 <= j && #[trigger] in_layer_of(ls, x, j) ==> exists|y: Seq<char>|
        #[trigger] in_layer_of(ls, y, j - 1) && edge_between(e, y, x)
}

/// `l` numbers the edges `e` by the positions of their ends in `ids`.
pub open spec fn numbered_edges(
    ids: Seq<Seq<char>>,
    e: Seq<(Seq<char>, Seq<char>)>,
    l: Seq<(usize, usize)>,
) -> bool {
    &&& ids.no_duplicates()
    &&& ids.len() <= usize::MAX
    &&& l.len() == e.len()
    &&& links_in_range(l, ids.len())
    &&& forall|k: int| 0 <= k < l.len() ==> #[trigger] e[k] == (ids[l[k].0 as int], ids[l[k].1 as int])
}

/// The ids at the given positions.
pub open spec fn ids_at(ids: Seq<Seq<char>>, s: Seq<usize>) -> Seq<Seq<char>> {
    s.map_values(|i: usize| ids[i as int])
}

/// A link between positions is an edge between their ids, and back.
pub proof fn lemma_link_edge(ids: Seq<Seq<char>>, e: Seq<(Seq<char>, Seq<char>)>, l: Seq<(usize, usize)>, a: usize, b: usize)
    requires
        numbered_edges(ids, e, l),
        a < ids.len(),
        b < ids.len(),
    ensures
        has_link(l, a, b) <==> edge_between(e, ids[a as int], ids[b as int]),
{
    if has_link(l, a, b) {
        let k = choose|k: int| 0 <= k < l.len() && #[trigger] l[k] == (a, b);
        assert(e[k] == (ids[a as int], ids[b as int]));
    }
    if edge_between(e, ids[a as int], ids[b as int]) {
        let k = choose|k: int| 0 <= k < e.len() && #[trigger] e[k] == (ids[a as int], ids[b as int]);
        assert(l[k].0 < ids.len() && l[k].1 < ids.len());
        assert(ids[l[k].0 as int] == ids[a as int]);
        assert(ids[l[k].1 as int] == ids[b as int]);
        assert(l[k] == (a, b));
    }
}

/// A cycle of positions is a cycle of ids.
pub proof fn lemma_cycle_up(ids: Seq<Seq<char>>, e: Seq<(Seq<char>, Seq<char>)>, l: Seq<(usize, usize)>, c: Seq<usize>)
    requires
        numbered_edges(ids, e, l),
        is_link_cycle(l, c),
        forall|i: int| 0 <= i < c.len() ==> (#[trigger] c[i]) < ids.len(),
    ensures
        is_cycle_path(e, ids_at(ids, c)),
        contains_cycle(e),
{
    let p = ids_at(ids, c);
    assert forall|i: int| 0 <= i < p.len() - 1 implies edge_between(e, #[trigger] p[i], p[i + 1]) by {
        assert(has_link(l, c[i], c[i + 1]));
        lemma_link_edge(ids, e, l, c[i], c[i + 1]);
    }
    assert(is_cycle_path(e, p));
}

/// A cycle of ids is a cycle of positions.
pub proof fn lemma_cycle_down(ids: Seq<Seq<char>>, e: Seq<(Seq<char>, Seq<char>)>, l: Seq<(usize, usize)>, p: Seq<Seq<char>>) -> (c: Seq<usize>)
    requires
        numbered_edges(ids, e, l),
        is_cycle_path(e, p),
    ensures
        is_link_cycle(l, c),
        forall|i: int| 0 <= i < c.len() ==> (#[trigger] c[i]) < ids.len(),
{
    // every entry of the cycle is the start of an edge, hence a node id
    assert forall|i: int| 0 <= i < p.len() implies ids.contains(#[trigger] p[i]) by {
        let i2 = if i < p.len() - 1 { i } else { 0 };
        assert(p[i2] == p[i]);
        assert(edge_between(e, p[i2], p[i2 + 1]));
        let k = choose|k: int| 0 <= k < e.len() && #[trigger] e[k] == (p[i2], p[i2 + 1]);
        assert(l[k].0 < ids.len());
        assert(ids[l[k].0 as int] == p[i]);
    }
    let c = p.map_values(|x: Seq<char>| ids.index_of(x) as usize);
    assert forall|i: int| 0 <= i < c.len() implies (#[trigger] c[i]) < ids.len() && ids[c[i] as int] == p[i] by {
        assert(ids.contains(p[i]));
    }
    assert forall|i: int| 0 <= i < c.len() - 1 implies has_link(l, #[trigger] c[i], c[i + 1]) by {
        assert(ids[c[i] as int] == p[i]);
        assert(ids[c[i + 1] as int] == p[i + 1]);
        assert(edge_between(e, p[i], p[i + 1]));
        lemma_link_edge(ids, e, l, c[i], c[i + 1]);
    }
    assert(c[0] == c.last()) by {
        assert(p[0] == p.last());
    }
    c
}

/// An order of positions covering every node and respecting the links gives a topological
/// order of the ids, and shows there is no cycle.
pub proof fn lemma_order_up(ids: Seq<Seq<char>>, e: Seq<(Seq<char>, Seq<char>)>, l: Seq<(usize, usize)>, o: Seq<usize>)
    requires
        numbered_edges(ids, e, l),
        o.no_duplicates(),
        forall|i: int| 0 <= i < o.len() ==> (#[trigger] o[i]) < ids.len(),
        forall|v: usize| v < ids.len() ==> o.contains(v),
        respects_links(l, o),
    ensures
        is_topological_order(ids, e, ids_at(ids, o)),
        !contains_cycle(e),
{
    let s = ids_at(ids, o);
    assert forall|i: int, j: int| 0 <= i < s.len() && 0 <= j < s.len() && i != j implies s[i] != s[j] by {
        assert(o[i] != o[j]);
        assert(ids[o[i] as int] != ids[o[j] as int]);
    }
    assert forall|x: Seq<char>| #[trigger] s.contains(x) <==> ids.contains(x) by {
        if s.contains(x) {
            let i = choose|i: int| 0 <= i < s.len() && s[i] == x;
            assert(ids[o[i] as int] == x);
        }
        if ids.contains(x) {
            let v = ids.index_of(x);
            assert(0 <= v < ids.len() && ids[v] == x);
            assert(o.contains(v as usize));
            let i = choose|i: int| 0 <= i < o.len() && o[i] == v as usize;
            assert(s[i] == x);
        }
    }
    assert forall|k: int, i: int, j: int|
        #![trigger e[k], s[i], s[j]]
        0 <= k < e.len() && 0 <= i < s.len() && 0 <= j < s.len() && s[i] == e[k].0 && s[j]
            == e[k].1 implies i < j by {
        assert(ids[o[i] as int] == ids[l[k].0 as int]);
        assert(ids[o[j] as int] == ids[l[k].1 as int]);
        assert(o[i] == l[k].0);
        assert(o[j] == l[k].1);
    }
    if contains_cycle(e) {
        let p = choose|p: Seq<Seq<char>>| #[trigger] is_cycle_path(e, p);
        let c = lemma_cycle_down(ids, e, l, p);
        assert forall|i: int| 0 <= i < c.len() implies o.contains(#[trigger] c[i]) by {}
        lemma_order_excludes_cycle(l, o, c);
    }
}

/// Layers of positions give layers of ids.
pub proof fn lemma_layers_up(ids: Seq<Seq<char>>, e: Seq<(Seq<char>, Seq<char>)>, l: Seq<(usize, usize)>, ls: Seq<Seq<usize>>)
    requires
        numbered_edges(ids, e, l),
        is_layering(l, ids.len(), ls),
    ensures
        is_layered(ids, e, ls.map_values(|layer: Seq<usize>| ids_at(ids, layer))),
{
    let n = ids.len();
    let s = ls.map_values(|layer: Seq<usize>| ids_at(ids, layer));
    assert forall|x: usize, j: int| x < n implies (#[trigger] in_layer(ls, x, j) <==> in_layer_of(s, ids[x as int], j)) by {
        if in_layer(ls, x, j) {
            let i = choose|i: int| 0 <= i < ls[j].len() && ls[j][i] == x;
            assert(s[j][i] == ids[x as int]);
        }
        if in_layer_of(s, ids[x as int], j) {
            let i = choose|i: int| 0 <= i < s[j].len() && s[j][i] == ids[x as int];
            assert(ls[j][i] < n);
            assert(ids[ls[j][i] as int] == ids[x as int]);
            assert(ls[j][i] == x);
        }
    }
    assert forall|x: Seq<char>, j: int| #[trigger] in_layer_of(s, x, j) implies ids.contains(x) && in_layer(ls, ids.index_of(x) as usize, j) by {
        let i = choose|i: int| 0 <= i < s[j].len() && s[j][i] == x;
        assert(ls[j][i] < n);
        assert(ids[ls[j][i] as int] == x);
        assert(ids.contains(x));
        assert(ids[ids.index_of(x)] == x);
        assert(ls[j][i] == ids.index_of(x) as usize);
        assert(in_layer(ls, ls[j][i], j));
    }
    assert forall|j: int| 0 <= j < s.len() implies (#[trigger] s[j]).len() > 0 && s[j].no_duplicates() by {
        assert(ls[j].len() > 0);
        assert forall|a: int, b: int| 0 <= a < s[j].len() && 0 <= b < s[j].len() && a != b implies s[j][a] != s[j][b] by {
            assert(ls[j][a] != ls[j][b]);
            assert(ls[j][a] < n && ls[j][b] < n);
        }
    }
    assert forall|j: int, i: int| 0 <= j < s.len() && 0 <= i < s[j].len() implies ids.contains(#[trigger] s[j][i]) by {
        assert(ls[j][i] < n);
    }
    assert forall|x: Seq<char>, j1: int, j2: int| in_layer_of(s, x, j1) && in_layer_of(s, x, j2) implies j1 == j2 by {
        let v = ids.index_of(x) as usize;
        assert(in_layer(ls, v, j1));
        assert(in_layer(ls, v, j2));
    }
    assert forall|x: Seq<char>| ids.contains(x) implies #[trigger] in_some_layer(s, x) by {
        assert(0 <= ids.index_of(x) < ids.len() && ids[ids.index_of(x)] == x);
        let v = ids.index_of(x) as usize;
        assert(ids[v as int] == x);
        assert(placed(ls, v));
        let j = choose|j: int| #[trigger] in_layer(ls, v, j);
        assert(in_layer_of(s, x, j));
    }
    assert forall|k: int, ja: int, jb: int|
        #![trigger e[k], in_layer_of(s, e[k].0, ja), in_layer_of(s, e[k].1, jb)]
        0 <= k < e.len() && in_layer_of(s, e[k].0, ja) && in_layer_of(s, e[k].1, jb) implies ja < jb by {
        assert(l[k].0 < n && l[k].1 < n);
        assert(in_layer(ls, l[k].0, ja));
        assert(in_layer(ls, l[k].1, jb));
    }
    assert forall|x: Seq<char>, j: int| 1 <= j && #[trigger] in_layer_of(s, x, j) implies exists|y: Seq<char>|
        #[trigger] in_layer_of(s, y, j - 1) && edge_between(e, y, x) by {
        let v = ids.index_of(x) as usize;
        assert(ids[v as int] == x);
        assert(in_layer(ls, v, j));
        let w = choose|w: usize| #[trigger] in_layer(ls, w, j - 1) && has_link(l, w, v);
        assert(ls[j - 1].contains(w));
        let i = choose|i: int| 0 <= i < ls[j - 1].len() && #[trigger] ls[j - 1][i] == w;
        assert(w < n);
        assert(in_layer_of(s, ids[w as int], j - 1));
        lemma_link_edge(ids, e, l, w, v);
    }
}

/// The nodes of one layer are independent: no edge joins two nodes of the same layer, so
/// they can run in parallel.
pub proof fn lemma_layer_independent(
    ids: Seq<Seq<char>>,
    e: Seq<(Seq<char>, Seq<char>)>,
    ls: Seq<Seq<Seq<char>>>,
    j: int,
    k: int,
)
    requires
        is_layered(ids, e, ls),
        0 <= j < ls.len(),
        0 <= k < e.len(),
    ensures
        !(ls[j].contains(e[k].0) && ls[j].contains(e[k].1)),
{
    if ls[j].contains(e[k].0) && ls[j].contains(e[k].1) {
        assert(in_layer_of(ls, e[k].0, j));
        assert(in_layer_of(ls, e[k].1, j));
    }
}

/// A graph whose edges join its nodes and that has a topological order has no cycle.
pub proof fn lemma_topological_order_acyclic(ids: Seq<Seq<char>>, e: Seq<(Seq<char>, Seq<char>)>, o: Seq<Seq<char>>)
    requires
        forall|k: int| 0 <= k < e.len() ==> ids.contains(#[trigger] e[k].0) && ids.contains(e[k].1),
        is_topological_order(ids, e, o),
    ensures
        !contains_cycle(e),
{
    if contains_cycle(e) {
        let p = choose|p: Seq<Seq<char>>| #[trigger] is_cycle_path(e, p);
        // every entry of the cycle starts an edge, so it is placed in the order
        assert forall|i: int| 0 <= i < p.len() - 1 implies o.contains(#[trigger] p[i]) && o.contains(p[i + 1])
            && o.index_of(p[i]) < o.index_of(p[i + 1]) by {
            assert(edge_between(e, p[i], p[i + 1]));
            let k = choose|k: int| 0 <= k < e.len() && #[trigger] e[k] == (p[i], p[i + 1]);
            assert(ids.contains(e[k].0) && ids.contains(e[k].1));
            assert(o.contains(p[i]) && o.contains(p[i + 1]));
            let a = o.index_of(p[i]);
            let b = o.index_of(p[i + 1]);
            o.index_of_first(p[i]);
            o.index_of_first(p[i + 1]);
            assert(o[a] == e[k].0 && o[b] == e[k].1);
        }
        lemma_path_rises(p, o, p.len() - 1);
    }
}

proof fn lemma_path_rises(p: Seq<Seq<char>>, o: Seq<Seq<char>>, i: int)
    requires
        1 <= i < p.len(),
        forall|t: int| 0 <= t < p.len() - 1 ==> o.contains(#[trigger] p[t]) && o.contains(p[t + 1])
            && o.index_of(p[t]) < o.index_of(p[t + 1]),
    ensures
        o.index_of(p[0]) < o.index_of(p[i]),
        p[0] == p[i] ==> false,
    decreases i,
{
    assert(o.contains(p[i - 1]) && o.index_of(p[i - 1]) < o.index_of(p[i]));
    if i > 1 {
        lemma_path_rises(p, o, i - 1);
    }
}

} // verus!
