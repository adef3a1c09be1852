//! Text renderings of a DAG: Graphviz DOT, Mermaid, and a short console summary.

use vstd::prelude::*;
use super::dag_impl::{layer_views, no_edge_into, no_edge_out_of, DAG};
use super::edge::DAGEdge;
use super::node::DAGNode;
use super::props::{contains_cycle, is_layered};
use crate::text::{
    concat_all, debug_list, debug_list_text, decimal, push_decimal, replace_char, replaced,
    views_of,
};

verus! {

/// A node name made safe inside a DOT string: quotes and line breaks escaped.
pub open spec fn dot_escape(name: Seq<char>) -> Seq<char> {
    replaced(replaced(name, '"', "\\\""@), '\n', "\\n"@)
}

/// The label of a node in DOT: its escaped name, followed by its id when the two differ.
pub open spec fn dot_label(id: Seq<char>, name: Seq<char>) -> Seq<char> {
    if dot_escape(name) != id {
        dot_escape(name) + "\n("@ + id + ")"@
    } else {
        dot_escape(name)
    }
}

/// The shape of a node in DOT: leaves are boxes, other roots ellipses, the rest boxes.
pub open spec fn dot_shape(is_leaf: bool, is_root: bool) -> Seq<char> {
    if is_leaf {
        "box"@
    } else if is_root {
        "ellipse"@
    } else {
        "box"@
    }
}

/// The DOT line of a node.
pub open spec fn dot_node_line(id: Seq<char>, name: Seq<char>, is_leaf: bool, is_root: bool) -> Seq<char> {
    "    \""@ + id + "\" [label=\""@ + dot_label(id, name) + "\", shape="@ + dot_shape(is_leaf, is_root)
        + "];\n"@
}

/// The label part of an edge's DOT line.
pub open spec fn dot_edge_label(label: Option<String>) -> Seq<char> {
    match label {
        Some(c) => " [label=\""@ + replaced(c@, '"', "\\\""@) + "\"]"@,
        None => Seq::empty(),
    }
}

/// The DOT line of an edge.
pub open spec fn dot_edge_line(e: DAGEdge) -> Seq<char> {
    "    \""@ + e.from@ + "\" -> \""@ + e.to@ + "\""@ + dot_edge_label(e.label) + ";\n"@
}

/// The opening lines of the DOT text.
pub open spec fn dot_header() -> Seq<char> {
    "digraph DAG {\n"@ + "    rankdir=TB;\n"@ + "    node [shape=box, style=rounded];\n"@
        + "    edge [arrowhead=normal];\n\n"@
}

/// The DOT lines of the nodes of a graph with edge ends `e`, in node order.
pub open spec fn dot_node_lines<T>(ns: Seq<DAGNode<T>>, e: Seq<(Seq<char>, Seq<char>)>) -> Seq<Seq<char>> {
    ns.map_values(
        |n: DAGNode<T>| dot_node_line(n.id@, n.name@, no_edge_out_of(e, n.id@), no_edge_into(e, n.id@)),
    )
}

/// The DOT lines of edges, in order.
pub open spec fn dot_edge_lines(es: Seq<DAGEdge>) -> Seq<Seq<char>> {
    es.map_values(|e: DAGEdge| dot_edge_line(e))
}

/// The Mermaid line of a node of a layer.
pub open spec fn mermaid_node_line(id: Seq<char>, name: Seq<char>) -> Seq<char> {
    "        "@ + id + "("@ + replaced(name, '"', "'"@) + ")\n"@
}

/// The Mermaid block of layer `i`, whose nodes are `ns`.
pub open spec fn mermaid_layer_block<T>(i: nat, ns: Seq<DAGNode<T>>) -> Seq<char> {
    "    subgraph layer"@ + decimal(i) + " [\"Layer "@ + decimal(i) + "\"]\n"@ + concat_all(
        ns.map_values(|n: DAGNode<T>| mermaid_node_line(n.id@, n.name@)),
    ) + "    end\n\n"@
}

/// The Mermaid line of an edge.
pub open spec fn mermaid_edge_line(e: DAGEdge) -> Seq<char> {
    "    "@ + e.from@ + " --> "@ + e.to@ + "\n"@
}

/// The names of some nodes, in order.
pub open spec fn names_of<T>(ns: Seq<DAGNode<T>>) -> Seq<Seq<char>> {
    ns.map_values(|n: DAGNode<T>| n.name@)
}

/// The console line of layer `i`, whose nodes are `ns`.
pub open spec fn ascii_layer_line<T>(i: nat, ns: Seq<DAGNode<T>>) -> Seq<char> {
    "  Layer "@ + decimal(i) + ": "@ + debug_list(names_of(ns)) + "\n"@
}

impl<T> DAG<T> {
    /// The nodes of each layer, looked up by id.
    pub open spec fn layer_nodes(&self, ls: Seq<Seq<Seq<char>>>) -> Seq<Seq<DAGNode<T>>> {
        ls.map_values(|l: Seq<Seq<char>>| self.nodes_for(l))
    }

    /// The DOT text of the graph.
    pub open spec fn dot_text(&self) -> Seq<char> {
        dot_header() + concat_all(dot_node_lines(self.node_seq(), self.ends())) + "\n"@ + concat_all(
            dot_edge_lines(self.edge_seq()),
        ) + "\n}\n"@
    }

    /// The Mermaid text of the graph, given its layers (empty when there is a cycle).
    pub open spec fn mermaid_text(&self, ls: Seq<Seq<Seq<char>>>) -> Seq<char> {
        "```mermaid\n"@ + "flowchart LR\n"@ + "    direction LR\n\n"@ + concat_all(
            Seq::new(ls.len(), |i: int| mermaid_layer_block(i as nat, self.layer_nodes(ls)[i])),
        ) + concat_all(self.edge_seq().map_values(|e: DAGEdge| mermaid_edge_line(e))) + "```\n"@
    }

    /// The console summary of the graph: counts, roots and leaves by name.
    pub open spec fn ascii_head(&self) -> Seq<char> {
        "DAG Structure:\n"@ + "  Nodes: "@ + decimal(self.node_seq().len()) + "\n"@ + "  Edges: "@ + decimal(
            self.edge_seq().len(),
        ) + "\n"@ + "  Roots: "@ + debug_list(
            names_of(self.node_seq().filter(|n: DAGNode<T>| no_edge_into(self.ends(), n.id@))),
        ) + "\n"@ + "  Leaves: "@ + debug_list(
            names_of(self.node_seq().filter(|n: DAGNode<T>| no_edge_out_of(self.ends(), n.id@))),
        ) + "\n"@
    }

    /// The console text of the layers.
    pub open spec fn ascii_layers(&self, ls: Seq<Seq<Seq<char>>>) -> Seq<char> {
        "\nLayers (nodes in same layer can execute in parallel):\n"@ + concat_all(
            Seq::new(ls.len(), |i: int| ascii_layer_line(i as nat, self.layer_nodes(ls)[i])),
        )
    }
}

impl<T> DAG<T> {
    fn dot_node_text(&self, n: &DAGNode<T>) -> (s: String)
        ensures
            s@ == dot_node_line(n.id@, n.name@, no_edge_out_of(self.ends(), n.id@), no_edge_into(self.ends(), n.id@)),
    {
        let quoted = replace_char(n.name.as_str(), '"', "\\\"");
        let escaped = replace_char(quoted.as_str(), '\n', "\\n");
        let mut label = escaped.clone();
        if escaped != n.id {
            label.append("\n(");
            label.append(n.id.as_str());
            label.append(")");
        }
        let is_leaf = !self.has_outgoing(&n.id);
        let is_root = !self.has_incoming(&n.id);
        let shape = if is_leaf {
            "box"
        } else if is_root {
            "ellipse"
        } else {
            "box"
        };
        let mut s = "    \"".to_owned();
        s.append(n.id.as_str());
        s.append("\" [label=\"");
        s.append(label.as_str());
        s.append("\", shape=");
        s.append(shape);
        s.append("];\n");
        s
    }

    fn dot_edge_text(e: &DAGEdge) -> (s: String)
        ensures
            s@ == dot_edge_line(*e),
    {
        let mut s = "    \"".to_owned();
        s.append(e.from.as_str());
        s.append("\" -> \"");
        s.append(e.to.as_str());
        s.append("\"");
        match &e.label {
            Some(c) => {
                s.append(" [label=\"");
                let esc = replace_char(c.as_str(), '"', "\\\"");
                s.append(esc.as_str());
                s.append("\"]");
            },
            None => {},
        }
        s.append(";\n");
        s
    }

    /// The graph in Graphviz DOT: one line per node, in node order, then one per edge.
    pub fn to_dot(&self) -> (s: String)
        ensures
            s@ == self.dot_text(),
    {
        let mut dot = "digraph DAG {\n".to_owned();
        dot.append("    rankdir=TB;\n");
        dot.append("    node [shape=box, style=rounded];\n");
        dot.append("    edge [arrowhead=normal];\n\n");
        let nodes = self.nodes();
        let ghost lines = dot_node_lines(self.node_seq(), self.ends());
        let mut i: usize = 0;
        while i < nodes.len()
            invariant
                i <= nodes@.len(),
                nodes@ == self.node_seq(),
                lines == dot_node_lines(self.node_seq(), self.ends()),
                dot@ == dot_header() + concat_all(lines.take(i as int)),
            decreases nodes@.len() - i,
        {
            let line = self.dot_node_text(&nodes[i]);
            dot.append(line.as_str());
            proof {
                assert(lines.take(i + 1).drop_last() =~= lines.take(i as int));
                assert(lines.take(i + 1).last() == lines[i as int]);
            }
            i = i + 1;
        }
        proof {
            assert(lines.take(i as int) =~= lines);
        }
        dot.append("\n");
        let edges = self.edges();
        let ghost elines = dot_edge_lines(self.edge_seq());
        let ghost mid = dot@;
        let mut k: usize = 0;
        while k < edges.len()
            invariant
                k <= edges@.len(),
                edges@ == self.edge_seq(),
                elines == dot_edge_lines(self.edge_seq()),
                dot@ == mid + concat_all(elines.take(k as int)),
            decreases edges@.len() - k,
        {
            let line = Self::dot_edge_text(&edges[k]);
            dot.append(line.as_str());
            proof {
                assert(elines.take(k + 1).drop_last() =~= elines.take(k as int));
                assert(elines.take(k + 1).last() == elines[k as int]);
            }
            k = k + 1;
        }
        proof {
            assert(elines.take(k as int) =~= elines);
        }
        dot.append("\n}\n");
        dot
    }

    /// The nodes of a layer of ids, looked up one by one.
    fn layer_refs(&self, layer: &Vec<String>) -> (r: Vec<&DAGNode<T>>)
        requires
            self.wf(),
            forall|i: int| 0 <= i < layer@.len() ==> self.ids().contains(#[trigger] layer@[i]@),
        ensures
            super::dag_impl::deref_all(r@) == self.nodes_for(views_of(layer@)),
    {
        let mut r: Vec<&DAGNode<T>> = Vec::new();
        let mut i: usize = 0;
        while i < layer.len()
            invariant
                i <= layer@.len(),
                self.wf(),
                forall|t: int| 0 <= t < layer@.len() ==> self.ids().contains(#[trigger] layer@[t]@),
                super::dag_impl::deref_all(r@) == self.nodes_for(views_of(layer@).take(i as int)),
            decreases layer@.len() - i,
        {
            let ghost before = r@;
            match self.get_node(layer[i].as_str()) {
                Some(n) => {
                    r.push(n);
                    proof {
                        let lhs = super::dag_impl::deref_all(r@);
                        let rhs = self.nodes_for(views_of(layer@).take(i + 1));
                        assert(views_of(layer@).take(i + 1) =~= views_of(layer@).take(i as int).push(layer@[i as int]@));
                        assert(super::dag_impl::deref_all(before).len() == before.len());
                        assert(lhs.len() == rhs.len());
                        assert forall|t: int| 0 <= t < lhs.len() implies lhs[t] == rhs[t] by {
                            if t < i {
                                assert(lhs[t] == super::dag_impl::deref_all(before)[t]);
                                assert(rhs[t] == self.nodes_for(views_of(layer@).take(i as int))[t]);
                            }
                        }
                        assert(lhs =~= rhs);
                    }
                },
                None => {
                    proof {
                        assert(self.ids().contains(layer@[i as int]@));
                    }
                },
            }
            i = i + 1;
        }
        proof {
            assert(views_of(layer@).take(i as int) =~= views_of(layer@));
        }
        r
    }

    fn mermaid_block_text(i: usize, ns: &Vec<&DAGNode<T>>) -> (s: String)
        ensures
            s@ == mermaid_layer_block(i as nat, super::dag_impl::deref_all(ns@)),
    {
        let mut s = "    subgraph layer".to_owned();
        push_decimal(&mut s, i as u64);
        s.append(" [\"Layer ");
        push_decimal(&mut s, i as u64);
        s.append("\"]\n");
        let ghost lines = super::dag_impl::deref_all(ns@).map_values(|n: DAGNode<T>| mermaid_node_line(n.id@, n.name@));
        let ghost start = s@;
        let mut j: usize = 0;
        while j < ns.len()
            invariant
                j <= ns@.len(),
                lines == super::dag_impl::deref_all(ns@).map_values(|n: DAGNode<T>| mermaid_node_line(n.id@, n.name@)),
                s@ == start + concat_all(lines.take(j as int)),
            decreases ns@.len() - j,
        {
            let n = ns[j];
            s.append("        ");
            s.append(n.id.as_str());
            s.append("(");
            let nm = replace_char(n.name.as_str(), '"', "'");
            s.append(nm.as_str());
            s.append(")\n");
            proof {
                assert(lines.take(j + 1).drop_last() =~= lines.take(j as int));
                assert(lines.take(j + 1).last() == lines[j as int]);
            }
            j = j + 1;
        }
        proof {
            assert(lines.take(j as int) =~= lines);
        }
        s.append("    end\n\n");
        s
    }

    /// The graph as a Mermaid flowchart: one subgraph per layer (none when the edges close
    /// a cycle), then one line per edge.
    pub fn to_mermaid(&self) -> (s: String)
        requires
            self.wf(),
        ensures
            contains_cycle(self.ends()) ==> s@ == self.mermaid_text(Seq::empty()),
            !contains_cycle(self.ends()) ==> exists|ls: Seq<Seq<Seq<char>>>|
                is_layered(self.ids(), self.ends(), ls) && s@ == self.mermaid_text(ls),
    {
        let mut md = "```mermaid\n".to_owned();
        md.append("flowchart LR\n");
        md.append("    direction LR\n\n");
        let ghost start = md@;
        let ghost mut ls: Seq<Seq<Seq<char>>> = Seq::empty();
        match self.compute_layers() {
            Ok(layers) => {
                proof {
                    ls = layer_views(layers@);
                }
                let ghost blocks = Seq::new(ls.len(), |i: int| mermaid_layer_block(i as nat, self.layer_nodes(ls)[i]));
                let mut i: usize = 0;
                while i < layers.len()
                    invariant
                        i <= layers@.len(),
                        self.wf(),
                        ls == layer_views(layers@),
                        is_layered(self.ids(), self.ends(), ls),
                        blocks == Seq::new(ls.len(), |i: int| mermaid_layer_block(i as nat, self.layer_nodes(ls)[i])),
                        md@ == start + concat_all(blocks.take(i as int)),
                    decreases layers@.len() - i,
                {
                    proof {
                        assert forall|t: int| 0 <= t < layers@[i as int]@.len() implies self.ids().contains(#[trigger] layers@[i as int]@[t]@) by {
                            assert(ls[i as int][t] == layers@[i as int]@[t]@);
                        }
                    }
                    let refs = self.layer_refs(&layers[i]);
                    let block = Self::mermaid_block_text(i, &refs);
                    md.append(block.as_str());
                    proof {
                        assert(self.layer_nodes(ls)[i as int] == self.nodes_for(views_of(layers@[i as int]@)));
                        assert(blocks.take(i + 1).drop_last() =~= blocks.take(i as int));
                        assert(blocks.take(i + 1).last() == blocks[i as int]);
                    }
                    i = i + 1;
                }
                proof {
                    assert(blocks.take(i as int) =~= blocks);
                }
            },
            Err(_) => {
                proof {
                    assert(Seq::new(0, |i: int| mermaid_layer_block(i as nat, self.layer_nodes(ls)[i])) =~= Seq::<Seq<char>>::empty());
                }
            },
        }
        let edges = self.edges();
        let ghost elines = self.edge_seq().map_values(|e: DAGEdge| mermaid_edge_line(e));
        let ghost mid = md@;
        let mut k: usize = 0;
        while k < edges.len()
            invariant
                k <= edges@.len(),
                edges@ == self.edge_seq(),
                elines == self.edge_seq().map_values(|e: DAGEdge| mermaid_edge_line(e)),
                md@ == mid + concat_all(elines.take(k as int)),
            decreases edges@.len() - k,
        {
            md.append("    ");
            md.append(edges[k].from.as_str());
            md.append(" --> ");
            md.append(edges[k].to.as_str());
            md.append("\n");
            proof {
                assert(elines.take(k + 1).drop_last() =~= elines.take(k as int));
                assert(elines.take(k + 1).last() == elines[k as int]);
            }
            k = k + 1;
        }
        proof {
            assert(elines.take(k as int) =~= elines);
        }
        md.append("```\n");
        proof {
            if !contains_cycle(self.ends()) {
                assert(is_layered(self.ids(), self.ends(), ls) && md@ == self.mermaid_text(ls));
            }
        }
        md
    }

    /// The names of the given nodes, in order.
    fn names_text(ns: &Vec<&DAGNode<T>>) -> (r: Vec<String>)
        ensures
            views_of(r@) == names_of(super::dag_impl::deref_all(ns@)),
    {
        let mut r: Vec<String> = Vec::new();
        let mut i: usize = 0;
        while i < ns.len()
            invariant
                i <= ns@.len(),
                views_of(r@) == names_of(super::dag_impl::deref_all(ns@).take(i as int)),
            decreases ns@.len() - i,
        {
            let ghost before = r@;
            r.push(ns[i].name.clone());
            proof {
                assert(super::dag_impl::deref_all(ns@).take(i + 1) =~= super::dag_impl::deref_all(ns@).take(i as int).push(*ns@[i as int]));
                assert(views_of(r@) =~= views_of(before).push(ns@[i as int].name@));
                assert(names_of(super::dag_impl::deref_all(ns@).take(i + 1)) =~= names_of(super::dag_impl::deref_all(ns@).take(i as int)).push(ns@[i as int].name@));
            }
            i = i + 1;
        }
        proof {
            assert(super::dag_impl::deref_all(ns@).take(i as int) =~= super::dag_impl::deref_all(ns@));
        }
        r
    }

    /// A short console view: node and edge counts, roots and leaves by name, and the layers
    /// by name when the edges close no cycle.
    pub fn to_ascii(&self) -> (s: String)
        requires
            self.wf(),
        ensures
            contains_cycle(self.ends()) ==> s@ == self.ascii_head(),
            !contains_cycle(self.ends()) ==> exists|ls: Seq<Seq<Seq<char>>>|
                is_layered(self.ids(), self.ends(), ls) && s@ == self.ascii_head() + self.ascii_layers(ls),
    {
        let mut a = "DAG Structure:\n".to_owned();
        a.append("  Nodes: ");
        push_decimal(&mut a, self.node_count() as u64);
        a.append("\n");
        a.append("  Edges: ");
        push_decimal(&mut a, self.edge_count() as u64);
        a.append("\n");
        a.append("  Roots: ");
        let roots = self.roots();
        let root_names = Self::names_text(&roots);
        let listed = debug_list_text(&root_names);
        a.append(listed.as_str());
        a.append("\n");
        a.append("  Leaves: ");
        let leaves = self.leaves();
        let leaf_names = Self::names_text(&leaves);
        let listed = debug_list_text(&leaf_names);
        a.append(listed.as_str());
        a.append("\n");
        let ghost head = a@;
        proof {
            assert(head == self.ascii_head());
        }
        let ghost mut ls: Seq<Seq<Seq<char>>> = Seq::empty();
        match self.compute_layers() {
            Ok(layers) => {
                proof {
                    ls = layer_views(layers@);
                }
                a.append("\nLayers (nodes in same layer can execute in parallel):\n");
                let ghost start = a@;
                let ghost lines = Seq::new(ls.len(), |i: int| ascii_layer_line(i as nat, self.layer_nodes(ls)[i]));
                let mut i: usize = 0;
                while i < layers.len()
                    invariant
                        i <= layers@.len(),
                        self.wf(),
                        ls == layer_views(layers@),
                        is_layered(self.ids(), self.ends(), ls),
                        lines == Seq::new(ls.len(), |i: int| ascii_layer_line(i as nat, self.layer_nodes(ls)[i])),
                        a@ == start + concat_all(lines.take(i as int)),
                    decreases layers@.len() - i,
                {
                    proof {
                        assert forall|t: int| 0 <= t < layers@[i as int]@.len() implies self.ids().contains(#[trigger] layers@[i as int]@[t]@) by {
                            assert(ls[i as int][t] == layers@[i as int]@[t]@);
                        }
                    }
                    let refs = self.layer_refs(&layers[i]);
                    let names = Self::names_text(&refs);
                    a.append("  Layer ");
                    push_decimal(&mut a, i as u64);
                    a.append(": ");
                    let listed = debug_list_text(&names);
                    a.append(listed.as_str());
                    a.append("\n");
                    proof {
                        assert(self.layer_nodes(ls)[i as int] == self.nodes_for(views_of(layers@[i as int]@)));
                        assert(lines.take(i + 1).drop_last() =~= lines.take(i as int));
                        assert(lines.take(i + 1).last() == lines[i as int]);
                    }
                    i = i + 1;
                }
                proof {
                    assert(lines.take(i as int) =~= lines);
                    assert(a@ == self.ascii_head() + self.ascii_layers(ls));
                }
            },
            Err(_) => {},
        }
        a
    }
}

} // verus!
