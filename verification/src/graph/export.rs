//! The four textual exports of a graph.

use crate::graph::assemble::{
    has_index_pair, lemma_index_pair_push, lemma_pair_by_index, pair_key,
};
use crate::graph::model::{has_pair, outgoing, EdgeModel, GraphModel};
use crate::graph::store::{edges_in_range, name_edges};
use crate::graph::{EdgeKind, SkillGraph};
use crate::json::{json_quote, json_string};
use crate::names::{contains, insert_sorted, sorted_unique, strictly_sorted};
use crate::render::{decimal, joined, push_decimal, push_joined};
use std::collections::HashSet;
use vstd::prelude::*;
use vstd::std_specs::iter::IteratorSpec;

verus! {

// ----- graph description language -----

/// The fill colour of a node: by the first role it has among root, leaf and
/// bridge.
pub open spec fn dot_color(g: GraphModel, name: Seq<char>) -> Seq<char> {
    if g.roots.contains(name) {
        "lightblue"@
    } else if g.leaves.contains(name) {
        "lightgreen"@
    } else if g.bridges.contains(name) {
        "orange"@
    } else {
        "white"@
    }
}

/// The declaration of one node.
pub open spec fn dot_node_line(g: GraphModel, name: Seq<char>) -> Seq<char> {
    "  \""@ + name + "\" [fillcolor="@ + dot_color(g, name) + ", style=\"rounded,filled\"];\n"@
}

/// The declarations of the given nodes, in order.
pub open spec fn dot_node_lines(g: GraphModel, nodes: Seq<Seq<char>>) -> Seq<char>
    decreases nodes.len(),
{
    if nodes.len() == 0 {
        Seq::empty()
    } else {
        dot_node_lines(g, nodes.drop_last()) + dot_node_line(g, nodes.last())
    }
}

/// How an edge of the given kind is drawn.
pub open spec fn dot_style(kind: EdgeKind) -> Seq<char> {
    match kind {
        EdgeKind::CrossRef => ""@,
        EdgeKind::Pipeline => " [style=dashed, color=blue]"@,
    }
}

/// The declaration of one edge.
pub open spec fn dot_edge_line(e: EdgeModel) -> Seq<char> {
    "  \""@ + e.source + "\" -> \""@ + e.target + "\""@ + dot_style(e.kind) + ";\n"@
}

/// The declarations of the given edges, in order.
pub open spec fn dot_edge_lines(edges: Seq<EdgeModel>) -> Seq<char>
    decreases edges.len(),
{
    if edges.len() == 0 {
        Seq::empty()
    } else {
        dot_edge_lines(edges.drop_last()) + dot_edge_line(edges.last())
    }
}

/// The graph in the graph description language: a header, one declaration
/// for each node in ascending order of the names, an empty line, one
/// declaration for each edge in the order in which the edges were added.
pub open spec fn dot_text(g: GraphModel) -> Seq<char> {
    "digraph SkillGraph {\n"@ + "  rankdir=LR;\n"@ + "  node [shape=box, style=rounded];\n\n"@
        + dot_node_lines(g, g.nodes) + "\n"@ + dot_edge_lines(g.edges) + "}\n"@
}

impl SkillGraph {
    /// The fill colour of a node.
    fn dot_color_of(&self, name: &str) -> (color: &'static str)
        ensures
            color@ == dot_color(self@, name@),
    {
        if contains(&self.roots, name) {
            "lightblue"
        } else if contains(&self.leaves, name) {
            "lightgreen"
        } else if contains(&self.bridges, name) {
            "orange"
        } else {
            "white"
        }
    }

    /// Export graph as Graphviz DOT format.
    pub fn to_dot(&self) -> (output: String)
        ensures
            output@ == dot_text(self@),
    {
        let ghost g = self@;
        let mut output = String::new();
        output.append("digraph SkillGraph {\n");
        output.append("  rankdir=LR;\n");
        output.append("  node [shape=box, style=rounded];\n\n");
        let ghost head = output@;
        assert(head =~= "digraph SkillGraph {\n"@ + "  rankdir=LR;\n"@
            + "  node [shape=box, style=rounded];\n\n"@);
        let names = self.store.names();
        let mut i: usize = 0;
        assert(head + dot_node_lines(g, g.nodes.take(0)) =~= head);
        while i < names.len()
            invariant
                i <= names.len(),
                g == self@,
                names.deep_view() == g.nodes,
                output@ == head + dot_node_lines(g, g.nodes.take(i as int)),
            decreases names.len() - i,
        {
            let ghost before = dot_node_lines(g, g.nodes.take(i as int));
            let name = names[i].as_str();
            assert(name@ == g.nodes[i as int]);
            let color = self.dot_color_of(name);
            output.append("  \"");
            output.append(name);
            output.append("\" [fillcolor=");
            output.append(color);
            output.append(", style=\"rounded,filled\"];\n");
            proof {
                assert(g.nodes.take(i + 1).drop_last() =~= g.nodes.take(i as int));
                assert(g.nodes.take(i + 1).last() == name@);
                assert(output@ =~= head + (before + dot_node_line(g, name@)));
            }
            i += 1;
        }
        assert(g.nodes.take(i as int) =~= g.nodes);
        output.append("\n");
        let ghost mid = output@;
        let edges = self.store.edge_list();
        let mut k: usize = 0;
        assert(mid + dot_edge_lines(g.edges.take(0)) =~= mid);
        while k < edges.len()
            invariant
                k <= edges.len(),
                g == self@,
                edges.len() == g.edges.len(),
                forall|i: int|
                    0 <= i < edges.len() ==> {
                        &&& (#[trigger] edges[i]).0 < self.store.nodes().len()
                        &&& edges[i].1 < self.store.nodes().len()
                        &&& self.store.edges()[i] == EdgeModel {
                            source: self.store.nodes()[edges[i].0 as int],
                            target: self.store.nodes()[edges[i].1 as int],
                            kind: edges[i].2,
                        }
                    },
                output@ == mid + dot_edge_lines(g.edges.take(k as int)),
            decreases edges.len() - k,
        {
            let ghost before = dot_edge_lines(g.edges.take(k as int));
            let source = self.store.name(edges[k].0);
            let target = self.store.name(edges[k].1);
            let style = match edges[k].2 {
                EdgeKind::CrossRef => "",
                EdgeKind::Pipeline => " [style=dashed, color=blue]",
            };
            output.append("  \"");
            output.append(source.as_str());
            output.append("\" -> \"");
            output.append(target.as_str());
            output.append("\"");
            output.append(style);
            output.append(";\n");
            proof {
                assert(g.edges.take(k + 1).drop_last() =~= g.edges.take(k as int));
                assert(g.edges.take(k + 1).last() == g.edges[k as int]);
                assert(output@ =~= mid + (before + dot_edge_line(g.edges[k as int])));
            }
            k += 1;
        }
        assert(g.edges.take(k as int) =~= g.edges);
        output.append("}\n");
        output
    }
}

// ----- adjacency list -----

/// The targets of a list of edges, in order.
pub open spec fn targets(edges: Seq<EdgeModel>) -> Seq<Seq<char>> {
    edges.map_values(|e: EdgeModel| e.target)
}

/// The names that the node `name` has an edge to, ascending, each once.
pub open spec fn text_targets(g: GraphModel, name: Seq<char>) -> Seq<Seq<char>> {
    sorted_unique(targets(outgoing(g.edges, name)))
}

/// The line of one node: its name and what it has edges to.
pub open spec fn text_line(g: GraphModel, name: Seq<char>) -> Seq<char> {
    name + ": "@ + if text_targets(g, name).len() == 0 {
        "(none)"@
    } else {
        joined(text_targets(g, name), ", "@)
    } + "\n"@
}

/// The lines of the given nodes, in order.
pub open spec fn text_lines(g: GraphModel, nodes: Seq<Seq<char>>) -> Seq<char>
    decreases nodes.len(),
{
    if nodes.len() == 0 {
        Seq::empty()
    } else {
        text_lines(g, nodes.drop_last()) + text_line(g, nodes.last())
    }
}

/// The counts that head the adjacency list.
pub open spec fn text_summary(g: GraphModel) -> Seq<char> {
    "# Skill Dependency Graph\n\n"@ + "Skills: "@ + decimal(g.nodes.len()) + "\n"@ + "Clusters: "@
        + decimal(g.clusters.len()) + "\n"@ + "Roots: "@ + decimal(g.roots.len()) + "\n"@
        + "Leaves: "@ + decimal(g.leaves.len()) + "\n"@ + "Bridges: "@ + decimal(g.bridges.len())
        + "\n\n"@
}

/// The graph as an adjacency list: the counts, then one line for each node
/// in ascending order of the names.
pub open spec fn text_text(g: GraphModel) -> Seq<char> {
    text_summary(g) + "## Dependencies\n\n"@ + text_lines(g, g.nodes)
}

impl SkillGraph {
    /// The names that a node has an edge to, ascending, each once.
    fn sorted_targets(&self, node: usize) -> (list: Vec<String>)
        requires
            node < self@.nodes.len(),
        ensures
            list.deep_view() == text_targets(self@, self@.nodes[node as int]),
    {
        let ghost name = self.store.nodes()[node as int];
        let ghost wanted = targets(outgoing(self.store.edges(), name));
        let found = self.store.leaving(node);
        let mut list: Vec<String> = Vec::new();
        let mut k: usize = 0;
        assert(wanted.take(0) =~= Seq::<Seq<char>>::empty());
        assert(list.deep_view() =~= Seq::<Seq<char>>::empty());
        while k < found.len()
            invariant
                k <= found.len(),
                node < self.store.nodes().len(),
                name == self.store.nodes()[node as int],
                wanted == targets(outgoing(self.store.edges(), name)),
                found.len() == wanted.len(),
                forall|k: int|
                    0 <= k < found.len() ==> {
                        &&& (#[trigger] found[k]).0 < self.store.nodes().len()
                        &&& outgoing(self.store.edges(), name)[k] == EdgeModel {
                            source: name,
                            target: self.store.nodes()[found[k].0 as int],
                            kind: found[k].1,
                        }
                    },
                list.deep_view() == sorted_unique(wanted.take(k as int)),
                strictly_sorted(list.deep_view()),
            decreases found.len() - k,
        {
            insert_sorted(&mut list, self.store.name(found[k].0).as_str());
            proof {
                assert(wanted.take(k + 1).drop_last() =~= wanted.take(k as int));
                assert(wanted.take(k + 1).last() == self.store.nodes()[found[k as int].0 as int]);
            }
            k += 1;
        }
        assert(wanted.take(k as int) =~= wanted);
        list
    }

    /// Export graph as human-readable adjacency list.
    pub fn to_text(&self) -> (output: String)
        ensures
            output@ == text_text(self@),
    {
        let ghost g = self@;
        let mut output = String::new();
        output.append("# Skill Dependency Graph\n\n");
        output.append("Skills: ");
        push_decimal(&mut output, self.store.node_count());
        output.append("\n");
        output.append("Clusters: ");
        push_decimal(&mut output, self.clusters.len());
        output.append("\n");
        output.append("Roots: ");
        push_decimal(&mut output, self.roots.len());
        output.append("\n");
        output.append("Leaves: ");
        push_decimal(&mut output, self.leaves.len());
        output.append("\n");
        output.append("Bridges: ");
        push_decimal(&mut output, self.bridges.len());
        output.append("\n\n");
        assert(output@ =~= text_summary(g));
        output.append("## Dependencies\n\n");
        let ghost head = output@;
        let names = self.store.names();
        let mut i: usize = 0;
        assert(head + text_lines(g, g.nodes.take(0)) =~= head);
        while i < names.len()
            invariant
                i <= names.len(),
                g == self@,
                names.deep_view() == g.nodes,
                output@ == head + text_lines(g, g.nodes.take(i as int)),
            decreases names.len() - i,
        {
            let ghost before = text_lines(g, g.nodes.take(i as int));
            let name = names[i].as_str();
            assert(name@ == g.nodes[i as int]);
            let list = self.sorted_targets(i);
            output.append(name);
            output.append(": ");
            if list.len() == 0 {
                output.append("(none)");
            } else {
                push_joined(&mut output, &list, ", ");
            }
            output.append("\n");
            proof {
                assert(g.nodes.take(i + 1).drop_last() =~= g.nodes.take(i as int));
                assert(g.nodes.take(i + 1).last() == name@);
                assert(output@ =~= head + (before + text_line(g, name@)));
            }
            i += 1;
        }
        assert(g.nodes.take(i as int) =~= g.nodes);
        output
    }
}

// ----- diagram markup -----

/// A name as an identifier of the diagram markup: `-` becomes `_`.
pub open spec fn sanitized(name: Seq<char>) -> Seq<char> {
    name.map_values(
        |c: char|
            if c == '-' {
                '_'
            } else {
                c
            },
    )
}

/// Makes an identifier of the diagram markup from a name, by replacing each
/// `-` with `_`.
pub fn sanitize_mermaid(s: &str) -> (id: String)
    ensures
        id@ == sanitized(s@),
{
    broadcast use vstd::string::group_string_axioms;

    let mut id = String::new();
    let n = s.unicode_len();
    let mut chars = s.chars();
    let mut i: usize = 0;
    assert(s@.skip(0) =~= s@);
    assert(id@ =~= sanitized(s@).take(0));
    loop
        invariant
            chars.obeys_prophetic_iter_laws(),
            chars.decrease() is Some,
            i <= n,
            n == s@.len(),
            chars.remaining() == s@.skip(i as int),
            id@ == sanitized(s@).take(i as int),
        decreases chars.decrease()->0,
    {
        match chars.next() {
            None => {
                assert(sanitized(s@).take(i as int) =~= sanitized(s@));
                return id;
            },
            Some(c) => {
                assert(s@.skip(i as int).len() > 0);
                assert(c == s@[i as int]);
                if c == '-' {
                    proof {
                        reveal_strlit("_");
                    }
                    id.append("_");
                    assert(id@ =~= sanitized(s@).take(i + 1));
                } else {
                    id.append(s.substring_char(i, i + 1));
                    assert(id@ =~= sanitized(s@).take(i + 1));
                }
                assert(s@.skip(i as int).drop_first() =~= s@.skip(i + 1));
                i += 1;
            },
        }
    }
}

/// The arrow for an edge of the given kind.
pub open spec fn mermaid_arrow(kind: EdgeKind) -> Seq<char> {
    match kind {
        EdgeKind::CrossRef => "-->"@,
        EdgeKind::Pipeline => "-.->"@,
    }
}

/// The arrow statement of one edge: each end as its identifier, with the
/// name as label.
pub open spec fn mermaid_line(e: EdgeModel) -> Seq<char> {
    "  "@ + sanitized(e.source) + "["@ + e.source + "] "@ + mermaid_arrow(e.kind) + " "@
        + sanitized(e.target) + "["@ + e.target + "]\n"@
}

/// One arrow statement for each pair of nodes that an edge joins: of
/// several edges from one node to another the first is drawn.
pub open spec fn mermaid_lines(edges: Seq<EdgeModel>) -> Seq<char>
    decreases edges.len(),
{
    if edges.len() == 0 {
        Seq::empty()
    } else if has_pair(edges.drop_last(), edges.last().source, edges.last().target) {
        mermaid_lines(edges.drop_last())
    } else {
        mermaid_lines(edges.drop_last()) + mermaid_line(edges.last())
    }
}

/// The graph as diagram markup.
pub open spec fn mermaid_text(g: GraphModel) -> Seq<char> {
    "graph LR\n"@ + mermaid_lines(g.edges)
}

/// Appends the arrow statement of one edge.
fn push_mermaid_line(out: &mut String, source: &str, target: &str, kind: EdgeKind)
    ensures
        final(out)@ == old(out)@ + mermaid_line(
            EdgeModel { source: source@, target: target@, kind },
        ),
{
    let arrow = match kind {
        EdgeKind::CrossRef => "-->",
        EdgeKind::Pipeline => "-.->",
    };
    let source_id = sanitize_mermaid(source);
    let target_id = sanitize_mermaid(target);
    out.append("  ");
    out.append(source_id.as_str());
    out.append("[");
    out.append(source);
    out.append("] ");
    out.append(arrow);
    out.append(" ");
    out.append(target_id.as_str());
    out.append("[");
    out.append(target);
    out.append("]\n");
    assert(out@ =~= old(out)@ + mermaid_line(
        EdgeModel { source: source@, target: target@, kind },
    ));
}

impl SkillGraph {
    /// Export graph as Mermaid diagram.
    pub fn to_mermaid(&self) -> (output: String)
        ensures
            output@ == mermaid_text(self@),
    {
        broadcast use vstd::std_specs::hash::group_hash_axioms;

        let ghost g = self@;
        let mut output = String::from_str("graph LR\n");
        let ghost head = output@;
        let names = self.store.names();
        let ghost nodes = names.deep_view();
        let edges = self.store.edge_list();
        let ghost idx = edges@.map_values(
            |e: (usize, usize, EdgeKind)| (e.0 as int, e.1 as int, e.2),
        );
        assert(name_edges(nodes, idx) =~= g.edges);
        let mut seen: HashSet<u128> = HashSet::new();
        let mut k: usize = 0;
        assert(head + mermaid_lines(g.edges.take(0)) =~= head);
        while k < edges.len()
            invariant
                k <= edges.len(),
                g == self@,
                nodes == self.store.nodes(),
                strictly_sorted(nodes),
                idx == edges@.map_values(
                    |e: (usize, usize, EdgeKind)| (e.0 as int, e.1 as int, e.2),
                ),
                name_edges(nodes, idx) == g.edges,
                edges_in_range(nodes.len() as int, idx),
                forall|a: usize, b: usize|
                    a < nodes.len() && b < nodes.len() ==> (seen@.contains(pair_key(a, b))
                        <==> #[trigger] has_index_pair(idx.take(k as int), a as int, b as int)),
                output@ == head + mermaid_lines(g.edges.take(k as int)),
            decreases edges.len() - k,
        {
            let ghost before = mermaid_lines(g.edges.take(k as int));
            let ghost done = idx.take(k as int);
            let s = edges[k].0;
            let t = edges[k].1;
            proof {
                assert(idx[k as int] == (s as int, t as int, edges[k as int].2));
                assert(name_edges(nodes, done) =~= g.edges.take(k as int));
                lemma_pair_by_index(nodes, done, s as int, t as int);
                assert(g.edges.take(k + 1).drop_last() =~= g.edges.take(k as int));
                assert(g.edges.take(k + 1).last() == g.edges[k as int]);
                assert(g.edges[k as int] == EdgeModel {
                    source: nodes[s as int],
                    target: nodes[t as int],
                    kind: edges[k as int].2,
                });
            }
            let key: u128 = (s as u128) * 0x1_0000_0000_0000_0000 + (t as u128);
            assert(key == pair_key(s, t));
            if !seen.contains(&key) {
                seen.insert(key);
                push_mermaid_line(
                    &mut output,
                    self.store.name(s).as_str(),
                    self.store.name(t).as_str(),
                    edges[k].2,
                );
                assert(output@ =~= head + (before + mermaid_line(g.edges[k as int])));
            }
            proof {
                let grown = idx.take(k + 1);
                assert(grown =~= done.push(idx[k as int]));
                assert forall|a: usize, b: usize| a < nodes.len() && b < nodes.len() implies (
                seen@.contains(pair_key(a, b)) <==> #[trigger] has_index_pair(
                    grown,
                    a as int,
                    b as int,
                )) by {
                    lemma_index_pair_push(done, idx[k as int], a as int, b as int);
                }
            }
            k += 1;
        }
        assert(g.edges.take(k as int) =~= g.edges);
        output
    }
}

// ----- structured data -----

/// A JSON array of the given items.
pub open spec fn json_array(items: Seq<Seq<char>>) -> Seq<char> {
    "["@ + joined(items, ","@) + "]"@
}

/// `true` or `false`.
pub open spec fn json_bool(b: bool) -> Seq<char> {
    if b {
        "true"@
    } else {
        "false"@
    }
}

/// The record of one node: its name and its role flags.
pub open spec fn json_node(g: GraphModel, name: Seq<char>) -> Seq<char> {
    "{\"id\":"@ + json_string(name) + ",\"is_bridge\":"@ + json_bool(g.bridges.contains(name))
        + ",\"is_leaf\":"@ + json_bool(g.leaves.contains(name)) + ",\"is_root\":"@ + json_bool(
        g.roots.contains(name),
    ) + "}"@
}

/// The kind of an edge as a JSON string.
pub open spec fn json_kind(kind: EdgeKind) -> Seq<char> {
    match kind {
        EdgeKind::CrossRef => "\"crossref\""@,
        EdgeKind::Pipeline => "\"pipeline\""@,
    }
}

/// The record of one edge: kind, source and target.
pub open spec fn json_edge(e: EdgeModel) -> Seq<char> {
    "{\"kind\":"@ + json_kind(e.kind) + ",\"source\":"@ + json_string(e.source)
        + ",\"target\":"@ + json_string(e.target) + "}"@
}

/// The records of the given nodes, in order.
pub open spec fn json_node_items(g: GraphModel, nodes: Seq<Seq<char>>) -> Seq<Seq<char>> {
    nodes.map_values(|n: Seq<char>| json_node(g, n))
}

/// The records of the edges that leave the given nodes: node by node, and
/// for each node the latest edge first.
pub open spec fn json_edge_items(g: GraphModel, nodes: Seq<Seq<char>>) -> Seq<Seq<char>>
    decreases nodes.len(),
{
    if nodes.len() == 0 {
        Seq::empty()
    } else {
        json_edge_items(g, nodes.drop_last()) + outgoing(g.edges, nodes.last()).map_values(
            |e: EdgeModel| json_edge(e),
        )
    }
}

/// One cluster as an array of names.
pub open spec fn json_cluster(cluster: Seq<Seq<char>>) -> Seq<char> {
    json_array(cluster.map_values(|n: Seq<char>| json_string(n)))
}

/// The clusters, each as an array of names.
pub open spec fn json_cluster_items(clusters: Seq<Seq<Seq<char>>>) -> Seq<Seq<char>> {
    clusters.map_values(|c: Seq<Seq<char>>| json_cluster(c))
}

/// The graph as one JSON object without white space, its keys in
/// alphabetical order: the clusters, one record for each edge, one record
/// for each node in ascending order of the names.
pub open spec fn json_text(g: GraphModel) -> Seq<char> {
    "{\"clusters\":"@ + json_array(json_cluster_items(g.clusters)) + ",\"edges\":"@ + json_array(
        json_edge_items(g, g.nodes),
    ) + ",\"nodes\":"@ + json_array(json_node_items(g, g.nodes)) + "}"@
}

/// Appends a JSON array of the given items.
fn push_json_array(out: &mut String, items: &Vec<String>)
    ensures
        final(out)@ == old(out)@ + json_array(items.deep_view()),
{
    out.append("[");
    push_joined(out, items, ",");
    out.append("]");
    assert(out@ =~= old(out)@ + json_array(items.deep_view()));
}

/// The JSON string literals of the given names.
fn json_names(names: &Vec<String>) -> (items: Vec<String>)
    ensures
        items.deep_view() == names.deep_view().map_values(|n: Seq<char>| json_string(n)),
{
    let ghost wanted = names.deep_view().map_values(|n: Seq<char>| json_string(n));
    let mut items: Vec<String> = Vec::new();
    let mut i: usize = 0;
    while i < names.len()
        invariant
            i <= names.len(),
            wanted == names.deep_view().map_values(|n: Seq<char>| json_string(n)),
            items.deep_view() == wanted.take(i as int),
        decreases names.len() - i,
    {
        let ghost before = items.deep_view();
        let item = json_quote(names[i].as_str());
        items.push(item);
        assert(items.deep_view() =~= before.push(json_string(names[i as int]@)));
        assert(items.deep_view() =~= wanted.take(i + 1));
        i += 1;
    }
    assert(wanted.take(i as int) =~= wanted);
    items
}

impl SkillGraph {
    /// The record of one node.
    fn json_node_of(&self, name: &str) -> (item: String)
        ensures
            item@ == json_node(self@, name@),
    {
        let id = json_quote(name);
        let mut item = String::new();
        item.append("{\"id\":");
        item.append(id.as_str());
        item.append(",\"is_bridge\":");
        item.append(if contains(&self.bridges, name) { "true" } else { "false" });
        item.append(",\"is_leaf\":");
        item.append(if contains(&self.leaves, name) { "true" } else { "false" });
        item.append(",\"is_root\":");
        item.append(if contains(&self.roots, name) { "true" } else { "false" });
        item.append("}");
        assert(item@ =~= json_node(self@, name@));
        item
    }

    /// The record of the edge from `source` to `target`.
    fn json_edge_of(source: &str, target: &str, kind: EdgeKind) -> (item: String)
        ensures
            item@ == json_edge(EdgeModel { source: source@, target: target@, kind }),
    {
        let from = json_quote(source);
        let to = json_quote(target);
        let mut item = String::new();
        item.append("{\"kind\":");
        item.append(
            match kind {
                EdgeKind::CrossRef => "\"crossref\"",
                EdgeKind::Pipeline => "\"pipeline\"",
            },
        );
        item.append(",\"source\":");
        item.append(from.as_str());
        item.append(",\"target\":");
        item.append(to.as_str());
        item.append("}");
        assert(item@ =~= json_edge(EdgeModel { source: source@, target: target@, kind }));
        item
    }

    /// Export graph as JSON.
    pub fn to_json(&self) -> (output: String)
        ensures
            output@ == json_text(self@),
    {
        let ghost g = self@;
        let names = self.store.names();
        let mut nodes: Vec<String> = Vec::new();
        let mut edges: Vec<String> = Vec::new();
        let mut i: usize = 0;
        assert(json_node_items(g, g.nodes).take(0) =~= Seq::<Seq<char>>::empty());
        assert(nodes.deep_view() =~= Seq::<Seq<char>>::empty());
        assert(edges.deep_view() =~= json_edge_items(g, g.nodes.take(0)));
        while i < names.len()
            invariant
                i <= names.len(),
                g == self@,
                names.deep_view() == g.nodes,
                nodes.deep_view() == json_node_items(g, g.nodes).take(i as int),
                edges.deep_view() == json_edge_items(g, g.nodes.take(i as int)),
            decreases names.len() - i,
        {
            let ghost nodes_before = nodes.deep_view();
            let name = names[i].as_str();
            assert(name@ == g.nodes[i as int]);
            let item = self.json_node_of(name);
            nodes.push(item);
            assert(nodes.deep_view() =~= nodes_before.push(json_node(g, name@)));
            assert(nodes.deep_view() =~= json_node_items(g, g.nodes).take(i + 1));
            let ghost done = edges.deep_view();
            let ghost wanted = outgoing(g.edges, name@).map_values(|e: EdgeModel| json_edge(e));
            let found = self.store.leaving(i);
            let mut k: usize = 0;
            assert(done + wanted.take(0) =~= done);
            while k < found.len()
                invariant
                    k <= found.len(),
                    g == self@,
                    i < self.store.nodes().len(),
                    name@ == self.store.nodes()[i as int],
                    wanted == outgoing(g.edges, name@).map_values(|e: EdgeModel| json_edge(e)),
                    found.len() == wanted.len(),
                    forall|k: int|
                        0 <= k < found.len() ==> {
                            &&& (#[trigger] found[k]).0 < self.store.nodes().len()
                            &&& outgoing(self.store.edges(), name@)[k] == EdgeModel {
                                source: name@,
                                target: self.store.nodes()[found[k].0 as int],
                                kind: found[k].1,
                            }
                        },
                    edges.deep_view() == done + wanted.take(k as int),
                decreases found.len() - k,
            {
                let ghost edges_before = edges.deep_view();
                let target = self.store.name(found[k].0);
                let item = SkillGraph::json_edge_of(name, target.as_str(), found[k].1);
                edges.push(item);
                assert(edges.deep_view() =~= edges_before.push(wanted[k as int]));
                assert(edges.deep_view() =~= done + wanted.take(k + 1));
                k += 1;
            }
            proof {
                assert(wanted.take(k as int) =~= wanted);
                assert(g.nodes.take(i + 1).drop_last() =~= g.nodes.take(i as int));
                assert(g.nodes.take(i + 1).last() == name@);
            }
            i += 1;
        }
        assert(g.nodes.take(i as int) =~= g.nodes);
        assert(json_node_items(g, g.nodes).take(i as int) =~= json_node_items(g, g.nodes));
        let mut clusters: Vec<String> = Vec::new();
        let ghost listed = json_cluster_items(g.clusters);
        let mut c: usize = 0;
        assert(clusters.deep_view() =~= listed.take(0));
        while c < self.clusters.len()
            invariant
                c <= self.clusters.len(),
                g == self@,
                listed == json_cluster_items(g.clusters),
                clusters.deep_view() == listed.take(c as int),
            decreases self.clusters.len() - c,
        {
            let ghost before = clusters.deep_view();
            let members = json_names(&self.clusters[c]);
            let mut item = String::new();
            push_json_array(&mut item, &members);
            assert(g.clusters[c as int] == self.clusters[c as int].deep_view());
            assert(item@ =~= json_cluster(g.clusters[c as int]));
            clusters.push(item);
            assert(clusters.deep_view() =~= before.push(listed[c as int]));
            assert(clusters.deep_view() =~= listed.take(c + 1));
            c += 1;
        }
        assert(listed.take(c as int) =~= listed);
        let mut output = String::new();
        output.append("{\"clusters\":");
        push_json_array(&mut output, &clusters);
        output.append(",\"edges\":");
        push_json_array(&mut output, &edges);
        output.append(",\"nodes\":");
        push_json_array(&mut output, &nodes);
        output.append("}");
        assert(output@ =~= json_text(g));
        output
    }
}

} // verus!
