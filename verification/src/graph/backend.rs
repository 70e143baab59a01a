//! The `petgraph` graph that stores nodes and edges, and what this library
//! takes for granted about it. Nothing in this file is proved: each contract
//! restates what `petgraph` documents or what its source shows.

use crate::graph::EdgeKind;
use petgraph::graph::NodeIndex;
use petgraph::visit::EdgeRef;
use vstd::prelude::*;

verus! {

/// `petgraph::graph::Graph`, whose fields are hidden from the verifier.
#[verifier::external_type_specification]
#[verifier::external_body]
#[verifier::reject_recursive_types(N)]
#[verifier::reject_recursive_types(E)]
#[verifier::reject_recursive_types(Ty)]
#[verifier::reject_recursive_types(Ix)]
pub struct ExGraph<N, E, Ty, Ix>(petgraph::graph::Graph<N, E, Ty, Ix>);

/// `petgraph::Directed`, the marker of graphs with directed edges.
#[verifier::external_type_specification]
#[verifier::external_body]
pub struct ExDirected(petgraph::Directed);

/// A directed graph of named nodes and typed edges. Indices are `usize`, so
/// that adding a node or an edge never meets a limit of the index type.
pub type Backend = petgraph::graph::Graph<String, EdgeKind, petgraph::Directed, usize>;

/// The node weights of a graph, in the order of the node indices.
pub uninterp spec fn backend_nodes(g: Backend) -> Seq<Seq<char>>;

/// The edges of a graph in the order of the edge indices, which is the order
/// in which they were added: source index, target index, weight.
pub uninterp spec fn backend_edges(g: Backend) -> Seq<(int, int, EdgeKind)>;

/// What `petgraph::algo::tarjan_scc` returns for a directed graph with
/// `node_count` nodes and these edges (source index, target index), added in
/// this order: each component as the list of its node indices.
pub uninterp spec fn tarjan_components(node_count: nat, edges: Seq<(int, int)>) -> Seq<Seq<int>>;

/// Source and target of each edge.
pub open spec fn endpoints(edges: Seq<(int, int, EdgeKind)>) -> Seq<(int, int)> {
    edges.map_values(|e: (int, int, EdgeKind)| (e.0, e.1))
}

/// The edges that leave node `a`, the latest first: target and weight.
pub open spec fn edges_leaving(edges: Seq<(int, int, EdgeKind)>, a: int) -> Seq<(int, EdgeKind)>
    decreases edges.len(),
{
    if edges.len() == 0 {
        Seq::empty()
    } else if edges.last().0 == a {
        seq![(edges.last().1, edges.last().2)] + edges_leaving(edges.drop_last(), a)
    } else {
        edges_leaving(edges.drop_last(), a)
    }
}

/// The edges that enter node `a`, the latest first: source and weight.
pub open spec fn edges_entering(edges: Seq<(int, int, EdgeKind)>, a: int) -> Seq<(int, EdgeKind)>
    decreases edges.len(),
{
    if edges.len() == 0 {
        Seq::empty()
    } else if edges.last().1 == a {
        seq![(edges.last().0, edges.last().2)] + edges_entering(edges.drop_last(), a)
    } else {
        edges_entering(edges.drop_last(), a)
    }
}

/// A walk along edges: each node of `path` has an edge to the next.
pub open spec fn is_walk(edges: Seq<(int, int)>, path: Seq<int>) -> bool {
    &&& path.len() > 0
    &&& forall|k: int| 0 <= k < path.len() - 1 ==> edges.contains((#[trigger] path[k], path[k + 1]))
}

/// There is a walk from `a` to `b`; every node reaches itself.
pub open spec fn reaches(edges: Seq<(int, int)>, a: int, b: int) -> bool {
    exists|path: Seq<int>| is_walk(edges, path) && path.first() == a && path.last() == b
}

/// Some component holds node `v`.
pub open spec fn lists_node(comps: Seq<Seq<int>>, v: int) -> bool {
    exists|c: int, i: int|
        0 <= c < comps.len() && 0 <= i < comps[c].len() && #[trigger] comps[c][i] == v
}

/// Every node stands in one of the lists, once, and the lists hold nothing
/// else.
pub open spec fn lists_each_node_once(node_count: nat, comps: Seq<Seq<int>>) -> bool {
    &&& forall|c: int, i: int|
        0 <= c < comps.len() && 0 <= i < comps[c].len() ==> 0 <= #[trigger] comps[c][i]
            < node_count
    &&& forall|v: int| 0 <= v < node_count ==> #[trigger] lists_node(comps, v)
    &&& forall|c: int, i: int, d: int, j: int|
        0 <= c < comps.len() && 0 <= i < comps[c].len() && 0 <= d < comps.len() && 0 <= j
            < comps[d].len() && #[trigger] comps[c][i] == #[trigger] comps[d][j] ==> c == d && i
            == j
}

/// Two nodes stand in the same list exactly when each reaches the other.
pub open spec fn joins_mutually_reachable(edges: Seq<(int, int)>, comps: Seq<Seq<int>>) -> bool {
    forall|c: int, i: int, d: int, j: int|
        0 <= c < comps.len() && 0 <= i < comps[c].len() && 0 <= d < comps.len() && 0 <= j
            < comps[d].len() ==> (c == d <==> reaches(
            edges,
            #[trigger] comps[c][i],
            #[trigger] comps[d][j],
        ) && reaches(edges, comps[d][j], comps[c][i]))
}

/// `comps` lists the strongly connected components of the graph: every node
/// stands in one component, once, and two nodes stand in the same component
/// exactly when each reaches the other.
pub open spec fn is_scc_partition(
    node_count: nat,
    edges: Seq<(int, int)>,
    comps: Seq<Seq<int>>,
) -> bool {
    lists_each_node_once(node_count, comps) && joins_mutually_reachable(edges, comps)
}

/// Lists of indices as sequences of integers.
pub open spec fn index_lists(lists: Seq<Vec<usize>>) -> Seq<Seq<int>> {
    lists.map_values(|l: Vec<usize>| l@.map_values(|i: usize| i as int))
}

/// `Graph::default`: an empty graph.
#[verifier::external_body]
pub(crate) fn backend_new() -> (g: Backend)
    ensures
        backend_nodes(g) == Seq::<Seq<char>>::empty(),
        backend_edges(g) == Seq::<(int, int, EdgeKind)>::empty(),
{
    Backend::default()
}

/// `Graph::add_node`: the node is added behind the others, and its index,
/// which is returned, is the number of nodes before the call. With `usize`
/// indices the outside function has no limit to panic at.
#[verifier::external_body]
pub(crate) fn backend_add_node(g: &mut Backend, name: String) -> (index: usize)
    ensures
        backend_nodes(*final(g)) == backend_nodes(*old(g)).push(name@),
        backend_edges(*final(g)) == backend_edges(*old(g)),
        index == backend_nodes(*old(g)).len(),
{
    g.add_node(name).index()
}

/// `Graph::add_edge`: the edge is added behind the others, parallel edges
/// included. The outside function panics if one of the nodes does not exist.
#[verifier::external_body]
pub(crate) fn backend_add_edge(g: &mut Backend, source: usize, target: usize, kind: EdgeKind)
    requires
        source < backend_nodes(*old(g)).len(),
        target < backend_nodes(*old(g)).len(),
    ensures
        backend_nodes(*final(g)) == backend_nodes(*old(g)),
        backend_edges(*final(g)) == backend_edges(*old(g)).push(
            (source as int, target as int, kind),
        ),
{
    g.add_edge(NodeIndex::new(source), NodeIndex::new(target), kind);
}

/// `Graph::edge_count`: the number of edges.
#[verifier::external_body]
pub(crate) fn backend_edge_count(g: &Backend) -> (count: usize)
    ensures
        count == backend_edges(*g).len(),
{
    g.edge_count()
}

/// `Graph::edge_references`: all edges in the order of their indices, each
/// handed out as source index, target index and weight.
#[verifier::external_body]
pub(crate) fn backend_edge_list(g: &Backend) -> (list: Vec<(usize, usize, EdgeKind)>)
    ensures
        list@.map_values(|e: (usize, usize, EdgeKind)| (e.0 as int, e.1 as int, e.2))
            == backend_edges(*g),
{
    g.edge_references().map(|e| (e.source().index(), e.target().index(), *e.weight())).collect()
}

/// `Graph::edges_directed` with `Outgoing`: the edges that leave `node`, the
/// most recently added first, each handed out as target index and weight.
#[verifier::external_body]
pub(crate) fn backend_edges_leaving(g: &Backend, node: usize) -> (list: Vec<(usize, EdgeKind)>)
    ensures
        list@.map_values(|e: (usize, EdgeKind)| (e.0 as int, e.1)) == edges_leaving(
            backend_edges(*g),
            node as int,
        ),
{
    g.edges_directed(NodeIndex::new(node), petgraph::Direction::Outgoing).map(
        |e| (e.target().index(), *e.weight()),
    ).collect()
}

/// `Graph::edges_directed` with `Incoming`: the edges that enter `node`, the
/// most recently added first, each handed out as source index and weight.
#[verifier::external_body]
pub(crate) fn backend_edges_entering(g: &Backend, node: usize) -> (list: Vec<(usize, EdgeKind)>)
    ensures
        list@.map_values(|e: (usize, EdgeKind)| (e.0 as int, e.1)) == edges_entering(
            backend_edges(*g),
            node as int,
        ),
{
    g.edges_directed(NodeIndex::new(node), petgraph::Direction::Incoming).map(
        |e| (e.source().index(), *e.weight()),
    ).collect()
}

/// `petgraph::algo::tarjan_scc`: the strongly connected components, each as
/// the list of its node indices. The order of the components and of the nodes
/// within one follows from the order in which nodes and edges were added.
/// The outside function is recursive: it needs stack in proportion to the
/// longest path that it walks.
#[verifier::external_body]
pub(crate) fn backend_components(g: &Backend) -> (comps: Vec<Vec<usize>>)
    ensures
        index_lists(comps@) == tarjan_components(
            backend_nodes(*g).len(),
            endpoints(backend_edges(*g)),
        ),
        is_scc_partition(
            backend_nodes(*g).len(),
            endpoints(backend_edges(*g)),
            index_lists(comps@),
        ),
{
    petgraph::algo::tarjan_scc(g).into_iter().map(
        |c| c.into_iter().map(|n| n.index()).collect(),
    ).collect()
}

} // verus!
