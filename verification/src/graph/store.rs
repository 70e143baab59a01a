//! A graph's nodes and edges: the backend graph together with the list of
//! node names, which stands in for a map from name to node index.

use crate::graph::backend::{
    backend_components, backend_edge_count, backend_edge_list, backend_edges,
    backend_edges_entering, backend_edges_leaving, backend_nodes, edges_entering, edges_leaving,
    endpoints, index_lists, is_scc_partition, tarjan_components, Backend,
};
use crate::graph::model::{
    edge_indices, has_incoming, has_outgoing, incoming, outgoing, EdgeModel,
};
use crate::graph::EdgeKind;
use crate::names::{find, lemma_sorted_distinct, strictly_sorted};
use vstd::prelude::*;

verus! {

/// Edges given by node indices, as edges between names.
pub open spec fn name_edges(nodes: Seq<Seq<char>>, edges: Seq<(int, int, EdgeKind)>) -> Seq<
    EdgeModel,
> {
    edges.map_values(
        |e: (int, int, EdgeKind)| EdgeModel { source: nodes[e.0], target: nodes[e.1], kind: e.2 },
    )
}

/// Both ends of every edge are indices of nodes.
pub open spec fn edges_in_range(node_count: int, edges: Seq<(int, int, EdgeKind)>) -> bool {
    forall|i: int|
        0 <= i < edges.len() ==> 0 <= (#[trigger] edges[i]).0 < node_count && 0 <= edges[i].1
            < node_count
}

/// What holds of the parts of a store: the backend's nodes carry the names,
/// the names ascend strictly, and every edge joins two nodes.
pub open spec fn parts_fit(names: Seq<Seq<char>>, backend: Backend) -> bool {
    &&& backend_nodes(backend) == names
    &&& strictly_sorted(names)
    &&& edges_in_range(names.len() as int, backend_edges(backend))
}

/// Among strictly ascending names, each name is found at its own index.
pub proof fn lemma_index_of_node(nodes: Seq<Seq<char>>, i: int)
    requires
        strictly_sorted(nodes),
        0 <= i < nodes.len(),
    ensures
        nodes.index_of(nodes[i]) == i,
        nodes.contains(nodes[i]),
{
    lemma_sorted_distinct(nodes);
    let k = nodes.index_of(nodes[i]);
    assert(nodes.contains(nodes[i]));
    assert(0 <= k < nodes.len() && nodes[k] == nodes[i]);
}

/// The edges that leave a node, by index and by name.
pub proof fn lemma_leaving_by_name(nodes: Seq<Seq<char>>, edges: Seq<(int, int, EdgeKind)>, a: int)
    requires
        strictly_sorted(nodes),
        edges_in_range(nodes.len() as int, edges),
        0 <= a < nodes.len(),
    ensures
        outgoing(name_edges(nodes, edges), nodes[a]) == edges_leaving(edges, a).map_values(
            |e: (int, EdgeKind)| EdgeModel { source: nodes[a], target: nodes[e.0], kind: e.1 },
        ),
        forall|k: int|
            0 <= k < edges_leaving(edges, a).len() ==> 0 <= (#[trigger] edges_leaving(
                edges,
                a,
            )[k]).0 < nodes.len(),
    decreases edges.len(),
{
    lemma_sorted_distinct(nodes);
    let f = |e: (int, EdgeKind)| EdgeModel { source: nodes[a], target: nodes[e.0], kind: e.1 };
    if edges.len() > 0 {
        let rest = edges.drop_last();
        lemma_leaving_by_name(nodes, rest, a);
        assert(name_edges(nodes, edges).drop_last() =~= name_edges(nodes, rest));
        assert(name_edges(nodes, edges).last().source == nodes[edges.last().0]);
        if edges.last().0 == a {
            assert(edges_leaving(edges, a).map_values(f) =~= seq![
                name_edges(nodes, edges).last(),
            ] + edges_leaving(rest, a).map_values(f));
        }
    } else {
        assert(edges_leaving(edges, a).map_values(f) =~= Seq::<EdgeModel>::empty());
    }
}

/// The edges that enter a node, by index and by name.
pub proof fn lemma_entering_by_name(
    nodes: Seq<Seq<char>>,
    edges: Seq<(int, int, EdgeKind)>,
    a: int,
)
    requires
        strictly_sorted(nodes),
        edges_in_range(nodes.len() as int, edges),
        0 <= a < nodes.len(),
    ensures
        incoming(name_edges(nodes, edges), nodes[a]) == edges_entering(edges, a).map_values(
            |e: (int, EdgeKind)| EdgeModel { source: nodes[e.0], target: nodes[a], kind: e.1 },
        ),
        forall|k: int|
            0 <= k < edges_entering(edges, a).len() ==> 0 <= (#[trigger] edges_entering(
                edges,
                a,
            )[k]).0 < nodes.len(),
    decreases edges.len(),
{
    lemma_sorted_distinct(nodes);
    let f = |e: (int, EdgeKind)| EdgeModel { source: nodes[e.0], target: nodes[a], kind: e.1 };
    if edges.len() > 0 {
        let rest = edges.drop_last();
        lemma_entering_by_name(nodes, rest, a);
        assert(name_edges(nodes, edges).drop_last() =~= name_edges(nodes, rest));
        assert(name_edges(nodes, edges).last().target == nodes[edges.last().1]);
        if edges.last().1 == a {
            assert(edges_entering(edges, a).map_values(f) =~= seq![
                name_edges(nodes, edges).last(),
            ] + edges_entering(rest, a).map_values(f));
        }
    } else {
        assert(edges_entering(edges, a).map_values(f) =~= Seq::<EdgeModel>::empty());
    }
}

/// A node has an outgoing edge exactly if the list of them is not empty.
pub proof fn lemma_outgoing_some(edges: Seq<EdgeModel>, name: Seq<char>)
    ensures
        has_outgoing(edges, name) <==> outgoing(edges, name).len() > 0,
    decreases edges.len(),
{
    if edges.len() > 0 {
        let rest = edges.drop_last();
        lemma_outgoing_some(rest, name);
        if has_outgoing(edges, name) && edges.last().source != name {
            let i = choose|i: int| 0 <= i < edges.len() && (#[trigger] edges[i]).source == name;
            assert(rest[i].source == name);
        }
        if has_outgoing(rest, name) {
            let i = choose|i: int| 0 <= i < rest.len() && (#[trigger] rest[i]).source == name;
            assert(edges[i].source == name);
        }
        if edges.last().source == name {
            assert(edges[edges.len() - 1].source == name);
        }
    }
}

/// A node has an incoming edge exactly if the list of them is not empty.
pub proof fn lemma_incoming_some(edges: Seq<EdgeModel>, name: Seq<char>)
    ensures
        has_incoming(edges, name) <==> incoming(edges, name).len() > 0,
    decreases edges.len(),
{
    if edges.len() > 0 {
        let rest = edges.drop_last();
        lemma_incoming_some(rest, name);
        if has_incoming(edges, name) && edges.last().target != name {
            let i = choose|i: int| 0 <= i < edges.len() && (#[trigger] edges[i]).target == name;
            assert(rest[i].target == name);
        }
        if has_incoming(rest, name) {
            let i = choose|i: int| 0 <= i < rest.len() && (#[trigger] rest[i]).target == name;
            assert(edges[i].target == name);
        }
        if edges.last().target == name {
            assert(edges[edges.len() - 1].target == name);
        }
    }
}

/// Edges between names give back the indices they were made from.
pub proof fn lemma_edge_indices(nodes: Seq<Seq<char>>, edges: Seq<(int, int, EdgeKind)>)
    requires
        strictly_sorted(nodes),
        edges_in_range(nodes.len() as int, edges),
    ensures
        edge_indices(nodes, name_edges(nodes, edges)) == endpoints(edges),
{
    assert forall|i: int| 0 <= i < edges.len() implies edge_indices(
        nodes,
        name_edges(nodes, edges),
    )[i] == endpoints(edges)[i] by {
        lemma_index_of_node(nodes, edges[i].0);
        lemma_index_of_node(nodes, edges[i].1);
    }
    assert(edge_indices(nodes, name_edges(nodes, edges)) =~= endpoints(edges));
}

/// The nodes and edges of a graph.
#[derive(Debug)]
pub struct GraphStore {
    backend: Backend,
    names: Vec<String>,
}

impl GraphStore {
    #[verifier::type_invariant]
    spec fn fits(&self) -> bool {
        parts_fit(self.names.deep_view(), self.backend)
    }

    /// Node names, strictly ascending.
    pub closed spec fn nodes(&self) -> Seq<Seq<char>> {
        self.names.deep_view()
    }

    /// Edges, in the order in which they were added.
    pub closed spec fn edges(&self) -> Seq<EdgeModel> {
        name_edges(self.names.deep_view(), backend_edges(self.backend))
    }

    /// Joins a backend graph and the names of its nodes.
    pub(crate) fn new(backend: Backend, names: Vec<String>) -> (store: GraphStore)
        requires
            parts_fit(names.deep_view(), backend),
        ensures
            store.nodes() == names.deep_view(),
            store.edges() == name_edges(names.deep_view(), backend_edges(backend)),
    {
        GraphStore { backend, names }
    }

    /// Number of nodes.
    pub fn node_count(&self) -> (n: usize)
        ensures
            n == self.nodes().len(),
    {
        self.names.len()
    }

    /// Number of edges.
    pub fn edge_count(&self) -> (n: usize)
        ensures
            n == self.edges().len(),
    {
        backend_edge_count(&self.backend)
    }

    /// The node names, in ascending order.
    pub fn names(&self) -> (names: &Vec<String>)
        ensures
            names.deep_view() == self.nodes(),
            strictly_sorted(self.nodes()),
    {
        proof {
            use_type_invariant(self);
        }
        &self.names
    }

    /// The name of the node with the given index.
    pub fn name(&self, index: usize) -> (name: &String)
        requires
            index < self.nodes().len(),
        ensures
            name@ == self.nodes()[index as int],
    {
        &self.names[index]
    }

    /// The index of the node with the given name. A name that no node has is
    /// at no end of an edge.
    pub fn find(&self, name: &str) -> (r: Option<usize>)
        ensures
            match r {
                Some(i) => i < self.nodes().len() && self.nodes()[i as int] == name@,
                None => {
                    &&& !self.nodes().contains(name@)
                    &&& !has_outgoing(self.edges(), name@)
                    &&& !has_incoming(self.edges(), name@)
                },
            },
    {
        proof {
            use_type_invariant(self);
            let nodes = self.names.deep_view();
            let idx = backend_edges(self.backend);
            let named = name_edges(nodes, idx);
            if has_outgoing(named, name@) {
                let i = choose|i: int| 0 <= i < named.len() && (#[trigger] named[i]).source == name@;
                assert(nodes[idx[i].0] == name@);
            }
            if has_incoming(named, name@) {
                let i = choose|i: int| 0 <= i < named.len() && (#[trigger] named[i]).target == name@;
                assert(nodes[idx[i].1] == name@);
            }
        }
        find(&self.names, name)
    }

    /// All edges in the order in which they were added, each as the indices
    /// of its source and its target and its kind.
    pub fn edge_list(&self) -> (list: Vec<(usize, usize, EdgeKind)>)
        ensures
            list.len() == self.edges().len(),
            forall|i: int|
                0 <= i < list.len() ==> {
                    &&& (#[trigger] list[i]).0 < self.nodes().len()
                    &&& list[i].1 < self.nodes().len()
                    &&& self.edges()[i] == EdgeModel {
                        source: self.nodes()[list[i].0 as int],
                        target: self.nodes()[list[i].1 as int],
                        kind: list[i].2,
                    }
                },
    {
        proof {
            use_type_invariant(self);
        }
        let list = backend_edge_list(&self.backend);
        proof {
            let mapped = list@.map_values(
                |e: (usize, usize, EdgeKind)| (e.0 as int, e.1 as int, e.2),
            );
            assert forall|i: int| 0 <= i < list.len() implies {
                &&& (#[trigger] list[i]).0 < self.nodes().len()
                &&& list[i].1 < self.nodes().len()
                &&& self.edges()[i] == EdgeModel {
                    source: self.nodes()[list[i].0 as int],
                    target: self.nodes()[list[i].1 as int],
                    kind: list[i].2,
                }
            } by {
                assert(mapped[i] == backend_edges(self.backend)[i]);
            }
        }
        list
    }

    /// The edges that leave a node, the latest first, each as the index of
    /// its target and its kind.
    pub fn leaving(&self, node: usize) -> (list: Vec<(usize, EdgeKind)>)
        requires
            node < self.nodes().len(),
        ensures
            list.len() == outgoing(self.edges(), self.nodes()[node as int]).len(),
            forall|k: int|
                0 <= k < list.len() ==> {
                    &&& (#[trigger] list[k]).0 < self.nodes().len()
                    &&& outgoing(self.edges(), self.nodes()[node as int])[k] == EdgeModel {
                        source: self.nodes()[node as int],
                        target: self.nodes()[list[k].0 as int],
                        kind: list[k].1,
                    }
                },
    {
        proof {
            use_type_invariant(self);
        }
        let list = backend_edges_leaving(&self.backend, node);
        proof {
            let nodes = self.names.deep_view();
            let edges = backend_edges(self.backend);
            lemma_leaving_by_name(nodes, edges, node as int);
            let mapped = list@.map_values(|e: (usize, EdgeKind)| (e.0 as int, e.1));
            assert forall|k: int| 0 <= k < list.len() implies {
                &&& (#[trigger] list[k]).0 < self.nodes().len()
                &&& outgoing(self.edges(), self.nodes()[node as int])[k] == EdgeModel {
                    source: self.nodes()[node as int],
                    target: self.nodes()[list[k].0 as int],
                    kind: list[k].1,
                }
            } by {
                assert(mapped[k] == edges_leaving(edges, node as int)[k]);
            }
            assert(mapped.len() == list.len());
        }
        list
    }

    /// The edges that enter a node, the latest first, each as the index of
    /// its source and its kind.
    pub fn entering(&self, node: usize) -> (list: Vec<(usize, EdgeKind)>)
        requires
            node < self.nodes().len(),
        ensures
            list.len() == incoming(self.edges(), self.nodes()[node as int]).len(),
            forall|k: int|
                0 <= k < list.len() ==> {
                    &&& (#[trigger] list[k]).0 < self.nodes().len()
                    &&& incoming(self.edges(), self.nodes()[node as int])[k] == EdgeModel {
                        source: self.nodes()[list[k].0 as int],
                        target: self.nodes()[node as int],
                        kind: list[k].1,
                    }
                },
    {
        proof {
            use_type_invariant(self);
        }
        let list = backend_edges_entering(&self.backend, node);
        proof {
            let nodes = self.names.deep_view();
            let edges = backend_edges(self.backend);
            lemma_entering_by_name(nodes, edges, node as int);
            let mapped = list@.map_values(|e: (usize, EdgeKind)| (e.0 as int, e.1));
            assert forall|k: int| 0 <= k < list.len() implies {
                &&& (#[trigger] list[k]).0 < self.nodes().len()
                &&& incoming(self.edges(), self.nodes()[node as int])[k] == EdgeModel {
                    source: self.nodes()[list[k].0 as int],
                    target: self.nodes()[node as int],
                    kind: list[k].1,
                }
            } by {
                assert(mapped[k] == edges_entering(edges, node as int)[k]);
            }
            assert(mapped.len() == list.len());
        }
        list
    }

    /// The strongly connected components, each as the indices of its nodes.
    pub fn components(&self) -> (comps: Vec<Vec<usize>>)
        ensures
            index_lists(comps@) == tarjan_components(
                self.nodes().len(),
                edge_indices(self.nodes(), self.edges()),
            ),
            is_scc_partition(
                self.nodes().len(),
                edge_indices(self.nodes(), self.edges()),
                index_lists(comps@),
            ),
            forall|c: int, i: int|
                0 <= c < comps.len() && 0 <= i < comps[c].len() ==> (#[trigger] comps[c][i])
                    < self.nodes().len(),
    {
        proof {
            use_type_invariant(self);
            lemma_edge_indices(self.names.deep_view(), backend_edges(self.backend));
        }
        let comps = backend_components(&self.backend);
        proof {
            let lists = index_lists(comps@);
            assert forall|c: int, i: int|
                0 <= c < comps.len() && 0 <= i < comps[c].len() implies (#[trigger] comps[c][i])
                < self.nodes().len() by {
                assert(lists[c] == comps[c]@.map_values(|i: usize| i as int));
                assert(lists[c][i] == comps[c][i] as int);
            }
        }
        comps
    }
}

} // verus!
