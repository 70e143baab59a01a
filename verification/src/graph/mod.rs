//! The dependency graph: model, construction, analysis and export.

use crate::graph::analysis::{detect_clusters, find_bridges, find_leaves, find_roots};
use crate::graph::assemble::assemble_store;
use crate::graph::model::{
    built, components_sound, incoming, outgoing, EdgeModel, GraphModel,
};
use crate::graph::store::{lemma_incoming_some, lemma_outgoing_some, GraphStore};
use crate::skill::{CrossRefs, Skill};
use vstd::prelude::*;

pub mod analysis;
pub mod assemble;
pub mod backend;
pub mod clusters;
pub mod export;
pub mod filter;
pub mod laws;
pub mod model;
pub mod roundtrip;
pub mod store;

verus! {

/// Edge type in the skill graph.
#[derive(Debug, Clone, Copy, PartialEq, Eq, Structural)]
pub enum EdgeKind {
    /// Detected from content cross-references.
    CrossRef,
    /// Declared in pipeline after/before fields.
    Pipeline,
}

impl DeepView for EdgeKind {
    type V = EdgeKind;

    open spec fn deep_view(&self) -> EdgeKind {
        *self
    }
}

/// A skill dependency graph with analysis results.
///
/// The nodes and edges are fixed when the graph is built. The analysis
/// results are plain lists that a report or a user interface reads.
#[derive(Debug)]
pub struct SkillGraph {
    /// Nodes and edges.
    pub store: GraphStore,
    /// Detected clusters (strongly connected components).
    pub clusters: Vec<Vec<String>>,
    /// Root skills (no incoming edges).
    pub roots: Vec<String>,
    /// Leaf skills (no outgoing edges).
    pub leaves: Vec<String>,
    /// Bridge skills (both incoming and outgoing edges).
    pub bridges: Vec<String>,
}

/// The other end and the kind of each edge that leaves a node.
pub open spec fn target_list(edges: Seq<EdgeModel>) -> Seq<(Seq<char>, EdgeKind)> {
    edges.map_values(|e: EdgeModel| (e.target, e.kind))
}

/// The other end and the kind of each edge that enters a node.
pub open spec fn source_list(edges: Seq<EdgeModel>) -> Seq<(Seq<char>, EdgeKind)> {
    edges.map_values(|e: EdgeModel| (e.source, e.kind))
}

impl View for SkillGraph {
    type V = GraphModel;

    open spec fn view(&self) -> GraphModel {
        GraphModel {
            nodes: self.nodes(),
            edges: self.edges(),
            clusters: self.clusters.deep_view(),
            roots: self.roots.deep_view(),
            leaves: self.leaves.deep_view(),
            bridges: self.bridges.deep_view(),
        }
    }
}

impl SkillGraph {
    /// Node names, strictly ascending.
    pub open spec fn nodes(&self) -> Seq<Seq<char>> {
        self.store.nodes()
    }

    /// Edges, in the order in which they were added.
    pub open spec fn edges(&self) -> Seq<EdgeModel> {
        self.store.edges()
    }

    /// Build a skill graph from cross-reference data and skill metadata.
    ///
    /// Every name that the inputs mention becomes a node. The references
    /// are taken in order, then the pipeline declarations; of several
    /// candidates for one pair of nodes the first becomes the edge.
    pub fn from_skills(crossrefs: &CrossRefs, skills: &[Skill]) -> (graph: SkillGraph)
        ensures
            graph@ == built(crossrefs.deep_view(), skills.deep_view()),
            components_sound(graph@.nodes, graph@.edges),
    {
        let mut listed: Vec<&Skill> = Vec::new();
        let mut i: usize = 0;
        while i < skills.len()
            invariant
                i <= skills.len(),
                listed.deep_view() == skills.deep_view().take(i as int),
            decreases skills.len() - i,
        {
            let ghost before = listed.deep_view();
            listed.push(&skills[i]);
            assert(listed.deep_view() =~= before.push(skills[i as int].deep_view()));
            assert(listed.deep_view() =~= skills.deep_view().take(i + 1));
            i += 1;
        }
        assert(skills.deep_view().take(i as int) =~= skills.deep_view());
        SkillGraph::from_parts(crossrefs, &listed)
    }

    /// Builds the graph of cross-references and listed skills.
    pub(crate) fn from_parts(crossrefs: &CrossRefs, skills: &Vec<&Skill>) -> (graph: SkillGraph)
        ensures
            graph@ == built(crossrefs.deep_view(), skills.deep_view()),
            components_sound(graph@.nodes, graph@.edges),
    {
        let store = assemble_store(crossrefs, skills);
        let clusters = detect_clusters(&store);
        let roots = find_roots(&store);
        let leaves = find_leaves(&store);
        let bridges = find_bridges(&store);
        SkillGraph { store, clusters, roots, leaves, bridges }
    }

    /// Build a skill graph from cross-reference data only.
    pub fn from_crossrefs(crossrefs: &CrossRefs) -> (graph: SkillGraph)
        ensures
            graph@ == built(crossrefs.deep_view(), Seq::empty()),
            components_sound(graph@.nodes, graph@.edges),
    {
        let none: Vec<&Skill> = Vec::new();
        assert(none.deep_view() =~= Seq::empty());
        SkillGraph::from_parts(crossrefs, &none)
    }

    /// Number of nodes.
    pub fn node_count(&self) -> (n: usize)
        ensures
            n == self@.nodes.len(),
    {
        self.store.node_count()
    }

    /// Number of edges.
    pub fn edge_count(&self) -> (n: usize)
        ensures
            n == self@.edges.len(),
    {
        self.store.edge_count()
    }

    /// The names of all nodes, in ascending order.
    pub fn node_names(&self) -> (names: Vec<String>)
        ensures
            names.deep_view() == self@.nodes,
    {
        let mut names: Vec<String> = Vec::new();
        let n = self.store.node_count();
        let mut i: usize = 0;
        while i < n
            invariant
                i <= n,
                n == self.nodes().len(),
                names.deep_view() == self.nodes().take(i as int),
            decreases n - i,
        {
            let ghost before = names.deep_view();
            names.push(self.store.name(i).clone());
            assert(names.deep_view() =~= before.push(self.nodes()[i as int]));
            assert(names.deep_view() =~= self.nodes().take(i + 1));
            i += 1;
        }
        assert(self.nodes().take(i as int) =~= self.nodes());
        names
    }

    /// The edges that leave the node `name`, the latest first: the target
    /// and the kind of each. `None` if no node has this name.
    pub fn edges_from(&self, name: &str) -> (r: Option<Vec<(String, EdgeKind)>>)
        ensures
            r is Some <==> self@.nodes.contains(name@),
            r matches Some(list) ==> list.deep_view() == target_list(
                outgoing(self@.edges, name@),
            ),
            r is None ==> outgoing(self@.edges, name@).len() == 0,
    {
        let node = match self.store.find(name) {
            Some(node) => node,
            None => {
                proof {
                    lemma_outgoing_some(self.store.edges(), name@);
                }
                return None;
            },
        };
        let found = self.store.leaving(node);
        let ghost wanted = target_list(outgoing(self.edges(), name@));
        let mut list: Vec<(String, EdgeKind)> = Vec::new();
        let mut k: usize = 0;
        while k < found.len()
            invariant
                k <= found.len(),
                node < self.store.nodes().len(),
                self.store.nodes()[node as int] == name@,
                wanted == target_list(outgoing(self.edges(), name@)),
                found.len() == outgoing(self.store.edges(), name@).len(),
                forall|k: int|
                    0 <= k < found.len() ==> {
                        &&& (#[trigger] found[k]).0 < self.store.nodes().len()
                        &&& outgoing(self.store.edges(), name@)[k] == EdgeModel {
                            source: name@,
                            target: self.store.nodes()[found[k].0 as int],
                            kind: found[k].1,
                        }
                    },
                list.deep_view() == wanted.take(k as int),
            decreases found.len() - k,
        {
            let ghost before = list.deep_view();
            list.push((self.store.name(found[k].0).clone(), found[k].1));
            assert(list.deep_view() =~= before.push(
                (self.store.nodes()[found[k as int].0 as int], found[k as int].1),
            ));
            assert(list.deep_view() =~= wanted.take(k + 1));
            k += 1;
        }
        assert(wanted.take(k as int) =~= wanted);
        Some(list)
    }

    /// The edges that enter the node `name`, the latest first: the source
    /// and the kind of each. `None` if no node has this name.
    pub fn edges_to(&self, name: &str) -> (r: Option<Vec<(String, EdgeKind)>>)
        ensures
            r is Some <==> self@.nodes.contains(name@),
            r matches Some(list) ==> list.deep_view() == source_list(
                incoming(self@.edges, name@),
            ),
            r is None ==> incoming(self@.edges, name@).len() == 0,
    {
        let node = match self.store.find(name) {
            Some(node) => node,
            None => {
                proof {
                    lemma_incoming_some(self.store.edges(), name@);
                }
                return None;
            },
        };
        let found = self.store.entering(node);
        let ghost wanted = source_list(incoming(self.edges(), name@));
        let mut list: Vec<(String, EdgeKind)> = Vec::new();
        let mut k: usize = 0;
        while k < found.len()
            invariant
                k <= found.len(),
                node < self.store.nodes().len(),
                self.store.nodes()[node as int] == name@,
                wanted == source_list(incoming(self.edges(), name@)),
                found.len() == incoming(self.store.edges(), name@).len(),
                forall|k: int|
                    0 <= k < found.len() ==> {
                        &&& (#[trigger] found[k]).0 < self.store.nodes().len()
                        &&& incoming(self.store.edges(), name@)[k] == EdgeModel {
                            source: self.store.nodes()[found[k].0 as int],
                            target: name@,
                            kind: found[k].1,
                        }
                    },
                list.deep_view() == wanted.take(k as int),
            decreases found.len() - k,
        {
            let ghost before = list.deep_view();
            list.push((self.store.name(found[k].0).clone(), found[k].1));
            assert(list.deep_view() =~= before.push(
                (self.store.nodes()[found[k as int].0 as int], found[k as int].1),
            ));
            assert(list.deep_view() =~= wanted.take(k + 1));
            k += 1;
        }
        assert(wanted.take(k as int) =~= wanted);
        Some(list)
    }
}

} // verus!
