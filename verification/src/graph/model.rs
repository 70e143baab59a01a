//! The mathematical model of a skill graph, and what building one means.

use crate::graph::backend::{is_scc_partition, tarjan_components};
use crate::graph::EdgeKind;
use crate::names::sorted_unique;
use crate::skill::{CrossRefModel, CrossRefsModel, SkillModel, StageModel};
use vstd::prelude::*;

verus! {

/// An edge, from the node named `source` to the node named `target`.
pub struct EdgeModel {
    pub source: Seq<char>,
    pub target: Seq<char>,
    pub kind: EdgeKind,
}

/// A skill graph with its analysis results.
pub struct GraphModel {
    /// Node names, strictly ascending.
    pub nodes: Seq<Seq<char>>,
    /// Edges, in the order in which they were added.
    pub edges: Seq<EdgeModel>,
    /// Strongly connected components of more than one node.
    pub clusters: Seq<Seq<Seq<char>>>,
    /// Nodes that no edge enters.
    pub roots: Seq<Seq<char>>,
    /// Nodes that no edge leaves.
    pub leaves: Seq<Seq<char>>,
    /// Nodes that some edge enters and some edge leaves.
    pub bridges: Seq<Seq<char>>,
}

// ----- names -----

/// The targets of a list of references, in order.
pub open spec fn ref_targets(refs: Seq<CrossRefModel>) -> Seq<Seq<char>> {
    refs.map_values(|r: CrossRefModel| r.target)
}

/// Every name that the cross-references mention: each source, followed by
/// its targets.
pub open spec fn crossref_names(crossrefs: CrossRefsModel) -> Seq<Seq<char>>
    decreases crossrefs.len(),
{
    if crossrefs.len() == 0 {
        Seq::empty()
    } else {
        crossref_names(crossrefs.drop_last()).push(crossrefs.last().0) + ref_targets(
            crossrefs.last().1,
        )
    }
}

/// The names of the skills, in order.
pub open spec fn skill_names(skills: Seq<SkillModel>) -> Seq<Seq<char>> {
    skills.map_values(|s: SkillModel| s.name)
}

/// Every name that becomes a node.
pub open spec fn all_names(crossrefs: CrossRefsModel, skills: Seq<SkillModel>) -> Seq<Seq<char>> {
    crossref_names(crossrefs) + skill_names(skills)
}

// ----- candidate edges -----

/// The edges that the references of `source` ask for.
pub open spec fn ref_candidates(source: Seq<char>, refs: Seq<CrossRefModel>) -> Seq<EdgeModel> {
    refs.map_values(
        |r: CrossRefModel| EdgeModel { source, target: r.target, kind: EdgeKind::CrossRef },
    )
}

/// The edges that the cross-references ask for, in order.
pub open spec fn crossref_candidates(crossrefs: CrossRefsModel) -> Seq<EdgeModel>
    decreases crossrefs.len(),
{
    if crossrefs.len() == 0 {
        Seq::empty()
    } else {
        crossref_candidates(crossrefs.drop_last()) + ref_candidates(
            crossrefs.last().0,
            crossrefs.last().1,
        )
    }
}

/// An `after` list: the skill depends on each name, so an edge leads from
/// the skill to the name.
pub open spec fn after_candidates(skill: Seq<char>, deps: Option<Seq<Seq<char>>>) -> Seq<
    EdgeModel,
> {
    match deps {
        Some(d) => d.map_values(
            |n: Seq<char>| EdgeModel { source: skill, target: n, kind: EdgeKind::Pipeline },
        ),
        None => Seq::empty(),
    }
}

/// A `before` list: each name depends on the skill, so an edge leads from
/// the name to the skill.
pub open spec fn before_candidates(skill: Seq<char>, deps: Option<Seq<Seq<char>>>) -> Seq<
    EdgeModel,
> {
    match deps {
        Some(d) => d.map_values(
            |n: Seq<char>| EdgeModel { source: n, target: skill, kind: EdgeKind::Pipeline },
        ),
        None => Seq::empty(),
    }
}

/// The edges that one stage asks for: its `after` list, then its `before`
/// list.
pub open spec fn stage_candidates(skill: Seq<char>, stage: StageModel) -> Seq<EdgeModel> {
    after_candidates(skill, stage.after) + before_candidates(skill, stage.before)
}

/// The edges that the stages of one skill ask for, in order of declaration.
pub open spec fn stages_candidates(skill: Seq<char>, stages: Seq<(Seq<char>, StageModel)>) -> Seq<
    EdgeModel,
>
    decreases stages.len(),
{
    if stages.len() == 0 {
        Seq::empty()
    } else {
        stages_candidates(skill, stages.drop_last()) + stage_candidates(skill, stages.last().1)
    }
}

/// The edges that one skill's pipeline declaration asks for.
pub open spec fn skill_candidates(skill: SkillModel) -> Seq<EdgeModel> {
    match skill.frontmatter.pipeline {
        Some(stages) => stages_candidates(skill.name, stages),
        None => Seq::empty(),
    }
}

/// The edges that the pipeline declarations ask for, in the order of the
/// skills.
pub open spec fn pipeline_candidates(skills: Seq<SkillModel>) -> Seq<EdgeModel>
    decreases skills.len(),
{
    if skills.len() == 0 {
        Seq::empty()
    } else {
        pipeline_candidates(skills.drop_last()) + skill_candidates(skills.last())
    }
}

/// All edges asked for: those of the cross-references first.
pub open spec fn candidates(crossrefs: CrossRefsModel, skills: Seq<SkillModel>) -> Seq<EdgeModel> {
    crossref_candidates(crossrefs) + pipeline_candidates(skills)
}

// ----- edges -----

/// Some edge leads from `source` to `target`.
pub open spec fn has_pair(edges: Seq<EdgeModel>, source: Seq<char>, target: Seq<char>) -> bool {
    exists|i: int|
        0 <= i < edges.len() && (#[trigger] edges[i]).source == source && edges[i].target
            == target
}

/// Whether a candidate becomes an edge of a graph that holds `edges` so far:
/// both its ends are nodes, and no edge joins them in its direction yet.
pub open spec fn accepts(nodes: Seq<Seq<char>>, edges: Seq<EdgeModel>, c: EdgeModel) -> bool {
    nodes.contains(c.source) && nodes.contains(c.target) && !has_pair(edges, c.source, c.target)
}

/// The edges that come of the candidates, taken in order: the first candidate
/// for a pair of nodes wins, later ones for the same pair are dropped.
pub open spec fn resolve(nodes: Seq<Seq<char>>, cands: Seq<EdgeModel>) -> Seq<EdgeModel>
    decreases cands.len(),
{
    if cands.len() == 0 {
        Seq::empty()
    } else {
        let prev = resolve(nodes, cands.drop_last());
        if accepts(nodes, prev, cands.last()) {
            prev.push(cands.last())
        } else {
            prev
        }
    }
}

/// The edges that leave the node `name`, the latest first.
pub open spec fn outgoing(edges: Seq<EdgeModel>, name: Seq<char>) -> Seq<EdgeModel>
    decreases edges.len(),
{
    if edges.len() == 0 {
        Seq::empty()
    } else if edges.last().source == name {
        seq![edges.last()] + outgoing(edges.drop_last(), name)
    } else {
        outgoing(edges.drop_last(), name)
    }
}

/// The edges that enter the node `name`, the latest first.
pub open spec fn incoming(edges: Seq<EdgeModel>, name: Seq<char>) -> Seq<EdgeModel>
    decreases edges.len(),
{
    if edges.len() == 0 {
        Seq::empty()
    } else if edges.last().target == name {
        seq![edges.last()] + incoming(edges.drop_last(), name)
    } else {
        incoming(edges.drop_last(), name)
    }
}

// ----- analysis -----

/// Some edge enters the node.
pub open spec fn has_incoming(edges: Seq<EdgeModel>, name: Seq<char>) -> bool {
    exists|i: int| 0 <= i < edges.len() && (#[trigger] edges[i]).target == name
}

/// Some edge leaves the node.
pub open spec fn has_outgoing(edges: Seq<EdgeModel>, name: Seq<char>) -> bool {
    exists|i: int| 0 <= i < edges.len() && (#[trigger] edges[i]).source == name
}

/// A root is a node with in-degree 0.
pub open spec fn is_root(edges: Seq<EdgeModel>, name: Seq<char>) -> bool {
    !has_incoming(edges, name)
}

/// A leaf is a node with out-degree 0.
pub open spec fn is_leaf(edges: Seq<EdgeModel>, name: Seq<char>) -> bool {
    !has_outgoing(edges, name)
}

/// A bridge is a node with both an incoming and an outgoing edge. This is a
/// cheap stand-in for articulation points, and it is meant to be.
pub open spec fn is_bridge(edges: Seq<EdgeModel>, name: Seq<char>) -> bool {
    has_incoming(edges, name) && has_outgoing(edges, name)
}

/// The roots, in node order.
pub open spec fn roots_of(nodes: Seq<Seq<char>>, edges: Seq<EdgeModel>) -> Seq<Seq<char>> {
    nodes.filter(|n: Seq<char>| is_root(edges, n))
}

/// The leaves, in node order.
pub open spec fn leaves_of(nodes: Seq<Seq<char>>, edges: Seq<EdgeModel>) -> Seq<Seq<char>> {
    nodes.filter(|n: Seq<char>| is_leaf(edges, n))
}

/// The bridges, in node order.
pub open spec fn bridges_of(nodes: Seq<Seq<char>>, edges: Seq<EdgeModel>) -> Seq<Seq<char>> {
    nodes.filter(|n: Seq<char>| is_bridge(edges, n))
}

/// Each edge as the indices of its ends in `nodes`.
pub open spec fn edge_indices(nodes: Seq<Seq<char>>, edges: Seq<EdgeModel>) -> Seq<(int, int)> {
    edges.map_values(|e: EdgeModel| (nodes.index_of(e.source), nodes.index_of(e.target)))
}

/// The names of the nodes of one component.
pub open spec fn component_names(nodes: Seq<Seq<char>>, comp: Seq<int>) -> Seq<Seq<char>> {
    comp.map_values(|i: int| nodes[i])
}

/// The clusters among the components: those of more than one node, in the
/// order and with the members in the order in which they are given.
pub open spec fn clusters_of(nodes: Seq<Seq<char>>, comps: Seq<Seq<int>>) -> Seq<Seq<Seq<char>>> {
    comps.filter(|c: Seq<int>| c.len() > 1).map_values(|c: Seq<int>| component_names(nodes, c))
}

/// The strongly connected components of the graph, as the backend finds
/// them: each as the indices of its nodes.
pub open spec fn components_of(nodes: Seq<Seq<char>>, edges: Seq<EdgeModel>) -> Seq<Seq<int>> {
    tarjan_components(nodes.len(), edge_indices(nodes, edges))
}

/// The components that the backend finds are the strongly connected
/// components. This is known of every graph that was built, on the word of
/// the backend.
pub open spec fn components_sound(nodes: Seq<Seq<char>>, edges: Seq<EdgeModel>) -> bool {
    is_scc_partition(nodes.len(), edge_indices(nodes, edges), components_of(nodes, edges))
}

/// The graph of these nodes and edges, analysed.
pub open spec fn analysed(nodes: Seq<Seq<char>>, edges: Seq<EdgeModel>) -> GraphModel {
    GraphModel {
        nodes,
        edges,
        clusters: clusters_of(nodes, components_of(nodes, edges)),
        roots: roots_of(nodes, edges),
        leaves: leaves_of(nodes, edges),
        bridges: bridges_of(nodes, edges),
    }
}

/// The nodes of the graph built from these inputs.
pub open spec fn built_nodes(crossrefs: CrossRefsModel, skills: Seq<SkillModel>) -> Seq<Seq<char>> {
    sorted_unique(all_names(crossrefs, skills))
}

/// The edges of the graph built from these inputs.
pub open spec fn built_edges(crossrefs: CrossRefsModel, skills: Seq<SkillModel>) -> Seq<EdgeModel> {
    resolve(built_nodes(crossrefs, skills), candidates(crossrefs, skills))
}

/// The graph built from cross-references and skill records.
pub open spec fn built(crossrefs: CrossRefsModel, skills: Seq<SkillModel>) -> GraphModel {
    analysed(built_nodes(crossrefs, skills), built_edges(crossrefs, skills))
}

} // verus!
