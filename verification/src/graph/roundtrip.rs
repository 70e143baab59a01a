//! The subgraph on all nodes: filtering that keeps every node gives back
//! the nodes and, edge for edge, the pairs of nodes that are joined.

use crate::graph::filter::{filtered, kept_crossrefs, kept_refs, kept_skills, ref_to};
use crate::graph::laws::{
    lemma_built_nodes, lemma_resolve_complete, lemma_resolve_sound, pairs_distinct,
};
use crate::graph::model::{
    accepts, all_names, built, built_nodes, candidates, crossref_candidates,
    crossref_names, has_incoming, has_outgoing, has_pair, outgoing, pipeline_candidates,
    ref_candidates, ref_targets, resolve, skill_names, EdgeModel, GraphModel,
};
use crate::graph::EdgeKind;
use crate::names::{lemma_sorted_distinct, lemma_sorted_same_names, strictly_sorted};
use crate::skill::{CrossRefModel, CrossRefsModel, SkillModel};
use vstd::prelude::*;

verus! {

/// The edges join nodes, and no pair of nodes twice.
pub open spec fn well_joined(nodes: Seq<Seq<char>>, edges: Seq<EdgeModel>) -> bool {
    &&& strictly_sorted(nodes)
    &&& pairs_distinct(edges)
    &&& forall|i: int|
        0 <= i < edges.len() ==> nodes.contains((#[trigger] edges[i]).source) && nodes.contains(
            edges[i].target,
        )
}

/// What shortening the list of edges by its last edge does to the edges
/// that leave a node.
proof fn lemma_outgoing_step(edges: Seq<EdgeModel>, name: Seq<char>)
    requires
        edges.len() > 0,
    ensures
        outgoing(edges, name) == if edges.last().source == name {
            seq![edges.last()] + outgoing(edges.drop_last(), name)
        } else {
            outgoing(edges.drop_last(), name)
        },
{
}

/// The edges that leave a node are the edges with that source.
pub proof fn lemma_outgoing_members(edges: Seq<EdgeModel>, name: Seq<char>)
    ensures
        forall|k: int|
            0 <= k < outgoing(edges, name).len() ==> (#[trigger] outgoing(edges, name)[k]).source
                == name && edges.contains(outgoing(edges, name)[k]),
        forall|i: int|
            0 <= i < edges.len() && (#[trigger] edges[i]).source == name ==> outgoing(
                edges,
                name,
            ).contains(edges[i]),
    decreases edges.len(),
{
    if edges.len() > 0 {
        let rest = edges.drop_last();
        let out = outgoing(edges, name);
        let prev = outgoing(rest, name);
        lemma_outgoing_members(rest, name);
        assert forall|k: int| 0 <= k < out.len() implies (#[trigger] out[k]).source == name
            && edges.contains(out[k]) by {
            if edges.last().source == name {
                if k == 0 {
                    assert(edges[edges.len() - 1] == out[0]);
                } else {
                    assert(out[k] == prev[k - 1]);
                    let i = choose|i: int| 0 <= i < rest.len() && rest[i] == prev[k - 1];
                    assert(edges[i] == out[k]);
                }
            } else {
                let i = choose|i: int| 0 <= i < rest.len() && rest[i] == prev[k];
                assert(edges[i] == out[k]);
            }
        }
        assert forall|i: int| 0 <= i < edges.len() && (#[trigger] edges[i]).source
            == name implies out.contains(edges[i]) by {
            if i < rest.len() {
                assert(rest[i] == edges[i]);
                let k = choose|k: int| 0 <= k < prev.len() && prev[k] == edges[i];
                if edges.last().source == name {
                    assert(out[k + 1] == edges[i]);
                } else {
                    assert(out[k] == edges[i]);
                }
            } else {
                assert(out[0] == edges[i]);
            }
        }
    }
}

/// The number of edges that leave one of the first `k` nodes.
pub open spec fn leaving_total(edges: Seq<EdgeModel>, nodes: Seq<Seq<char>>, k: int) -> nat
    decreases k,
{
    if k <= 0 {
        0
    } else {
        leaving_total(edges, nodes, k - 1) + outgoing(edges, nodes[k - 1]).len()
    }
}

/// One more edge is one more edge that leaves a node, if its source is
/// among the nodes counted.
proof fn lemma_leaving_total_push(edges: Seq<EdgeModel>, e: EdgeModel, nodes: Seq<Seq<char>>, k: int)
    requires
        strictly_sorted(nodes),
        0 <= k <= nodes.len(),
    ensures
        leaving_total(edges.push(e), nodes, k) == leaving_total(edges, nodes, k) + if nodes.take(
            k,
        ).contains(e.source) {
            1nat
        } else {
            0nat
        },
    decreases k,
{
    lemma_sorted_distinct(nodes);
    if k > 0 {
        lemma_leaving_total_push(edges, e, nodes, k - 1);
        let grown = edges.push(e);
        assert(grown.drop_last() =~= edges);
        lemma_outgoing_step(grown, nodes[k - 1]);
        let before = nodes.take(k - 1);
        let now = nodes.take(k);
        if before.contains(e.source) {
            let i = choose|i: int| 0 <= i < before.len() && before[i] == e.source;
            assert(now[i] == e.source);
            assert(nodes[i] == e.source);
            assert(nodes[k - 1] != e.source);
        } else if nodes[k - 1] == e.source {
            assert(now[k - 1] == e.source);
        } else {
            if now.contains(e.source) {
                let i = choose|i: int| 0 <= i < now.len() && now[i] == e.source;
                if i < k - 1 {
                    assert(before[i] == e.source);
                }
            }
        }
    } else {
        assert(nodes.take(0) =~= Seq::<Seq<char>>::empty());
    }
}

/// Every edge leaves one node.
pub proof fn lemma_leaving_total(edges: Seq<EdgeModel>, nodes: Seq<Seq<char>>)
    requires
        strictly_sorted(nodes),
        forall|i: int| 0 <= i < edges.len() ==> nodes.contains((#[trigger] edges[i]).source),
    ensures
        leaving_total(edges, nodes, nodes.len() as int) == edges.len(),
    decreases edges.len(),
{
    if edges.len() == 0 {
        assert(edges =~= Seq::<EdgeModel>::empty());
        lemma_leaving_none(nodes, nodes.len() as int);
    } else {
        let rest = edges.drop_last();
        assert forall|i: int| 0 <= i < rest.len() implies nodes.contains(
            (#[trigger] rest[i]).source,
        ) by {
            assert(rest[i] == edges[i]);
        }
        lemma_leaving_total(rest, nodes);
        lemma_leaving_total_push(rest, edges.last(), nodes, nodes.len() as int);
        assert(rest.push(edges.last()) =~= edges);
        assert(nodes.take(nodes.len() as int) =~= nodes);
        assert(nodes.contains(edges[edges.len() - 1].source));
    }
}

/// Without edges no edge leaves a node.
proof fn lemma_leaving_none(nodes: Seq<Seq<char>>, k: int)
    ensures
        leaving_total(Seq::empty(), nodes, k) == 0,
    decreases k,
{
    if k > 0 {
        lemma_leaving_none(nodes, k - 1);
    }
}

/// Where every target is kept, each edge gives a reference.
proof fn lemma_kept_refs_all(edges: Seq<EdgeModel>, keep: Seq<Seq<char>>)
    requires
        forall|k: int| 0 <= k < edges.len() ==> keep.contains((#[trigger] edges[k]).target),
    ensures
        kept_refs(edges, keep) == edges.map_values(|e: EdgeModel| ref_to(e.target)),
    decreases edges.len(),
{
    let mapped = edges.map_values(|e: EdgeModel| ref_to(e.target));
    if edges.len() == 0 {
        assert(mapped =~= Seq::<CrossRefModel>::empty());
    } else {
        let rest = edges.drop_last();
        assert forall|k: int| 0 <= k < rest.len() implies keep.contains(
            (#[trigger] rest[k]).target,
        ) by {
            assert(rest[k] == edges[k]);
        }
        lemma_kept_refs_all(rest, keep);
        assert(keep.contains(edges[edges.len() - 1].target));
        assert(mapped =~= rest.map_values(|e: EdgeModel| ref_to(e.target)).push(
            ref_to(edges.last().target),
        ));
    }
}

/// The edges that leave the node `name`, as candidates of the kind
/// `CrossRef`.
pub open spec fn as_references(name: Seq<char>, edges: Seq<EdgeModel>) -> Seq<EdgeModel> {
    edges.map_values(
        |e: EdgeModel| EdgeModel { source: name, target: e.target, kind: EdgeKind::CrossRef },
    )
}

/// The edges that leave the first `k` nodes, node by node, as candidates of
/// the kind `CrossRef`.
pub open spec fn regrouped(edges: Seq<EdgeModel>, nodes: Seq<Seq<char>>, k: int) -> Seq<EdgeModel>
    decreases k,
{
    if k <= 0 {
        Seq::empty()
    } else {
        regrouped(edges, nodes, k - 1) + as_references(nodes[k - 1], outgoing(edges, nodes[k - 1]))
    }
}

/// The names that the first `k` groups mention: the nodes that an edge
/// leaves, and the targets of those edges.
pub open spec fn regrouped_names(edges: Seq<EdgeModel>, nodes: Seq<Seq<char>>, k: int) -> Seq<
    Seq<char>,
>
    decreases k,
{
    if k <= 0 {
        Seq::empty()
    } else if outgoing(edges, nodes[k - 1]).len() > 0 {
        regrouped_names(edges, nodes, k - 1).push(nodes[k - 1]) + ref_targets(
            outgoing(edges, nodes[k - 1]).map_values(|e: EdgeModel| ref_to(e.target)),
        )
    } else {
        regrouped_names(edges, nodes, k - 1)
    }
}

/// With every node kept, the cross-references that stand for the edges are
/// the edges regrouped.
proof fn lemma_kept_crossrefs(g: GraphModel, k: int)
    requires
        well_joined(g.nodes, g.edges),
        0 <= k <= g.nodes.len(),
    ensures
        crossref_candidates(kept_crossrefs(g, g.nodes, g.nodes.take(k))) == regrouped(
            g.edges,
            g.nodes,
            k,
        ),
        crossref_names(kept_crossrefs(g, g.nodes, g.nodes.take(k))) == regrouped_names(
            g.edges,
            g.nodes,
            k,
        ),
    decreases k,
{
    let nodes = g.nodes;
    if k == 0 {
        assert(nodes.take(0) =~= Seq::<Seq<char>>::empty());
    } else {
        lemma_kept_crossrefs(g, k - 1);
        let part = nodes.take(k);
        assert(part.drop_last() =~= nodes.take(k - 1));
        assert(part.last() == nodes[k - 1]);
        let name = nodes[k - 1];
        let out = outgoing(g.edges, name);
        lemma_outgoing_members(g.edges, name);
        assert forall|i: int| 0 <= i < out.len() implies nodes.contains(
            (#[trigger] out[i]).target,
        ) by {
            let m = choose|m: int| 0 <= m < g.edges.len() && g.edges[m] == out[i];
            assert(nodes.contains(g.edges[m].target));
        }
        lemma_kept_refs_all(out, nodes);
        let refs = kept_refs(out, nodes);
        assert(nodes.contains(name));
        assert(ref_candidates(name, refs) =~= as_references(name, out));
        let prev = kept_crossrefs(g, nodes, nodes.take(k - 1));
        if refs.len() > 0 {
            assert(prev.push((name, refs)).drop_last() =~= prev);
        } else {
            assert(as_references(name, out) =~= Seq::<EdgeModel>::empty());
            assert(regrouped(g.edges, nodes, k - 1) + as_references(name, out) =~= regrouped(
                g.edges,
                nodes,
                k - 1,
            ));
        }
    }
}

/// As many candidates as edges leave the nodes.
proof fn lemma_regrouped_len(edges: Seq<EdgeModel>, nodes: Seq<Seq<char>>, k: int)
    ensures
        regrouped(edges, nodes, k).len() == leaving_total(edges, nodes, k),
    decreases k,
{
    if k > 0 {
        lemma_regrouped_len(edges, nodes, k - 1);
    }
}

/// The edges that leave a node lead to different nodes.
proof fn lemma_outgoing_distinct(edges: Seq<EdgeModel>, name: Seq<char>)
    requires
        pairs_distinct(edges),
    ensures
        forall|i: int, j: int|
            0 <= i < outgoing(edges, name).len() && 0 <= j < outgoing(edges, name).len() && i
                != j ==> (#[trigger] outgoing(edges, name)[i]).target != (#[trigger] outgoing(
                edges,
                name,
            )[j]).target,
    decreases edges.len(),
{
    if edges.len() > 0 {
        let rest = edges.drop_last();
        let out = outgoing(edges, name);
        let prev = outgoing(rest, name);
        assert(pairs_distinct(rest)) by {
            assert forall|i: int, j: int|
                0 <= i < rest.len() && 0 <= j < rest.len() && i != j implies !((
            #[trigger] rest[i]).source == (#[trigger] rest[j]).source && rest[i].target
                == rest[j].target) by {
                assert(rest[i] == edges[i] && rest[j] == edges[j]);
            }
        }
        lemma_outgoing_distinct(rest, name);
        lemma_outgoing_members(rest, name);
        if edges.last().source == name {
            assert forall|i: int, j: int|
                0 <= i < out.len() && 0 <= j < out.len() && i != j implies (#[trigger] out[i]).target
                != (#[trigger] out[j]).target by {
                if i == 0 || j == 0 {
                    let other = if i == 0 {
                        j
                    } else {
                        i
                    };
                    assert(out[other] == prev[other - 1]);
                    let m = choose|m: int| 0 <= m < rest.len() && rest[m] == prev[other - 1];
                    assert(edges[m] == prev[other - 1]);
                    assert(edges[m].source == name);
                    assert(edges[edges.len() - 1] == out[0]);
                } else {
                    assert(out[i] == prev[i - 1] && out[j] == prev[j - 1]);
                }
            }
        }
    }
}

/// The regrouped candidates join the pairs of nodes that the edges join,
/// each pair once.
proof fn lemma_regrouped_pairs(edges: Seq<EdgeModel>, nodes: Seq<Seq<char>>, k: int)
    requires
        well_joined(nodes, edges),
        0 <= k <= nodes.len(),
    ensures
        pairs_distinct(regrouped(edges, nodes, k)),
        forall|i: int|
            0 <= i < regrouped(edges, nodes, k).len() ==> {
                let c = #[trigger] regrouped(edges, nodes, k)[i];
                &&& c.kind == EdgeKind::CrossRef
                &&& has_pair(edges, c.source, c.target)
                &&& nodes.take(k).contains(c.source)
            },
        forall|i: int|
            0 <= i < edges.len() && nodes.take(k).contains((#[trigger] edges[i]).source)
                ==> has_pair(regrouped(edges, nodes, k), edges[i].source, edges[i].target),
    decreases k,
{
    lemma_sorted_distinct(nodes);
    if k == 0 {
        assert(nodes.take(0) =~= Seq::<Seq<char>>::empty());
    } else {
        lemma_regrouped_pairs(edges, nodes, k - 1);
        let name = nodes[k - 1];
        let out = outgoing(edges, name);
        let group = as_references(name, out);
        let prev = regrouped(edges, nodes, k - 1);
        let all = regrouped(edges, nodes, k);
        let before = nodes.take(k - 1);
        let now = nodes.take(k);
        lemma_outgoing_members(edges, name);
        lemma_outgoing_distinct(edges, name);
        assert(now[k - 1] == name);
        assert(!before.contains(name)) by {
            if before.contains(name) {
                let i = choose|i: int| 0 <= i < before.len() && before[i] == name;
                assert(nodes[i] == name);
            }
        }
        assert forall|i: int| 0 <= i < all.len() implies {
            let c = #[trigger] all[i];
            &&& c.kind == EdgeKind::CrossRef
            &&& has_pair(edges, c.source, c.target)
            &&& now.contains(c.source)
        } by {
            if i < prev.len() {
                assert(all[i] == prev[i]);
                let m = choose|m: int| 0 <= m < before.len() && before[m] == prev[i].source;
                assert(now[m] == prev[i].source);
            } else {
                let q = i - prev.len();
                assert(all[i] == group[q]);
                let m = choose|m: int| 0 <= m < edges.len() && edges[m] == out[q];
                assert(edges[m].source == name && edges[m].target == group[q].target);
            }
        }
        assert forall|i: int|
            0 <= i < edges.len() && now.contains((#[trigger] edges[i]).source) implies has_pair(
            all,
            edges[i].source,
            edges[i].target,
        ) by {
            if edges[i].source == name {
                assert(out.contains(edges[i]));
                let q = choose|q: int| 0 <= q < out.len() && out[q] == edges[i];
                assert(all[prev.len() + q].source == name && all[prev.len() + q].target
                    == edges[i].target);
            } else {
                let m = choose|m: int| 0 <= m < now.len() && now[m] == edges[i].source;
                assert(before[m] == edges[i].source);
                assert(has_pair(prev, edges[i].source, edges[i].target));
                let p = choose|p: int|
                    0 <= p < prev.len() && (#[trigger] prev[p]).source == edges[i].source
                        && prev[p].target == edges[i].target;
                assert(all[p] == prev[p]);
            }
        }
        assert forall|i: int, j: int|
            0 <= i < all.len() && 0 <= j < all.len() && i != j implies !((#[trigger] all[i]).source
            == (#[trigger] all[j]).source && all[i].target == all[j].target) by {
            if i < prev.len() && j < prev.len() {
                assert(all[i] == prev[i] && all[j] == prev[j]);
            } else if i >= prev.len() && j >= prev.len() {
                assert(all[i] == group[i - prev.len()] && all[j] == group[j - prev.len()]);
                assert(out[i - prev.len()].target != out[j - prev.len()].target);
            } else {
                let (lo, hi) = if i < j {
                    (i, j)
                } else {
                    (j, i)
                };
                assert(all[lo] == prev[lo]);
                assert(all[hi] == group[hi - prev.len()]);
                assert(before.contains(prev[lo].source));
            }
        }
    }
}

/// Candidates between nodes, no two for the same pair, all become edges.
proof fn lemma_resolve_all(nodes: Seq<Seq<char>>, cands: Seq<EdgeModel>)
    requires
        pairs_distinct(cands),
        forall|i: int|
            0 <= i < cands.len() ==> nodes.contains((#[trigger] cands[i]).source)
                && nodes.contains(cands[i].target),
    ensures
        resolve(nodes, cands) == cands,
    decreases cands.len(),
{
    if cands.len() == 0 {
        assert(cands =~= Seq::<EdgeModel>::empty());
    } else {
        let rest = cands.drop_last();
        assert(pairs_distinct(rest)) by {
            assert forall|i: int, j: int|
                0 <= i < rest.len() && 0 <= j < rest.len() && i != j implies !((
            #[trigger] rest[i]).source == (#[trigger] rest[j]).source && rest[i].target
                == rest[j].target) by {
                assert(rest[i] == cands[i] && rest[j] == cands[j]);
            }
        }
        assert forall|i: int| 0 <= i < rest.len() implies nodes.contains(
            (#[trigger] rest[i]).source,
        ) && nodes.contains(rest[i].target) by {
            assert(rest[i] == cands[i]);
        }
        lemma_resolve_all(nodes, rest);
        let last = cands.last();
        assert(cands[cands.len() - 1] == last);
        if has_pair(rest, last.source, last.target) {
            let i = choose|i: int|
                0 <= i < rest.len() && (#[trigger] rest[i]).source == last.source
                    && rest[i].target == last.target;
            assert(cands[i] == rest[i]);
        }
        assert(accepts(nodes, rest, last));
        assert(rest.push(last) =~= cands);
    }
}

/// Candidates for pairs that are joined already, or for names that are no
/// nodes, add no edge.
proof fn lemma_resolve_nothing_new(nodes: Seq<Seq<char>>, first: Seq<EdgeModel>, more: Seq<EdgeModel>)
    requires
        forall|i: int|
            0 <= i < more.len() ==> !(nodes.contains((#[trigger] more[i]).source)
                && nodes.contains(more[i].target)) || has_pair(
                resolve(nodes, first),
                more[i].source,
                more[i].target,
            ),
    ensures
        resolve(nodes, first + more) == resolve(nodes, first),
    decreases more.len(),
{
    if more.len() == 0 {
        assert(first + more =~= first);
    } else {
        let rest = more.drop_last();
        assert forall|i: int| 0 <= i < rest.len() implies !(nodes.contains(
            (#[trigger] rest[i]).source,
        ) && nodes.contains(rest[i].target)) || has_pair(
            resolve(nodes, first),
            rest[i].source,
            rest[i].target,
        ) by {
            assert(rest[i] == more[i]);
        }
        lemma_resolve_nothing_new(nodes, first, rest);
        assert((first + more).drop_last() =~= first + rest);
        assert((first + more).last() == more[more.len() - 1]);
    }
}

/// Where every skill is kept, the kept skills are the skills.
proof fn lemma_kept_skills_all(skills: Seq<SkillModel>, keep: Seq<Seq<char>>)
    requires
        forall|k: int| 0 <= k < skills.len() ==> keep.contains((#[trigger] skills[k]).name),
    ensures
        kept_skills(skills, keep) == skills,
    decreases skills.len(),
{
    let pred = |s: SkillModel| keep.contains(s.name);
    if skills.len() == 0 {
        assert(skills.filter(pred) =~= skills) by {
            reveal(Seq::filter);
        }
    } else {
        let rest = skills.drop_last();
        assert forall|k: int| 0 <= k < rest.len() implies keep.contains(
            (#[trigger] rest[k]).name,
        ) by {
            assert(rest[k] == skills[k]);
        }
        lemma_kept_skills_all(rest, keep);
        rest.lemma_filter_push(skills.last(), pred);
        assert(rest.push(skills.last()) =~= skills);
        assert(keep.contains(skills[skills.len() - 1].name));
    }
}

/// Whether the group of node `i` mentions the name: as the node itself,
/// which an edge leaves, or as the target of such an edge.
pub open spec fn group_mentions(edges: Seq<EdgeModel>, nodes: Seq<Seq<char>>, i: int, x: Seq<char>) -> bool {
    let out = outgoing(edges, nodes[i]);
    x == nodes[i] && out.len() > 0 || exists|q: int|
        0 <= q < out.len() && (#[trigger] out[q]).target == x
}

/// The names that the groups mention are the nodes that an edge leaves and
/// the nodes that those edges enter.
proof fn lemma_regrouped_names(edges: Seq<EdgeModel>, nodes: Seq<Seq<char>>, k: int, x: Seq<char>)
    requires
        0 <= k <= nodes.len(),
    ensures
        regrouped_names(edges, nodes, k).contains(x) <==> exists|i: int|
            0 <= i < k && #[trigger] group_mentions(edges, nodes, i, x),
    decreases k,
{
    if k > 0 {
        lemma_regrouped_names(edges, nodes, k - 1, x);
        let name = nodes[k - 1];
        let out = outgoing(edges, name);
        let prev = regrouped_names(edges, nodes, k - 1);
        let all = regrouped_names(edges, nodes, k);
        let targets = ref_targets(out.map_values(|e: EdgeModel| ref_to(e.target)));
        if all.contains(x) {
            let p = choose|p: int| 0 <= p < all.len() && all[p] == x;
            if out.len() > 0 {
                if p < prev.len() {
                    assert(prev[p] == x);
                    assert(prev.contains(x));
                    let i = choose|i: int| 0 <= i < k - 1 && #[trigger] group_mentions(edges, nodes, i, x);
                    assert(group_mentions(edges, nodes, i, x));
                } else if p == prev.len() {
                    assert(x == nodes[k - 1]);
                    assert(group_mentions(edges, nodes, k - 1, x));
                } else {
                    let q = p - prev.len() - 1;
                    assert(targets[q] == x);
                    assert(out[q].target == x);
                    assert(group_mentions(edges, nodes, k - 1, x));
                }
            } else {
                assert(prev.contains(x));
                let i = choose|i: int| 0 <= i < k - 1 && #[trigger] group_mentions(edges, nodes, i, x);
                assert(group_mentions(edges, nodes, i, x));
            }
        }
        if exists|i: int| 0 <= i < k && #[trigger] group_mentions(edges, nodes, i, x) {
            let i = choose|i: int| 0 <= i < k && #[trigger] group_mentions(edges, nodes, i, x);
            if i < k - 1 {
                assert(prev.contains(x));
                let p = choose|p: int| 0 <= p < prev.len() && prev[p] == x;
                assert(all[p] == x);
            } else {
                if x == nodes[k - 1] && out.len() > 0 {
                    assert(all[prev.len() as int] == x);
                } else {
                    let q = choose|q: int| 0 <= q < out.len() && (#[trigger] out[q]).target == x;
                    assert(targets[q] == x);
                    assert(all[prev.len() + 1 + q] == x);
                }
            }
        }
    }
}

/// Every node is the name of a skill or an end of an edge.
pub open spec fn nodes_accounted(g: GraphModel, skills: Seq<SkillModel>) -> bool {
    forall|i: int|
        0 <= i < g.nodes.len() ==> skill_names(skills).contains(#[trigger] g.nodes[i])
            || has_outgoing(g.edges, g.nodes[i]) || has_incoming(g.edges, g.nodes[i])
}

/// Filter round-trip: the subgraph of a built graph on all of its nodes has
/// the nodes of the graph, as many edges, and an edge wherever the graph
/// has one. This needs that the graph was built from the same skills, and
/// that each of its nodes is a skill or an end of an edge: a name that only
/// heads an empty list of references is no node of the subgraph.
pub proof fn lemma_filter_to_all_nodes(crossrefs: CrossRefsModel, skills: Seq<SkillModel>)
    requires
        nodes_accounted(built(crossrefs, skills), skills),
    ensures
        ({
            let g = built(crossrefs, skills);
            let part = filtered(g, g.nodes, skills);
            &&& part.nodes == g.nodes
            &&& part.edges.len() == g.edges.len()
            &&& forall|a: Seq<char>, b: Seq<char>|
                has_pair(part.edges, a, b) <==> #[trigger] has_pair(g.edges, a, b)
        }),
{
    let g = built(crossrefs, skills);
    let nodes = g.nodes;
    let edges = g.edges;
    let n = nodes.len() as int;
    let cands = candidates(crossrefs, skills);
    lemma_built_nodes(crossrefs, skills);
    lemma_resolve_sound(nodes, cands);
    lemma_sorted_distinct(nodes);
    assert(well_joined(nodes, edges));
    assert(nodes.take(n) =~= nodes);

    // the kept skills are the skills
    assert forall|k: int| 0 <= k < skills.len() implies nodes.contains(
        (#[trigger] skills[k]).name,
    ) by {
        assert(skill_names(skills)[k] == skills[k].name);
        assert(all_names(crossrefs, skills)[crossref_names(crossrefs).len() + k]
            == skills[k].name);
    }
    lemma_kept_skills_all(skills, nodes);

    // the kept references are the edges, regrouped
    let kept = kept_crossrefs(g, nodes, nodes);
    let grouped = regrouped(edges, nodes, n);
    lemma_kept_crossrefs(g, n);
    lemma_regrouped_len(edges, nodes, n);
    lemma_leaving_total(edges, nodes);
    lemma_regrouped_pairs(edges, nodes, n);

    // the nodes
    let names = all_names(kept, skills);
    let part_nodes = built_nodes(kept, skills);
    lemma_built_nodes(kept, skills);
    assert forall|x: Seq<char>| part_nodes.contains(x) <==> nodes.contains(x) by {
        lemma_regrouped_names(edges, nodes, n, x);
        let mentioned = regrouped_names(edges, nodes, n);
        if names.contains(x) {
            let p = choose|p: int| 0 <= p < names.len() && names[p] == x;
            if p < mentioned.len() {
                assert(mentioned[p] == x);
                assert(mentioned.contains(x));
                let i = choose|i: int| 0 <= i < n && #[trigger] group_mentions(edges, nodes, i, x);
                if !(x == nodes[i]) {
                    let out = outgoing(edges, nodes[i]);
                    let q = choose|q: int| 0 <= q < out.len() && (#[trigger] out[q]).target == x;
                    lemma_outgoing_members(edges, nodes[i]);
                    let m = choose|m: int| 0 <= m < edges.len() && edges[m] == out[q];
                    assert(nodes.contains(edges[m].target));
                }
            } else {
                let k = p - mentioned.len();
                assert(skill_names(skills)[k] == x);
                assert(skills[k].name == x);
            }
        }
        if nodes.contains(x) {
            let i = choose|i: int| 0 <= i < n && nodes[i] == x;
            assert(skill_names(skills).contains(nodes[i]) || has_outgoing(edges, nodes[i])
                || has_incoming(edges, nodes[i]));
            if skill_names(skills).contains(x) {
                let k = choose|k: int| 0 <= k < skill_names(skills).len() && skill_names(skills)[k] == x;
                assert(names[mentioned.len() + k] == x);
            } else if has_outgoing(edges, x) {
                let m = choose|m: int| 0 <= m < edges.len() && (#[trigger] edges[m]).source == x;
                lemma_outgoing_members(edges, x);
                assert(outgoing(edges, x).contains(edges[m]));
                assert(group_mentions(edges, nodes, i, x));
                assert(mentioned.contains(x));
                let p = choose|p: int| 0 <= p < mentioned.len() && mentioned[p] == x;
                assert(names[p] == x);
            } else {
                let m = choose|m: int| 0 <= m < edges.len() && (#[trigger] edges[m]).target == x;
                let source = edges[m].source;
                assert(nodes.contains(source));
                let j = choose|j: int| 0 <= j < n && nodes[j] == source;
                lemma_outgoing_members(edges, source);
                let out = outgoing(edges, nodes[j]);
                assert(out.contains(edges[m]));
                let q = choose|q: int| 0 <= q < out.len() && out[q] == edges[m];
                assert(out[q].target == x);
                assert(group_mentions(edges, nodes, j, x));
                assert(mentioned.contains(x));
                let p = choose|p: int| 0 <= p < mentioned.len() && mentioned[p] == x;
                assert(names[p] == x);
            }
        }
    }
    lemma_sorted_same_names(part_nodes, nodes);

    // the edges
    assert forall|i: int| 0 <= i < grouped.len() implies nodes.contains(
        (#[trigger] grouped[i]).source,
    ) && nodes.contains(grouped[i].target) by {
        let c = grouped[i];
        assert(has_pair(edges, c.source, c.target));
        let m = choose|m: int|
            0 <= m < edges.len() && (#[trigger] edges[m]).source == c.source && edges[m].target
                == c.target;
        assert(nodes.contains(edges[m].source) && nodes.contains(edges[m].target));
    }
    lemma_resolve_all(nodes, grouped);
    let more = pipeline_candidates(skills);
    let first = crossref_candidates(crossrefs);
    assert forall|i: int| 0 <= i < more.len() implies !(nodes.contains(
        (#[trigger] more[i]).source,
    ) && nodes.contains(more[i].target)) || has_pair(
        resolve(nodes, grouped),
        more[i].source,
        more[i].target,
    ) by {
        if nodes.contains(more[i].source) && nodes.contains(more[i].target) {
            assert(cands[first.len() + i] == more[i]);
            lemma_resolve_complete(nodes, cands, first.len() + i);
            let m = choose|m: int|
                0 <= m < edges.len() && (#[trigger] edges[m]).source == more[i].source
                    && edges[m].target == more[i].target;
            assert(nodes.take(n).contains(edges[m].source));
            assert(has_pair(grouped, edges[m].source, edges[m].target));
        }
    }
    lemma_resolve_nothing_new(nodes, grouped, more);
    let part = filtered(g, nodes, skills);
    assert(part.edges == grouped);
    assert forall|a: Seq<char>, b: Seq<char>|
        has_pair(part.edges, a, b) <==> #[trigger] has_pair(edges, a, b) by {
        if has_pair(grouped, a, b) {
            let i = choose|i: int|
                0 <= i < grouped.len() && (#[trigger] grouped[i]).source == a && grouped[i].target
                    == b;
            assert(has_pair(edges, grouped[i].source, grouped[i].target));
        }
        if has_pair(edges, a, b) {
            let m = choose|m: int|
                0 <= m < edges.len() && (#[trigger] edges[m]).source == a && edges[m].target == b;
            assert(nodes.take(n).contains(edges[m].source));
            assert(has_pair(grouped, edges[m].source, edges[m].target));
        }
    }
}

} // verus!
