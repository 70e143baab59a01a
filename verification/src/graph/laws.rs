//! What holds of every graph that is built.

use crate::graph::export::{dot_text, json_text, mermaid_text, text_text};
use crate::graph::model::{
    accepts, all_names, built, built_edges, built_nodes, candidates, crossref_candidates,
    crossref_names, has_incoming, has_outgoing, has_pair, is_leaf, is_root,
    pipeline_candidates, ref_candidates, ref_targets, resolve, skill_candidates, skill_names,
    stage_candidates, stages_candidates, EdgeModel,
};
use crate::graph::{EdgeKind, SkillGraph};
use crate::names::{lemma_sorted_unique, strictly_sorted};
use crate::skill::{CrossRefsModel, SkillModel};
use vstd::prelude::*;

verus! {

/// No two edges join the same pair of nodes in the same direction.
pub open spec fn pairs_distinct(edges: Seq<EdgeModel>) -> bool {
    forall|i: int, j: int|
        0 <= i < edges.len() && 0 <= j < edges.len() && i != j ==> !((#[trigger] edges[i]).source
            == (#[trigger] edges[j]).source && edges[i].target == edges[j].target)
}

/// Every edge is one of the candidates, and joins two nodes.
pub open spec fn edges_from_candidates(
    nodes: Seq<Seq<char>>,
    cands: Seq<EdgeModel>,
    edges: Seq<EdgeModel>,
) -> bool {
    forall|i: int|
        0 <= i < edges.len() ==> cands.contains(#[trigger] edges[i]) && nodes.contains(
            edges[i].source,
        ) && nodes.contains(edges[i].target)
}

/// The edges that come of candidates: each is a candidate between two
/// nodes, and no pair of nodes is joined twice.
pub proof fn lemma_resolve_sound(nodes: Seq<Seq<char>>, cands: Seq<EdgeModel>)
    ensures
        pairs_distinct(resolve(nodes, cands)),
        edges_from_candidates(nodes, cands, resolve(nodes, cands)),
        resolve(nodes, cands).len() <= cands.len(),
    decreases cands.len(),
{
    if cands.len() > 0 {
        let rest = cands.drop_last();
        let prev = resolve(nodes, rest);
        let edges = resolve(nodes, cands);
        lemma_resolve_sound(nodes, rest);
        assert forall|i: int| 0 <= i < edges.len() implies cands.contains(#[trigger] edges[i])
            && nodes.contains(edges[i].source) && nodes.contains(edges[i].target) by {
            if i < prev.len() {
                assert(rest.contains(prev[i]));
                let k = choose|k: int| 0 <= k < rest.len() && rest[k] == prev[i];
                assert(cands[k] == prev[i]);
            } else {
                assert(cands[cands.len() - 1] == edges[i]);
            }
        }
    }
}

/// A candidate between two nodes gives an edge between them, if no earlier
/// candidate did.
pub proof fn lemma_resolve_complete(nodes: Seq<Seq<char>>, cands: Seq<EdgeModel>, k: int)
    requires
        0 <= k < cands.len(),
        nodes.contains(cands[k].source),
        nodes.contains(cands[k].target),
    ensures
        has_pair(resolve(nodes, cands), cands[k].source, cands[k].target),
    decreases cands.len(),
{
    let rest = cands.drop_last();
    let prev = resolve(nodes, rest);
    let edges = resolve(nodes, cands);
    let s = cands[k].source;
    let t = cands[k].target;
    if k < cands.len() - 1 {
        lemma_resolve_complete(nodes, rest, k);
        let i = choose|i: int|
            0 <= i < prev.len() && (#[trigger] prev[i]).source == s && prev[i].target == t;
        assert(edges[i].source == s && edges[i].target == t);
    } else if accepts(nodes, prev, cands.last()) {
        assert(edges[prev.len() as int].source == s && edges[prev.len() as int].target == t);
    } else {
        assert(has_pair(prev, s, t));
    }
}

/// Candidates that come later leave the edges of the earlier ones as they
/// are: the edges grow at the end.
pub proof fn lemma_resolve_extends(nodes: Seq<Seq<char>>, first: Seq<EdgeModel>, more: Seq<EdgeModel>)
    ensures
        resolve(nodes, first).len() <= resolve(nodes, first + more).len(),
        forall|i: int|
            0 <= i < resolve(nodes, first).len() ==> resolve(nodes, first + more)[i]
                == #[trigger] resolve(nodes, first)[i],
    decreases more.len(),
{
    if more.len() == 0 {
        assert(first + more =~= first);
    } else {
        assert((first + more).drop_last() =~= first + more.drop_last());
        lemma_resolve_extends(nodes, first, more.drop_last());
    }
}

/// Determinism: two graphs built from the same input export the same text
/// in each of the four formats.
pub proof fn lemma_same_input_same_exports(
    first: SkillGraph,
    second: SkillGraph,
    crossrefs: CrossRefsModel,
    skills: Seq<SkillModel>,
)
    requires
        first@ == built(crossrefs, skills),
        second@ == built(crossrefs, skills),
    ensures
        dot_text(first@) == dot_text(second@),
        text_text(first@) == text_text(second@),
        json_text(first@) == json_text(second@),
        mermaid_text(first@) == mermaid_text(second@),
{
}

/// The nodes of a built graph ascend strictly, and they are the names that
/// the input mentions.
pub proof fn lemma_built_nodes(crossrefs: CrossRefsModel, skills: Seq<SkillModel>)
    ensures
        strictly_sorted(built_nodes(crossrefs, skills)),
        forall|n: Seq<char>|
            #![trigger built_nodes(crossrefs, skills).contains(n)]
            built_nodes(crossrefs, skills).contains(n) <==> all_names(crossrefs, skills).contains(
                n,
            ),
{
    lemma_sorted_unique(all_names(crossrefs, skills));
}

/// The names that the cross-references mention include each source and
/// each target.
pub proof fn lemma_crossref_names(crossrefs: CrossRefsModel, i: int)
    requires
        0 <= i < crossrefs.len(),
    ensures
        crossref_names(crossrefs).contains(crossrefs[i].0),
        forall|j: int|
            0 <= j < crossrefs[i].1.len() ==> crossref_names(crossrefs).contains(
                (#[trigger] crossrefs[i].1[j]).target,
            ),
    decreases crossrefs.len(),
{
    let rest = crossrefs.drop_last();
    let head = crossref_names(rest).push(crossrefs.last().0);
    let tail = ref_targets(crossrefs.last().1);
    let all = crossref_names(crossrefs);
    assert(all == head + tail);
    if i < crossrefs.len() - 1 {
        lemma_crossref_names(rest, i);
        let p = choose|p: int| 0 <= p < crossref_names(rest).len() && crossref_names(rest)[p] == crossrefs[i].0;
        assert(all[p] == crossrefs[i].0);
        assert forall|j: int| 0 <= j < crossrefs[i].1.len() implies all.contains(
            (#[trigger] crossrefs[i].1[j]).target,
        ) by {
            let t = crossrefs[i].1[j].target;
            assert(crossref_names(rest).contains(t));
            let q = choose|q: int| 0 <= q < crossref_names(rest).len() && crossref_names(rest)[q] == t;
            assert(all[q] == t);
        }
    } else {
        assert(all[head.len() - 1] == crossrefs[i].0);
        assert forall|j: int| 0 <= j < crossrefs[i].1.len() implies all.contains(
            (#[trigger] crossrefs[i].1[j]).target,
        ) by {
            assert(all[head.len() + j] == tail[j]);
        }
    }
}

/// The candidates of the cross-references include one for each reference,
/// and all of them have the kind `CrossRef`.
pub proof fn lemma_crossref_candidates(crossrefs: CrossRefsModel, i: int, j: int)
    requires
        0 <= i < crossrefs.len(),
        0 <= j < crossrefs[i].1.len(),
    ensures
        crossref_candidates(crossrefs).contains(
            EdgeModel {
                source: crossrefs[i].0,
                target: crossrefs[i].1[j].target,
                kind: EdgeKind::CrossRef,
            },
        ),
    decreases crossrefs.len(),
{
    let rest = crossrefs.drop_last();
    let all = crossref_candidates(crossrefs);
    let tail = ref_candidates(crossrefs.last().0, crossrefs.last().1);
    let want = EdgeModel {
        source: crossrefs[i].0,
        target: crossrefs[i].1[j].target,
        kind: EdgeKind::CrossRef,
    };
    if i < crossrefs.len() - 1 {
        lemma_crossref_candidates(rest, i, j);
        let p = choose|p: int| 0 <= p < crossref_candidates(rest).len() && crossref_candidates(rest)[p] == want;
        assert(all[p] == want);
    } else {
        assert(all[crossref_candidates(rest).len() + j] == tail[j]);
    }
}

/// All candidates of the cross-references have the kind `CrossRef`.
pub proof fn lemma_crossref_kind(crossrefs: CrossRefsModel)
    ensures
        forall|p: int|
            0 <= p < crossref_candidates(crossrefs).len() ==> (#[trigger] crossref_candidates(
                crossrefs,
            )[p]).kind == EdgeKind::CrossRef,
    decreases crossrefs.len(),
{
    if crossrefs.len() > 0 {
        lemma_crossref_kind(crossrefs.drop_last());
    }
}

/// The edge at index `k` is the only one from `source` to `target`.
pub open spec fn only_edge(edges: Seq<EdgeModel>, k: int, source: Seq<char>, target: Seq<char>) -> bool {
    &&& 0 <= k < edges.len()
    &&& edges[k].source == source
    &&& edges[k].target == target
    &&& forall|m: int|
        0 <= m < edges.len() && (#[trigger] edges[m]).source == source && edges[m].target
            == target ==> m == k
}

/// Dedup: whatever a skill refers to, and however often, the built graph
/// holds exactly one edge from the skill to it, and that edge has the kind
/// `CrossRef`.
pub proof fn lemma_reference_gives_one_edge(
    crossrefs: CrossRefsModel,
    skills: Seq<SkillModel>,
    i: int,
    j: int,
)
    requires
        0 <= i < crossrefs.len(),
        0 <= j < crossrefs[i].1.len(),
    ensures
        exists|k: int|
            only_edge(
                built_edges(crossrefs, skills),
                k,
                crossrefs[i].0,
                crossrefs[i].1[j].target,
            ) && (#[trigger] built_edges(crossrefs, skills)[k]).kind == EdgeKind::CrossRef,
{
    let a = crossrefs[i].0;
    let b = crossrefs[i].1[j].target;
    let nodes = built_nodes(crossrefs, skills);
    let first = crossref_candidates(crossrefs);
    let more = pipeline_candidates(skills);
    let early = resolve(nodes, first);
    let edges = built_edges(crossrefs, skills);
    lemma_built_nodes(crossrefs, skills);
    lemma_crossref_names(crossrefs, i);
    let names = crossref_names(crossrefs);
    assert(names.contains(a));
    assert(names.contains(b));
    let pa = choose|p: int| 0 <= p < names.len() && names[p] == a;
    let pb = choose|p: int| 0 <= p < names.len() && names[p] == b;
    assert(all_names(crossrefs, skills)[pa] == a);
    assert(all_names(crossrefs, skills)[pb] == b);
    assert(nodes.contains(a) && nodes.contains(b));
    lemma_crossref_candidates(crossrefs, i, j);
    let want = EdgeModel { source: a, target: b, kind: EdgeKind::CrossRef };
    let p = choose|p: int| 0 <= p < first.len() && first[p] == want;
    lemma_resolve_complete(nodes, first, p);
    let k = choose|k: int|
        0 <= k < early.len() && (#[trigger] early[k]).source == a && early[k].target == b;
    lemma_resolve_sound(nodes, first);
    lemma_crossref_kind(crossrefs);
    assert(first.contains(early[k]));
    let q = choose|q: int| 0 <= q < first.len() && first[q] == early[k];
    assert(first[q].kind == EdgeKind::CrossRef);
    lemma_resolve_extends(nodes, first, more);
    assert(edges[k] == early[k]);
    lemma_resolve_sound(nodes, first + more);
    assert(only_edge(edges, k, a, b));
}

/// Completeness: a skill that no reference and no pipeline entry mentions,
/// neither its own nor another skill's, is a node of the built graph, a
/// root and a leaf.
pub proof fn lemma_untouched_skill(crossrefs: CrossRefsModel, skills: Seq<SkillModel>, k: int)
    requires
        0 <= k < skills.len(),
        forall|q: int|
            0 <= q < candidates(crossrefs, skills).len() ==> (#[trigger] candidates(
                crossrefs,
                skills,
            )[q]).source != skills[k].name && candidates(crossrefs, skills)[q].target
                != skills[k].name,
    ensures
        built(crossrefs, skills).nodes.contains(skills[k].name),
        built(crossrefs, skills).roots.contains(skills[k].name),
        built(crossrefs, skills).leaves.contains(skills[k].name),
{
    let name = skills[k].name;
    let nodes = built_nodes(crossrefs, skills);
    let cands = candidates(crossrefs, skills);
    let edges = built_edges(crossrefs, skills);
    lemma_built_nodes(crossrefs, skills);
    assert(skill_names(skills)[k] == name);
    assert(all_names(crossrefs, skills)[crossref_names(crossrefs).len() + k] == name);
    assert(nodes.contains(name));
    lemma_resolve_sound(nodes, cands);
    if has_incoming(edges, name) {
        let i = choose|i: int| 0 <= i < edges.len() && (#[trigger] edges[i]).target == name;
        assert(cands.contains(edges[i]));
        let q = choose|q: int| 0 <= q < cands.len() && cands[q] == edges[i];
        assert(cands[q].target == name);
    }
    if has_outgoing(edges, name) {
        let i = choose|i: int| 0 <= i < edges.len() && (#[trigger] edges[i]).source == name;
        assert(cands.contains(edges[i]));
        let q = choose|q: int| 0 <= q < cands.len() && cands[q] == edges[i];
        assert(cands[q].source == name);
    }
    let at = choose|at: int| 0 <= at < nodes.len() && nodes[at] == name;
    let root = |n: Seq<char>| is_root(edges, n);
    let leaf = |n: Seq<char>| is_leaf(edges, n);
    assert(root(nodes[at]));
    assert(leaf(nodes[at]));
    nodes.lemma_filter_contains(root, at);
    nodes.lemma_filter_contains(leaf, at);
}

/// The skill declares one stage, with these lists.
pub open spec fn declares_one_stage(
    skill: SkillModel,
    after: Option<Seq<Seq<char>>>,
    before: Option<Seq<Seq<char>>>,
) -> bool {
    &&& skill.frontmatter.pipeline is Some
    &&& skill.frontmatter.pipeline->0.len() == 1
    &&& skill.frontmatter.pipeline->0[0].1.after == after
    &&& skill.frontmatter.pipeline->0[0].1.before == before
}

/// The candidates of a skill that declares one stage.
proof fn lemma_one_stage(skill: SkillModel, after: Option<Seq<Seq<char>>>, before: Option<Seq<Seq<char>>>)
    requires
        declares_one_stage(skill, after, before),
    ensures
        skill_candidates(skill) == stage_candidates(skill.name, skill.frontmatter.pipeline->0[0].1),
{
    let stages = skill.frontmatter.pipeline->0;
    assert(stages.drop_last() =~= Seq::empty());
    assert(stages_candidates(skill.name, stages.drop_last()) =~= Seq::<EdgeModel>::empty());
    assert(stages_candidates(skill.name, stages) =~= stage_candidates(skill.name, stages[0].1));
}

/// The candidates of two skills.
proof fn lemma_two_skills(skills: Seq<SkillModel>)
    requires
        skills.len() == 2,
    ensures
        pipeline_candidates(skills) == skill_candidates(skills[0]) + skill_candidates(skills[1]),
{
    let one = skills.drop_last();
    assert(one.drop_last() =~= Seq::empty());
    assert(pipeline_candidates(one.drop_last()) =~= Seq::<EdgeModel>::empty());
    assert(pipeline_candidates(one) =~= skill_candidates(skills[0]));
}

/// The graph of two skills and one candidate between them has that one
/// edge.
proof fn lemma_single_edge(skills: Seq<SkillModel>, edge: EdgeModel)
    requires
        skills.len() == 2,
        candidates(Seq::empty(), skills) == seq![edge],
        edge.source == skills[0].name && edge.target == skills[1].name || edge.source
            == skills[1].name && edge.target == skills[0].name,
    ensures
        built_edges(Seq::empty(), skills) == seq![edge],
{
    let nodes = built_nodes(Seq::empty(), skills);
    let cands = candidates(Seq::empty(), skills);
    lemma_built_nodes(Seq::empty(), skills);
    let names = all_names(Seq::empty(), skills);
    assert(crossref_names(Seq::empty()) =~= Seq::<Seq<char>>::empty());
    assert(names[0] == skills[0].name);
    assert(names[1] == skills[1].name);
    assert(nodes.contains(skills[0].name) && nodes.contains(skills[1].name));
    assert(cands.drop_last() =~= Seq::empty());
    assert(resolve(nodes, cands.drop_last()) =~= Seq::<EdgeModel>::empty());
    assert(cands.last() == edge);
    assert(accepts(nodes, Seq::empty(), edge));
    assert(resolve(nodes, cands) =~= seq![edge]);
}

/// Pipeline edge direction: that skill `a` comes before skill `b` can be
/// declared on `a`, by a `before` list that names `b`, or on `b`, by an
/// `after` list that names `a`. Either way the graph of the two skills has
/// the same nodes and the same single edge, which leads from `b`, the
/// skill that depends, to `a`.
pub proof fn lemma_before_mirrors_after(on_first: Seq<SkillModel>, on_second: Seq<SkillModel>)
    requires
        on_first.len() == 2,
        on_second.len() == 2,
        on_first[0].name == on_second[0].name,
        on_first[1].name == on_second[1].name,
        declares_one_stage(on_first[0], None, Some(seq![on_first[1].name])),
        on_first[1].frontmatter.pipeline is None,
        on_second[0].frontmatter.pipeline is None,
        declares_one_stage(on_second[1], Some(seq![on_second[0].name]), None),
    ensures
        built_nodes(Seq::empty(), on_first) == built_nodes(Seq::empty(), on_second),
        built_edges(Seq::empty(), on_first) == seq![
            EdgeModel {
                source: on_first[1].name,
                target: on_first[0].name,
                kind: EdgeKind::Pipeline,
            },
        ],
        built_edges(Seq::empty(), on_second) == built_edges(Seq::empty(), on_first),
{
    let a = on_first[0].name;
    let b = on_first[1].name;
    let edge = EdgeModel { source: b, target: a, kind: EdgeKind::Pipeline };
    assert(skill_names(on_first) =~= skill_names(on_second));
    assert(crossref_candidates(Seq::empty()) =~= Seq::<EdgeModel>::empty());
    lemma_two_skills(on_first);
    lemma_two_skills(on_second);
    lemma_one_stage(on_first[0], None, Some(seq![b]));
    lemma_one_stage(on_second[1], Some(seq![a]), None);
    assert(skill_candidates(on_first[0]) =~= seq![edge]);
    assert(skill_candidates(on_second[1]) =~= seq![edge]);
    assert(candidates(Seq::empty(), on_first) =~= seq![edge]);
    assert(candidates(Seq::empty(), on_second) =~= seq![edge]);
    lemma_single_edge(on_first, edge);
    lemma_single_edge(on_second, edge);
}

} // verus!
