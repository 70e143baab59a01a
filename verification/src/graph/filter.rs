//! Subgraphs: the graph of the skills that are kept, built anew.

use crate::graph::model::{built, outgoing, EdgeModel, GraphModel};
use crate::graph::SkillGraph;
use crate::names::{contains, holds, sorted_copy, strictly_sorted};
use crate::skill::{
    CrossRef, CrossRefModel, CrossRefs, CrossRefsModel, DetectionMethod, Skill, SkillModel,
};
use crate::text::{rank, Rank};
use vstd::prelude::*;

verus! {

/// The reference that stands for a kept edge. The edge's kind is not kept.
pub open spec fn ref_to(target: Seq<char>) -> CrossRefModel {
    CrossRefModel { target, line: 0, method: DetectionMethod::XmlCrossref }
}

/// A reference for each of the edges whose target is kept, in order.
pub open spec fn kept_refs(edges: Seq<EdgeModel>, keep: Seq<Seq<char>>) -> Seq<CrossRefModel>
    decreases edges.len(),
{
    if edges.len() == 0 {
        Seq::empty()
    } else if keep.contains(edges.last().target) {
        kept_refs(edges.drop_last(), keep).push(ref_to(edges.last().target))
    } else {
        kept_refs(edges.drop_last(), keep)
    }
}

/// The edges between kept nodes as cross-references: for each kept node
/// among `nodes`, in order, that has an edge to a kept node, the node and a
/// reference for each such edge, the latest edge first.
pub open spec fn kept_crossrefs(g: GraphModel, keep: Seq<Seq<char>>, nodes: Seq<Seq<char>>) -> CrossRefsModel
    decreases nodes.len(),
{
    if nodes.len() == 0 {
        Seq::empty()
    } else {
        let prev = kept_crossrefs(g, keep, nodes.drop_last());
        let refs = kept_refs(outgoing(g.edges, nodes.last()), keep);
        if keep.contains(nodes.last()) && refs.len() > 0 {
            prev.push((nodes.last(), refs))
        } else {
            prev
        }
    }
}

/// The skills whose name is kept, in order.
pub open spec fn kept_skills(skills: Seq<SkillModel>, keep: Seq<Seq<char>>) -> Seq<SkillModel> {
    skills.filter(|s: SkillModel| keep.contains(s.name))
}

/// The subgraph of `g` on the kept names: built from the edges between kept
/// nodes and from the kept skills, and analysed on its own.
pub open spec fn filtered(g: GraphModel, keep: Seq<Seq<char>>, skills: Seq<SkillModel>) -> GraphModel {
    built(kept_crossrefs(g, keep, g.nodes), kept_skills(skills, keep))
}

/// Whether a skill takes part in the pipeline `pipeline`.
pub open spec fn in_pipeline(skill: SkillModel, pipeline: Seq<char>) -> bool {
    match skill.frontmatter.pipeline {
        Some(stages) => exists|i: int| 0 <= i < stages.len() && (#[trigger] stages[i]).0 == pipeline,
        None => false,
    }
}

/// Whether a skill carries the tag `tag`.
pub open spec fn has_tag(skill: SkillModel, tag: Seq<char>) -> bool {
    match skill.frontmatter.tags {
        Some(tags) => tags.contains(tag),
        None => false,
    }
}

/// The names of the skills that take part in a pipeline.
pub open spec fn pipeline_members(skills: Seq<SkillModel>, pipeline: Seq<char>) -> Seq<Seq<char>> {
    skills.filter(|s: SkillModel| in_pipeline(s, pipeline)).map_values(|s: SkillModel| s.name)
}

/// The names of the skills that carry a tag.
pub open spec fn tagged(skills: Seq<SkillModel>, tag: Seq<char>) -> Seq<Seq<char>> {
    skills.filter(|s: SkillModel| has_tag(s, tag)).map_values(|s: SkillModel| s.name)
}

/// Whether a skill takes part in the pipeline `pipeline`.
pub fn declares_pipeline(skill: &Skill, pipeline: &str) -> (r: bool)
    ensures
        r == in_pipeline(skill.deep_view(), pipeline@),
{
    match &skill.frontmatter.pipeline {
        None => false,
        Some(stages) => {
            let ghost sm = stages.deep_view();
            let mut i: usize = 0;
            while i < stages.len()
                invariant
                    i <= stages.len(),
                    sm == stages.deep_view(),
                    skill.frontmatter.pipeline == Some(*stages),
                    forall|k: int| 0 <= k < i ==> (#[trigger] sm[k]).0 != pipeline@,
                decreases stages.len() - i,
            {
                assert(sm[i as int].0 == stages[i as int].0@);
                match rank(stages[i].0.as_str(), pipeline) {
                    Rank::Same => {
                        assert(skill.deep_view().frontmatter.pipeline == Some(sm));
                        assert(skill.deep_view().frontmatter.pipeline->0[i as int].0
                            == pipeline@);
                        return true;
                    },
                    _ => {},
                }
                i += 1;
            }
            assert(skill.deep_view().frontmatter.pipeline == Some(sm));
            false
        },
    }
}

/// Whether a skill carries the tag `tag`.
pub fn carries_tag(skill: &Skill, tag: &str) -> (r: bool)
    ensures
        r == has_tag(skill.deep_view(), tag@),
{
    match &skill.frontmatter.tags {
        None => false,
        Some(tags) => contains(tags, tag),
    }
}

impl SkillGraph {
    /// A reference for each edge that leaves `node` and enters a kept node.
    fn kept_refs_of(&self, node: usize, sorted: &Vec<String>, Ghost(keep): Ghost<Seq<Seq<char>>>) -> (refs: Vec<CrossRef>)
        requires
            node < self@.nodes.len(),
            strictly_sorted(sorted.deep_view()),
            forall|x: Seq<char>| sorted.deep_view().contains(x) <==> keep.contains(x),
        ensures
            refs.deep_view() == kept_refs(outgoing(self@.edges, self@.nodes[node as int]), keep),
    {
        let ghost name = self.store.nodes()[node as int];
        let ghost out = outgoing(self.store.edges(), name);
        let found = self.store.leaving(node);
        let mut refs: Vec<CrossRef> = Vec::new();
        let mut k: usize = 0;
        assert(out.take(0) =~= Seq::<EdgeModel>::empty());
        assert(refs.deep_view() =~= kept_refs(out.take(0), keep));
        while k < found.len()
            invariant
                k <= found.len(),
                node < self.store.nodes().len(),
                name == self.store.nodes()[node as int],
                out == outgoing(self.store.edges(), name),
                strictly_sorted(sorted.deep_view()),
                forall|x: Seq<char>| sorted.deep_view().contains(x) <==> keep.contains(x),
                found.len() == out.len(),
                forall|k: int|
                    0 <= k < found.len() ==> {
                        &&& (#[trigger] found[k]).0 < self.store.nodes().len()
                        &&& out[k] == EdgeModel {
                            source: name,
                            target: self.store.nodes()[found[k].0 as int],
                            kind: found[k].1,
                        }
                    },
                refs.deep_view() == kept_refs(out.take(k as int), keep),
            decreases found.len() - k,
        {
            let ghost before = refs.deep_view();
            let target = self.store.name(found[k].0);
            proof {
                assert(out.take(k + 1).drop_last() =~= out.take(k as int));
                assert(out.take(k + 1).last() == out[k as int]);
            }
            if holds(sorted, target.as_str()) {
                refs.push(
                    CrossRef {
                        target: target.clone(),
                        line: 0,
                        method: DetectionMethod::XmlCrossref,
                    },
                );
                assert(refs.deep_view() =~= before.push(ref_to(target@)));
            }
            k += 1;
        }
        assert(out.take(k as int) =~= out);
        refs
    }

    /// Create a subgraph containing only the specified skills.
    ///
    /// The graph is built anew from the edges between kept nodes and from
    /// the kept skills, so that its analysis results are its own. Every edge
    /// of the result has the kind `CrossRef`.
    pub fn filter_to_skills(&self, keep: &Vec<String>, skills: &[Skill]) -> (graph: SkillGraph)
        ensures
            graph@ == filtered(self@, keep.deep_view(), skills.deep_view()),
    {
        let ghost g = self@;
        let ghost kp = keep.deep_view();
        let sorted = sorted_copy(keep);
        let names = self.store.names();
        let mut crossrefs: CrossRefs = Vec::new();
        let mut i: usize = 0;
        assert(g.nodes.take(0) =~= Seq::<Seq<char>>::empty());
        assert(crossrefs.deep_view() =~= kept_crossrefs(g, kp, g.nodes.take(0)));
        while i < names.len()
            invariant
                i <= names.len(),
                g == self@,
                kp == keep.deep_view(),
                names.deep_view() == g.nodes,
                strictly_sorted(sorted.deep_view()),
                forall|x: Seq<char>| sorted.deep_view().contains(x) <==> kp.contains(x),
                crossrefs.deep_view() == kept_crossrefs(g, kp, g.nodes.take(i as int)),
            decreases names.len() - i,
        {
            let ghost before = crossrefs.deep_view();
            let name = &names[i];
            proof {
                assert(name@ == g.nodes[i as int]);
                assert(g.nodes.take(i + 1).drop_last() =~= g.nodes.take(i as int));
                assert(g.nodes.take(i + 1).last() == name@);
            }
            if holds(&sorted, name.as_str()) {
                let refs = self.kept_refs_of(i, &sorted, Ghost(kp));
                if refs.len() > 0 {
                    let ghost rm = refs.deep_view();
                    crossrefs.push((name.clone(), refs));
                    assert(crossrefs.deep_view() =~= before.push((name@, rm)));
                }
            }
            i += 1;
        }
        assert(g.nodes.take(i as int) =~= g.nodes);
        let ghost sm = skills.deep_view();
        let ghost pred = |s: SkillModel| kp.contains(s.name);
        let mut kept: Vec<&Skill> = Vec::new();
        let mut j: usize = 0;
        assert(sm.take(0) =~= Seq::<SkillModel>::empty());
        assert(kept.deep_view() =~= sm.take(0).filter(pred)) by {
            reveal(Seq::filter);
        }
        while j < skills.len()
            invariant
                j <= skills.len(),
                sm == skills.deep_view(),
                kp == keep.deep_view(),
                pred == |s: SkillModel| kp.contains(s.name),
                strictly_sorted(sorted.deep_view()),
                forall|x: Seq<char>| sorted.deep_view().contains(x) <==> kp.contains(x),
                kept.deep_view() == sm.take(j as int).filter(pred),
            decreases skills.len() - j,
        {
            let ghost before = kept.deep_view();
            proof {
                assert(sm.take(j as int).push(sm[j as int]) =~= sm.take(j + 1));
                sm.take(j as int).lemma_filter_push(sm[j as int], pred);
                assert(sm[j as int] == skills[j as int].deep_view());
            }
            if holds(&sorted, skills[j].name.as_str()) {
                kept.push(&skills[j]);
                assert(kept.deep_view() =~= before.push(sm[j as int]));
            }
            j += 1;
        }
        assert(sm.take(j as int) =~= sm);
        SkillGraph::from_parts(&crossrefs, &kept)
    }
}

/// The names of the skills that take part in a pipeline.
pub fn pipeline_skill_names(skills: &[Skill], pipeline: &str) -> (list: Vec<String>)
    ensures
        list.deep_view() == pipeline_members(skills.deep_view(), pipeline@),
{
    let ghost sm = skills.deep_view();
    let ghost pred = |s: SkillModel| in_pipeline(s, pipeline@);
    let ghost name = |s: SkillModel| s.name;
    let mut list: Vec<String> = Vec::new();
    let mut j: usize = 0;
    assert(sm.take(0) =~= Seq::<SkillModel>::empty());
    assert(list.deep_view() =~= sm.take(0).filter(pred).map_values(name)) by {
        reveal(Seq::filter);
    }
    while j < skills.len()
        invariant
            j <= skills.len(),
            sm == skills.deep_view(),
            pred == |s: SkillModel| in_pipeline(s, pipeline@),
            name == |s: SkillModel| s.name,
            list.deep_view() == sm.take(j as int).filter(pred).map_values(name),
        decreases skills.len() - j,
    {
        let ghost before = list.deep_view();
        let ghost kept = sm.take(j as int).filter(pred);
        proof {
            assert(sm.take(j as int).push(sm[j as int]) =~= sm.take(j + 1));
            sm.take(j as int).lemma_filter_push(sm[j as int], pred);
            assert(sm[j as int] == skills[j as int].deep_view());
        }
        if declares_pipeline(&skills[j], pipeline) {
            list.push(skills[j].name.clone());
            assert(list.deep_view() =~= before.push(sm[j as int].name));
            assert(kept.push(sm[j as int]).map_values(name) =~= kept.map_values(name).push(
                sm[j as int].name,
            ));
        }
        j += 1;
    }
    assert(sm.take(j as int) =~= sm);
    list
}

/// The names of the skills that carry a tag.
pub fn tagged_skill_names(skills: &[Skill], tag: &str) -> (list: Vec<String>)
    ensures
        list.deep_view() == tagged(skills.deep_view(), tag@),
{
    let ghost sm = skills.deep_view();
    let ghost pred = |s: SkillModel| has_tag(s, tag@);
    let ghost name = |s: SkillModel| s.name;
    let mut list: Vec<String> = Vec::new();
    let mut j: usize = 0;
    assert(sm.take(0) =~= Seq::<SkillModel>::empty());
    assert(list.deep_view() =~= sm.take(0).filter(pred).map_values(name)) by {
        reveal(Seq::filter);
    }
    while j < skills.len()
        invariant
            j <= skills.len(),
            sm == skills.deep_view(),
            pred == |s: SkillModel| has_tag(s, tag@),
            name == |s: SkillModel| s.name,
            list.deep_view() == sm.take(j as int).filter(pred).map_values(name),
        decreases skills.len() - j,
    {
        let ghost before = list.deep_view();
        let ghost kept = sm.take(j as int).filter(pred);
        proof {
            assert(sm.take(j as int).push(sm[j as int]) =~= sm.take(j + 1));
            sm.take(j as int).lemma_filter_push(sm[j as int], pred);
            assert(sm[j as int] == skills[j as int].deep_view());
        }
        if carries_tag(&skills[j], tag) {
            list.push(skills[j].name.clone());
            assert(list.deep_view() =~= before.push(sm[j as int].name));
            assert(kept.push(sm[j as int]).map_values(name) =~= kept.map_values(name).push(
                sm[j as int].name,
            ));
        }
        j += 1;
    }
    assert(sm.take(j as int) =~= sm);
    list
}

impl SkillGraph {
    /// Filter to only skills in a specific pipeline.
    pub fn filter_pipeline(&self, skills: &[Skill], pipeline_name: &str) -> (graph: SkillGraph)
        ensures
            graph@ == filtered(
                self@,
                pipeline_members(skills.deep_view(), pipeline_name@),
                skills.deep_view(),
            ),
    {
        let keep = pipeline_skill_names(skills, pipeline_name);
        self.filter_to_skills(&keep, skills)
    }

    /// Filter to only skills with a specific tag.
    pub fn filter_tag(&self, skills: &[Skill], tag: &str) -> (graph: SkillGraph)
        ensures
            graph@ == filtered(self@, tagged(skills.deep_view(), tag@), skills.deep_view()),
    {
        let keep = tagged_skill_names(skills, tag);
        self.filter_to_skills(&keep, skills)
    }
}

} // verus!
