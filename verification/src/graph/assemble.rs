//! Building a graph from cross-references and skill records.

use crate::graph::backend::{
    backend_add_edge, backend_add_node, backend_edges, backend_new, backend_nodes, Backend,
};
use crate::graph::model::{
    accepts, after_candidates, before_candidates, built_edges, built_nodes, candidates,
    crossref_candidates, crossref_names, has_pair, pipeline_candidates, ref_candidates,
    ref_targets, resolve, skill_candidates, skill_names, stage_candidates, stages_candidates,
    EdgeModel,
};
use crate::graph::store::{edges_in_range, name_edges, parts_fit, GraphStore};
use crate::graph::EdgeKind;
use crate::names::{
    find, insert_sorted, lemma_sorted_distinct, lemma_sorted_unique_push, sorted_unique,
    strictly_sorted,
};
use crate::skill::{CrossRef, CrossRefs, PipelineStage, Skill};
use std::collections::HashSet;
use vstd::prelude::*;

verus! {

/// Adds the targets of `refs` to `names`.
fn collect_targets(names: &mut Vec<String>, refs: &Vec<CrossRef>, Ghost(seen): Ghost<Seq<Seq<char>>>)
    requires
        old(names).deep_view() == sorted_unique(seen),
        strictly_sorted(old(names).deep_view()),
    ensures
        final(names).deep_view() == sorted_unique(seen + ref_targets(refs.deep_view())),
        strictly_sorted(final(names).deep_view()),
{
    let ghost targets = ref_targets(refs.deep_view());
    let mut j: usize = 0;
    assert(seen + targets.take(0) =~= seen);
    while j < refs.len()
        invariant
            j <= refs.len(),
            targets == ref_targets(refs.deep_view()),
            names.deep_view() == sorted_unique(seen + targets.take(j as int)),
            strictly_sorted(names.deep_view()),
        decreases refs.len() - j,
    {
        insert_sorted(names, refs[j].target.as_str());
        proof {
            assert(targets[j as int] == refs[j as int].target@);
            lemma_sorted_unique_push(seen + targets.take(j as int), targets[j as int]);
            assert((seen + targets.take(j as int)).push(targets[j as int]) =~= seen + targets.take(
                j + 1,
            ));
        }
        j += 1;
    }
    assert(targets.take(j as int) =~= targets);
}

/// The node names of the graph: every name that the inputs mention, in
/// ascending order.
pub(crate) fn collect_names(crossrefs: &CrossRefs, skills: &Vec<&Skill>) -> (names: Vec<String>)
    ensures
        names.deep_view() == built_nodes(crossrefs.deep_view(), skills.deep_view()),
        strictly_sorted(names.deep_view()),
{
    let ghost cm = crossrefs.deep_view();
    let ghost sm = skills.deep_view();
    let mut names: Vec<String> = Vec::new();
    assert(names.deep_view() =~= Seq::<Seq<char>>::empty());
    let mut i: usize = 0;
    while i < crossrefs.len()
        invariant
            i <= crossrefs.len(),
            cm == crossrefs.deep_view(),
            names.deep_view() == sorted_unique(crossref_names(cm.take(i as int))),
            strictly_sorted(names.deep_view()),
        decreases crossrefs.len() - i,
    {
        let ghost before = crossref_names(cm.take(i as int));
        insert_sorted(&mut names, crossrefs[i].0.as_str());
        proof {
            lemma_sorted_unique_push(before, crossrefs[i as int].0@);
        }
        collect_targets(&mut names, &crossrefs[i].1, Ghost(before.push(crossrefs[i as int].0@)));
        proof {
            assert(cm.take(i + 1).drop_last() =~= cm.take(i as int));
            assert(cm.take(i + 1).last() == cm[i as int]);
            assert(cm[i as int].0 == crossrefs[i as int].0@);
            assert(cm[i as int].1 == crossrefs[i as int].1.deep_view());
        }
        i += 1;
    }
    assert(cm.take(i as int) =~= cm);
    let ghost base = crossref_names(cm);
    let mut k: usize = 0;
    assert(base + skill_names(sm).take(0) =~= base);
    while k < skills.len()
        invariant
            k <= skills.len(),
            sm == skills.deep_view(),
            base == crossref_names(cm),
            names.deep_view() == sorted_unique(base + skill_names(sm).take(k as int)),
            strictly_sorted(names.deep_view()),
        decreases skills.len() - k,
    {
        insert_sorted(&mut names, skills[k].name.as_str());
        proof {
            let listed = skill_names(sm);
            assert(listed[k as int] == skills[k as int].name@);
            lemma_sorted_unique_push(base + listed.take(k as int), listed[k as int]);
            assert((base + listed.take(k as int)).push(listed[k as int]) =~= base + listed.take(
                k + 1,
            ));
        }
        k += 1;
    }
    assert(skill_names(sm).take(k as int) =~= skill_names(sm));
    names
}

/// The key under which the pair of node indices `(a, b)` is remembered.
pub open spec fn pair_key(a: usize, b: usize) -> u128 {
    (a * 0x1_0000_0000_0000_0000 + b) as u128
}

/// Some edge leads from node `a` to node `b`.
pub open spec fn has_index_pair(edges: Seq<(int, int, EdgeKind)>, a: int, b: int) -> bool {
    exists|i: int| 0 <= i < edges.len() && (#[trigger] edges[i]).0 == a && edges[i].1 == b
}

/// What holds while edges are added: the backend holds the edges that come
/// of the candidates `cands`, and `seen` the key of each.
pub open spec fn assembling(
    names: Seq<Seq<char>>,
    backend: Backend,
    seen: Set<u128>,
    cands: Seq<EdgeModel>,
) -> bool {
    &&& parts_fit(names, backend)
    &&& name_edges(names, backend_edges(backend)) == resolve(names, cands)
    &&& forall|a: usize, b: usize|
        a < names.len() && b < names.len() ==> (seen.contains(pair_key(a, b))
            <==> #[trigger] has_index_pair(backend_edges(backend), a as int, b as int))
}

/// One more edge joins one more pair of nodes.
pub proof fn lemma_index_pair_push(
    done: Seq<(int, int, EdgeKind)>,
    e: (int, int, EdgeKind),
    a: int,
    b: int,
)
    ensures
        has_index_pair(done.push(e), a, b) <==> has_index_pair(done, a, b) || (e.0 == a && e.1
            == b),
{
    let grown = done.push(e);
    if has_index_pair(done, a, b) {
        let i = choose|i: int| 0 <= i < done.len() && (#[trigger] done[i]).0 == a && done[i].1 == b;
        assert(grown[i].0 == a && grown[i].1 == b);
    }
    if e.0 == a && e.1 == b {
        assert(grown[done.len() as int].0 == a && grown[done.len() as int].1 == b);
    }
    if has_index_pair(grown, a, b) {
        let i = choose|i: int|
            0 <= i < grown.len() && (#[trigger] grown[i]).0 == a && grown[i].1 == b;
        if i < done.len() {
            assert(done[i].0 == a && done[i].1 == b);
        }
    }
}

/// An edge between two names exists exactly if one between their indices
/// does.
pub proof fn lemma_pair_by_index(
    names: Seq<Seq<char>>,
    edges: Seq<(int, int, EdgeKind)>,
    a: int,
    b: int,
)
    requires
        strictly_sorted(names),
        edges_in_range(names.len() as int, edges),
        0 <= a < names.len(),
        0 <= b < names.len(),
    ensures
        has_pair(name_edges(names, edges), names[a], names[b]) <==> has_index_pair(edges, a, b),
{
    lemma_sorted_distinct(names);
    let named = name_edges(names, edges);
    if has_pair(named, names[a], names[b]) {
        let i = choose|i: int|
            0 <= i < named.len() && (#[trigger] named[i]).source == names[a] && named[i].target
                == names[b];
        assert(edges[i].0 == a && edges[i].1 == b);
    }
    if has_index_pair(edges, a, b) {
        let i = choose|i: int| 0 <= i < edges.len() && (#[trigger] edges[i]).0 == a && edges[i].1 == b;
        assert(named[i].source == names[a] && named[i].target == names[b]);
    }
}

/// Takes one candidate: the edge is added if both names are nodes and no
/// edge joins them in this direction yet.
fn add_candidate(
    names: &Vec<String>,
    backend: &mut Backend,
    seen: &mut HashSet<u128>,
    source: &str,
    target: &str,
    kind: EdgeKind,
    Ghost(cands): Ghost<Seq<EdgeModel>>,
)
    requires
        assembling(names.deep_view(), *old(backend), old(seen)@, cands),
    ensures
        assembling(
            names.deep_view(),
            *final(backend),
            final(seen)@,
            cands.push(EdgeModel { source: source@, target: target@, kind }),
        ),
{
    broadcast use vstd::std_specs::hash::group_hash_axioms;

    let ghost nodes = names.deep_view();
    let ghost cand = EdgeModel { source: source@, target: target@, kind };
    let ghost idx = backend_edges(*backend);
    let ghost prev = resolve(nodes, cands);
    assert(cands.push(cand).drop_last() =~= cands);
    let s = match find(names, source) {
        Some(s) => s,
        None => {
            return ;
        },
    };
    let t = match find(names, target) {
        Some(t) => t,
        None => {
            return ;
        },
    };
    proof {
        lemma_pair_by_index(nodes, idx, s as int, t as int);
        assert(nodes.contains(source@) && nodes.contains(target@));
    }
    let key: u128 = (s as u128) * 0x1_0000_0000_0000_0000 + (t as u128);
    assert(key == pair_key(s, t));
    if !seen.contains(&key) {
        backend_add_edge(backend, s, t, kind);
        seen.insert(key);
        proof {
            let grown = idx.push((s as int, t as int, kind));
            assert(accepts(nodes, prev, cand));
            assert(name_edges(nodes, grown) =~= prev.push(cand));
            assert forall|a: usize, b: usize| a < nodes.len() && b < nodes.len() implies (
            seen@.contains(pair_key(a, b)) <==> #[trigger] has_index_pair(
                grown,
                a as int,
                b as int,
            )) by {
                lemma_index_pair_push(idx, (s as int, t as int, kind), a as int, b as int);
            }
        }
    }
}

/// Takes the candidates of one source's references.
fn add_ref_edges(
    names: &Vec<String>,
    backend: &mut Backend,
    seen: &mut HashSet<u128>,
    source: &str,
    refs: &Vec<CrossRef>,
    Ghost(cands): Ghost<Seq<EdgeModel>>,
)
    requires
        assembling(names.deep_view(), *old(backend), old(seen)@, cands),
    ensures
        assembling(
            names.deep_view(),
            *final(backend),
            final(seen)@,
            cands + ref_candidates(source@, refs.deep_view()),
        ),
{
    let ghost asked = ref_candidates(source@, refs.deep_view());
    let mut j: usize = 0;
    assert(cands + asked.take(0) =~= cands);
    while j < refs.len()
        invariant
            j <= refs.len(),
            asked == ref_candidates(source@, refs.deep_view()),
            assembling(names.deep_view(), *backend, seen@, cands + asked.take(j as int)),
        decreases refs.len() - j,
    {
        add_candidate(
            names,
            backend,
            seen,
            source,
            refs[j].target.as_str(),
            EdgeKind::CrossRef,
            Ghost(cands + asked.take(j as int)),
        );
        proof {
            assert(asked[j as int].target == refs[j as int].target@);
            assert((cands + asked.take(j as int)).push(asked[j as int]) =~= cands + asked.take(
                j + 1,
            ));
        }
        j += 1;
    }
    assert(asked.take(j as int) =~= asked);
}

/// Takes the candidates of an `after` list (`forward`) or of a `before`
/// list.
fn add_dep_edges(
    names: &Vec<String>,
    backend: &mut Backend,
    seen: &mut HashSet<u128>,
    skill: &str,
    deps: &Option<Vec<String>>,
    forward: bool,
    Ghost(cands): Ghost<Seq<EdgeModel>>,
)
    requires
        assembling(names.deep_view(), *old(backend), old(seen)@, cands),
    ensures
        assembling(
            names.deep_view(),
            *final(backend),
            final(seen)@,
            cands + if forward {
                after_candidates(skill@, deps.deep_view())
            } else {
                before_candidates(skill@, deps.deep_view())
            },
        ),
{
    let ghost asked = if forward {
        after_candidates(skill@, deps.deep_view())
    } else {
        before_candidates(skill@, deps.deep_view())
    };
    match deps {
        None => {
            assert(cands + asked =~= cands);
        },
        Some(list) => {
            let mut j: usize = 0;
            assert(cands + asked.take(0) =~= cands);
            while j < list.len()
                invariant
                    j <= list.len(),
                    deps == Some(*list),
                    asked == if forward {
                        after_candidates(skill@, deps.deep_view())
                    } else {
                        before_candidates(skill@, deps.deep_view())
                    },
                    assembling(names.deep_view(), *backend, seen@, cands + asked.take(j as int)),
                decreases list.len() - j,
            {
                assert(deps.deep_view()->0[j as int] == list[j as int]@);
                if forward {
                    add_candidate(
                        names,
                        backend,
                        seen,
                        skill,
                        list[j].as_str(),
                        EdgeKind::Pipeline,
                        Ghost(cands + asked.take(j as int)),
                    );
                } else {
                    add_candidate(
                        names,
                        backend,
                        seen,
                        list[j].as_str(),
                        skill,
                        EdgeKind::Pipeline,
                        Ghost(cands + asked.take(j as int)),
                    );
                }
                proof {
                    assert((cands + asked.take(j as int)).push(asked[j as int]) =~= cands
                        + asked.take(j + 1));
                }
                j += 1;
            }
            assert(asked.take(j as int) =~= asked);
        },
    }
}

/// Takes the candidates of one stage: its `after` list, then its `before`
/// list.
fn add_stage_edges(
    names: &Vec<String>,
    backend: &mut Backend,
    seen: &mut HashSet<u128>,
    skill: &str,
    stage: &PipelineStage,
    Ghost(cands): Ghost<Seq<EdgeModel>>,
)
    requires
        assembling(names.deep_view(), *old(backend), old(seen)@, cands),
    ensures
        assembling(
            names.deep_view(),
            *final(backend),
            final(seen)@,
            cands + stage_candidates(skill@, stage.deep_view()),
        ),
{
    let ghost after = after_candidates(skill@, stage.after.deep_view());
    let ghost before = before_candidates(skill@, stage.before.deep_view());
    add_dep_edges(names, backend, seen, skill, &stage.after, true, Ghost(cands));
    add_dep_edges(names, backend, seen, skill, &stage.before, false, Ghost(cands + after));
    assert((cands + after) + before =~= cands + (after + before));
}

/// Takes the candidates of one skill's pipeline declaration.
fn add_skill_edges(
    names: &Vec<String>,
    backend: &mut Backend,
    seen: &mut HashSet<u128>,
    skill: &Skill,
    Ghost(cands): Ghost<Seq<EdgeModel>>,
)
    requires
        assembling(names.deep_view(), *old(backend), old(seen)@, cands),
    ensures
        assembling(
            names.deep_view(),
            *final(backend),
            final(seen)@,
            cands + skill_candidates(skill.deep_view()),
        ),
{
    match &skill.frontmatter.pipeline {
        None => {
            assert(cands + skill_candidates(skill.deep_view()) =~= cands);
        },
        Some(stages) => {
            let ghost sm = stages.deep_view();
            let mut j: usize = 0;
            assert(cands + stages_candidates(skill.name@, sm.take(0)) =~= cands);
            while j < stages.len()
                invariant
                    j <= stages.len(),
                    sm == stages.deep_view(),
                    assembling(
                        names.deep_view(),
                        *backend,
                        seen@,
                        cands + stages_candidates(skill.name@, sm.take(j as int)),
                    ),
                decreases stages.len() - j,
            {
                let ghost done = stages_candidates(skill.name@, sm.take(j as int));
                add_stage_edges(
                    names,
                    backend,
                    seen,
                    skill.name.as_str(),
                    &stages[j].1,
                    Ghost(cands + done),
                );
                proof {
                    let asked = stage_candidates(skill.name@, stages[j as int].1.deep_view());
                    assert(sm.take(j + 1).drop_last() =~= sm.take(j as int));
                    assert(sm.take(j + 1).last().1 == stages[j as int].1.deep_view());
                    assert((cands + done) + asked =~= cands + (done + asked));
                }
                j += 1;
            }
            assert(sm.take(j as int) =~= sm);
        },
    }
}

/// Adds the nodes and the edges of the graph to an empty backend.
pub(crate) fn assemble_store(crossrefs: &CrossRefs, skills: &Vec<&Skill>) -> (store: GraphStore)
    ensures
        store.nodes() == built_nodes(crossrefs.deep_view(), skills.deep_view()),
        store.edges() == built_edges(crossrefs.deep_view(), skills.deep_view()),
{
    broadcast use vstd::std_specs::hash::group_hash_axioms;

    let ghost cm = crossrefs.deep_view();
    let ghost sm = skills.deep_view();
    let names = collect_names(crossrefs, skills);
    let ghost nodes = names.deep_view();
    let mut backend = backend_new();
    let mut n: usize = 0;
    assert(nodes.take(0) =~= Seq::<Seq<char>>::empty());
    while n < names.len()
        invariant
            n <= names.len(),
            nodes == names.deep_view(),
            backend_nodes(backend) == nodes.take(n as int),
            backend_edges(backend) == Seq::<(int, int, EdgeKind)>::empty(),
        decreases names.len() - n,
    {
        backend_add_node(&mut backend, names[n].clone());
        assert(nodes.take(n as int).push(names[n as int]@) =~= nodes.take(n + 1));
        n += 1;
    }
    assert(nodes.take(n as int) =~= nodes);
    let mut seen: HashSet<u128> = HashSet::new();
    assert(name_edges(nodes, backend_edges(backend)) =~= Seq::<EdgeModel>::empty());
    let mut i: usize = 0;
    assert(cm.take(0) =~= Seq::empty());
    while i < crossrefs.len()
        invariant
            i <= crossrefs.len(),
            cm == crossrefs.deep_view(),
            nodes == names.deep_view(),
            assembling(nodes, backend, seen@, crossref_candidates(cm.take(i as int))),
        decreases crossrefs.len() - i,
    {
        add_ref_edges(
            &names,
            &mut backend,
            &mut seen,
            crossrefs[i].0.as_str(),
            &crossrefs[i].1,
            Ghost(crossref_candidates(cm.take(i as int))),
        );
        proof {
            assert(cm.take(i + 1).drop_last() =~= cm.take(i as int));
            assert(cm.take(i + 1).last() == cm[i as int]);
            assert(cm[i as int].0 == crossrefs[i as int].0@);
            assert(cm[i as int].1 == crossrefs[i as int].1.deep_view());
        }
        i += 1;
    }
    assert(cm.take(i as int) =~= cm);
    let ghost base = crossref_candidates(cm);
    let mut k: usize = 0;
    assert(sm.take(0) =~= Seq::empty());
    assert(base + pipeline_candidates(sm.take(0)) =~= base);
    while k < skills.len()
        invariant
            k <= skills.len(),
            sm == skills.deep_view(),
            nodes == names.deep_view(),
            base == crossref_candidates(cm),
            assembling(nodes, backend, seen@, base + pipeline_candidates(sm.take(k as int))),
        decreases skills.len() - k,
    {
        let ghost done = pipeline_candidates(sm.take(k as int));
        add_skill_edges(&names, &mut backend, &mut seen, skills[k], Ghost(base + done));
        proof {
            let asked = skill_candidates(skills[k as int].deep_view());
            assert(sm.take(k + 1).drop_last() =~= sm.take(k as int));
            assert(sm.take(k + 1).last() == skills[k as int].deep_view());
            assert((base + done) + asked =~= base + (done + asked));
        }
        k += 1;
    }
    assert(sm.take(k as int) =~= sm);
    GraphStore::new(backend, names)
}

} // verus!
