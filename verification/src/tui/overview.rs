//! System Overview - landing page dashboard.

use crate::commands::graph::{available_pipelines, pipeline_names};
use crate::graph::filter::{pipeline_members, pipeline_skill_names};
use crate::graph::model::{built, has_incoming, has_outgoing, GraphModel};
use crate::graph::store::{lemma_incoming_some, lemma_outgoing_some};
use crate::graph::SkillGraph;
use crate::names::{sort_names, sorted_all, sorted_copy, sorted_unique};
use crate::skill::{PipelineStage, StageModel};
use crate::text::{rank, Rank};
use crate::render::{decimal, joined, push_decimal, push_joined};
use crate::skill::{CrossRefs, Skill, SkillModel};
use vstd::prelude::*;

verus! {

/// How grave a finding of the health check is.
#[derive(Debug, Clone, Copy, PartialEq, Eq, Structural)]
pub enum Severity {
    /// Something is broken.
    Error,
    /// Something looks wrong.
    Warning,
    /// Something worth knowing.
    Info,
}

/// Whether a finding has the given severity.
pub open spec fn has_severity(finding: Severity, severity: Severity) -> bool {
    finding == severity
}

/// The number of findings of the given severity.
pub open spec fn severity_count(findings: Seq<Severity>, severity: Severity) -> nat {
    findings.filter(|f: Severity| has_severity(f, severity)).len()
}

/// Counts the findings of the given severity.
pub fn count_severity(findings: &Vec<Severity>, severity: Severity) -> (count: usize)
    ensures
        count == severity_count(findings@, severity),
{
    let ghost pred = |f: Severity| has_severity(f, severity);
    let mut count: usize = 0;
    let mut i: usize = 0;
    assert(findings@.take(0) =~= Seq::<Severity>::empty());
    assert(findings@.take(0).filter(pred).len() == 0) by {
        reveal(Seq::filter);
    }
    while i < findings.len()
        invariant
            i <= findings.len(),
            pred == |f: Severity| has_severity(f, severity),
            count <= i,
            count == findings@.take(i as int).filter(pred).len(),
        decreases findings.len() - i,
    {
        proof {
            assert(findings@.take(i as int).push(findings@[i as int]) =~= findings@.take(i + 1));
            findings@.take(i as int).lemma_filter_push(findings@[i as int], pred);
        }
        if findings[i] == severity {
            count += 1;
        }
        i += 1;
    }
    assert(findings@.take(i as int) =~= findings@);
    count
}

/// The clusters with their names: `cluster-1`, `cluster-2` and so on, in
/// the order in which the graph lists them.
pub open spec fn named_clusters(clusters: Seq<Seq<Seq<char>>>) -> Seq<(Seq<char>, Seq<Seq<char>>)> {
    Seq::new(clusters.len(), |i: int| ("cluster-"@ + decimal((i + 1) as nat), clusters[i]))
}

/// Names the clusters of the graph of the skills.
pub fn extract_clusters(crossrefs: &CrossRefs, skills: &[Skill]) -> (named: Vec<(String, Vec<String>)>)
    ensures
        named.deep_view() == named_clusters(
            built(crossrefs.deep_view(), skills.deep_view()).clusters,
        ),
{
    let graph = SkillGraph::from_skills(crossrefs, skills);
    let ghost wanted = named_clusters(graph@.clusters);
    let mut named: Vec<(String, Vec<String>)> = Vec::new();
    let mut i: usize = 0;
    assert(named.deep_view() =~= wanted.take(0));
    while i < graph.clusters.len()
        invariant
            i <= graph.clusters.len(),
            wanted == named_clusters(graph@.clusters),
            named.deep_view() == wanted.take(i as int),
        decreases graph.clusters.len() - i,
    {
        let ghost before = named.deep_view();
        let mut name = String::from_str("cluster-");
        push_decimal(&mut name, i + 1);
        let members = graph.clusters[i].clone();
        assert(members.deep_view() =~= graph.clusters[i as int].deep_view());
        named.push((name, members));
        assert(named.deep_view() =~= before.push(wanted[i as int]));
        assert(named.deep_view() =~= wanted.take(i + 1));
        i += 1;
    }
    assert(wanted.take(i as int) =~= wanted);
    named
}

/// Whether no edge of the graph enters or leaves the skill's node.
pub open spec fn is_unconnected(g: GraphModel, skill: SkillModel) -> bool {
    !has_outgoing(g.edges, skill.name) && !has_incoming(g.edges, skill.name)
}

/// The names of the skills without edges, ascending.
pub open spec fn unconnected_of(g: GraphModel, skills: Seq<SkillModel>) -> Seq<Seq<char>> {
    sorted_all(
        skills.filter(|s: SkillModel| is_unconnected(g, s)).map_values(|s: SkillModel| s.name),
    )
}

/// Find the skills that no edge of the graph of the skills touches.
pub fn find_unconnected(crossrefs: &CrossRefs, skills: &[Skill]) -> (names: Vec<String>)
    ensures
        names.deep_view() == unconnected_of(
            built(crossrefs.deep_view(), skills.deep_view()),
            skills.deep_view(),
        ),
{
    let graph = SkillGraph::from_skills(crossrefs, skills);
    let ghost g = graph@;
    let ghost sm = skills.deep_view();
    let ghost pred = |s: SkillModel| is_unconnected(g, s);
    let ghost name = |s: SkillModel| s.name;
    let mut found: Vec<String> = Vec::new();
    let mut j: usize = 0;
    assert(sm.take(0) =~= Seq::<SkillModel>::empty());
    assert(found.deep_view() =~= sm.take(0).filter(pred).map_values(name)) by {
        reveal(Seq::filter);
    }
    while j < skills.len()
        invariant
            j <= skills.len(),
            g == graph@,
            sm == skills.deep_view(),
            pred == |s: SkillModel| is_unconnected(g, s),
            name == |s: SkillModel| s.name,
            found.deep_view() == sm.take(j as int).filter(pred).map_values(name),
        decreases skills.len() - j,
    {
        let ghost before = found.deep_view();
        let ghost kept = sm.take(j as int).filter(pred);
        proof {
            assert(sm.take(j as int).push(sm[j as int]) =~= sm.take(j + 1));
            sm.take(j as int).lemma_filter_push(sm[j as int], pred);
            assert(sm[j as int] == skills[j as int].deep_view());
            lemma_outgoing_some(g.edges, sm[j as int].name);
            lemma_incoming_some(g.edges, sm[j as int].name);
        }
        let leaves = match graph.edges_from(skills[j].name.as_str()) {
            Some(list) => {
                assert(list.deep_view().len() == list.len());
                list.len() > 0
            },
            None => false,
        };
        let enters = match graph.edges_to(skills[j].name.as_str()) {
            Some(list) => {
                assert(list.deep_view().len() == list.len());
                list.len() > 0
            },
            None => false,
        };
        assert(leaves == has_outgoing(g.edges, sm[j as int].name));
        assert(enters == has_incoming(g.edges, sm[j as int].name));
        if !leaves && !enters {
            found.push(skills[j].name.clone());
            assert(found.deep_view() =~= before.push(sm[j as int].name));
            assert(kept.push(sm[j as int]).map_values(name) =~= kept.map_values(name).push(
                sm[j as int].name,
            ));
        }
        j += 1;
    }
    assert(sm.take(j as int) =~= sm);
    sort_names(&found)
}

/// A list of skills by time of change with one more: `e` is put behind the
/// skills that did not change before it.
pub open spec fn recent_insert(s: Seq<(Seq<char>, u64)>, e: (Seq<char>, u64)) -> Seq<
    (Seq<char>, u64),
>
    decreases s.len(),
{
    if s.len() == 0 {
        seq![e]
    } else if s.last().1 >= e.1 {
        s.push(e)
    } else {
        recent_insert(s.drop_last(), e).push(s.last())
    }
}

/// The skills by time of change, the latest first; skills that changed at
/// the same time keep their order.
pub open spec fn by_recency(entries: Seq<(Seq<char>, u64)>) -> Seq<(Seq<char>, u64)>
    decreases entries.len(),
{
    if entries.len() == 0 {
        Seq::empty()
    } else {
        recent_insert(by_recency(entries.drop_last()), entries.last())
    }
}

/// The names of the `limit` skills that changed last, the latest first.
pub open spec fn recent_names(entries: Seq<(Seq<char>, u64)>, limit: nat) -> Seq<Seq<char>> {
    let sorted = by_recency(entries);
    let shown = if sorted.len() <= limit {
        sorted
    } else {
        sorted.take(limit as int)
    };
    shown.map_values(|e: (Seq<char>, u64)| e.0)
}

/// `recent_insert` puts the entry before the entries that changed earlier.
proof fn lemma_recent_insert_at(s: Seq<(Seq<char>, u64)>, e: (Seq<char>, u64), p: int)
    requires
        0 <= p <= s.len(),
        forall|i: int| p <= i < s.len() ==> (#[trigger] s[i]).1 < e.1,
        p > 0 ==> s[p - 1].1 >= e.1,
    ensures
        recent_insert(s, e) == s.insert(p, e),
    decreases s.len(),
{
    if s.len() == 0 {
        assert(s.insert(0, e) =~= seq![e]);
    } else if p == s.len() {
        assert(s.insert(p, e) =~= s.push(e));
    } else {
        assert(s[s.len() - 1].1 < e.1);
        lemma_recent_insert_at(s.drop_last(), e, p);
        assert(s.drop_last().insert(p, e).push(s.last()) =~= s.insert(p, e));
    }
}

/// Find the skills that changed last. `modified` holds, for each skill
/// whose document could be examined, its name and the time of its last
/// change.
pub fn find_recent_skills(modified: &Vec<(String, u64)>, limit: usize) -> (names: Vec<String>)
    ensures
        names.deep_view() == recent_names(modified.deep_view(), limit as nat),
{
    let ghost all = modified.deep_view();
    let mut sorted: Vec<(String, u64)> = Vec::new();
    let mut i: usize = 0;
    assert(all.take(0) =~= Seq::<(Seq<char>, u64)>::empty());
    assert(sorted.deep_view() =~= Seq::<(Seq<char>, u64)>::empty());
    while i < modified.len()
        invariant
            i <= modified.len(),
            all == modified.deep_view(),
            sorted.deep_view() == by_recency(all.take(i as int)),
        decreases modified.len() - i,
    {
        let ghost s = sorted.deep_view();
        let time = modified[i].1;
        let mut p: usize = sorted.len();
        while p > 0 && sorted[p - 1].1 < time
            invariant
                p <= sorted.len(),
                s == sorted.deep_view(),
                forall|k: int| p <= k < s.len() ==> (#[trigger] s[k]).1 < time,
            decreases p,
        {
            assert(s[p - 1].1 == sorted[p - 1].1);
            p -= 1;
        }
        proof {
            if p > 0 {
                assert(s[p - 1].1 == sorted[p - 1].1);
            }
            lemma_recent_insert_at(s, (modified[i as int].0@, time), p as int);
            assert(all.take(i + 1).drop_last() =~= all.take(i as int));
            assert(all.take(i + 1).last() == (modified[i as int].0@, time));
        }
        sorted.insert(p, (modified[i].0.clone(), time));
        assert(sorted.deep_view() =~= s.insert(p as int, (modified[i as int].0@, time)));
        i += 1;
    }
    assert(all.take(i as int) =~= all);
    let ghost ordered = sorted.deep_view();
    let shown = if sorted.len() <= limit {
        sorted.len()
    } else {
        limit
    };
    let ghost wanted = recent_names(all, limit as nat);
    let mut names: Vec<String> = Vec::new();
    let mut k: usize = 0;
    assert(names.deep_view() =~= wanted.take(0));
    while k < shown
        invariant
            k <= shown,
            shown <= sorted.len(),
            shown == if sorted.len() <= limit {
                sorted.len()
            } else {
                limit
            },
            ordered == sorted.deep_view(),
            ordered == by_recency(all),
            wanted == recent_names(all, limit as nat),
            names.deep_view() == wanted.take(k as int),
        decreases shown - k,
    {
        let ghost before = names.deep_view();
        assert(ordered[k as int].0 == sorted[k as int].0@);
        names.push(sorted[k].0.clone());
        assert(names.deep_view() =~= before.push(wanted[k as int]));
        assert(names.deep_view() =~= wanted.take(k + 1));
        k += 1;
    }
    assert(wanted.take(k as int) =~= wanted);
    names
}

/// What the overview shows of one pipeline.
#[derive(Debug)]
pub struct PipelineInfo {
    /// Name of the pipeline.
    pub name: String,
    /// Number of different stages, a stage being an order and a name.
    pub stage_count: usize,
    /// Number of skills that take part.
    pub skill_count: usize,
    /// Whether the orders of the stages skip a number.
    pub has_gaps: bool,
}

/// Model of a [`PipelineInfo`].
pub struct PipelineInfoModel {
    pub name: Seq<char>,
    pub stage_count: usize,
    pub skill_count: usize,
    pub has_gaps: bool,
}

impl DeepView for PipelineInfo {
    type V = PipelineInfoModel;

    open spec fn deep_view(&self) -> PipelineInfoModel {
        PipelineInfoModel {
            name: self.name@,
            stage_count: self.stage_count,
            skill_count: self.skill_count,
            has_gaps: self.has_gaps,
        }
    }
}

/// Order and name of each stage that the entries declare for `pipeline`.
pub open spec fn stage_entries(stages: Seq<(Seq<char>, StageModel)>, pipeline: Seq<char>) -> Seq<
    (u32, Seq<char>),
>
    decreases stages.len(),
{
    if stages.len() == 0 {
        Seq::empty()
    } else if stages.last().0 == pipeline {
        stage_entries(stages.drop_last(), pipeline).push(
            (stages.last().1.order, stages.last().1.stage),
        )
    } else {
        stage_entries(stages.drop_last(), pipeline)
    }
}

/// Order and name of each stage that one skill declares for `pipeline`.
pub open spec fn skill_entries(skill: SkillModel, pipeline: Seq<char>) -> Seq<(u32, Seq<char>)> {
    match skill.frontmatter.pipeline {
        Some(stages) => stage_entries(stages, pipeline),
        None => Seq::empty(),
    }
}

/// Order and name of each stage that the skills declare for `pipeline`.
pub open spec fn pipeline_entries(skills: Seq<SkillModel>, pipeline: Seq<char>) -> Seq<
    (u32, Seq<char>),
>
    decreases skills.len(),
{
    if skills.len() == 0 {
        Seq::empty()
    } else {
        pipeline_entries(skills.drop_last(), pipeline) + skill_entries(skills.last(), pipeline)
    }
}

/// The stages of `s`, each once, in the order in which they first occur.
pub open spec fn distinct(s: Seq<(u32, Seq<char>)>) -> Seq<(u32, Seq<char>)>
    decreases s.len(),
{
    if s.len() == 0 {
        Seq::empty()
    } else if distinct(s.drop_last()).contains(s.last()) {
        distinct(s.drop_last())
    } else {
        distinct(s.drop_last()).push(s.last())
    }
}

/// An ascending list of orders with one more.
pub open spec fn order_insert(s: Seq<u32>, n: u32) -> Seq<u32>
    decreases s.len(),
{
    if s.len() == 0 {
        seq![n]
    } else if s.last() <= n {
        s.push(n)
    } else {
        order_insert(s.drop_last(), n).push(s.last())
    }
}

/// The orders of the stages, ascending.
pub open spec fn ascending_orders(stages: Seq<(u32, Seq<char>)>) -> Seq<u32>
    decreases stages.len(),
{
    if stages.len() == 0 {
        Seq::empty()
    } else {
        order_insert(ascending_orders(stages.drop_last()), stages.last().0)
    }
}

/// Whether two neighbours of the list differ by more than one.
pub open spec fn has_gap(orders: Seq<u32>) -> bool {
    exists|i: int| 0 <= i < orders.len() - 1 && #[trigger] orders[i + 1] - orders[i] > 1
}

/// What the overview shows of the pipeline `pipeline`.
pub open spec fn pipeline_info(skills: Seq<SkillModel>, pipeline: Seq<char>) -> PipelineInfoModel {
    let stages = distinct(pipeline_entries(skills, pipeline));
    PipelineInfoModel {
        name: pipeline,
        stage_count: stages.len() as usize,
        skill_count: sorted_unique(pipeline_members(skills, pipeline)).len() as usize,
        has_gaps: has_gap(ascending_orders(stages)),
    }
}

/// What the overview shows of the pipelines, in ascending order of their
/// names.
pub open spec fn pipeline_infos(skills: Seq<SkillModel>) -> Seq<PipelineInfoModel> {
    sorted_unique(pipeline_names(skills)).map_values(|p: Seq<char>| pipeline_info(skills, p))
}

/// Whether the list holds the stage.
fn holds_stage(list: &Vec<(u32, String)>, order: u32, stage: &str) -> (r: bool)
    ensures
        r == list.deep_view().contains((order, stage@)),
{
    let ghost s = list.deep_view();
    let mut i: usize = 0;
    while i < list.len()
        invariant
            i <= list.len(),
            s == list.deep_view(),
            forall|k: int| 0 <= k < i ==> s[k] != (order, stage@),
        decreases list.len() - i,
    {
        assert(s[i as int] == (list[i as int].0, list[i as int].1@));
        if list[i].0 == order {
            match rank(list[i].1.as_str(), stage) {
                Rank::Same => {
                    return true;
                },
                _ => {},
            }
        }
        i += 1;
    }
    false
}

/// Adds the stages that the entries declare for `pipeline` to the different
/// stages found so far.
fn collect_stages(found: &mut Vec<(u32, String)>, stages: &Vec<(String, PipelineStage)>, pipeline: &str, Ghost(seen): Ghost<Seq<(u32, Seq<char>)>>)
    requires
        old(found).deep_view() == distinct(seen),
    ensures
        final(found).deep_view() == distinct(seen + stage_entries(stages.deep_view(), pipeline@)),
{
    let ghost sm = stages.deep_view();
    let mut k: usize = 0;
    assert(sm.take(0) =~= Seq::empty());
    assert(seen + stage_entries(sm.take(0), pipeline@) =~= seen);
    while k < stages.len()
        invariant
            k <= stages.len(),
            sm == stages.deep_view(),
            found.deep_view() == distinct(seen + stage_entries(sm.take(k as int), pipeline@)),
        decreases stages.len() - k,
    {
        let ghost done = stage_entries(sm.take(k as int), pipeline@);
        let ghost before = found.deep_view();
        proof {
            assert(sm.take(k + 1).drop_last() =~= sm.take(k as int));
            assert(sm.take(k + 1).last() == sm[k as int]);
            assert(sm[k as int].0 == stages[k as int].0@);
            assert(sm[k as int].1 == stages[k as int].1.deep_view());
        }
        match rank(stages[k].0.as_str(), pipeline) {
            Rank::Same => {
                let entry = &stages[k].1;
                let ghost e = (entry.order, entry.stage@);
                proof {
                    assert((seen + done.push(e)).drop_last() =~= seen + done);
                    assert(seen + done.push(e) =~= (seen + done).push(e));
                }
                if !holds_stage(found, entry.order, entry.stage.as_str()) {
                    found.push((entry.order, entry.stage.clone()));
                    assert(found.deep_view() =~= before.push(e));
                }
            },
            _ => {},
        }
        k += 1;
    }
    assert(sm.take(k as int) =~= sm);
}

/// The different stages that the skills declare for `pipeline`.
fn distinct_stages(skills: &[Skill], pipeline: &str) -> (found: Vec<(u32, String)>)
    ensures
        found.deep_view() == distinct(pipeline_entries(skills.deep_view(), pipeline@)),
{
    let ghost sm = skills.deep_view();
    let mut found: Vec<(u32, String)> = Vec::new();
    let mut j: usize = 0;
    assert(sm.take(0) =~= Seq::<SkillModel>::empty());
    assert(found.deep_view() =~= Seq::<(u32, Seq<char>)>::empty());
    while j < skills.len()
        invariant
            j <= skills.len(),
            sm == skills.deep_view(),
            found.deep_view() == distinct(pipeline_entries(sm.take(j as int), pipeline@)),
        decreases skills.len() - j,
    {
        let ghost done = pipeline_entries(sm.take(j as int), pipeline@);
        proof {
            assert(sm.take(j + 1).drop_last() =~= sm.take(j as int));
            assert(sm.take(j + 1).last() == skills[j as int].deep_view());
        }
        match &skills[j].frontmatter.pipeline {
            Some(stages) => {
                collect_stages(&mut found, stages, pipeline, Ghost(done));
            },
            None => {
                assert(done + Seq::<(u32, Seq<char>)>::empty() =~= done);
            },
        }
        j += 1;
    }
    assert(sm.take(j as int) =~= sm);
    found
}

/// `order_insert` puts the order behind the orders that are not greater.
proof fn lemma_order_insert_at(s: Seq<u32>, n: u32, p: int)
    requires
        0 <= p <= s.len(),
        forall|i: int| p <= i < s.len() ==> (#[trigger] s[i]) > n,
        p > 0 ==> s[p - 1] <= n,
    ensures
        order_insert(s, n) == s.insert(p, n),
    decreases s.len(),
{
    if s.len() == 0 {
        assert(s.insert(0, n) =~= seq![n]);
    } else if p == s.len() {
        assert(s.insert(p, n) =~= s.push(n));
    } else {
        assert(s[s.len() - 1] > n);
        lemma_order_insert_at(s.drop_last(), n, p);
        assert(s.drop_last().insert(p, n).push(s.last()) =~= s.insert(p, n));
    }
}

/// Whether the orders of the stages skip a number.
fn orders_have_gap(stages: &Vec<(u32, String)>) -> (r: bool)
    ensures
        r == has_gap(ascending_orders(stages.deep_view())),
{
    let ghost all = stages.deep_view();
    let mut orders: Vec<u32> = Vec::new();
    let mut i: usize = 0;
    assert(all.take(0) =~= Seq::<(u32, Seq<char>)>::empty());
    while i < stages.len()
        invariant
            i <= stages.len(),
            all == stages.deep_view(),
            orders@ == ascending_orders(all.take(i as int)),
        decreases stages.len() - i,
    {
        let ghost s = orders@;
        let n = stages[i].0;
        let mut p: usize = orders.len();
        while p > 0 && orders[p - 1] > n
            invariant
                p <= orders.len(),
                s == orders@,
                forall|k: int| p <= k < s.len() ==> (#[trigger] s[k]) > n,
            decreases p,
        {
            p -= 1;
        }
        proof {
            lemma_order_insert_at(s, n, p as int);
            assert(all.take(i + 1).drop_last() =~= all.take(i as int));
            assert(all.take(i + 1).last().0 == n);
        }
        orders.insert(p, n);
        i += 1;
    }
    assert(all.take(i as int) =~= all);
    let ghost sorted = orders@;
    let n = orders.len();
    if n == 0 {
        return false;
    }
    let mut k: usize = 0;
    while k < n - 1
        invariant
            n == orders.len(),
            n > 0,
            k <= n - 1,
            sorted == orders@,
            sorted == ascending_orders(stages.deep_view()),
            forall|i: int| 0 <= i < k ==> !(#[trigger] sorted[i + 1] - sorted[i] > 1),
        decreases n - k,
    {
        if orders[k + 1] > orders[k] && orders[k + 1] - orders[k] > 1 {
            assert(sorted[k as int + 1] - sorted[k as int] > 1);
            return true;
        }
        k += 1;
    }
    false
}

/// Extract what the overview shows of the pipelines.
pub fn extract_pipelines(skills: &[Skill]) -> (pipelines: Vec<PipelineInfo>)
    ensures
        pipelines.deep_view() == pipeline_infos(skills.deep_view()),
{
    let ghost sm = skills.deep_view();
    let names = available_pipelines(skills);
    let ghost wanted = pipeline_infos(sm);
    let mut pipelines: Vec<PipelineInfo> = Vec::new();
    let mut i: usize = 0;
    assert(pipelines.deep_view() =~= wanted.take(0));
    while i < names.len()
        invariant
            i <= names.len(),
            sm == skills.deep_view(),
            names.deep_view() == sorted_unique(pipeline_names(sm)),
            wanted == pipeline_infos(sm),
            pipelines.deep_view() == wanted.take(i as int),
        decreases names.len() - i,
    {
        let ghost before = pipelines.deep_view();
        let name = &names[i];
        assert(name@ == names.deep_view()[i as int]);
        let stages = distinct_stages(skills, name.as_str());
        let members = sorted_copy(&pipeline_skill_names(skills, name.as_str()));
        let has_gaps = orders_have_gap(&stages);
        let info = PipelineInfo {
            name: name.clone(),
            stage_count: stages.len(),
            skill_count: members.len(),
            has_gaps,
        };
        assert(stages.deep_view().len() == stages.len());
        assert(members.deep_view().len() == members.len());
        assert(info.deep_view() == wanted[i as int]);
        pipelines.push(info);
        assert(pipelines.deep_view() =~= before.push(wanted[i as int]));
        assert(pipelines.deep_view() =~= wanted.take(i + 1));
        i += 1;
    }
    assert(wanted.take(i as int) =~= wanted);
    pipelines
}

/// What the overview is computed from, apart from the skills: the facts
/// that are read from the configuration, from the health check and from
/// the files.
#[derive(Debug)]
pub struct OverviewInputs {
    /// Number of configured skill sources.
    pub total_sources: usize,
    /// Number of configured targets.
    pub total_targets: usize,
    /// Severity of each finding of the health check.
    pub findings: Vec<Severity>,
    /// Cross-references of each skill's document.
    pub crossrefs: CrossRefs,
    /// Name and time of the last change of each skill whose document could be
    /// examined.
    pub modified: Vec<(String, u64)>,
}

/// The figures and lists that the overview shows.
#[derive(Debug)]
pub struct OverviewData {
    /// Number of skills.
    pub total_skills: usize,
    /// Number of configured skill sources.
    pub total_sources: usize,
    /// Number of configured targets.
    pub total_targets: usize,
    /// Number of findings that are errors.
    pub error_count: usize,
    /// Number of findings that are warnings.
    pub warning_count: usize,
    /// Number of findings that are notes.
    pub info_count: usize,
    /// Cluster name and member skills.
    pub clusters: Vec<(String, Vec<String>)>,
    /// The pipelines, by name.
    pub pipelines: Vec<PipelineInfo>,
    /// Skills without edges, by name.
    pub unconnected: Vec<String>,
    /// Skill names sorted by time of change.
    pub recent: Vec<String>,
}

/// System Overview state.
#[derive(Debug)]
pub struct OverviewState {
    /// Cached data refreshed when entering the view.
    pub data: Option<OverviewData>,
}

/// How many of the skills that changed last the overview lists.
pub const RECENT_LIMIT: usize = 10;

/// Whether `data` is the overview of these inputs and skills.
pub open spec fn is_overview_of(data: OverviewData, inputs: OverviewInputs, skills: Seq<SkillModel>) -> bool {
    let g = built(inputs.crossrefs.deep_view(), skills);
    &&& data.total_skills == skills.len()
    &&& data.total_sources == inputs.total_sources
    &&& data.total_targets == inputs.total_targets
    &&& data.error_count == severity_count(inputs.findings@, Severity::Error)
    &&& data.warning_count == severity_count(inputs.findings@, Severity::Warning)
    &&& data.info_count == severity_count(inputs.findings@, Severity::Info)
    &&& data.clusters.deep_view() == named_clusters(g.clusters)
    &&& data.pipelines.deep_view() == pipeline_infos(skills)
    &&& data.unconnected.deep_view() == unconnected_of(g, skills)
    &&& data.recent.deep_view() == recent_names(inputs.modified.deep_view(), RECENT_LIMIT as nat)
}

impl OverviewState {
    /// An overview without data.
    pub fn new() -> (state: OverviewState)
        ensures
            state.data is None,
    {
        OverviewState { data: None }
    }

    /// Refresh the overview data.
    pub fn refresh(&mut self, inputs: &OverviewInputs, skills: &[Skill])
        ensures
            final(self).data is Some,
            is_overview_of(final(self).data->0, *inputs, skills.deep_view()),
    {
        let data = OverviewData {
            total_skills: skills.len(),
            total_sources: inputs.total_sources,
            total_targets: inputs.total_targets,
            error_count: count_severity(&inputs.findings, Severity::Error),
            warning_count: count_severity(&inputs.findings, Severity::Warning),
            info_count: count_severity(&inputs.findings, Severity::Info),
            clusters: extract_clusters(&inputs.crossrefs, skills),
            pipelines: extract_pipelines(skills),
            unconnected: find_unconnected(&inputs.crossrefs, skills),
            recent: find_recent_skills(&inputs.modified, RECENT_LIMIT),
        };
        assert(skills.deep_view().len() == skills.len());
        self.data = Some(data);
    }
}

// ----- what the view shows -----

/// The state of health that colours the header.
#[derive(Debug, Clone, Copy, PartialEq, Eq, Structural)]
pub enum Health {
    /// Some finding is an error.
    Failing,
    /// No finding is an error, some finding is a warning.
    Doubtful,
    /// No finding is an error or a warning.
    Sound,
}

/// The state of health for the given numbers of errors and warnings.
pub fn health(error_count: usize, warning_count: usize) -> (h: Health)
    ensures
        h == if error_count > 0 {
            Health::Failing
        } else if warning_count > 0 {
            Health::Doubtful
        } else {
            Health::Sound
        },
{
    if error_count > 0 {
        Health::Failing
    } else if warning_count > 0 {
        Health::Doubtful
    } else {
        Health::Sound
    }
}

/// The findings of the health check, counted by severity.
pub fn findings_line(data: &OverviewData) -> (line: String)
    ensures
        line@ == decimal(data.error_count as nat) + " errors, "@ + decimal(
            data.warning_count as nat,
        ) + " warnings, "@ + decimal(data.info_count as nat) + " info"@,
{
    let mut line = String::new();
    push_decimal(&mut line, data.error_count);
    line.append(" errors, ");
    push_decimal(&mut line, data.warning_count);
    line.append(" warnings, ");
    push_decimal(&mut line, data.info_count);
    line.append(" info");
    assert(line@ =~= decimal(data.error_count as nat) + " errors, "@ + decimal(
        data.warning_count as nat,
    ) + " warnings, "@ + decimal(data.info_count as nat) + " info"@);
    line
}

/// The line of one cluster: its name, its size and its members.
pub fn cluster_line(name: &str, members: &Vec<String>) -> (line: String)
    ensures
        line@ == name@ + " ("@ + decimal(members.len() as nat) + " skills): "@ + joined(
            members.deep_view(),
            ", "@,
        ),
{
    let mut line = String::new();
    line.append(name);
    line.append(" (");
    push_decimal(&mut line, members.len());
    line.append(" skills): ");
    push_joined(&mut line, members, ", ");
    assert(line@ =~= name@ + " ("@ + decimal(members.len() as nat) + " skills): "@ + joined(
        members.deep_view(),
        ", "@,
    ));
    line
}

/// The line of one pipeline: its name, its numbers of stages and skills,
/// and a mark if the orders of its stages skip a number.
pub fn pipeline_line(info: &PipelineInfo) -> (line: String)
    ensures
        line@ == info.name@ + ": "@ + decimal(info.stage_count as nat) + " stages, "@ + decimal(
            info.skill_count as nat,
        ) + " skills"@ + if info.has_gaps {
            " \u{26a0} gaps"@
        } else {
            ""@
        },
{
    let mut line = String::new();
    line.append(info.name.as_str());
    line.append(": ");
    push_decimal(&mut line, info.stage_count);
    line.append(" stages, ");
    push_decimal(&mut line, info.skill_count);
    line.append(" skills");
    line.append(if info.has_gaps { " \u{26a0} gaps" } else { "" });
    assert(line@ =~= info.name@ + ": "@ + decimal(info.stage_count as nat) + " stages, "@
        + decimal(info.skill_count as nat) + " skills"@ + if info.has_gaps {
        " \u{26a0} gaps"@
    } else {
        ""@
    });
    line
}

} // verus!
