//! List command implementation: what is listed, apart from reading the
//! skills and printing the lines.

use crate::graph::model::{built, ref_targets};
use crate::graph::SkillGraph;
use crate::names::{
    contains, insert_sorted, lemma_sorted_unique_push, sort_names, sorted_all, sorted_unique,
    strictly_sorted,
};
use crate::skill::{CrossRef, CrossRefModel, CrossRefs, CrossRefsModel, Skill, SkillModel};
use crate::text::{rank, Rank};
use vstd::prelude::*;

verus! {

/// What to list.
#[derive(Debug)]
pub enum ListMode {
    /// The enabled skills of each scope.
    Default,
    /// The skills by cluster.
    Groups,
    /// The references from and to one skill.
    Refs(String),
    /// The names that are referred to and that no skill has.
    Missing,
}

/// The directory of the skill with the given name. Of several skills with
/// one name the last counts.
pub open spec fn path_of(skills: Seq<SkillModel>, name: Seq<char>) -> Option<Seq<char>>
    decreases skills.len(),
{
    if skills.len() == 0 {
        None
    } else if skills.last().name == name {
        Some(skills.last().path)
    } else {
        path_of(skills.drop_last(), name)
    }
}

/// Looks up the directory of the skill with the given name.
pub fn find_path(skills: &[Skill], name: &str) -> (path: Option<String>)
    ensures
        path.deep_view() == path_of(skills.deep_view(), name@),
{
    let ghost sm = skills.deep_view();
    let mut i: usize = skills.len();
    assert(sm.take(i as int) =~= sm);
    while i > 0
        invariant
            i <= skills.len(),
            sm == skills.deep_view(),
            path_of(sm, name@) == path_of(sm.take(i as int), name@),
        decreases i,
    {
        proof {
            assert(sm.take(i as int).drop_last() =~= sm.take(i - 1));
            assert(sm.take(i as int).last() == skills[i - 1].deep_view());
        }
        match rank(skills[i - 1].name.as_str(), name) {
            Rank::Same => {
                return Some(skills[i - 1].path.clone());
            },
            _ => {},
        }
        i -= 1;
    }
    None
}

/// One enabled skill of a scope.
#[derive(Debug)]
pub struct SkillEntry {
    /// Name of the skill.
    pub name: String,
    /// Directory of the skill, if a skill of this name was discovered.
    pub path: Option<String>,
    /// Whether the global scope enables the skill.
    pub global: bool,
}

/// Model of a [`SkillEntry`].
pub struct SkillEntryModel {
    pub name: Seq<char>,
    pub path: Option<Seq<char>>,
    pub global: bool,
}

impl DeepView for SkillEntry {
    type V = SkillEntryModel;

    open spec fn deep_view(&self) -> SkillEntryModel {
        SkillEntryModel { name: self.name@, path: self.path.deep_view(), global: self.global }
    }
}

/// The skills that a project enables, as configured.
#[derive(Debug)]
pub struct ProjectScope {
    /// Directory of the project.
    pub path: String,
    /// Whether the project also enables the skills of the global scope.
    pub inherit: bool,
    /// Skills that the project enables itself.
    pub skills: Vec<String>,
}

/// The enabled skills of a project, as listed.
#[derive(Debug)]
pub struct ProjectListing {
    /// Directory of the project.
    pub path: String,
    /// Whether the project also enables the skills of the global scope.
    pub inherit: bool,
    /// The enabled skills, ascending, each once.
    pub entries: Vec<SkillEntry>,
}

/// The entry of the skill `name`.
pub open spec fn entry_for(skills: Seq<SkillModel>, global: Seq<Seq<char>>, name: Seq<char>) -> SkillEntryModel {
    SkillEntryModel { name, path: path_of(skills, name), global: global.contains(name) }
}

/// The entries of the given names, in order.
pub open spec fn entries_for(skills: Seq<SkillModel>, global: Seq<Seq<char>>, names: Seq<Seq<char>>) -> Seq<SkillEntryModel> {
    names.map_values(|n: Seq<char>| entry_for(skills, global, n))
}

/// The names that a project enables: its own and, if it inherits, those of
/// the global scope, ascending, each once.
pub open spec fn project_names(global: Seq<Seq<char>>, inherit: bool, own: Seq<Seq<char>>) -> Seq<Seq<char>> {
    sorted_unique(if inherit {
        global + own
    } else {
        own
    })
}

/// Lists the given names with what is known of each.
pub fn list_entries(skills: &[Skill], global: &Vec<String>, names: &Vec<String>) -> (entries: Vec<SkillEntry>)
    ensures
        entries.deep_view() == entries_for(
            skills.deep_view(),
            global.deep_view(),
            names.deep_view(),
        ),
{
    let ghost wanted = entries_for(skills.deep_view(), global.deep_view(), names.deep_view());
    let mut entries: Vec<SkillEntry> = Vec::new();
    let mut i: usize = 0;
    assert(entries.deep_view() =~= wanted.take(0));
    while i < names.len()
        invariant
            i <= names.len(),
            wanted == entries_for(skills.deep_view(), global.deep_view(), names.deep_view()),
            entries.deep_view() == wanted.take(i as int),
        decreases names.len() - i,
    {
        let ghost before = entries.deep_view();
        let name = &names[i];
        assert(name@ == names.deep_view()[i as int]);
        let entry = SkillEntry {
            name: name.clone(),
            path: find_path(skills, name.as_str()),
            global: contains(global, name.as_str()),
        };
        assert(entry.deep_view() == wanted[i as int]);
        entries.push(entry);
        assert(entries.deep_view() =~= before.push(wanted[i as int]));
        assert(entries.deep_view() =~= wanted.take(i + 1));
        i += 1;
    }
    assert(wanted.take(i as int) =~= wanted);
    entries
}

/// The names that a project enables.
pub fn enabled_names(global: &Vec<String>, inherit: bool, own: &Vec<String>) -> (names: Vec<String>)
    ensures
        names.deep_view() == project_names(global.deep_view(), inherit, own.deep_view()),
{
    let ghost gl = global.deep_view();
    let ghost ow = own.deep_view();
    let mut names: Vec<String> = Vec::new();
    assert(names.deep_view() =~= sorted_unique(Seq::<Seq<char>>::empty()));
    let ghost mut base = Seq::<Seq<char>>::empty();
    if inherit {
        let mut i: usize = 0;
        assert(gl.take(0) =~= Seq::<Seq<char>>::empty());
        while i < global.len()
            invariant
                i <= global.len(),
                gl == global.deep_view(),
                names.deep_view() == sorted_unique(gl.take(i as int)),
                strictly_sorted(names.deep_view()),
            decreases global.len() - i,
        {
            insert_sorted(&mut names, global[i].as_str());
            proof {
                assert(gl[i as int] == global[i as int]@);
                lemma_sorted_unique_push(gl.take(i as int), gl[i as int]);
                assert(gl.take(i as int).push(gl[i as int]) =~= gl.take(i + 1));
            }
            i += 1;
        }
        proof {
            assert(gl.take(i as int) =~= gl);
            base = gl;
        }
    }
    let mut k: usize = 0;
    assert(base + ow.take(0) =~= base);
    while k < own.len()
        invariant
            k <= own.len(),
            ow == own.deep_view(),
            names.deep_view() == sorted_unique(base + ow.take(k as int)),
            strictly_sorted(names.deep_view()),
        decreases own.len() - k,
    {
        insert_sorted(&mut names, own[k].as_str());
        proof {
            assert(ow[k as int] == own[k as int]@);
            lemma_sorted_unique_push(base + ow.take(k as int), ow[k as int]);
            assert((base + ow.take(k as int)).push(ow[k as int]) =~= base + ow.take(k + 1));
        }
        k += 1;
    }
    proof {
        assert(ow.take(k as int) =~= ow);
        if !inherit {
            assert(base + ow =~= ow);
        }
    }
    names
}

/// Whether some cluster holds the name.
pub open spec fn is_clustered(clusters: Seq<Seq<Seq<char>>>, name: Seq<char>) -> bool {
    exists|c: int| 0 <= c < clusters.len() && (#[trigger] clusters[c]).contains(name)
}

/// Whether the skill stands in no cluster.
pub open spec fn is_unclustered(clusters: Seq<Seq<Seq<char>>>, skill: SkillModel) -> bool {
    !is_clustered(clusters, skill.name)
}

/// The skills that are listed apart from the clusters: all of them in
/// ascending order where there is no cluster, else those that stand in no
/// cluster, in their own order.
pub open spec fn listed_apart(clusters: Seq<Seq<Seq<char>>>, skills: Seq<SkillModel>) -> Seq<Seq<char>> {
    if clusters.len() == 0 {
        sorted_all(skills.map_values(|s: SkillModel| s.name))
    } else {
        skills.filter(|s: SkillModel| is_unclustered(clusters, s)).map_values(
            |s: SkillModel| s.name,
        )
    }
}

/// Whether some cluster holds the name.
fn in_cluster(clusters: &Vec<Vec<String>>, name: &str) -> (r: bool)
    ensures
        r == is_clustered(clusters.deep_view(), name@),
{
    let ghost cm = clusters.deep_view();
    let mut c: usize = 0;
    while c < clusters.len()
        invariant
            c <= clusters.len(),
            cm == clusters.deep_view(),
            forall|k: int| 0 <= k < c ==> !(#[trigger] cm[k]).contains(name@),
        decreases clusters.len() - c,
    {
        assert(cm[c as int] == clusters[c as int].deep_view());
        if contains(&clusters[c], name) {
            return true;
        }
        c += 1;
    }
    false
}

/// The names of the skills, in order.
fn names_of(skills: &[Skill]) -> (names: Vec<String>)
    ensures
        names.deep_view() == skills.deep_view().map_values(|s: SkillModel| s.name),
{
    let ghost wanted = skills.deep_view().map_values(|s: SkillModel| s.name);
    let mut names: Vec<String> = Vec::new();
    let mut i: usize = 0;
    assert(names.deep_view() =~= wanted.take(0));
    while i < skills.len()
        invariant
            i <= skills.len(),
            wanted == skills.deep_view().map_values(|s: SkillModel| s.name),
            names.deep_view() == wanted.take(i as int),
        decreases skills.len() - i,
    {
        let ghost before = names.deep_view();
        names.push(skills[i].name.clone());
        assert(names.deep_view() =~= before.push(wanted[i as int]));
        assert(names.deep_view() =~= wanted.take(i + 1));
        i += 1;
    }
    assert(wanted.take(i as int) =~= wanted);
    names
}

/// The skills that are listed apart from the clusters.
pub fn list_apart(clusters: &Vec<Vec<String>>, skills: &[Skill]) -> (names: Vec<String>)
    ensures
        names.deep_view() == listed_apart(clusters.deep_view(), skills.deep_view()),
{
    if clusters.len() == 0 {
        assert(clusters.deep_view().len() == 0);
        return sort_names(&names_of(skills));
    }
    assert(clusters.deep_view().len() != 0);
    let ghost cm = clusters.deep_view();
    let ghost sm = skills.deep_view();
    let ghost pred = |s: SkillModel| is_unclustered(cm, s);
    let ghost name = |s: SkillModel| s.name;
    let mut names: Vec<String> = Vec::new();
    let mut j: usize = 0;
    assert(sm.take(0) =~= Seq::<SkillModel>::empty());
    assert(names.deep_view() =~= sm.take(0).filter(pred).map_values(name)) by {
        reveal(Seq::filter);
    }
    while j < skills.len()
        invariant
            j <= skills.len(),
            cm == clusters.deep_view(),
            sm == skills.deep_view(),
            pred == |s: SkillModel| is_unclustered(cm, s),
            name == |s: SkillModel| s.name,
            names.deep_view() == sm.take(j as int).filter(pred).map_values(name),
        decreases skills.len() - j,
    {
        let ghost before = names.deep_view();
        let ghost kept = sm.take(j as int).filter(pred);
        proof {
            assert(sm.take(j as int).push(sm[j as int]) =~= sm.take(j + 1));
            sm.take(j as int).lemma_filter_push(sm[j as int], pred);
            assert(sm[j as int] == skills[j as int].deep_view());
        }
        if !in_cluster(clusters, skills[j].name.as_str()) {
            names.push(skills[j].name.clone());
            assert(names.deep_view() =~= before.push(sm[j as int].name));
            assert(kept.push(sm[j as int]).map_values(name) =~= kept.map_values(name).push(
                sm[j as int].name,
            ));
        }
        j += 1;
    }
    assert(sm.take(j as int) =~= sm);
    names
}

/// What the skill `name` refers to: the targets of its references. Of
/// several entries for one skill the last counts.
pub open spec fn outgoing_refs(crossrefs: CrossRefsModel, name: Seq<char>) -> Seq<Seq<char>>
    decreases crossrefs.len(),
{
    if crossrefs.len() == 0 {
        Seq::empty()
    } else if crossrefs.last().0 == name {
        ref_targets(crossrefs.last().1)
    } else {
        outgoing_refs(crossrefs.drop_last(), name)
    }
}

/// Whether one of the references leads to `name`.
pub open spec fn refers_to(refs: Seq<CrossRefModel>, name: Seq<char>) -> bool {
    exists|j: int| 0 <= j < refs.len() && (#[trigger] refs[j]).target == name
}

/// Whether the entry holds a reference to `name`.
pub open spec fn entry_refers_to(entry: (Seq<char>, Seq<CrossRefModel>), name: Seq<char>) -> bool {
    refers_to(entry.1, name)
}

/// The skills that refer to `name`, in the order of the entries.
pub open spec fn incoming_refs(crossrefs: CrossRefsModel, name: Seq<char>) -> Seq<Seq<char>> {
    crossrefs.filter(|e: (Seq<char>, Seq<CrossRefModel>)| entry_refers_to(e, name)).map_values(
        |e: (Seq<char>, Seq<CrossRefModel>)| e.0,
    )
}

/// The targets of a list of references.
fn targets_of(refs: &Vec<CrossRef>) -> (targets: Vec<String>)
    ensures
        targets.deep_view() == ref_targets(refs.deep_view()),
{
    let ghost wanted = ref_targets(refs.deep_view());
    let mut targets: Vec<String> = Vec::new();
    let mut i: usize = 0;
    assert(targets.deep_view() =~= wanted.take(0));
    while i < refs.len()
        invariant
            i <= refs.len(),
            wanted == ref_targets(refs.deep_view()),
            targets.deep_view() == wanted.take(i as int),
        decreases refs.len() - i,
    {
        let ghost before = targets.deep_view();
        targets.push(refs[i].target.clone());
        assert(wanted[i as int] == refs[i as int].target@);
        assert(targets.deep_view() =~= before.push(wanted[i as int]));
        assert(targets.deep_view() =~= wanted.take(i + 1));
        i += 1;
    }
    assert(wanted.take(i as int) =~= wanted);
    targets
}

/// What the skill `name` refers to.
pub fn list_outgoing(crossrefs: &CrossRefs, name: &str) -> (targets: Vec<String>)
    ensures
        targets.deep_view() == outgoing_refs(crossrefs.deep_view(), name@),
{
    let ghost cm = crossrefs.deep_view();
    let mut i: usize = crossrefs.len();
    assert(cm.take(i as int) =~= cm);
    while i > 0
        invariant
            i <= crossrefs.len(),
            cm == crossrefs.deep_view(),
            outgoing_refs(cm, name@) == outgoing_refs(cm.take(i as int), name@),
        decreases i,
    {
        proof {
            assert(cm.take(i as int).drop_last() =~= cm.take(i - 1));
            assert(cm.take(i as int).last() == cm[i - 1]);
            assert(cm[i - 1].0 == crossrefs[i - 1].0@);
            assert(cm[i - 1].1 == crossrefs[i - 1].1.deep_view());
        }
        match rank(crossrefs[i - 1].0.as_str(), name) {
            Rank::Same => {
                return targets_of(&crossrefs[i - 1].1);
            },
            _ => {},
        }
        i -= 1;
    }
    let none: Vec<String> = Vec::new();
    assert(none.deep_view() =~= Seq::<Seq<char>>::empty());
    none
}

/// Whether one of the references leads to `name`.
fn has_ref_to(refs: &Vec<CrossRef>, name: &str) -> (r: bool)
    ensures
        r == refers_to(refs.deep_view(), name@),
{
    let ghost rm = refs.deep_view();
    let mut j: usize = 0;
    while j < refs.len()
        invariant
            j <= refs.len(),
            rm == refs.deep_view(),
            forall|k: int| 0 <= k < j ==> (#[trigger] rm[k]).target != name@,
        decreases refs.len() - j,
    {
        assert(rm[j as int].target == refs[j as int].target@);
        match rank(refs[j].target.as_str(), name) {
            Rank::Same => {
                return true;
            },
            _ => {},
        }
        j += 1;
    }
    false
}

/// The skills that refer to `name`.
pub fn list_incoming(crossrefs: &CrossRefs, name: &str) -> (sources: Vec<String>)
    ensures
        sources.deep_view() == incoming_refs(crossrefs.deep_view(), name@),
{
    let ghost cm = crossrefs.deep_view();
    let ghost pred = |e: (Seq<char>, Seq<CrossRefModel>)| entry_refers_to(e, name@);
    let ghost source = |e: (Seq<char>, Seq<CrossRefModel>)| e.0;
    let mut sources: Vec<String> = Vec::new();
    let mut i: usize = 0;
    assert(cm.take(0) =~= Seq::empty());
    assert(sources.deep_view() =~= cm.take(0).filter(pred).map_values(source)) by {
        reveal(Seq::filter);
    }
    while i < crossrefs.len()
        invariant
            i <= crossrefs.len(),
            cm == crossrefs.deep_view(),
            pred == |e: (Seq<char>, Seq<CrossRefModel>)| entry_refers_to(e, name@),
            source == |e: (Seq<char>, Seq<CrossRefModel>)| e.0,
            sources.deep_view() == cm.take(i as int).filter(pred).map_values(source),
        decreases crossrefs.len() - i,
    {
        let ghost before = sources.deep_view();
        let ghost kept = cm.take(i as int).filter(pred);
        proof {
            assert(cm.take(i as int).push(cm[i as int]) =~= cm.take(i + 1));
            cm.take(i as int).lemma_filter_push(cm[i as int], pred);
            assert(cm[i as int].0 == crossrefs[i as int].0@);
            assert(cm[i as int].1 == crossrefs[i as int].1.deep_view());
        }
        if has_ref_to(&crossrefs[i].1, name) {
            sources.push(crossrefs[i].0.clone());
            assert(sources.deep_view() =~= before.push(cm[i as int].0));
            assert(kept.push(cm[i as int]).map_values(source) =~= kept.map_values(source).push(
                cm[i as int].0,
            ));
        }
        i += 1;
    }
    assert(cm.take(i as int) =~= cm);
    sources
}

/// Every target of the references, in order.
pub open spec fn all_targets(crossrefs: CrossRefsModel) -> Seq<Seq<char>>
    decreases crossrefs.len(),
{
    if crossrefs.len() == 0 {
        Seq::empty()
    } else {
        all_targets(crossrefs.drop_last()) + ref_targets(crossrefs.last().1)
    }
}

/// Whether no skill has the name.
pub open spec fn is_dangling(skills: Seq<SkillModel>, name: Seq<char>) -> bool {
    path_of(skills, name) is None
}

/// The names that are referred to and that no skill has, ascending, each
/// once.
pub open spec fn missing_names(crossrefs: CrossRefsModel, skills: Seq<SkillModel>) -> Seq<Seq<char>> {
    sorted_unique(all_targets(crossrefs).filter(|t: Seq<char>| is_dangling(skills, t)))
}

/// Finds the names that are referred to and that no skill has.
pub fn list_missing(crossrefs: &CrossRefs, skills: &[Skill]) -> (names: Vec<String>)
    ensures
        names.deep_view() == missing_names(crossrefs.deep_view(), skills.deep_view()),
{
    let ghost cm = crossrefs.deep_view();
    let ghost sm = skills.deep_view();
    let ghost pred = |t: Seq<char>| is_dangling(sm, t);
    let mut names: Vec<String> = Vec::new();
    let mut i: usize = 0;
    assert(cm.take(0) =~= Seq::empty());
    assert(names.deep_view() =~= sorted_unique(all_targets(cm.take(0)).filter(pred))) by {
        reveal(Seq::filter);
    }
    while i < crossrefs.len()
        invariant
            i <= crossrefs.len(),
            cm == crossrefs.deep_view(),
            sm == skills.deep_view(),
            pred == |t: Seq<char>| is_dangling(sm, t),
            names.deep_view() == sorted_unique(all_targets(cm.take(i as int)).filter(pred)),
            strictly_sorted(names.deep_view()),
        decreases crossrefs.len() - i,
    {
        let ghost done = all_targets(cm.take(i as int));
        let refs = &crossrefs[i].1;
        let ghost rt = ref_targets(refs.deep_view());
        let mut j: usize = 0;
        assert(done + rt.take(0) =~= done);
        while j < refs.len()
            invariant
                j <= refs.len(),
                sm == skills.deep_view(),
                pred == |t: Seq<char>| is_dangling(sm, t),
                rt == ref_targets(refs.deep_view()),
                names.deep_view() == sorted_unique((done + rt.take(j as int)).filter(pred)),
                strictly_sorted(names.deep_view()),
            decreases refs.len() - j,
        {
            let target = &refs[j].target;
            proof {
                assert(rt[j as int] == target@);
                assert((done + rt.take(j as int)).push(rt[j as int]) =~= done + rt.take(j + 1));
                (done + rt.take(j as int)).lemma_filter_push(rt[j as int], pred);
            }
            if find_path(skills, target.as_str()).is_none() {
                proof {
                    lemma_sorted_unique_push((done + rt.take(j as int)).filter(pred), target@);
                }
                insert_sorted(&mut names, target.as_str());
            }
            j += 1;
        }
        proof {
            assert(rt.take(j as int) =~= rt);
            assert(cm.take(i + 1).drop_last() =~= cm.take(i as int));
            assert(cm.take(i + 1).last().1 == refs.deep_view());
        }
        i += 1;
    }
    assert(cm.take(i as int) =~= cm);
    names
}

/// What the list command works on: the skills that were discovered, the
/// cross-references of their documents, and the scopes of the
/// configuration.
#[derive(Debug)]
pub struct ListInputs {
    /// The discovered skills.
    pub skills: Vec<Skill>,
    /// The cross-references of each skill's document.
    pub crossrefs: CrossRefs,
    /// The skills that the global scope enables.
    pub global_skills: Vec<String>,
    /// The projects.
    pub projects: Vec<ProjectScope>,
}

/// What the list command found.
#[derive(Debug)]
pub enum ListReport {
    /// The enabled skills of each scope.
    Scopes {
        /// The skills of the global scope, in the order of the configuration.
        global: Vec<SkillEntry>,
        /// The skills of each project.
        projects: Vec<ProjectListing>,
    },
    /// The skills by cluster.
    Groups {
        /// The clusters of the cross-references.
        clusters: Vec<Vec<String>>,
        /// The skills listed apart from the clusters.
        apart: Vec<String>,
    },
    /// The references from and to one skill.
    Refs {
        /// The skill asked for.
        skill: String,
        /// The names that the skill refers to.
        outgoing: Vec<String>,
        /// The skills that refer to the skill.
        incoming: Vec<String>,
    },
    /// The names that are referred to and that no skill has.
    Missing {
        /// The names, ascending.
        names: Vec<String>,
    },
}

/// Why nothing was listed.
#[derive(Debug)]
pub enum ListError {
    /// No skill has the name whose references were asked for.
    SkillNotFound(String),
}

impl ListError {
    /// The message for the user.
    pub fn message(&self) -> (text: String)
        ensures
            match self {
                ListError::SkillNotFound(name) => text@ == "Skill '"@ + name@
                    + "' not found in any source"@,
            },
    {
        let mut text = String::new();
        match self {
            ListError::SkillNotFound(name) => {
                text.append("Skill '");
                text.append(name.as_str());
                text.append("' not found in any source");
            },
        }
        text
    }
}

/// Whether the listing is that of the project.
pub open spec fn is_listing_of(listing: ProjectListing, project: ProjectScope, inputs: ListInputs) -> bool {
    &&& listing.path@ == project.path@
    &&& listing.inherit == project.inherit
    &&& listing.entries.deep_view() == entries_for(
        inputs.skills.deep_view(),
        inputs.global_skills.deep_view(),
        project_names(inputs.global_skills.deep_view(), project.inherit, project.skills.deep_view()),
    )
}

/// Whether the report is what the list command finds in this mode.
pub open spec fn is_report_of(report: ListReport, inputs: ListInputs, mode: ListMode) -> bool {
    match mode {
        ListMode::Default => {
            &&& report matches ListReport::Scopes { global, projects }
            &&& global.deep_view() == entries_for(
                inputs.skills.deep_view(),
                inputs.global_skills.deep_view(),
                inputs.global_skills.deep_view(),
            )
            &&& projects.len() == inputs.projects.len()
            &&& forall|p: int|
                0 <= p < projects.len() ==> is_listing_of(
                    #[trigger] projects[p],
                    inputs.projects[p],
                    inputs,
                )
        },
        ListMode::Groups => {
            &&& report matches ListReport::Groups { clusters, apart }
            &&& clusters.deep_view() == built(inputs.crossrefs.deep_view(), Seq::empty()).clusters
            &&& apart.deep_view() == listed_apart(clusters.deep_view(), inputs.skills.deep_view())
        },
        ListMode::Refs(name) => {
            &&& report matches ListReport::Refs { skill, outgoing, incoming }
            &&& skill@ == name@
            &&& outgoing.deep_view() == outgoing_refs(inputs.crossrefs.deep_view(), name@)
            &&& incoming.deep_view() == incoming_refs(inputs.crossrefs.deep_view(), name@)
        },
        ListMode::Missing => {
            &&& report matches ListReport::Missing { names }
            &&& names.deep_view() == missing_names(
                inputs.crossrefs.deep_view(),
                inputs.skills.deep_view(),
            )
        },
    }
}

/// Whether the list command fails: it does when the references of a name
/// are asked for that no skill has.
pub open spec fn list_fails(inputs: ListInputs, mode: ListMode) -> bool {
    mode matches ListMode::Refs(name) && path_of(inputs.skills.deep_view(), name@) is None
}

/// Lists the enabled skills of each scope.
fn list_default(inputs: &ListInputs) -> (report: ListReport)
    ensures
        is_report_of(report, *inputs, ListMode::Default),
{
    let global = list_entries(inputs.skills.as_slice(), &inputs.global_skills, &inputs.global_skills);
    let mut projects: Vec<ProjectListing> = Vec::new();
    let mut p: usize = 0;
    while p < inputs.projects.len()
        invariant
            p <= inputs.projects.len(),
            projects.len() == p,
            forall|k: int|
                0 <= k < p ==> is_listing_of(#[trigger] projects[k], inputs.projects[k], *inputs),
        decreases inputs.projects.len() - p,
    {
        let project = &inputs.projects[p];
        let names = enabled_names(&inputs.global_skills, project.inherit, &project.skills);
        let listing = ProjectListing {
            path: project.path.clone(),
            inherit: project.inherit,
            entries: list_entries(inputs.skills.as_slice(), &inputs.global_skills, &names),
        };
        projects.push(listing);
        p += 1;
    }
    ListReport::Scopes { global, projects }
}

/// List enabled skills per scope, or what else the mode asks for.
pub fn list(inputs: &ListInputs, mode: ListMode) -> (r: Result<ListReport, ListError>)
    ensures
        r is Err <==> list_fails(*inputs, mode),
        r matches Ok(report) ==> is_report_of(report, *inputs, mode),
        r matches Err(ListError::SkillNotFound(name)) ==> mode matches ListMode::Refs(asked)
            && name@ == asked@,
{
    let skills = inputs.skills.as_slice();
    match mode {
        ListMode::Default => Ok(list_default(inputs)),
        ListMode::Groups => {
            let graph = SkillGraph::from_crossrefs(&inputs.crossrefs);
            let apart = list_apart(&graph.clusters, skills);
            Ok(ListReport::Groups { clusters: graph.clusters, apart })
        },
        ListMode::Refs(name) => {
            if find_path(skills, name.as_str()).is_none() {
                return Err(ListError::SkillNotFound(name));
            }
            let outgoing = list_outgoing(&inputs.crossrefs, name.as_str());
            let incoming = list_incoming(&inputs.crossrefs, name.as_str());
            Ok(ListReport::Refs { skill: name, outgoing, incoming })
        },
        ListMode::Missing => Ok(
            ListReport::Missing { names: list_missing(&inputs.crossrefs, skills) },
        ),
    }
}

} // verus!
