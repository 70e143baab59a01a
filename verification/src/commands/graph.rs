//! The graph command: build the graph, pick a subgraph, export it.

use crate::graph::export::{dot_text, json_text, mermaid_text, text_text};
use crate::graph::filter::{
    filtered, pipeline_members, pipeline_skill_names, tagged, tagged_skill_names,
};
use crate::graph::model::{built, GraphModel};
use crate::graph::SkillGraph;
use crate::names::{insert_sorted, lemma_sorted_unique_push, sorted_unique, strictly_sorted};
use crate::render::{joined, push_joined};
use crate::skill::{CrossRefs, CrossRefsModel, Skill, SkillModel, StageModel};
use crate::text::code_point;
use vstd::prelude::*;
use vstd::std_specs::iter::IteratorSpec;

verus! {

/// The format in which a graph is exported.
#[derive(Debug, Clone, Copy, PartialEq, Eq, Structural)]
pub enum OutputFormat {
    /// Graph description language.
    Dot,
    /// Adjacency list.
    Text,
    /// Structured data.
    Json,
    /// Diagram markup.
    Mermaid,
}

/// A code point with upper-case ASCII letters made lower case.
pub open spec fn fold(code: int) -> int {
    if 65 <= code <= 90 {
        code + 32
    } else {
        code
    }
}

/// Whether `s`, with its ASCII letters made lower case, reads `word`.
pub open spec fn reads(s: Seq<char>, word: Seq<char>) -> bool {
    s.map_values(|c: char| fold(c as int)) == word.map_values(|c: char| c as int)
}

/// The format that a name stands for.
pub open spec fn parsed_format(s: Seq<char>) -> Option<OutputFormat> {
    if reads(s, "dot"@) {
        Some(OutputFormat::Dot)
    } else if reads(s, "text"@) {
        Some(OutputFormat::Text)
    } else if reads(s, "json"@) {
        Some(OutputFormat::Json)
    } else if reads(s, "mermaid"@) {
        Some(OutputFormat::Mermaid)
    } else {
        None
    }
}

/// Whether `s` reads `word` when case is ignored.
fn reads_as(s: &str, word: &str) -> (r: bool)
    ensures
        r == reads(s@, word@),
{
    broadcast use vstd::string::group_string_axioms;

    let ghost folded = s@.map_values(|c: char| fold(c as int));
    let ghost codes = word@.map_values(|c: char| c as int);
    let mut left = s.chars();
    let mut right = word.chars();
    let ghost mut i: int = 0;
    assert(s@.skip(0) =~= s@);
    assert(word@.skip(0) =~= word@);
    loop
        invariant
            left.obeys_prophetic_iter_laws(),
            right.obeys_prophetic_iter_laws(),
            left.decrease() is Some,
            folded == s@.map_values(|c: char| fold(c as int)),
            codes == word@.map_values(|c: char| c as int),
            0 <= i <= s@.len(),
            i <= word@.len(),
            left.remaining() == s@.skip(i),
            right.remaining() == word@.skip(i),
            forall|k: int| 0 <= k < i ==> folded[k] == codes[k],
        decreases left.decrease()->0,
    {
        let a = left.next();
        let b = right.next();
        match (a, b) {
            (None, None) => {
                assert(folded =~= codes);
                return true;
            },
            (Some(x), Some(y)) => {
                assert(s@.skip(i).len() > 0 && word@.skip(i).len() > 0);
                assert(x == s@[i] && y == word@[i]);
                let code = code_point(x);
                let low = if 65 <= code && code <= 90 {
                    code + 32
                } else {
                    code
                };
                if low != code_point(y) {
                    assert(folded[i] != codes[i]);
                    return false;
                }
                assert(s@.skip(i).drop_first() =~= s@.skip(i + 1));
                assert(word@.skip(i).drop_first() =~= word@.skip(i + 1));
                proof {
                    i = i + 1;
                }
            },
            _ => {
                assert(folded.len() != codes.len());
                return false;
            },
        }
    }
}

impl OutputFormat {
    /// The format with the given name: `dot`, `text`, `json` or `mermaid`,
    /// in upper or lower case.
    pub fn parse_format(s: &str) -> (format: Option<OutputFormat>)
        ensures
            format == parsed_format(s@),
    {
        if reads_as(s, "dot") {
            Some(OutputFormat::Dot)
        } else if reads_as(s, "text") {
            Some(OutputFormat::Text)
        } else if reads_as(s, "json") {
            Some(OutputFormat::Json)
        } else if reads_as(s, "mermaid") {
            Some(OutputFormat::Mermaid)
        } else {
            None
        }
    }
}

/// Optional filter for graph command.
#[derive(Debug)]
pub enum GraphFilter {
    /// The whole graph.
    All,
    /// Only the skills that take part in this pipeline.
    Pipeline(String),
    /// Only the skills that carry this tag.
    Tag(String),
}

/// A graph in the given format.
pub open spec fn exported(g: GraphModel, format: OutputFormat) -> Seq<char> {
    match format {
        OutputFormat::Dot => dot_text(g),
        OutputFormat::Text => text_text(g),
        OutputFormat::Json => json_text(g),
        OutputFormat::Mermaid => mermaid_text(g),
    }
}

/// Exports a graph in the given format.
pub fn export(graph: &SkillGraph, format: OutputFormat) -> (output: String)
    ensures
        output@ == exported(graph@, format),
{
    match format {
        OutputFormat::Dot => graph.to_dot(),
        OutputFormat::Text => graph.to_text(),
        OutputFormat::Json => graph.to_json(),
        OutputFormat::Mermaid => graph.to_mermaid(),
    }
}

/// Model of a [`GraphFilter`].
pub enum GraphFilterModel {
    All,
    Pipeline(Seq<char>),
    Tag(Seq<char>),
}

impl DeepView for GraphFilter {
    type V = GraphFilterModel;

    open spec fn deep_view(&self) -> GraphFilterModel {
        match self {
            GraphFilter::All => GraphFilterModel::All,
            GraphFilter::Pipeline(name) => GraphFilterModel::Pipeline(name@),
            GraphFilter::Tag(tag) => GraphFilterModel::Tag(tag@),
        }
    }
}

/// Why no graph was exported: the filter names nothing that a skill has.
#[derive(Debug)]
pub enum GraphError {
    /// No skill takes part in the pipeline.
    UnknownPipeline {
        /// The pipeline asked for.
        name: String,
        /// The pipelines that skills take part in, ascending.
        available: Vec<String>,
    },
    /// No skill carries the tag.
    UnknownTag {
        /// The tag asked for.
        name: String,
        /// The tags that skills carry, ascending.
        available: Vec<String>,
    },
}

/// Model of a [`GraphError`].
pub enum GraphErrorModel {
    UnknownPipeline { name: Seq<char>, available: Seq<Seq<char>> },
    UnknownTag { name: Seq<char>, available: Seq<Seq<char>> },
}

impl DeepView for GraphError {
    type V = GraphErrorModel;

    open spec fn deep_view(&self) -> GraphErrorModel {
        match self {
            GraphError::UnknownPipeline { name, available } => GraphErrorModel::UnknownPipeline {
                name: name@,
                available: available.deep_view(),
            },
            GraphError::UnknownTag { name, available } => GraphErrorModel::UnknownTag {
                name: name@,
                available: available.deep_view(),
            },
        }
    }
}

/// What an error tells the user.
pub open spec fn error_text(e: GraphErrorModel) -> Seq<char> {
    match e {
        GraphErrorModel::UnknownPipeline { name, available } => "Pipeline '"@ + name
            + "' not found. Available: "@ + joined(available, ", "@),
        GraphErrorModel::UnknownTag { name, available } => "Tag '"@ + name
            + "' not found. Available: "@ + joined(available, ", "@),
    }
}

impl GraphError {
    /// The message for the user: what was asked for, and the names that
    /// could have been asked for.
    pub fn message(&self) -> (text: String)
        ensures
            text@ == error_text(self.deep_view()),
    {
        let mut text = String::new();
        match self {
            GraphError::UnknownPipeline { name, available } => {
                text.append("Pipeline '");
                text.append(name.as_str());
                text.append("' not found. Available: ");
                push_joined(&mut text, available, ", ");
            },
            GraphError::UnknownTag { name, available } => {
                text.append("Tag '");
                text.append(name.as_str());
                text.append("' not found. Available: ");
                push_joined(&mut text, available, ", ");
            },
        }
        assert(text@ =~= error_text(self.deep_view()));
        text
    }
}

/// The names of the pipelines of one skill, in order of declaration.
pub open spec fn skill_pipelines(skill: SkillModel) -> Seq<Seq<char>> {
    match skill.frontmatter.pipeline {
        Some(stages) => stages.map_values(|p: (Seq<char>, StageModel)| p.0),
        None => Seq::empty(),
    }
}

/// The tags of one skill, in order of declaration.
pub open spec fn skill_tags(skill: SkillModel) -> Seq<Seq<char>> {
    match skill.frontmatter.tags {
        Some(tags) => tags,
        None => Seq::empty(),
    }
}

/// The names of the pipelines that the skills take part in, in order.
pub open spec fn pipeline_names(skills: Seq<SkillModel>) -> Seq<Seq<char>>
    decreases skills.len(),
{
    if skills.len() == 0 {
        Seq::empty()
    } else {
        pipeline_names(skills.drop_last()) + skill_pipelines(skills.last())
    }
}

/// The tags that the skills carry, in order.
pub open spec fn tag_names(skills: Seq<SkillModel>) -> Seq<Seq<char>>
    decreases skills.len(),
{
    if skills.len() == 0 {
        Seq::empty()
    } else {
        tag_names(skills.drop_last()) + skill_tags(skills.last())
    }
}

/// What the graph command returns: the export of the whole graph, or of the
/// subgraph on the skills that the filter selects. A filter that selects no
/// skill is an error, which lists the names that select some.
pub open spec fn graph_output(
    crossrefs: CrossRefsModel,
    skills: Seq<SkillModel>,
    format: OutputFormat,
    filter: GraphFilterModel,
) -> Result<Seq<char>, GraphErrorModel> {
    let full = built(crossrefs, skills);
    match filter {
        GraphFilterModel::All => Ok(exported(full, format)),
        GraphFilterModel::Pipeline(name) => if pipeline_members(skills, name).len() == 0 {
            Err(
                GraphErrorModel::UnknownPipeline {
                    name,
                    available: sorted_unique(pipeline_names(skills)),
                },
            )
        } else {
            Ok(exported(filtered(full, pipeline_members(skills, name), skills), format))
        },
        GraphFilterModel::Tag(tag) => if tagged(skills, tag).len() == 0 {
            Err(GraphErrorModel::UnknownTag { name: tag, available: sorted_unique(tag_names(skills)) })
        } else {
            Ok(exported(filtered(full, tagged(skills, tag), skills), format))
        },
    }
}

/// Adds the names of `list` to the ascending list `found`.
fn collect(found: &mut Vec<String>, list: &Vec<String>, Ghost(seen): Ghost<Seq<Seq<char>>>)
    requires
        old(found).deep_view() == sorted_unique(seen),
        strictly_sorted(old(found).deep_view()),
    ensures
        final(found).deep_view() == sorted_unique(seen + list.deep_view()),
        strictly_sorted(final(found).deep_view()),
{
    let ghost all = list.deep_view();
    let mut i: usize = 0;
    assert(seen + all.take(0) =~= seen);
    while i < list.len()
        invariant
            i <= list.len(),
            all == list.deep_view(),
            found.deep_view() == sorted_unique(seen + all.take(i as int)),
            strictly_sorted(found.deep_view()),
        decreases list.len() - i,
    {
        insert_sorted(found, list[i].as_str());
        proof {
            assert(all[i as int] == list[i as int]@);
            lemma_sorted_unique_push(seen + all.take(i as int), all[i as int]);
            assert((seen + all.take(i as int)).push(all[i as int]) =~= seen + all.take(i + 1));
        }
        i += 1;
    }
    assert(all.take(i as int) =~= all);
}

/// The names of the pipelines that the skills take part in, ascending, each
/// once.
pub fn available_pipelines(skills: &[Skill]) -> (found: Vec<String>)
    ensures
        found.deep_view() == sorted_unique(pipeline_names(skills.deep_view())),
{
    let ghost sm = skills.deep_view();
    let mut found: Vec<String> = Vec::new();
    let mut j: usize = 0;
    assert(sm.take(0) =~= Seq::<SkillModel>::empty());
    assert(found.deep_view() =~= Seq::<Seq<char>>::empty());
    while j < skills.len()
        invariant
            j <= skills.len(),
            sm == skills.deep_view(),
            found.deep_view() == sorted_unique(pipeline_names(sm.take(j as int))),
            strictly_sorted(found.deep_view()),
        decreases skills.len() - j,
    {
        let ghost done = pipeline_names(sm.take(j as int));
        proof {
            assert(sm.take(j + 1).drop_last() =~= sm.take(j as int));
            assert(sm.take(j + 1).last() == skills[j as int].deep_view());
        }
        match &skills[j].frontmatter.pipeline {
            Some(stages) => {
                let ghost names = skill_pipelines(skills[j as int].deep_view());
                let mut k: usize = 0;
                assert(done + names.take(0) =~= done);
                while k < stages.len()
                    invariant
                        k <= stages.len(),
                        names == stages.deep_view().map_values(|p: (Seq<char>, StageModel)| p.0),
                        found.deep_view() == sorted_unique(done + names.take(k as int)),
                        strictly_sorted(found.deep_view()),
                    decreases stages.len() - k,
                {
                    insert_sorted(&mut found, stages[k].0.as_str());
                    proof {
                        assert(names[k as int] == stages[k as int].0@);
                        lemma_sorted_unique_push(done + names.take(k as int), names[k as int]);
                        assert((done + names.take(k as int)).push(names[k as int]) =~= done
                            + names.take(k + 1));
                    }
                    k += 1;
                }
                assert(names.take(k as int) =~= names);
            },
            None => {
                assert(done + Seq::<Seq<char>>::empty() =~= done);
            },
        }
        j += 1;
    }
    assert(sm.take(j as int) =~= sm);
    found
}

/// The tags that the skills carry, ascending, each once.
pub fn available_tags(skills: &[Skill]) -> (found: Vec<String>)
    ensures
        found.deep_view() == sorted_unique(tag_names(skills.deep_view())),
{
    let ghost sm = skills.deep_view();
    let mut found: Vec<String> = Vec::new();
    let mut j: usize = 0;
    assert(sm.take(0) =~= Seq::<SkillModel>::empty());
    assert(found.deep_view() =~= Seq::<Seq<char>>::empty());
    while j < skills.len()
        invariant
            j <= skills.len(),
            sm == skills.deep_view(),
            found.deep_view() == sorted_unique(tag_names(sm.take(j as int))),
            strictly_sorted(found.deep_view()),
        decreases skills.len() - j,
    {
        let ghost done = tag_names(sm.take(j as int));
        proof {
            assert(sm.take(j + 1).drop_last() =~= sm.take(j as int));
            assert(sm.take(j + 1).last() == skills[j as int].deep_view());
        }
        match &skills[j].frontmatter.tags {
            Some(tags) => {
                collect(&mut found, tags, Ghost(done));
            },
            None => {
                assert(done + Seq::<Seq<char>>::empty() =~= done);
            },
        }
        j += 1;
    }
    assert(sm.take(j as int) =~= sm);
    found
}

/// Model of what the graph command returns.
pub open spec fn result_model(r: Result<String, GraphError>) -> Result<Seq<char>, GraphErrorModel> {
    match r {
        Ok(text) => Ok(text@),
        Err(e) => Err(e.deep_view()),
    }
}

/// Builds the graph of the skills, applies the filter and exports the
/// result.
pub fn graph(crossrefs: &CrossRefs, skills: &[Skill], format: OutputFormat, filter: GraphFilter) -> (r: Result<String, GraphError>)
    ensures
        result_model(r) == graph_output(
            crossrefs.deep_view(),
            skills.deep_view(),
            format,
            filter.deep_view(),
        ),
{
    let full = SkillGraph::from_skills(crossrefs, skills);
    match filter {
        GraphFilter::All => Ok(export(&full, format)),
        GraphFilter::Pipeline(name) => {
            let keep = pipeline_skill_names(skills, name.as_str());
            if keep.len() == 0 {
                Err(GraphError::UnknownPipeline { name, available: available_pipelines(skills) })
            } else {
                let part = full.filter_to_skills(&keep, skills);
                Ok(export(&part, format))
            }
        },
        GraphFilter::Tag(tag) => {
            let keep = tagged_skill_names(skills, tag.as_str());
            if keep.len() == 0 {
                Err(GraphError::UnknownTag { name: tag, available: available_tags(skills) })
            } else {
                let part = full.filter_to_skills(&keep, skills);
                Ok(export(&part, format))
            }
        },
    }
}

} // verus!
