//! Skill records and cross-references as the graph engine receives them, and
//! the mathematical model of each.

use vstd::prelude::*;

verus! {

/// How a cross-reference was found in a document.
#[derive(Debug, Clone, Copy, PartialEq, Eq, Structural)]
pub enum DetectionMethod {
    /// A `<see ref="...">` element of a cross-reference block.
    XmlCrossref,
}

/// A reference from one skill's text to another skill.
#[derive(Debug, Clone)]
pub struct CrossRef {
    /// Name of the skill referred to.
    pub target: String,
    /// Line of the document on which the reference stands.
    pub line: usize,
    /// How the reference was found.
    pub method: DetectionMethod,
}

/// One stage of a pipeline, as a skill declares it.
#[derive(Debug, Clone)]
pub struct PipelineStage {
    /// Name of the stage.
    pub stage: String,
    /// Position of the stage in its pipeline.
    pub order: u32,
    /// Skills that this skill depends on.
    pub after: Option<Vec<String>>,
    /// Skills that depend on this skill.
    pub before: Option<Vec<String>>,
}

/// The metadata of a skill that the graph engine reads.
#[derive(Debug, Clone)]
pub struct Frontmatter {
    /// Declared name.
    pub name: String,
    /// Declared description.
    pub description: String,
    /// Tags, if any are declared.
    pub tags: Option<Vec<String>>,
    /// Pipeline name and stage of each pipeline the skill takes part in, in
    /// the order of declaration.
    pub pipeline: Option<Vec<(String, PipelineStage)>>,
}

/// A discovered skill.
#[derive(Debug, Clone)]
pub struct Skill {
    /// Unique name.
    pub name: String,
    /// Directory of the skill.
    pub path: String,
    /// The skill's document.
    pub skill_file: String,
    /// Parsed metadata.
    pub frontmatter: Frontmatter,
}

/// Model of a [`CrossRef`].
pub struct CrossRefModel {
    pub target: Seq<char>,
    pub line: usize,
    pub method: DetectionMethod,
}

/// Model of a [`PipelineStage`].
pub struct StageModel {
    pub stage: Seq<char>,
    pub order: u32,
    pub after: Option<Seq<Seq<char>>>,
    pub before: Option<Seq<Seq<char>>>,
}

/// Model of a [`Frontmatter`].
pub struct FrontmatterModel {
    pub name: Seq<char>,
    pub description: Seq<char>,
    pub tags: Option<Seq<Seq<char>>>,
    pub pipeline: Option<Seq<(Seq<char>, StageModel)>>,
}

/// Model of a [`Skill`].
pub struct SkillModel {
    pub name: Seq<char>,
    pub path: Seq<char>,
    pub skill_file: Seq<char>,
    pub frontmatter: FrontmatterModel,
}

impl DeepView for CrossRef {
    type V = CrossRefModel;

    open spec fn deep_view(&self) -> CrossRefModel {
        CrossRefModel { target: self.target@, line: self.line, method: self.method }
    }
}

impl DeepView for PipelineStage {
    type V = StageModel;

    open spec fn deep_view(&self) -> StageModel {
        StageModel {
            stage: self.stage@,
            order: self.order,
            after: self.after.deep_view(),
            before: self.before.deep_view(),
        }
    }
}

impl DeepView for Frontmatter {
    type V = FrontmatterModel;

    open spec fn deep_view(&self) -> FrontmatterModel {
        FrontmatterModel {
            name: self.name@,
            description: self.description@,
            tags: self.tags.deep_view(),
            pipeline: self.pipeline.deep_view(),
        }
    }
}

impl DeepView for Skill {
    type V = SkillModel;

    open spec fn deep_view(&self) -> SkillModel {
        SkillModel {
            name: self.name@,
            path: self.path@,
            skill_file: self.skill_file@,
            frontmatter: self.frontmatter.deep_view(),
        }
    }
}

/// The cross-references of one skill's text, keyed by the skill's name.
pub type CrossRefs = Vec<(String, Vec<CrossRef>)>;

/// Model of [`CrossRefs`]: the source's name, then what it refers to.
pub type CrossRefsModel = Seq<(Seq<char>, Seq<CrossRefModel>)>;

} // verus!
