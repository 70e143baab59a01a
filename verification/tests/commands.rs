use skill_graph::commands::graph::{graph, GraphError, GraphFilter, OutputFormat};
use skill_graph::commands::list::{list, ListError, ListInputs, ListMode, ListReport, ProjectScope};
use skill_graph::skill::{CrossRef, DetectionMethod, Frontmatter, PipelineStage, Skill};

fn plain_skill(name: &str, description: &str) -> Skill {
    Skill {
        name: name.to_string(),
        path: format!("skills/{}", name),
        skill_file: format!("skills/{}/SKILL.md", name),
        frontmatter: Frontmatter {
            name: name.to_string(),
            description: description.to_string(),
            tags: None,
            pipeline: None,
        },
    }
}

fn see(target: &str) -> CrossRef {
    CrossRef {
        target: target.to_string(),
        line: 7,
        method: DetectionMethod::XmlCrossref,
    }
}

/// The two skills of the listing tests: `another-skill` refers to
/// `test-skill`.
fn create_test_skills() -> ListInputs {
    ListInputs {
        skills: vec![
            plain_skill("test-skill", "Test skill"),
            plain_skill("another-skill", "Another test skill"),
        ],
        crossrefs: vec![("another-skill".to_string(), vec![see("test-skill")])],
        global_skills: vec![],
        projects: vec![],
    }
}

#[test]
fn should_parse_output_format_case_insensitive() {
    // Given/When/Then
    assert!(matches!(
        OutputFormat::parse_format("dot"),
        Some(OutputFormat::Dot)
    ));
    assert!(matches!(
        OutputFormat::parse_format("DOT"),
        Some(OutputFormat::Dot)
    ));
    assert!(matches!(
        OutputFormat::parse_format("text"),
        Some(OutputFormat::Text)
    ));
    assert!(matches!(
        OutputFormat::parse_format("json"),
        Some(OutputFormat::Json)
    ));
    assert!(matches!(
        OutputFormat::parse_format("mermaid"),
        Some(OutputFormat::Mermaid)
    ));
    assert!(OutputFormat::parse_format("invalid").is_none());
}

#[test]
fn parse_format_takes_mixed_case_and_nothing_else() {
    assert_eq!(OutputFormat::parse_format("MerMaid"), Some(OutputFormat::Mermaid));
    assert_eq!(OutputFormat::parse_format("Json"), Some(OutputFormat::Json));
    assert_eq!(OutputFormat::parse_format(""), None);
    assert_eq!(OutputFormat::parse_format("do"), None);
    assert_eq!(OutputFormat::parse_format("dots"), None);
    assert_eq!(OutputFormat::parse_format(" dot"), None);
    // the Kelvin sign is no ASCII letter
    assert_eq!(OutputFormat::parse_format("te\u{212a}t"), None);
}

#[test]
fn should_list_default_mode() {
    // Given
    let mut inputs = create_test_skills();
    inputs.global_skills = vec!["test-skill".to_string()];

    // When
    let result = list(&inputs, ListMode::Default);

    // Then
    assert!(result.is_ok());
}

#[test]
fn should_list_refs_for_skill() {
    // Given
    let inputs = create_test_skills();

    // When
    let result = list(&inputs, ListMode::Refs("test-skill".to_string()));

    // Then
    assert!(result.is_ok());
}

#[test]
fn should_error_when_skill_not_found_for_refs() {
    // Given
    let inputs = create_test_skills();

    // When
    let result = list(&inputs, ListMode::Refs("nonexistent".to_string()));

    // Then
    assert!(result.is_err());
}

#[test]
fn should_list_missing_skills() {
    // Given
    let inputs = ListInputs {
        skills: vec![plain_skill("referrer", "Refs nonexistent")],
        crossrefs: vec![("referrer".to_string(), vec![see("nonexistent")])],
        global_skills: vec![],
        projects: vec![],
    };

    // When
    let result = list(&inputs, ListMode::Missing);

    // Then
    assert!(result.is_ok());
}

#[test]
fn list_default_reports_each_scope() {
    let mut inputs = create_test_skills();
    inputs.global_skills = vec!["test-skill".to_string(), "ghost".to_string()];
    inputs.projects = vec![
        ProjectScope {
            path: "/work/one".to_string(),
            inherit: true,
            skills: vec!["test-skill".to_string(), "another-skill".to_string()],
        },
        ProjectScope {
            path: "/work/two".to_string(),
            inherit: false,
            skills: vec!["zeta".to_string(), "another-skill".to_string(), "zeta".to_string()],
        },
    ];
    match list(&inputs, ListMode::Default) {
        Ok(ListReport::Scopes { global, projects }) => {
            assert_eq!(global.len(), 2);
            assert_eq!(global[0].name, "test-skill");
            assert_eq!(global[0].path, Some("skills/test-skill".to_string()));
            assert!(global[0].global);
            assert_eq!(global[1].name, "ghost");
            assert_eq!(global[1].path, None);
            assert_eq!(projects.len(), 2);
            assert_eq!(projects[0].path, "/work/one");
            assert!(projects[0].inherit);
            let names: Vec<&str> = projects[0].entries.iter().map(|e| e.name.as_str()).collect();
            assert_eq!(names, vec!["another-skill", "ghost", "test-skill"]);
            let flags: Vec<bool> = projects[0].entries.iter().map(|e| e.global).collect();
            assert_eq!(flags, vec![false, true, true]);
            let names: Vec<&str> = projects[1].entries.iter().map(|e| e.name.as_str()).collect();
            assert_eq!(names, vec!["another-skill", "zeta"]);
            assert_eq!(projects[1].entries[1].path, None);
        }
        other => panic!("unexpected result: {:?}", other),
    }
}

#[test]
fn list_groups_without_clusters_lists_all_skills_sorted() {
    let inputs = create_test_skills();
    match list(&inputs, ListMode::Groups) {
        Ok(ListReport::Groups { clusters, apart }) => {
            assert!(clusters.is_empty());
            assert_eq!(apart, vec!["another-skill".to_string(), "test-skill".to_string()]);
        }
        other => panic!("unexpected result: {:?}", other),
    }
}

#[test]
fn list_groups_with_a_cluster_lists_the_rest_apart() {
    let inputs = ListInputs {
        skills: vec![plain_skill("c", ""), plain_skill("a", ""), plain_skill("b", "")],
        crossrefs: vec![
            ("a".to_string(), vec![see("b")]),
            ("b".to_string(), vec![see("a")]),
        ],
        global_skills: vec![],
        projects: vec![],
    };
    match list(&inputs, ListMode::Groups) {
        Ok(ListReport::Groups { clusters, apart }) => {
            assert_eq!(clusters.len(), 1);
            let mut members = clusters[0].clone();
            members.sort();
            assert_eq!(members, vec!["a".to_string(), "b".to_string()]);
            assert_eq!(apart, vec!["c".to_string()]);
        }
        other => panic!("unexpected result: {:?}", other),
    }
}

#[test]
fn list_refs_reports_both_directions() {
    let mut inputs = create_test_skills();
    inputs.crossrefs.push(("test-skill".to_string(), vec![see("x"), see("another-skill")]));
    match list(&inputs, ListMode::Refs("test-skill".to_string())) {
        Ok(ListReport::Refs { skill, outgoing, incoming }) => {
            assert_eq!(skill, "test-skill");
            assert_eq!(outgoing, vec!["x".to_string(), "another-skill".to_string()]);
            assert_eq!(incoming, vec!["another-skill".to_string()]);
        }
        other => panic!("unexpected result: {:?}", other),
    }
}

#[test]
fn list_refs_error_names_the_skill() {
    let inputs = create_test_skills();
    match list(&inputs, ListMode::Refs("nonexistent".to_string())) {
        Err(e) => {
            assert!(matches!(&e, ListError::SkillNotFound(name) if name == "nonexistent"));
            assert_eq!(e.message(), "Skill 'nonexistent' not found in any source");
        }
        Ok(report) => panic!("unexpected report: {:?}", report),
    }
}

#[test]
fn list_missing_names_dangling_targets_once_and_sorted() {
    let inputs = ListInputs {
        skills: vec![plain_skill("referrer", ""), plain_skill("known", "")],
        crossrefs: vec![
            ("referrer".to_string(), vec![see("zz"), see("known"), see("aa")]),
            ("known".to_string(), vec![see("zz")]),
        ],
        global_skills: vec![],
        projects: vec![],
    };
    match list(&inputs, ListMode::Missing) {
        Ok(ListReport::Missing { names }) => {
            assert_eq!(names, vec!["aa".to_string(), "zz".to_string()]);
        }
        other => panic!("unexpected result: {:?}", other),
    }
}

fn staged(name: &str, pipeline: &str, tags: &[&str]) -> Skill {
    let mut skill = plain_skill(name, "");
    skill.frontmatter.tags = Some(tags.iter().map(|t| t.to_string()).collect());
    skill.frontmatter.pipeline = Some(vec![(
        pipeline.to_string(),
        PipelineStage { stage: "s".to_string(), order: 1, after: None, before: None },
    )]);
    skill
}

#[test]
fn graph_exports_the_whole_graph_in_each_format() {
    let skills = vec![plain_skill("a", ""), plain_skill("b", "")];
    let crossrefs = vec![("a".to_string(), vec![see("b")])];
    let dot = graph(&crossrefs, &skills, OutputFormat::Dot, GraphFilter::All).unwrap();
    assert!(dot.starts_with("digraph SkillGraph {\n"));
    let text = graph(&crossrefs, &skills, OutputFormat::Text, GraphFilter::All).unwrap();
    assert!(text.contains("a: b\n"));
    let json = graph(&crossrefs, &skills, OutputFormat::Json, GraphFilter::All).unwrap();
    assert!(json.starts_with("{\"clusters\":[]"));
    let mermaid = graph(&crossrefs, &skills, OutputFormat::Mermaid, GraphFilter::All).unwrap();
    assert_eq!(mermaid, "graph LR\n  a[a] --> b[b]\n");
}

#[test]
fn graph_filters_by_pipeline_and_by_tag() {
    let skills = vec![
        staged("a", "build", &["core"]),
        staged("b", "build", &["extra"]),
        staged("c", "deploy", &["core"]),
    ];
    let crossrefs = vec![
        ("a".to_string(), vec![see("b"), see("c")]),
        ("c".to_string(), vec![see("a")]),
    ];
    let text = graph(
        &crossrefs,
        &skills,
        OutputFormat::Mermaid,
        GraphFilter::Pipeline("build".to_string()),
    )
    .unwrap();
    assert_eq!(text, "graph LR\n  a[a] --> b[b]\n");
    let text = graph(
        &crossrefs,
        &skills,
        OutputFormat::Mermaid,
        GraphFilter::Tag("core".to_string()),
    )
    .unwrap();
    assert_eq!(text, "graph LR\n  a[a] --> c[c]\n  c[c] --> a[a]\n");
}

#[test]
fn graph_rejects_an_unknown_pipeline_with_the_sorted_alternatives() {
    let skills = vec![
        staged("a", "release", &["t"]),
        staged("b", "build", &["t"]),
        staged("c", "release", &["t"]),
    ];
    let crossrefs = Vec::new();
    match graph(&crossrefs, &skills, OutputFormat::Dot, GraphFilter::Pipeline("nope".to_string())) {
        Err(e) => {
            assert!(matches!(
                &e,
                GraphError::UnknownPipeline { name, available }
                    if name == "nope" && available == &vec!["build".to_string(), "release".to_string()]
            ));
            assert_eq!(e.message(), "Pipeline 'nope' not found. Available: build, release");
        }
        Ok(text) => panic!("unexpected export: {}", text),
    }
}

#[test]
fn graph_rejects_an_unknown_tag_with_the_sorted_alternatives() {
    let skills = vec![staged("a", "p", &["zeta", "alpha"]), staged("b", "p", &["alpha"])];
    let crossrefs = Vec::new();
    match graph(&crossrefs, &skills, OutputFormat::Dot, GraphFilter::Tag("nope".to_string())) {
        Err(e) => {
            assert!(matches!(
                &e,
                GraphError::UnknownTag { name, available }
                    if name == "nope" && available == &vec!["alpha".to_string(), "zeta".to_string()]
            ));
            assert_eq!(e.message(), "Tag 'nope' not found. Available: alpha, zeta");
        }
        Ok(text) => panic!("unexpected export: {}", text),
    }
}
