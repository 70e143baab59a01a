use skill_graph::graph::SkillGraph;
use skill_graph::skill::{CrossRef, DetectionMethod, Frontmatter, PipelineStage, Skill};

fn test_crossref(target: &str) -> CrossRef {
    CrossRef {
        target: target.to_string(),
        line: 1,
        method: DetectionMethod::XmlCrossref,
    }
}

fn test_skill(name: &str, description: &str, stage: PipelineStage) -> Skill {
    Skill {
        name: name.to_string(),
        path: format!("/test/{}", name),
        skill_file: format!("/test/{}/SKILL.md", name),
        frontmatter: Frontmatter {
            name: name.to_string(),
            description: description.to_string(),
            tags: None,
            pipeline: Some(vec![("test-pipeline".to_string(), stage)]),
        },
    }
}

#[test]
fn should_build_graph_from_crossrefs() {
    // Given: skill-a → skill-b → skill-c
    let mut crossrefs = Vec::new();
    crossrefs.push(("skill-a".to_string(), vec![test_crossref("skill-b")]));
    crossrefs.push(("skill-b".to_string(), vec![test_crossref("skill-c")]));

    // When
    let graph = SkillGraph::from_crossrefs(&crossrefs);

    // Then
    assert_eq!(graph.node_count(), 3);
}

#[test]
fn should_identify_root_skills() {
    // Given: skill-a → skill-b (skill-a is root)
    let mut crossrefs = Vec::new();
    crossrefs.push(("skill-a".to_string(), vec![test_crossref("skill-b")]));

    // When
    let graph = SkillGraph::from_crossrefs(&crossrefs);

    // Then
    assert_eq!(graph.roots.len(), 1);
    assert!(graph.roots.contains(&"skill-a".to_string()));
}

#[test]
fn should_identify_leaf_skills() {
    // Given: skill-a → skill-b (skill-b is leaf)
    let mut crossrefs = Vec::new();
    crossrefs.push(("skill-a".to_string(), vec![test_crossref("skill-b")]));

    // When
    let graph = SkillGraph::from_crossrefs(&crossrefs);

    // Then
    assert_eq!(graph.leaves.len(), 1);
    assert!(graph.leaves.contains(&"skill-b".to_string()));
}

#[test]
fn should_detect_clusters() {
    // Given: skill-a ↔ skill-b (circular reference, forms a cluster)
    let mut crossrefs = Vec::new();
    crossrefs.push(("skill-a".to_string(), vec![test_crossref("skill-b")]));
    crossrefs.push(("skill-b".to_string(), vec![test_crossref("skill-a")]));

    // When
    let graph = SkillGraph::from_crossrefs(&crossrefs);

    // Then
    assert_eq!(graph.clusters.len(), 1);
    assert_eq!(graph.clusters[0].len(), 2);
}

#[test]
fn should_generate_dot_output() {
    // Given
    let mut crossrefs = Vec::new();
    crossrefs.push(("skill-a".to_string(), vec![test_crossref("skill-b")]));

    // When
    let graph = SkillGraph::from_crossrefs(&crossrefs);
    let dot = graph.to_dot();

    // Then
    assert!(dot.contains("digraph SkillGraph"));
    assert!(dot.contains("\"skill-a\" -> \"skill-b\""));
}

#[test]
fn should_generate_json_output() {
    // Given
    let mut crossrefs = Vec::new();
    crossrefs.push(("skill-a".to_string(), vec![test_crossref("skill-b")]));

    // When
    let graph = SkillGraph::from_crossrefs(&crossrefs);
    let json = graph.to_json();

    // Then
    assert!(json.contains("\"nodes\""));
    assert!(json.contains("\"edges\""));
    assert!(json.contains("skill-a"));
}

#[test]
fn should_generate_mermaid_output() {
    // Given
    let mut crossrefs = Vec::new();
    crossrefs.push(("skill-a".to_string(), vec![test_crossref("skill-b")]));

    // When
    let graph = SkillGraph::from_crossrefs(&crossrefs);
    let mermaid = graph.to_mermaid();

    // Then
    assert!(mermaid.contains("graph LR"));
    assert!(mermaid.contains("skill_a"));
    assert!(mermaid.contains("-->"));
}

#[test]
fn should_deduplicate_edges() {
    // Given: skill-a references skill-b twice
    let mut crossrefs = Vec::new();
    crossrefs.push((
        "skill-a".to_string(),
        vec![test_crossref("skill-b"), test_crossref("skill-b")],
    ));

    // When
    let graph = SkillGraph::from_crossrefs(&crossrefs);
    let text = graph.to_text();

    // Then: skill-b should appear only once in the adjacency list
    let line = text.lines().find(|l| l.starts_with("skill-a:")).unwrap();
    assert_eq!(line, "skill-a: skill-b");
}

#[test]
fn should_include_pipeline_edges() {
    // Given: skills with pipeline after/before declarations
    let skills = vec![
        test_skill(
            "skill-a",
            "Test A",
            PipelineStage {
                stage: "first".to_string(),
                order: 1,
                after: None,
                before: Some(vec!["skill-b".to_string()]),
            },
        ),
        test_skill(
            "skill-b",
            "Test B",
            PipelineStage {
                stage: "second".to_string(),
                order: 2,
                after: Some(vec!["skill-a".to_string()]),
                before: None,
            },
        ),
    ];

    let crossrefs = Vec::new(); // no crossrefs, only pipeline edges

    // When
    let graph = SkillGraph::from_skills(&crossrefs, &skills);
    let text = graph.to_text();

    // Then: pipeline edges create the dependency
    let line_b = text.lines().find(|l| l.starts_with("skill-b:")).unwrap();
    assert!(line_b.contains("skill-a"));
}
