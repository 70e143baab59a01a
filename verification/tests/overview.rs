use skill_graph::skill::{CrossRef, DetectionMethod, Frontmatter, PipelineStage, Skill};
use skill_graph::tui::overview::{
    count_severity, extract_clusters, extract_pipelines, find_recent_skills, find_unconnected,
    OverviewInputs, OverviewState, Severity,
};

fn test_skill_with_pipeline(name: &str, pipeline: &str, stage: &str, order: u32) -> Skill {
    let pipeline_data = vec![(
        pipeline.to_string(),
        PipelineStage {
            stage: stage.to_string(),
            order,
            after: None,
            before: None,
        },
    )];

    Skill {
        name: name.to_string(),
        path: format!("/test/{}", name),
        skill_file: format!("/test/{}/SKILL.md", name),
        frontmatter: Frontmatter {
            name: name.to_string(),
            description: format!("Test skill {}", name),
            tags: None,
            pipeline: Some(pipeline_data),
        },
    }
}

fn see(target: &str) -> CrossRef {
    CrossRef {
        target: target.to_string(),
        line: 1,
        method: DetectionMethod::XmlCrossref,
    }
}

#[test]
fn should_initialize_with_no_data() {
    // Given / When
    let state = OverviewState::new();

    // Then
    assert!(state.data.is_none());
}

#[test]
fn should_extract_pipeline_info() {
    // Given
    let skills = vec![test_skill_with_pipeline(
        "skill-a",
        "test-pipeline",
        "stage-1",
        1,
    )];

    // When
    let pipelines = extract_pipelines(&skills);

    // Then
    assert_eq!(pipelines.len(), 1);
    assert_eq!(pipelines[0].name, "test-pipeline");
    assert_eq!(pipelines[0].skill_count, 1);
    assert_eq!(pipelines[0].stage_count, 1);
    assert!(!pipelines[0].has_gaps);
}

#[test]
fn should_detect_pipeline_gaps() {
    // Given
    let skills = vec![
        test_skill_with_pipeline("skill-a", "test-pipeline", "stage-1", 1),
        test_skill_with_pipeline("skill-b", "test-pipeline", "stage-3", 3), // Gap: no order 2
    ];

    // When
    let pipelines = extract_pipelines(&skills);

    // Then
    assert_eq!(pipelines.len(), 1);
    assert!(pipelines[0].has_gaps);
}

#[test]
fn should_sort_recent_skills_by_mtime() {
    // Given: the times of the last change, as read from the files
    let modified = vec![
        ("old".to_string(), 100),
        ("new".to_string(), 300),
        ("mid".to_string(), 200),
        ("twin".to_string(), 200),
    ];

    // When
    let recent = find_recent_skills(&modified, 10);

    // Then: latest first, equal times in their own order
    assert_eq!(recent, vec!["new", "mid", "twin", "old"]);
    assert_eq!(find_recent_skills(&modified, 2), vec!["new", "mid"]);
    assert!(find_recent_skills(&modified, 0).is_empty());
    assert!(find_recent_skills(&Vec::new(), 10).is_empty());
}

#[test]
fn pipelines_are_sorted_and_count_distinct_stages_and_skills() {
    let mut both = test_skill_with_pipeline("skill-c", "zeta", "z-1", 1);
    both.frontmatter.pipeline.as_mut().unwrap().push((
        "alpha".to_string(),
        PipelineStage { stage: "a-2".to_string(), order: 2, after: None, before: None },
    ));
    let skills = vec![
        test_skill_with_pipeline("skill-a", "zeta", "z-1", 1),
        test_skill_with_pipeline("skill-b", "alpha", "a-1", 1),
        both,
        test_skill_with_pipeline("skill-d", "zeta", "z-2", 2),
        test_skill_with_pipeline("skill-e", "zeta", "z-2b", 2),
    ];
    let pipelines = extract_pipelines(&skills);
    assert_eq!(pipelines.len(), 2);
    assert_eq!(pipelines[0].name, "alpha");
    assert_eq!(pipelines[0].stage_count, 2);
    assert_eq!(pipelines[0].skill_count, 2);
    assert!(!pipelines[0].has_gaps);
    assert_eq!(pipelines[1].name, "zeta");
    assert_eq!(pipelines[1].stage_count, 3);
    assert_eq!(pipelines[1].skill_count, 4);
    assert!(!pipelines[1].has_gaps);
    assert!(extract_pipelines(&[]).is_empty());
}

#[test]
fn severities_are_counted_each() {
    let findings = vec![
        Severity::Warning,
        Severity::Error,
        Severity::Info,
        Severity::Warning,
        Severity::Warning,
    ];
    assert_eq!(count_severity(&findings, Severity::Error), 1);
    assert_eq!(count_severity(&findings, Severity::Warning), 3);
    assert_eq!(count_severity(&findings, Severity::Info), 1);
    assert_eq!(count_severity(&Vec::new(), Severity::Error), 0);
}

#[test]
fn clusters_are_numbered_from_one() {
    let skills = Vec::new();
    let crossrefs = vec![
        ("a".to_string(), vec![see("b")]),
        ("b".to_string(), vec![see("a")]),
        ("c".to_string(), vec![see("d")]),
        ("d".to_string(), vec![see("c")]),
        ("e".to_string(), vec![see("a")]),
    ];
    let clusters = extract_clusters(&crossrefs, &skills);
    assert_eq!(clusters.len(), 2);
    assert_eq!(clusters[0].0, "cluster-1");
    assert_eq!(clusters[1].0, "cluster-2");
    let mut all: Vec<String> = clusters.iter().flat_map(|c| c.1.clone()).collect();
    all.sort();
    assert_eq!(all, vec!["a", "b", "c", "d"]);
}

#[test]
fn unconnected_skills_are_those_without_edges() {
    let skills = vec![
        test_skill_with_pipeline("solo-z", "p", "s", 1),
        test_skill_with_pipeline("a", "p", "s", 1),
        test_skill_with_pipeline("solo-b", "p", "s", 1),
        test_skill_with_pipeline("b", "p", "s", 1),
    ];
    let crossrefs = vec![("a".to_string(), vec![see("b")])];
    assert_eq!(find_unconnected(&crossrefs, &skills), vec!["solo-b", "solo-z"]);
}

#[test]
fn refresh_fills_every_figure() {
    let skills = vec![
        test_skill_with_pipeline("a", "p", "one", 1),
        test_skill_with_pipeline("b", "p", "three", 3),
        test_skill_with_pipeline("c", "q", "one", 1),
    ];
    let inputs = OverviewInputs {
        total_sources: 2,
        total_targets: 5,
        findings: vec![Severity::Error, Severity::Info, Severity::Error],
        crossrefs: vec![
            ("a".to_string(), vec![see("b")]),
            ("b".to_string(), vec![see("a")]),
        ],
        modified: vec![("a".to_string(), 5), ("c".to_string(), 9)],
    };
    let mut state = OverviewState::new();
    state.refresh(&inputs, &skills);
    let data = state.data.expect("refresh stores the data");
    assert_eq!(data.total_skills, 3);
    assert_eq!(data.total_sources, 2);
    assert_eq!(data.total_targets, 5);
    assert_eq!(data.error_count, 2);
    assert_eq!(data.warning_count, 0);
    assert_eq!(data.info_count, 1);
    assert_eq!(data.clusters.len(), 1);
    assert_eq!(data.clusters[0].0, "cluster-1");
    assert_eq!(data.pipelines.len(), 2);
    assert!(data.pipelines[0].has_gaps);
    assert!(!data.pipelines[1].has_gaps);
    assert_eq!(data.unconnected, vec!["c"]);
    assert_eq!(data.recent, vec!["c", "a"]);
}
