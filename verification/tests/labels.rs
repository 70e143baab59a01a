use skill_graph::graph::SkillGraph;
use skill_graph::skill::{CrossRef, DetectionMethod};
use skill_graph::tui::graph_view::{
    browse_legend, browse_rows, browse_title, edges_title, node_info, node_role, trail_text,
    NodeRole,
};
use skill_graph::tui::overview::{
    cluster_line, findings_line, health, pipeline_line, Health, OverviewInputs, OverviewState,
    PipelineInfo, Severity,
};

fn see(target: &str) -> CrossRef {
    CrossRef {
        target: target.to_string(),
        line: 1,
        method: DetectionMethod::XmlCrossref,
    }
}

/// a → b, b → c, c → b, and d alone.
fn graph() -> SkillGraph {
    SkillGraph::from_crossrefs(&vec![
        ("a".to_string(), vec![see("b")]),
        ("b".to_string(), vec![see("c")]),
        ("c".to_string(), vec![see("b")]),
        ("d".to_string(), vec![]),
    ])
}

#[test]
fn browse_rows_give_role_and_degrees() {
    let rows = browse_rows(&graph());
    let seen: Vec<(String, NodeRole, usize, usize)> = rows
        .into_iter()
        .map(|r| (r.name, r.role, r.outgoing, r.incoming))
        .collect();
    assert_eq!(
        seen,
        vec![
            ("a".to_string(), NodeRole::Root, 1, 0),
            ("b".to_string(), NodeRole::Bridge, 1, 2),
            ("c".to_string(), NodeRole::Bridge, 1, 1),
            ("d".to_string(), NodeRole::Root, 0, 0),
        ]
    );
    let chain = SkillGraph::from_crossrefs(&vec![("a".to_string(), vec![see("b")])]);
    assert_eq!(node_role(&chain, "b"), NodeRole::Leaf);
    assert_eq!(node_role(&chain, "nobody"), NodeRole::Plain);
}

#[test]
fn browse_title_and_legend_count() {
    let graph = graph();
    assert_eq!(browse_title(&graph), " Graph Explorer - Browse (4 nodes, 3 edges) ");
    assert_eq!(
        browse_legend(&graph),
        "Enter: focus node | Legend: roots=2, leaves=1, bridges=2, clusters=1"
    );
    assert_eq!(edges_title(12), " Edges (12) - Enter: follow edge ");
    assert_eq!(edges_title(0), " Edges (0) - Enter: follow edge ");
}

#[test]
fn trail_text_joins_with_arrows() {
    assert_eq!(trail_text(&Vec::new()), "No navigation history");
    assert_eq!(trail_text(&vec!["a".to_string()]), "a");
    assert_eq!(
        trail_text(&vec!["a".to_string(), "b".to_string(), "a".to_string()]),
        "a → b → a"
    );
}

#[test]
fn node_info_lists_what_applies() {
    let graph = graph();
    assert_eq!(
        node_info(&graph, "b"),
        vec!["Skill: b", "Roles: Bridge", "Outgoing: 1 | Incoming: 2", "Cluster: 2 members"]
    );
    assert_eq!(
        node_info(&graph, "d"),
        vec!["Skill: d", "Roles: Root, Leaf", "Outgoing: 0 | Incoming: 0"]
    );
    assert_eq!(node_info(&graph, "zz"), vec!["Skill: zz", "Outgoing: 0 | Incoming: 0"]);
}

#[test]
fn health_goes_by_the_gravest_finding() {
    assert_eq!(health(1, 0), Health::Failing);
    assert_eq!(health(2, 5), Health::Failing);
    assert_eq!(health(0, 1), Health::Doubtful);
    assert_eq!(health(0, 0), Health::Sound);
}

#[test]
fn overview_lines_are_exact() {
    let mut state = OverviewState::new();
    state.refresh(
        &OverviewInputs {
            total_sources: 1,
            total_targets: 0,
            findings: vec![Severity::Warning; 11],
            crossrefs: Vec::new(),
            modified: Vec::new(),
        },
        &[],
    );
    assert_eq!(findings_line(state.data.as_ref().unwrap()), "0 errors, 11 warnings, 0 info");
    assert_eq!(
        cluster_line("cluster-1", &vec!["a".to_string(), "b".to_string()]),
        "cluster-1 (2 skills): a, b"
    );
    let mut info = PipelineInfo {
        name: "build".to_string(),
        stage_count: 3,
        skill_count: 4,
        has_gaps: false,
    };
    assert_eq!(pipeline_line(&info), "build: 3 stages, 4 skills");
    info.has_gaps = true;
    assert_eq!(pipeline_line(&info), "build: 3 stages, 4 skills ⚠ gaps");
}
