use skill_graph::graph::export::sanitize_mermaid;
use skill_graph::graph::{EdgeKind, SkillGraph};
use skill_graph::skill::{CrossRef, DetectionMethod, Frontmatter, PipelineStage, Skill};

fn see(target: &str) -> CrossRef {
    CrossRef {
        target: target.to_string(),
        line: 3,
        method: DetectionMethod::XmlCrossref,
    }
}

fn skill(name: &str, after: Option<Vec<&str>>, before: Option<Vec<&str>>) -> Skill {
    let list = |names: Vec<&str>| names.into_iter().map(|n| n.to_string()).collect();
    Skill {
        name: name.to_string(),
        path: format!("/skills/{}", name),
        skill_file: format!("/skills/{}/SKILL.md", name),
        frontmatter: Frontmatter {
            name: name.to_string(),
            description: String::new(),
            tags: None,
            pipeline: Some(vec![(
                "main".to_string(),
                PipelineStage {
                    stage: "stage".to_string(),
                    order: 1,
                    after: after.map(list),
                    before: before.map(list),
                },
            )]),
        },
    }
}

/// a → b and b → c by reference.
fn chain() -> SkillGraph {
    let skills = vec![skill("a", None, None), skill("b", None, None), skill("c", None, None)];
    let crossrefs = vec![
        ("a".to_string(), vec![see("b")]),
        ("b".to_string(), vec![see("c")]),
    ];
    SkillGraph::from_skills(&crossrefs, &skills)
}

/// References mid → low, mid → top, top → mid; the pipeline adds low → top.
fn mixed() -> SkillGraph {
    let skills = vec![
        skill("top", None, Some(vec!["low"])),
        skill("mid", Some(vec!["low"]), None),
        skill("low", None, None),
    ];
    let crossrefs = vec![
        ("mid".to_string(), vec![see("low"), see("top")]),
        ("top".to_string(), vec![see("mid")]),
    ];
    SkillGraph::from_skills(&crossrefs, &skills)
}

#[test]
fn a_chain_has_one_root_one_leaf_and_one_bridge() {
    let graph = chain();
    assert_eq!(graph.roots, vec!["a"]);
    assert_eq!(graph.leaves, vec!["c"]);
    assert_eq!(graph.bridges, vec!["b"]);
    assert!(graph.clusters.is_empty());
    let text = graph.to_text();
    assert!(text.lines().any(|l| l == "a: b"));
    assert!(text.lines().any(|l| l == "b: c"));
    assert!(text.lines().any(|l| l == "c: (none)"));
}

#[test]
fn text_export_is_exact() {
    assert_eq!(
        chain().to_text(),
        "# Skill Dependency Graph\n\n\
         Skills: 3\nClusters: 0\nRoots: 1\nLeaves: 1\nBridges: 1\n\n\
         ## Dependencies\n\n\
         a: b\nb: c\nc: (none)\n"
    );
    assert_eq!(
        mixed().to_text(),
        "# Skill Dependency Graph\n\n\
         Skills: 3\nClusters: 1\nRoots: 0\nLeaves: 0\nBridges: 3\n\n\
         ## Dependencies\n\n\
         low: top\nmid: low, top\ntop: mid\n"
    );
}

#[test]
fn text_export_counts_with_several_digits() {
    let mut crossrefs = Vec::new();
    for i in 0..120 {
        crossrefs.push((format!("n{:03}", i), vec![]));
    }
    let text = SkillGraph::from_crossrefs(&crossrefs).to_text();
    assert!(text.contains("Skills: 120\n"));
    assert!(text.contains("Roots: 120\n"));
    assert!(text.contains("Bridges: 0\n"));
    assert!(text.ends_with("n119: (none)\n"));
}

#[test]
fn dot_export_is_exact() {
    assert_eq!(
        chain().to_dot(),
        "digraph SkillGraph {\n  rankdir=LR;\n  node [shape=box, style=rounded];\n\n\
         \x20 \"a\" [fillcolor=lightblue, style=\"rounded,filled\"];\n\
         \x20 \"b\" [fillcolor=orange, style=\"rounded,filled\"];\n\
         \x20 \"c\" [fillcolor=lightgreen, style=\"rounded,filled\"];\n\
         \n\
         \x20 \"a\" -> \"b\";\n\
         \x20 \"b\" -> \"c\";\n\
         }\n"
    );
}

#[test]
fn dot_export_draws_pipeline_edges_dashed_and_lone_nodes_as_roots() {
    let skills = vec![skill("x", Some(vec!["y"]), None), skill("y", None, None)];
    let crossrefs = vec![("solo".to_string(), vec![])];
    let dot = SkillGraph::from_skills(&crossrefs, &skills).to_dot();
    assert!(dot.contains("  \"x\" -> \"y\" [style=dashed, color=blue];\n"));
    // a node without edges is a root and a leaf: the first role wins
    assert!(dot.contains("  \"solo\" [fillcolor=lightblue, style=\"rounded,filled\"];\n"));
}

#[test]
fn dot_export_colors_a_plain_node_white() {
    let mut graph = chain();
    graph.bridges.clear();
    assert!(graph.to_dot().contains("  \"b\" [fillcolor=white, style=\"rounded,filled\"];\n"));
}

#[test]
fn mermaid_export_is_exact() {
    assert_eq!(
        mixed().to_mermaid(),
        "graph LR\n\
         \x20 mid[mid] --> low[low]\n\
         \x20 mid[mid] --> top[top]\n\
         \x20 top[top] --> mid[mid]\n\
         \x20 low[low] -.-> top[top]\n"
    );
}

#[test]
fn mermaid_identifiers_have_no_dash() {
    let crossrefs = vec![("my-skill-a".to_string(), vec![see("other_b-c")])];
    assert_eq!(
        SkillGraph::from_crossrefs(&crossrefs).to_mermaid(),
        "graph LR\n  my_skill_a[my-skill-a] --> other_b_c[other_b-c]\n"
    );
    assert_eq!(sanitize_mermaid("a-b--c"), "a_b__c");
    assert_eq!(sanitize_mermaid("-"), "_");
    assert_eq!(sanitize_mermaid(""), "");
    assert_eq!(sanitize_mermaid("h\u{e9}-\u{4e16}"), "h\u{e9}_\u{4e16}");
}

#[test]
fn json_export_is_exact() {
    assert_eq!(
        chain().to_json(),
        "{\"clusters\":[],\
         \"edges\":[{\"kind\":\"crossref\",\"source\":\"a\",\"target\":\"b\"},\
         {\"kind\":\"crossref\",\"source\":\"b\",\"target\":\"c\"}],\
         \"nodes\":[{\"id\":\"a\",\"is_bridge\":false,\"is_leaf\":false,\"is_root\":true},\
         {\"id\":\"b\",\"is_bridge\":true,\"is_leaf\":false,\"is_root\":false},\
         {\"id\":\"c\",\"is_bridge\":false,\"is_leaf\":true,\"is_root\":false}]}"
    );
}

#[test]
fn json_export_escapes_names() {
    let crossrefs = vec![("say \"hi\"\\".to_string(), vec![see("tab\there")])];
    let json = SkillGraph::from_crossrefs(&crossrefs).to_json();
    assert!(json.contains("\"source\":\"say \\\"hi\\\"\\\\\""));
    assert!(json.contains("\"target\":\"tab\\there\""));
    let parsed: serde_json::Value = serde_json::from_str(&json).unwrap();
    assert_eq!(parsed["nodes"][0]["id"].as_str(), Some("say \"hi\"\\"));
    assert_eq!(parsed["edges"][0]["target"].as_str(), Some("tab\there"));
}

/// The same document, put together by `serde_json` itself.
fn json_by_serde(graph: &SkillGraph) -> String {
    let text = |s: &str| serde_json::Value::String(s.to_string());
    let mut nodes = Vec::new();
    let mut edges = Vec::new();
    for name in graph.node_names() {
        let mut node = serde_json::Map::new();
        node.insert("id".to_string(), text(&name));
        node.insert("is_bridge".to_string(), serde_json::Value::Bool(graph.bridges.contains(&name)));
        node.insert("is_leaf".to_string(), serde_json::Value::Bool(graph.leaves.contains(&name)));
        node.insert("is_root".to_string(), serde_json::Value::Bool(graph.roots.contains(&name)));
        nodes.push(serde_json::Value::Object(node));
        for (target, kind) in graph.edges_from(&name).unwrap() {
            let mut edge = serde_json::Map::new();
            edge.insert(
                "kind".to_string(),
                text(match kind {
                    EdgeKind::CrossRef => "crossref",
                    EdgeKind::Pipeline => "pipeline",
                }),
            );
            edge.insert("source".to_string(), text(&name));
            edge.insert("target".to_string(), text(&target));
            edges.push(serde_json::Value::Object(edge));
        }
    }
    let clusters = graph
        .clusters
        .iter()
        .map(|c| serde_json::Value::Array(c.iter().map(|n| text(n)).collect()))
        .collect();
    let mut document = serde_json::Map::new();
    document.insert("clusters".to_string(), serde_json::Value::Array(clusters));
    document.insert("edges".to_string(), serde_json::Value::Array(edges));
    document.insert("nodes".to_string(), serde_json::Value::Array(nodes));
    serde_json::Value::Object(document).to_string()
}

#[test]
fn json_export_is_what_serde_json_writes() {
    for graph in [chain(), mixed(), SkillGraph::from_crossrefs(&Vec::new())] {
        assert_eq!(graph.to_json(), json_by_serde(&graph));
    }
    let odd = SkillGraph::from_crossrefs(&vec![
        ("quo\"te".to_string(), vec![see("new\nline"), see("uni\u{1}\u{7f}\u{e9}")]),
        ("new\nline".to_string(), vec![see("quo\"te")]),
    ]);
    assert_eq!(odd.to_json(), json_by_serde(&odd));
}

#[test]
fn json_export_lists_the_latest_edge_of_a_node_first() {
    let json = mixed().to_json();
    let parsed: serde_json::Value = serde_json::from_str(&json).unwrap();
    let edges: Vec<(String, String, String)> = parsed["edges"]
        .as_array()
        .unwrap()
        .iter()
        .map(|e| {
            (
                e["source"].as_str().unwrap().to_string(),
                e["target"].as_str().unwrap().to_string(),
                e["kind"].as_str().unwrap().to_string(),
            )
        })
        .collect();
    let triple = |s: &str, t: &str, k: &str| (s.to_string(), t.to_string(), k.to_string());
    assert_eq!(
        edges,
        vec![
            triple("low", "top", "pipeline"),
            triple("mid", "top", "crossref"),
            triple("mid", "low", "crossref"),
            triple("top", "mid", "crossref"),
        ]
    );
    assert_eq!(parsed["nodes"].as_array().unwrap().len(), 3);
    assert_eq!(parsed["clusters"].as_array().unwrap().len(), 1);
}

#[test]
fn empty_graph_exports_are_well_formed() {
    let graph = SkillGraph::from_crossrefs(&Vec::new());
    assert_eq!(graph.node_count(), 0);
    assert_eq!(graph.edge_count(), 0);
    assert!(graph.roots.is_empty() && graph.leaves.is_empty());
    assert!(graph.bridges.is_empty() && graph.clusters.is_empty());
    assert_eq!(
        graph.to_dot(),
        "digraph SkillGraph {\n  rankdir=LR;\n  node [shape=box, style=rounded];\n\n\n}\n"
    );
    assert_eq!(
        graph.to_text(),
        "# Skill Dependency Graph\n\nSkills: 0\nClusters: 0\nRoots: 0\nLeaves: 0\nBridges: 0\n\n## Dependencies\n\n"
    );
    assert_eq!(graph.to_json(), "{\"clusters\":[],\"edges\":[],\"nodes\":[]}");
    assert_eq!(graph.to_mermaid(), "graph LR\n");
}

#[test]
fn exports_are_the_same_for_the_same_input() {
    let (first, second) = (mixed(), mixed());
    assert_eq!(first.to_dot(), second.to_dot());
    assert_eq!(first.to_text(), second.to_text());
    assert_eq!(first.to_json(), second.to_json());
    assert_eq!(first.to_mermaid(), second.to_mermaid());
}
