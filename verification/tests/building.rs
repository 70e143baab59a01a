use skill_graph::graph::{EdgeKind, SkillGraph};
use skill_graph::names::{contains, find, insert_sorted, sort_names, sorted_copy};
use skill_graph::skill::{CrossRef, DetectionMethod, Frontmatter, PipelineStage, Skill};
use skill_graph::text::{rank, Rank};

fn see(target: &str) -> CrossRef {
    CrossRef {
        target: target.to_string(),
        line: 3,
        method: DetectionMethod::XmlCrossref,
    }
}

fn names(list: &[&str]) -> Vec<String> {
    list.iter().map(|n| n.to_string()).collect()
}

fn skill(name: &str, tags: &[&str], stages: Vec<(&str, Option<Vec<&str>>, Option<Vec<&str>>)>) -> Skill {
    Skill {
        name: name.to_string(),
        path: format!("/skills/{}", name),
        skill_file: format!("/skills/{}/SKILL.md", name),
        frontmatter: Frontmatter {
            name: name.to_string(),
            description: String::new(),
            tags: if tags.is_empty() { None } else { Some(names(tags)) },
            pipeline: if stages.is_empty() {
                None
            } else {
                Some(
                    stages
                        .into_iter()
                        .enumerate()
                        .map(|(i, (pipeline, after, before))| {
                            (
                                pipeline.to_string(),
                                PipelineStage {
                                    stage: format!("stage-{}", i),
                                    order: i as u32,
                                    after: after.map(|l| names(&l)),
                                    before: before.map(|l| names(&l)),
                                },
                            )
                        })
                        .collect(),
                )
            },
        },
    }
}

fn edges_of(graph: &SkillGraph) -> Vec<(String, String, EdgeKind)> {
    let mut edges = Vec::new();
    for source in graph.node_names() {
        for (target, kind) in graph.edges_from(&source).unwrap() {
            edges.push((source.clone(), target, kind));
        }
    }
    edges
}

fn edge(source: &str, target: &str, kind: EdgeKind) -> (String, String, EdgeKind) {
    (source.to_string(), target.to_string(), kind)
}

#[test]
fn nodes_are_every_name_in_ascending_order() {
    let skills = vec![skill("zebra", &[], vec![]), skill("Apple", &[], vec![])];
    let crossrefs = vec![
        ("mango".to_string(), vec![see("kiwi"), see("zebra")]),
        ("banana".to_string(), vec![]),
    ];
    let graph = SkillGraph::from_skills(&crossrefs, &skills);
    assert_eq!(graph.node_names(), names(&["Apple", "banana", "kiwi", "mango", "zebra"]));
    assert_eq!(graph.node_count(), 5);
    assert_eq!(graph.edge_count(), 2);
}

#[test]
fn a_repeated_reference_gives_one_edge() {
    let crossrefs = vec![
        ("a".to_string(), vec![see("b"), see("b"), see("c"), see("b")]),
        ("a".to_string(), vec![see("c")]),
    ];
    let graph = SkillGraph::from_crossrefs(&crossrefs);
    assert_eq!(graph.edge_count(), 2);
    assert_eq!(
        edges_of(&graph),
        vec![edge("a", "c", EdgeKind::CrossRef), edge("a", "b", EdgeKind::CrossRef)]
    );
}

#[test]
fn the_first_candidate_for_a_pair_wins() {
    // the reference comes first, so the pipeline entry for the same pair is dropped
    let skills = vec![
        skill("a", &[], vec![("p", Some(vec!["b"]), None)]),
        skill("b", &[], vec![("p", None, Some(vec!["a", "c"]))]),
        skill("c", &[], vec![]),
    ];
    let crossrefs = vec![("a".to_string(), vec![see("b")])];
    let graph = SkillGraph::from_skills(&crossrefs, &skills);
    assert_eq!(
        edges_of(&graph),
        vec![edge("a", "b", EdgeKind::CrossRef), edge("c", "b", EdgeKind::Pipeline)]
    );
}

#[test]
fn a_skill_without_references_and_entries_is_root_and_leaf() {
    let skills = vec![skill("alone", &[], vec![]), skill("a", &[], vec![])];
    let crossrefs = vec![("a".to_string(), vec![see("b")])];
    let graph = SkillGraph::from_skills(&crossrefs, &skills);
    assert!(graph.node_names().contains(&"alone".to_string()));
    assert!(graph.roots.contains(&"alone".to_string()));
    assert!(graph.leaves.contains(&"alone".to_string()));
    assert!(!graph.bridges.contains(&"alone".to_string()));
    assert_eq!(graph.roots, names(&["a", "alone"]));
    assert_eq!(graph.leaves, names(&["alone", "b"]));
}

#[test]
fn a_two_way_reference_is_one_cluster_and_a_one_way_reference_none() {
    let both = SkillGraph::from_crossrefs(&vec![
        ("a".to_string(), vec![see("b")]),
        ("b".to_string(), vec![see("a")]),
    ]);
    assert_eq!(both.clusters.len(), 1);
    let mut members = both.clusters[0].clone();
    members.sort();
    assert_eq!(members, names(&["a", "b"]));
    assert_eq!(both.bridges, names(&["a", "b"]));
    assert!(both.roots.is_empty() && both.leaves.is_empty());

    let one = SkillGraph::from_crossrefs(&vec![("a".to_string(), vec![see("b")])]);
    assert!(one.clusters.is_empty());
    assert_eq!(one.roots, names(&["a"]));
    assert_eq!(one.leaves, names(&["b"]));
    assert!(one.bridges.is_empty());
}

#[test]
fn clusters_come_in_the_order_of_discovery() {
    // two cycles, joined by x → a; a cycle is found after what it leads to
    let graph = SkillGraph::from_crossrefs(&vec![
        ("x".to_string(), vec![see("y"), see("a")]),
        ("y".to_string(), vec![see("x")]),
        ("a".to_string(), vec![see("b")]),
        ("b".to_string(), vec![see("c")]),
        ("c".to_string(), vec![see("a")]),
    ]);
    assert_eq!(graph.clusters.len(), 2);
    assert_eq!(graph.clusters[0].len(), 3);
    assert_eq!(graph.clusters[1].len(), 2);
}

#[test]
fn before_on_one_skill_is_after_on_the_other() {
    let by_before = SkillGraph::from_skills(
        &Vec::new(),
        &vec![skill("a", &[], vec![("p", None, Some(vec!["b"]))]), skill("b", &[], vec![])],
    );
    let by_after = SkillGraph::from_skills(
        &Vec::new(),
        &vec![skill("a", &[], vec![]), skill("b", &[], vec![("p", Some(vec!["a"]), None)])],
    );
    assert_eq!(edges_of(&by_before), vec![edge("b", "a", EdgeKind::Pipeline)]);
    assert_eq!(edges_of(&by_before), edges_of(&by_after));
    assert_eq!(by_before.to_text(), by_after.to_text());
    assert_eq!(by_before.to_dot(), by_after.to_dot());
}

#[test]
fn pipeline_entries_for_unknown_skills_give_no_edge() {
    let skills = vec![skill("a", &[], vec![("p", Some(vec!["ghost"]), Some(vec!["phantom"]))])];
    let graph = SkillGraph::from_skills(&Vec::new(), &skills);
    assert_eq!(graph.node_names(), names(&["a"]));
    assert_eq!(graph.edge_count(), 0);
}

#[test]
fn a_skill_that_names_itself_gets_a_loop() {
    let skills = vec![skill("a", &[], vec![("p", Some(vec!["a"]), None)])];
    let graph = SkillGraph::from_skills(&Vec::new(), &skills);
    assert_eq!(edges_of(&graph), vec![edge("a", "a", EdgeKind::Pipeline)]);
    assert_eq!(graph.edges_to("a"), Some(vec![("a".to_string(), EdgeKind::Pipeline)]));
    assert!(graph.roots.is_empty() && graph.leaves.is_empty());
    assert_eq!(graph.bridges, names(&["a"]));
    assert!(graph.clusters.is_empty());
}

#[test]
fn edges_of_a_node_come_latest_first() {
    let graph = SkillGraph::from_crossrefs(&vec![
        ("a".to_string(), vec![see("x"), see("y")]),
        ("b".to_string(), vec![see("x")]),
        ("c".to_string(), vec![see("x")]),
    ]);
    assert_eq!(
        graph.edges_from("a"),
        Some(vec![
            ("y".to_string(), EdgeKind::CrossRef),
            ("x".to_string(), EdgeKind::CrossRef)
        ])
    );
    assert_eq!(
        graph.edges_to("x"),
        Some(vec![
            ("c".to_string(), EdgeKind::CrossRef),
            ("b".to_string(), EdgeKind::CrossRef),
            ("a".to_string(), EdgeKind::CrossRef)
        ])
    );
    assert_eq!(graph.edges_from("x"), Some(vec![]));
    assert_eq!(graph.edges_from("nobody"), None);
    assert_eq!(graph.edges_to("nobody"), None);
}

#[test]
fn the_store_finds_nodes_by_name() {
    let graph = SkillGraph::from_crossrefs(&vec![("m".to_string(), vec![see("a"), see("z")])]);
    assert_eq!(graph.store.find("a"), Some(0));
    assert_eq!(graph.store.find("m"), Some(1));
    assert_eq!(graph.store.find("z"), Some(2));
    assert_eq!(graph.store.find("b"), None);
    assert_eq!(graph.store.name(1), "m");
    assert_eq!(graph.store.edge_list(), vec![(1, 0, EdgeKind::CrossRef), (1, 2, EdgeKind::CrossRef)]);
    assert_eq!(graph.store.leaving(1), vec![(2, EdgeKind::CrossRef), (0, EdgeKind::CrossRef)]);
    assert_eq!(graph.store.entering(2), vec![(1, EdgeKind::CrossRef)]);
    assert_eq!(graph.store.components(), vec![vec![0], vec![2], vec![1]]);
}

#[test]
fn filtering_keeps_the_edges_between_kept_nodes() {
    let skills = vec![
        skill("a", &["core"], vec![("build", None, None)]),
        skill("b", &["core", "x"], vec![("build", Some(vec!["a"]), None)]),
        skill("c", &["x"], vec![("ship", Some(vec!["b"]), None)]),
    ];
    let crossrefs = vec![
        ("a".to_string(), vec![see("b"), see("c")]),
        ("c".to_string(), vec![see("a")]),
    ];
    let graph = SkillGraph::from_skills(&crossrefs, &skills);
    assert_eq!(graph.edge_count(), 5);
    assert_eq!(graph.clusters.len(), 1);

    let build = graph.filter_pipeline(&skills, "build");
    assert_eq!(build.node_names(), names(&["a", "b"]));
    assert_eq!(
        edges_of(&build),
        vec![edge("a", "b", EdgeKind::CrossRef), edge("b", "a", EdgeKind::CrossRef)]
    );
    // the analysis is that of the subgraph
    assert_eq!(build.clusters.len(), 1);
    assert_eq!(build.clusters[0].len(), 2);

    let tagged = graph.filter_tag(&skills, "x");
    assert_eq!(tagged.node_names(), names(&["b", "c"]));
    assert_eq!(edges_of(&tagged), vec![edge("c", "b", EdgeKind::CrossRef)]);
    assert_eq!(tagged.roots, names(&["c"]));
    assert_eq!(tagged.leaves, names(&["b"]));
    assert!(tagged.clusters.is_empty());

    let none = graph.filter_tag(&skills, "no-such-tag");
    assert_eq!(none.node_count(), 0);
}

#[test]
fn filtering_to_all_nodes_keeps_the_counts() {
    let skills = vec![
        skill("a", &[], vec![("p", Some(vec!["c"]), None)]),
        skill("b", &[], vec![]),
        skill("c", &[], vec![("p", None, Some(vec!["b"]))]),
        skill("lone", &[], vec![]),
    ];
    let crossrefs = vec![
        ("a".to_string(), vec![see("b"), see("b")]),
        ("b".to_string(), vec![see("a")]),
    ];
    let graph = SkillGraph::from_skills(&crossrefs, &skills);
    let all = graph.filter_to_skills(&graph.node_names(), &skills);
    assert_eq!(all.node_count(), graph.node_count());
    assert_eq!(all.edge_count(), graph.edge_count());
    assert_eq!(all.node_names(), graph.node_names());
    let pairs = |g: &SkillGraph| -> Vec<(String, String)> {
        let mut pairs: Vec<_> = edges_of(g).into_iter().map(|(s, t, _)| (s, t)).collect();
        pairs.sort();
        pairs
    };
    assert_eq!(pairs(&all), pairs(&graph));
    assert_eq!(all.roots, graph.roots);
    assert_eq!(all.leaves, graph.leaves);
}

#[test]
fn names_are_ordered_by_code_point() {
    assert_eq!(rank("a", "b"), Rank::Before);
    assert_eq!(rank("b", "a"), Rank::After);
    assert_eq!(rank("abc", "abc"), Rank::Same);
    assert_eq!(rank("ab", "abc"), Rank::Before);
    assert_eq!(rank("", ""), Rank::Same);
    assert_eq!(rank("", "a"), Rank::Before);
    assert_eq!(rank("Z", "a"), Rank::Before);
    assert_eq!(rank("\u{e9}", "z"), Rank::After);
    assert_eq!(rank("\u{ffff}", "\u{10000}"), Rank::Before);
    let mut words = names(&["pear", "Apple", "fig", "apple", "\u{e9}clair", "fig"]);
    let sorted = sort_names(&words);
    words.sort();
    assert_eq!(sorted, words);
}

#[test]
fn sorted_lists_hold_each_name_once() {
    let mut list = Vec::new();
    for name in ["m", "c", "x", "c", "a", "m"] {
        insert_sorted(&mut list, name);
    }
    assert_eq!(list, names(&["a", "c", "m", "x"]));
    assert_eq!(find(&list, "a"), Some(0));
    assert_eq!(find(&list, "x"), Some(3));
    assert_eq!(find(&list, "b"), None);
    assert_eq!(find(&Vec::new(), "b"), None);
    assert_eq!(sorted_copy(&names(&["b", "a", "b"])), names(&["a", "b"]));
    assert!(contains(&names(&["z", "a"]), "a"));
    assert!(!contains(&names(&["z", "a"]), "b"));
}
