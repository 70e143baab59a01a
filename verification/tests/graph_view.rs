use skill_graph::graph::{EdgeKind, SkillGraph};
use skill_graph::skill::{CrossRef, DetectionMethod};
use skill_graph::tui::graph_view::{
    count_edges, edge_rows, EdgeDirection, GraphViewState, NavigationMode,
};

fn test_graph() -> SkillGraph {
    let mut crossrefs = Vec::new();
    crossrefs.push((
        "skill-a".to_string(),
        vec![CrossRef {
            target: "skill-b".to_string(),
            line: 1,
            method: DetectionMethod::XmlCrossref,
        }],
    ));

    SkillGraph::from_crossrefs(&crossrefs)
}

fn see(target: &str) -> CrossRef {
    CrossRef {
        target: target.to_string(),
        line: 1,
        method: DetectionMethod::XmlCrossref,
    }
}

/// a → b, a → c, c → a
fn three_nodes() -> SkillGraph {
    SkillGraph::from_crossrefs(&vec![
        ("a".to_string(), vec![see("b"), see("c")]),
        ("c".to_string(), vec![see("a")]),
    ])
}

#[test]
fn should_initialize_with_no_graph() {
    // Given / When
    let state = GraphViewState::new();

    // Then
    assert!(state.graph.is_none());
    assert_eq!(state.list_state.selected(), Some(0));
    assert_eq!(state.mode, NavigationMode::Browse);
    assert!(state.trail.is_empty());
}

#[test]
fn should_move_selection_down_in_browse_mode() {
    // Given
    let mut state = GraphViewState::new();
    state.graph = Some(test_graph());
    state.list_state.select(Some(0));

    // When
    state.next();

    // Then
    assert_eq!(state.list_state.selected(), Some(1));
}

#[test]
fn should_wrap_selection_at_end() {
    // Given
    let mut state = GraphViewState::new();
    state.graph = Some(test_graph());
    let node_count = state.graph.as_ref().unwrap().node_count();
    state.list_state.select(Some(node_count - 1));

    // When
    state.next();

    // Then (should wrap to first)
    assert_eq!(state.list_state.selected(), Some(0));
}

#[test]
fn should_move_selection_up() {
    // Given
    let mut state = GraphViewState::new();
    state.graph = Some(test_graph());
    state.list_state.select(Some(1));

    // When
    state.previous();

    // Then
    assert_eq!(state.list_state.selected(), Some(0));
}

#[test]
fn should_wrap_selection_at_start() {
    // Given
    let mut state = GraphViewState::new();
    state.graph = Some(test_graph());
    state.list_state.select(Some(0));
    let node_count = state.graph.as_ref().unwrap().node_count();

    // When
    state.previous();

    // Then (should wrap to last)
    assert_eq!(state.list_state.selected(), Some(node_count - 1));
}

#[test]
fn should_toggle_to_focus_mode() {
    // Given
    let mut state = GraphViewState::new();
    state.graph = Some(test_graph());
    state.list_state.select(Some(0));

    // When
    state.toggle_mode();

    // Then
    assert_eq!(state.mode, NavigationMode::Focus);
    assert_eq!(state.trail.len(), 1);
}

#[test]
fn should_navigate_back_in_trail() {
    // Given
    let mut state = GraphViewState::new();
    state.graph = Some(test_graph());
    state.mode = NavigationMode::Focus;
    state.trail = vec!["skill-a".to_string(), "skill-b".to_string()];

    // When
    state.navigate_back();

    // Then
    assert_eq!(state.trail.len(), 1);
    assert_eq!(state.trail[0], "skill-a");
}

#[test]
fn should_return_to_browse_when_trail_empty() {
    // Given
    let mut state = GraphViewState::new();
    state.graph = Some(test_graph());
    state.mode = NavigationMode::Focus;
    state.trail = vec!["skill-a".to_string()];

    // When
    state.navigate_back();

    // Then
    assert_eq!(state.mode, NavigationMode::Browse);
    assert!(state.trail.is_empty());
}

#[test]
fn next_three_times_in_three_nodes_comes_back() {
    let mut state = GraphViewState::new();
    state.graph = Some(three_nodes());
    state.list_state.select(Some(0));
    state.next();
    assert_eq!(state.list_state.selected(), Some(1));
    state.next();
    assert_eq!(state.list_state.selected(), Some(2));
    state.next();
    assert_eq!(state.list_state.selected(), Some(0));
    state.previous();
    assert_eq!(state.list_state.selected(), Some(2));
}

#[test]
fn movement_does_nothing_without_nodes() {
    let mut state = GraphViewState::new();
    state.next();
    state.previous();
    assert_eq!(state.list_state.selected(), Some(0));
    state.graph = Some(SkillGraph::from_crossrefs(&Vec::new()));
    state.list_state.select(None);
    state.next();
    assert_eq!(state.list_state.selected(), None);
    state.previous();
    assert_eq!(state.list_state.selected(), None);
    state.toggle_mode();
    assert_eq!(state.mode, NavigationMode::Browse);
    assert_eq!(state.focused_skill(), None);
}

#[test]
fn an_unset_cursor_moves_to_the_first_row() {
    let mut state = GraphViewState::new();
    state.graph = Some(three_nodes());
    state.list_state.select(None);
    state.next();
    assert_eq!(state.list_state.selected(), Some(0));
    state.list_state.select(None);
    state.previous();
    assert_eq!(state.list_state.selected(), Some(0));
}

#[test]
fn trail_mechanics() {
    let mut state = GraphViewState::new();
    state.graph = Some(three_nodes());
    state.list_state.select(Some(2));
    assert_eq!(state.focused_skill(), Some("c".to_string()));

    state.toggle_mode();
    assert_eq!(state.mode, NavigationMode::Focus);
    assert_eq!(state.trail, vec!["c".to_string()]);
    assert_eq!(state.edge_list_state.selected(), Some(0));
    assert_eq!(state.focused_skill(), Some("c".to_string()));

    // c has the edges c → a (leaving) and a → c (entering)
    state.follow_edge();
    assert_eq!(state.trail, vec!["c".to_string(), "a".to_string()]);

    state.navigate_back();
    assert_eq!(state.mode, NavigationMode::Focus);
    assert_eq!(state.trail, vec!["c".to_string()]);

    state.navigate_back();
    assert_eq!(state.mode, NavigationMode::Browse);
    assert!(state.trail.is_empty());

    // in browse mode there is nothing to go back to
    state.navigate_back();
    assert_eq!(state.mode, NavigationMode::Browse);
}

#[test]
fn toggling_out_of_focus_keeps_the_trail() {
    let mut state = GraphViewState::new();
    state.graph = Some(three_nodes());
    state.toggle_mode();
    state.toggle_mode();
    assert_eq!(state.mode, NavigationMode::Browse);
    assert_eq!(state.trail, vec!["a".to_string()]);
}

#[test]
fn edge_rows_list_leaving_edges_first_and_the_latest_first() {
    let graph = three_nodes();
    let rows = edge_rows(&graph, "a");
    assert_eq!(
        rows,
        vec![
            ("c".to_string(), EdgeKind::CrossRef, EdgeDirection::Outgoing),
            ("b".to_string(), EdgeKind::CrossRef, EdgeDirection::Outgoing),
            ("c".to_string(), EdgeKind::CrossRef, EdgeDirection::Incoming),
        ]
    );
    assert_eq!(count_edges(&graph, "a"), 3);
    assert_eq!(count_edges(&graph, "b"), 1);
    assert_eq!(count_edges(&graph, "nobody"), 0);
}

#[test]
fn focus_movement_wraps_over_the_edges() {
    let mut state = GraphViewState::new();
    state.graph = Some(three_nodes());
    state.toggle_mode();
    assert_eq!(state.trail, vec!["a".to_string()]);
    state.previous();
    assert_eq!(state.edge_list_state.selected(), Some(2));
    state.next();
    assert_eq!(state.edge_list_state.selected(), Some(0));
    state.next();
    state.follow_edge();
    assert_eq!(state.trail, vec!["a".to_string(), "b".to_string()]);
    assert_eq!(state.edge_list_state.selected(), Some(0));
    // the browse cursor has not moved
    assert_eq!(state.list_state.selected(), Some(0));
}

#[test]
fn follow_edge_needs_focus_and_an_edge() {
    let mut state = GraphViewState::new();
    state.graph = Some(SkillGraph::from_crossrefs(&vec![("lonely".to_string(), vec![])]));
    state.follow_edge();
    assert!(state.trail.is_empty());
    state.toggle_mode();
    state.follow_edge();
    assert_eq!(state.trail, vec!["lonely".to_string()]);
    state.next();
    assert_eq!(state.edge_list_state.selected(), Some(0));
}

#[test]
fn refresh_rebuilds_and_resets() {
    let mut state = GraphViewState::new();
    state.graph = Some(three_nodes());
    state.list_state.select(Some(2));
    state.toggle_mode();
    state.follow_edge();

    let crossrefs = vec![("x".to_string(), vec![see("y")])];
    state.refresh(&crossrefs, &[]);
    assert_eq!(state.mode, NavigationMode::Browse);
    assert!(state.trail.is_empty());
    assert_eq!(state.list_state.selected(), Some(0));
    assert_eq!(state.graph.as_ref().unwrap().node_names(), vec!["x", "y"]);

    state.list_state.select(Some(1));
    state.refresh(&Vec::new(), &[]);
    assert_eq!(state.graph.as_ref().unwrap().node_count(), 0);
    assert_eq!(state.list_state.selected(), Some(1));
}
