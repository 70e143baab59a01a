//! Graph explorer - focused node navigation with breadcrumb trail.

use crate::graph::model::{built, incoming, outgoing, GraphModel};
use crate::graph::{source_list, target_list, EdgeKind, SkillGraph};
use crate::names::contains;
use crate::render::{decimal, joined, push_decimal, push_joined};
use crate::skill::{CrossRefs, CrossRefsModel, Skill, SkillModel};
use vstd::prelude::*;

verus! {

/// Navigation mode for the graph explorer.
#[derive(Debug, Clone, Copy, PartialEq, Eq, Structural)]
pub enum NavigationMode {
    /// Browse mode - scrollable list of all nodes.
    Browse,
    /// Focus mode - examine a single node and its edges.
    Focus,
}

/// Whether an edge leaves or enters the node in focus.
#[derive(Debug, Clone, Copy, PartialEq, Eq, Structural)]
pub enum EdgeDirection {
    /// The edge leads from the node in focus to the other node.
    Outgoing,
    /// The edge leads from the other node to the node in focus.
    Incoming,
}

impl DeepView for EdgeDirection {
    type V = EdgeDirection;

    open spec fn deep_view(&self) -> EdgeDirection {
        *self
    }
}

/// The selection of a list: the index of the selected row, if any.
#[derive(Debug, Clone, Copy, PartialEq, Eq, Structural)]
pub struct ListCursor {
    /// Index of the selected row.
    pub index: Option<usize>,
}

impl ListCursor {
    /// A cursor on the given row.
    pub fn new(index: Option<usize>) -> (cursor: ListCursor)
        ensures
            cursor.index == index,
    {
        ListCursor { index }
    }

    /// Moves the cursor.
    pub fn select(&mut self, index: Option<usize>)
        ensures
            final(self).index == index,
    {
        self.index = index;
    }

    /// The selected row.
    pub fn selected(&self) -> (index: Option<usize>)
        ensures
            index == self.index,
    {
        self.index
    }
}

/// State for the graph explorer view.
#[derive(Debug)]
pub struct GraphViewState {
    /// Current navigation mode.
    pub mode: NavigationMode,
    /// List selection state (for browse mode).
    pub list_state: ListCursor,
    /// Built graph.
    pub graph: Option<SkillGraph>,
    /// Navigation trail (breadcrumb history).
    pub trail: Vec<String>,
    /// Edge selection state (for focus mode).
    pub edge_list_state: ListCursor,
}

/// Model of a [`GraphViewState`].
pub struct NavModel {
    pub mode: NavigationMode,
    pub cursor: Option<usize>,
    pub graph: Option<GraphModel>,
    pub trail: Seq<Seq<char>>,
    pub edge_cursor: Option<usize>,
}

/// The rows of the edge list of the node `name`: the edges that leave it,
/// then the edges that enter it, each with the name at its other end.
pub open spec fn focus_edges(g: GraphModel, name: Seq<char>) -> Seq<
    (Seq<char>, EdgeKind, EdgeDirection),
> {
    target_list(outgoing(g.edges, name)).map_values(
        |e: (Seq<char>, EdgeKind)| (e.0, e.1, EdgeDirection::Outgoing),
    ) + source_list(incoming(g.edges, name)).map_values(
        |e: (Seq<char>, EdgeKind)| (e.0, e.1, EdgeDirection::Incoming),
    )
}

/// The row after `cursor` in a list of `count` rows, the first row after
/// the last.
pub open spec fn row_after(cursor: Option<usize>, count: nat) -> usize {
    match cursor {
        Some(i) => if i >= count - 1 {
            0
        } else {
            (i + 1) as usize
        },
        None => 0,
    }
}

/// The row before `cursor` in a list of `count` rows, the last row before
/// the first.
pub open spec fn row_before(cursor: Option<usize>, count: nat) -> usize {
    match cursor {
        Some(i) => if i == 0 {
            (count - 1) as usize
        } else {
            (i - 1) as usize
        },
        None => 0,
    }
}

/// The number of rows of the list that `next` and `previous` move in: all
/// nodes in browse mode, the edges of the node on top of the trail in focus
/// mode. Zero where there is no such list.
pub open spec fn row_count(m: NavModel) -> nat {
    match m.graph {
        Some(g) => match m.mode {
            NavigationMode::Browse => g.nodes.len(),
            NavigationMode::Focus => if m.trail.len() == 0 {
                0
            } else {
                focus_edges(g, m.trail.last()).len()
            },
        },
        None => 0,
    }
}

/// The state with the cursor of the current list moved to `row`.
pub open spec fn with_row(m: NavModel, row: usize) -> NavModel {
    match m.mode {
        NavigationMode::Browse => NavModel { cursor: Some(row), ..m },
        NavigationMode::Focus => NavModel { edge_cursor: Some(row), ..m },
    }
}

/// The cursor of the current list.
pub open spec fn current_row(m: NavModel) -> Option<usize> {
    match m.mode {
        NavigationMode::Browse => m.cursor,
        NavigationMode::Focus => m.edge_cursor,
    }
}

/// The state after `next`: the cursor of the current list moves down and
/// wraps around; nothing happens where the list is empty.
pub open spec fn after_next(m: NavModel) -> NavModel {
    if row_count(m) == 0 {
        m
    } else {
        with_row(m, row_after(current_row(m), row_count(m)))
    }
}

/// The state after `previous`: the cursor of the current list moves up and
/// wraps around; nothing happens where the list is empty.
pub open spec fn after_previous(m: NavModel) -> NavModel {
    if row_count(m) == 0 {
        m
    } else {
        with_row(m, row_before(current_row(m), row_count(m)))
    }
}

/// The name that the view is about: the selected node in browse mode, the
/// top of the trail in focus mode.
pub open spec fn focused(m: NavModel) -> Option<Seq<char>> {
    match m.mode {
        NavigationMode::Browse => match (m.graph, m.cursor) {
            (Some(g), Some(i)) => if i < g.nodes.len() {
                Some(g.nodes[i as int])
            } else {
                None
            },
            _ => None,
        },
        NavigationMode::Focus => if m.trail.len() > 0 {
            Some(m.trail.last())
        } else {
            None
        },
    }
}

/// The state after `toggle_mode`: from browse mode the selected node is put
/// on the trail and the view enters focus mode on the first edge; from
/// focus mode the view returns to browse mode and the trail stays.
pub open spec fn after_toggle(m: NavModel) -> NavModel {
    match m.mode {
        NavigationMode::Browse => match focused(m) {
            Some(name) => NavModel {
                mode: NavigationMode::Focus,
                trail: m.trail.push(name),
                edge_cursor: Some(0),
                ..m
            },
            None => m,
        },
        NavigationMode::Focus => NavModel { mode: NavigationMode::Browse, ..m },
    }
}

/// The state after `navigate_back`: in focus mode the top of a trail of
/// several names is taken off; a shorter trail is cleared and the view
/// returns to browse mode. In browse mode nothing happens.
pub open spec fn after_back(m: NavModel) -> NavModel {
    if m.mode == NavigationMode::Focus && m.trail.len() > 1 {
        NavModel { trail: m.trail.drop_last(), edge_cursor: Some(0), ..m }
    } else if m.mode == NavigationMode::Focus {
        NavModel { mode: NavigationMode::Browse, trail: Seq::empty(), ..m }
    } else {
        m
    }
}

/// The row that `follow_edge` follows.
pub open spec fn followed_row(m: NavModel) -> int {
    match m.edge_cursor {
        Some(i) => i as int,
        None => 0,
    }
}

/// The state after `follow_edge`: in focus mode the node at the other end
/// of the selected edge is put on the trail. Nothing happens in browse
/// mode, without a graph, or where no edge is selected.
pub open spec fn after_follow(m: NavModel) -> NavModel {
    if m.mode == NavigationMode::Focus && m.trail.len() > 0 && m.graph is Some && followed_row(m)
        < focus_edges(m.graph->0, m.trail.last()).len() {
        NavModel {
            trail: m.trail.push(focus_edges(m.graph->0, m.trail.last())[followed_row(m)].0),
            edge_cursor: Some(0),
            ..m
        }
    } else {
        m
    }
}

/// The state after `refresh`: the graph is built anew, the view is in
/// browse mode on the first node, if there is one, and the trail is empty.
pub open spec fn after_refresh(m: NavModel, crossrefs: CrossRefsModel, skills: Seq<SkillModel>) -> NavModel {
    NavModel {
        mode: NavigationMode::Browse,
        cursor: if built(crossrefs, skills).nodes.len() > 0 {
            Some(0)
        } else {
            m.cursor
        },
        graph: Some(built(crossrefs, skills)),
        trail: Seq::empty(),
        edge_cursor: m.edge_cursor,
    }
}

/// While the view is in focus mode, the trail is not empty.
pub open spec fn trail_fits(m: NavModel) -> bool {
    m.mode == NavigationMode::Focus ==> m.trail.len() > 0
}

/// Navigation wraparound: in a list of rows, moving down from the last row
/// leads to the first, moving up from the first row leads to the last, and
/// moving down and then up leaves the cursor where it was.
pub proof fn lemma_movement_wraps(m: NavModel, row: usize)
    requires
        0 < row_count(m) <= usize::MAX,
        current_row(m) == Some(row),
        row < row_count(m),
    ensures
        row == row_count(m) - 1 ==> current_row(after_next(m)) == Some(0usize),
        row < row_count(m) - 1 ==> current_row(after_next(m)) == Some((row + 1) as usize),
        row == 0 ==> current_row(after_previous(m)) == Some((row_count(m) - 1) as usize),
        after_previous(after_next(m)) == m,
        after_next(after_previous(m)) == m,
{
}

impl View for GraphViewState {
    type V = NavModel;

    open spec fn view(&self) -> NavModel {
        NavModel {
            mode: self.mode,
            cursor: self.list_state.index,
            graph: match self.graph {
                Some(g) => Some(g@),
                None => None,
            },
            trail: self.trail.deep_view(),
            edge_cursor: self.edge_list_state.index,
        }
    }
}

/// The rows of the edge list of a node: the edges that leave it, then the
/// edges that enter it.
pub fn edge_rows(graph: &SkillGraph, name: &str) -> (rows: Vec<(String, EdgeKind, EdgeDirection)>)
    ensures
        rows.deep_view() == focus_edges(graph@, name@),
{
    let ghost outs = target_list(outgoing(graph@.edges, name@)).map_values(
        |e: (Seq<char>, EdgeKind)| (e.0, e.1, EdgeDirection::Outgoing),
    );
    let ghost ins = source_list(incoming(graph@.edges, name@)).map_values(
        |e: (Seq<char>, EdgeKind)| (e.0, e.1, EdgeDirection::Incoming),
    );
    let mut rows: Vec<(String, EdgeKind, EdgeDirection)> = Vec::new();
    assert(rows.deep_view() =~= outs.take(0));
    match graph.edges_from(name) {
        Some(list) => {
            let mut k: usize = 0;
            while k < list.len()
                invariant
                    k <= list.len(),
                    list.deep_view() == target_list(outgoing(graph@.edges, name@)),
                    outs == target_list(outgoing(graph@.edges, name@)).map_values(
                        |e: (Seq<char>, EdgeKind)| (e.0, e.1, EdgeDirection::Outgoing),
                    ),
                    rows.deep_view() == outs.take(k as int),
                decreases list.len() - k,
            {
                let ghost before = rows.deep_view();
                assert(list.deep_view()[k as int] == (list[k as int].0@, list[k as int].1));
                rows.push((list[k].0.clone(), list[k].1, EdgeDirection::Outgoing));
                assert(rows.deep_view() =~= before.push(outs[k as int]));
                assert(rows.deep_view() =~= outs.take(k + 1));
                k += 1;
            }
            assert(outs.take(k as int) =~= outs);
        },
        None => {
            assert(outs =~= outs.take(0));
        },
    }
    assert(rows.deep_view() == outs);
    assert(outs + ins.take(0) =~= outs);
    match graph.edges_to(name) {
        Some(list) => {
            let mut k: usize = 0;
            while k < list.len()
                invariant
                    k <= list.len(),
                    list.deep_view() == source_list(incoming(graph@.edges, name@)),
                    ins == source_list(incoming(graph@.edges, name@)).map_values(
                        |e: (Seq<char>, EdgeKind)| (e.0, e.1, EdgeDirection::Incoming),
                    ),
                    rows.deep_view() == outs + ins.take(k as int),
                decreases list.len() - k,
            {
                let ghost before = rows.deep_view();
                assert(list.deep_view()[k as int] == (list[k as int].0@, list[k as int].1));
                rows.push((list[k].0.clone(), list[k].1, EdgeDirection::Incoming));
                assert(rows.deep_view() =~= before.push(ins[k as int]));
                assert(rows.deep_view() =~= outs + ins.take(k + 1));
                k += 1;
            }
            assert(ins.take(k as int) =~= ins);
        },
        None => {
            assert(ins =~= ins.take(0));
        },
    }
    rows
}

/// The number of edges of a node, leaving and entering.
pub fn count_edges(graph: &SkillGraph, skill_name: &str) -> (count: usize)
    ensures
        count == focus_edges(graph@, skill_name@).len(),
{
    let rows = edge_rows(graph, skill_name);
    rows.len()
}

impl GraphViewState {
    /// Create a new graph view state: browse mode, no graph, an empty
    /// trail, both cursors on the first row.
    pub fn new() -> (state: GraphViewState)
        ensures
            state@ == (NavModel {
                mode: NavigationMode::Browse,
                cursor: Some(0),
                graph: None,
                trail: Seq::empty(),
                edge_cursor: Some(0),
            }),
    {
        let state = GraphViewState {
            mode: NavigationMode::Browse,
            list_state: ListCursor::new(Some(0)),
            graph: None,
            trail: Vec::new(),
            edge_list_state: ListCursor::new(Some(0)),
        };
        assert(state.trail.deep_view() =~= Seq::<Seq<char>>::empty());
        state
    }

    /// Refresh the graph from current skills and their cross-references.
    pub fn refresh(&mut self, crossrefs: &CrossRefs, skills: &[Skill])
        ensures
            final(self)@ == after_refresh(old(self)@, crossrefs.deep_view(), skills.deep_view()),
            trail_fits(final(self)@),
    {
        let graph = SkillGraph::from_skills(crossrefs, skills);
        if graph.node_count() > 0 {
            self.list_state.select(Some(0));
        }
        self.graph = Some(graph);
        self.trail.clear();
        self.mode = NavigationMode::Browse;
        assert(self.trail.deep_view() =~= Seq::<Seq<char>>::empty());
    }

    /// The number of rows of the list that `next` and `previous` move in.
    fn rows(&self) -> (count: usize)
        ensures
            count == row_count(self@),
    {
        match &self.graph {
            Some(graph) => match self.mode {
                NavigationMode::Browse => graph.node_count(),
                NavigationMode::Focus => {
                    if self.trail.len() == 0 {
                        0
                    } else {
                        let top = &self.trail[self.trail.len() - 1];
                        assert(top@ == self.trail.deep_view().last());
                        count_edges(graph, top.as_str())
                    }
                },
            },
            None => 0,
        }
    }

    /// Puts the cursor of the current list on `row`.
    fn set_row(&mut self, row: usize)
        ensures
            final(self)@ == with_row(old(self)@, row),
    {
        match self.mode {
            NavigationMode::Browse => {
                self.list_state.select(Some(row));
            },
            NavigationMode::Focus => {
                self.edge_list_state.select(Some(row));
            },
        }
    }

    /// The cursor of the current list.
    fn row(&self) -> (row: Option<usize>)
        ensures
            row == current_row(self@),
    {
        match self.mode {
            NavigationMode::Browse => self.list_state.selected(),
            NavigationMode::Focus => self.edge_list_state.selected(),
        }
    }

    /// Get the currently focused skill name.
    pub fn focused_skill(&self) -> (name: Option<String>)
        ensures
            name.deep_view() == focused(self@),
    {
        match self.mode {
            NavigationMode::Browse => {
                let graph = match &self.graph {
                    Some(graph) => graph,
                    None => {
                        return None;
                    },
                };
                let index = match self.list_state.selected() {
                    Some(index) => index,
                    None => {
                        return None;
                    },
                };
                if index < graph.node_count() {
                    Some(graph.store.name(index).clone())
                } else {
                    None
                }
            },
            NavigationMode::Focus => {
                if self.trail.len() > 0 {
                    let top = self.trail[self.trail.len() - 1].clone();
                    assert(top@ == self.trail.deep_view().last());
                    Some(top)
                } else {
                    None
                }
            },
        }
    }

    /// Toggle between browse and focus modes.
    pub fn toggle_mode(&mut self)
        ensures
            final(self)@ == after_toggle(old(self)@),
            trail_fits(old(self)@) ==> trail_fits(final(self)@),
    {
        match self.mode {
            NavigationMode::Browse => {
                match self.focused_skill() {
                    Some(skill) => {
                        let ghost before = self.trail.deep_view();
                        self.trail.push(skill);
                        self.mode = NavigationMode::Focus;
                        self.edge_list_state.select(Some(0));
                        assert(self.trail.deep_view() =~= before.push(skill@));
                    },
                    None => {},
                }
            },
            NavigationMode::Focus => {
                self.mode = NavigationMode::Browse;
            },
        }
    }

    /// Navigate back in the trail.
    pub fn navigate_back(&mut self)
        ensures
            final(self)@ == after_back(old(self)@),
            trail_fits(final(self)@),
    {
        match self.mode {
            NavigationMode::Focus => {
                let ghost before = self.trail.deep_view();
                if self.trail.len() > 1 {
                    self.trail.pop();
                    self.edge_list_state.select(Some(0));
                    assert(self.trail.deep_view() =~= before.drop_last());
                } else {
                    self.mode = NavigationMode::Browse;
                    self.trail.clear();
                    assert(self.trail.deep_view() =~= Seq::<Seq<char>>::empty());
                }
            },
            NavigationMode::Browse => {},
        }
    }

    /// Follow selected edge to target node.
    pub fn follow_edge(&mut self)
        ensures
            final(self)@ == after_follow(old(self)@),
            trail_fits(old(self)@) ==> trail_fits(final(self)@),
    {
        match self.mode {
            NavigationMode::Browse => {
                return ;
            },
            NavigationMode::Focus => {},
        }
        if self.trail.len() == 0 {
            return ;
        }
        let rows = match &self.graph {
            Some(graph) => {
                let top = &self.trail[self.trail.len() - 1];
                assert(top@ == self.trail.deep_view().last());
                edge_rows(graph, top.as_str())
            },
            None => {
                return ;
            },
        };
        let index = match self.edge_list_state.selected() {
            Some(index) => index,
            None => 0,
        };
        if index < rows.len() {
            let ghost before = self.trail.deep_view();
            let next = rows[index].0.clone();
            assert(rows.deep_view()[index as int].0 == rows[index as int].0@);
            self.trail.push(next);
            self.edge_list_state.select(Some(0));
            assert(self.trail.deep_view() =~= before.push(next@));
        }
    }

    /// Move selection down.
    pub fn next(&mut self)
        ensures
            final(self)@ == after_next(old(self)@),
            trail_fits(old(self)@) ==> trail_fits(final(self)@),
    {
        let count = self.rows();
        if count == 0 {
            return ;
        }
        let row = match self.row() {
            Some(i) => if i >= count - 1 {
                0
            } else {
                i + 1
            },
            None => 0,
        };
        self.set_row(row);
    }

    /// Move selection up.
    pub fn previous(&mut self)
        ensures
            final(self)@ == after_previous(old(self)@),
            trail_fits(old(self)@) ==> trail_fits(final(self)@),
    {
        let count = self.rows();
        if count == 0 {
            return ;
        }
        let row = match self.row() {
            Some(i) => if i == 0 {
                count - 1
            } else {
                i - 1
            },
            None => 0,
        };
        self.set_row(row);
    }
}

// ----- what the view shows -----

/// The role by which a node is coloured.
#[derive(Debug, Clone, Copy, PartialEq, Eq, Structural)]
pub enum NodeRole {
    /// No edge enters the node.
    Root,
    /// No edge leaves the node.
    Leaf,
    /// Edges enter and leave the node.
    Bridge,
    /// None of these.
    Plain,
}

/// The role of a node: the first that the analysis gives it among root,
/// leaf and bridge.
pub open spec fn role_of(g: GraphModel, name: Seq<char>) -> NodeRole {
    if g.roots.contains(name) {
        NodeRole::Root
    } else if g.leaves.contains(name) {
        NodeRole::Leaf
    } else if g.bridges.contains(name) {
        NodeRole::Bridge
    } else {
        NodeRole::Plain
    }
}

/// The role of a node.
pub fn node_role(graph: &SkillGraph, name: &str) -> (role: NodeRole)
    ensures
        role == role_of(graph@, name@),
{
    if contains(&graph.roots, name) {
        NodeRole::Root
    } else if contains(&graph.leaves, name) {
        NodeRole::Leaf
    } else if contains(&graph.bridges, name) {
        NodeRole::Bridge
    } else {
        NodeRole::Plain
    }
}

/// A row of the browse list.
#[derive(Debug)]
pub struct BrowseRow {
    /// Name of the node.
    pub name: String,
    /// Role of the node.
    pub role: NodeRole,
    /// Number of edges that leave the node.
    pub outgoing: usize,
    /// Number of edges that enter the node.
    pub incoming: usize,
}

/// Whether the row is that of the node `name`.
pub open spec fn is_row_of(row: BrowseRow, g: GraphModel, name: Seq<char>) -> bool {
    &&& row.name@ == name
    &&& row.role == role_of(g, name)
    &&& row.outgoing == outgoing(g.edges, name).len()
    &&& row.incoming == incoming(g.edges, name).len()
}

/// The rows of the browse list: one for each node, in ascending order of
/// the names.
pub fn browse_rows(graph: &SkillGraph) -> (rows: Vec<BrowseRow>)
    ensures
        rows.len() == graph@.nodes.len(),
        forall|i: int| 0 <= i < rows.len() ==> is_row_of(#[trigger] rows[i], graph@, graph@.nodes[i]),
{
    let names = graph.store.names();
    let mut rows: Vec<BrowseRow> = Vec::new();
    let mut i: usize = 0;
    while i < names.len()
        invariant
            i <= names.len(),
            names.deep_view() == graph@.nodes,
            rows.len() == i,
            forall|k: int| 0 <= k < i ==> is_row_of(#[trigger] rows[k], graph@, graph@.nodes[k]),
        decreases names.len() - i,
    {
        let name = &names[i];
        assert(name@ == graph@.nodes[i as int]);
        let outgoing = match graph.edges_from(name.as_str()) {
            Some(list) => {
                assert(list.deep_view().len() == list.len());
                list.len()
            },
            None => 0,
        };
        let incoming = match graph.edges_to(name.as_str()) {
            Some(list) => {
                assert(list.deep_view().len() == list.len());
                list.len()
            },
            None => 0,
        };
        rows.push(
            BrowseRow {
                name: name.clone(),
                role: node_role(graph, name.as_str()),
                outgoing,
                incoming,
            },
        );
        i += 1;
    }
    rows
}

/// The title of the browse list.
pub open spec fn browse_title_text(g: GraphModel) -> Seq<char> {
    " Graph Explorer - Browse ("@ + decimal(g.nodes.len()) + " nodes, "@ + decimal(g.edges.len())
        + " edges) "@
}

/// The title of the browse list: the numbers of nodes and edges.
pub fn browse_title(graph: &SkillGraph) -> (title: String)
    ensures
        title@ == browse_title_text(graph@),
{
    let mut title = String::from_str(" Graph Explorer - Browse (");
    push_decimal(&mut title, graph.node_count());
    title.append(" nodes, ");
    push_decimal(&mut title, graph.edge_count());
    title.append(" edges) ");
    title
}

/// The legend of the browse list.
pub open spec fn browse_legend_text(g: GraphModel) -> Seq<char> {
    "Enter: focus node | Legend: roots="@ + decimal(g.roots.len()) + ", leaves="@ + decimal(
        g.leaves.len(),
    ) + ", bridges="@ + decimal(g.bridges.len()) + ", clusters="@ + decimal(g.clusters.len())
}

/// The legend of the browse list: the numbers of roots, leaves, bridges and
/// clusters.
pub fn browse_legend(graph: &SkillGraph) -> (legend: String)
    ensures
        legend@ == browse_legend_text(graph@),
{
    let mut legend = String::from_str("Enter: focus node | Legend: roots=");
    push_decimal(&mut legend, graph.roots.len());
    legend.append(", leaves=");
    push_decimal(&mut legend, graph.leaves.len());
    legend.append(", bridges=");
    push_decimal(&mut legend, graph.bridges.len());
    legend.append(", clusters=");
    push_decimal(&mut legend, graph.clusters.len());
    legend
}

/// The trail as one line.
pub open spec fn trail_line(trail: Seq<Seq<char>>) -> Seq<char> {
    if trail.len() == 0 {
        "No navigation history"@
    } else {
        joined(trail, " \u{2192} "@)
    }
}

/// The trail as one line: the names with arrows between them.
pub fn trail_text(trail: &Vec<String>) -> (text: String)
    ensures
        text@ == trail_line(trail.deep_view()),
{
    if trail.len() == 0 {
        assert(trail.deep_view().len() == 0);
        String::from_str("No navigation history")
    } else {
        assert(trail.deep_view().len() != 0);
        let mut text = String::new();
        push_joined(&mut text, trail, " \u{2192} ");
        assert(text@ =~= trail_line(trail.deep_view()));
        text
    }
}

/// The roles of a node, as the node info names them.
pub open spec fn roles_line(g: GraphModel, name: Seq<char>) -> Seq<Seq<char>> {
    (if g.roots.contains(name) {
        seq!["Root"@]
    } else {
        Seq::empty()
    }) + (if g.leaves.contains(name) {
        seq!["Leaf"@]
    } else {
        Seq::empty()
    }) + (if g.bridges.contains(name) {
        seq!["Bridge"@]
    } else {
        Seq::empty()
    })
}

/// The index of the first cluster that holds the name, or the number of
/// clusters.
pub open spec fn first_cluster(clusters: Seq<Seq<Seq<char>>>, name: Seq<char>) -> int
    decreases clusters.len(),
{
    if clusters.len() == 0 {
        0
    } else if clusters[0].contains(name) {
        0
    } else {
        1 + first_cluster(clusters.drop_first(), name)
    }
}

/// The lines of the node info: the name, the roles if the node has any,
/// the numbers of edges, and the size of the node's cluster if it stands
/// in one.
pub open spec fn node_info_lines(g: GraphModel, name: Seq<char>) -> Seq<Seq<char>> {
    let at = first_cluster(g.clusters, name);
    seq!["Skill: "@ + name] + (if roles_line(g, name).len() > 0 {
        seq!["Roles: "@ + joined(roles_line(g, name), ", "@)]
    } else {
        Seq::empty()
    }) + seq![
        "Outgoing: "@ + decimal(outgoing(g.edges, name).len()) + " | Incoming: "@ + decimal(
            incoming(g.edges, name).len(),
        ),
    ] + (if at < g.clusters.len() {
        seq!["Cluster: "@ + decimal(g.clusters[at].len()) + " members"@]
    } else {
        Seq::empty()
    })
}

/// The size of the first cluster that holds the name.
fn cluster_size(clusters: &Vec<Vec<String>>, name: &str) -> (size: Option<usize>)
    ensures
        match size {
            Some(n) => first_cluster(clusters.deep_view(), name@) < clusters.len() && n
                == clusters.deep_view()[first_cluster(clusters.deep_view(), name@)].len(),
            None => first_cluster(clusters.deep_view(), name@) >= clusters.len(),
        },
{
    let ghost cm = clusters.deep_view();
    let mut c: usize = 0;
    assert(cm.skip(0) =~= cm);
    while c < clusters.len()
        invariant
            c <= clusters.len(),
            cm == clusters.deep_view(),
            first_cluster(cm, name@) == c + first_cluster(cm.skip(c as int), name@),
        decreases clusters.len() - c,
    {
        assert(cm.skip(c as int)[0] == clusters[c as int].deep_view());
        assert(cm.skip(c as int).drop_first() =~= cm.skip(c + 1));
        if contains(&clusters[c], name) {
            assert(clusters[c as int].deep_view().len() == clusters[c as int].len());
            return Some(clusters[c].len());
        }
        c += 1;
    }
    assert(cm.skip(c as int) =~= Seq::empty());
    None
}

/// The lines of the node info.
pub fn node_info(graph: &SkillGraph, name: &str) -> (lines: Vec<String>)
    ensures
        lines.deep_view() == node_info_lines(graph@, name@),
{
    let ghost g = graph@;
    let mut lines: Vec<String> = Vec::new();
    let mut first = String::from_str("Skill: ");
    first.append(name);
    lines.push(first);
    let mut roles: Vec<String> = Vec::new();
    assert(roles.deep_view() =~= Seq::<Seq<char>>::empty());
    if contains(&graph.roots, name) {
        roles.push(String::from_str("Root"));
    }
    if contains(&graph.leaves, name) {
        roles.push(String::from_str("Leaf"));
    }
    if contains(&graph.bridges, name) {
        roles.push(String::from_str("Bridge"));
    }
    assert(roles.deep_view() =~= roles_line(g, name@));
    if roles.len() > 0 {
        let mut line = String::from_str("Roles: ");
        push_joined(&mut line, &roles, ", ");
        lines.push(line);
    }
    let outgoing = match graph.edges_from(name) {
        Some(list) => {
            assert(list.deep_view().len() == list.len());
            list.len()
        },
        None => 0,
    };
    let incoming = match graph.edges_to(name) {
        Some(list) => {
            assert(list.deep_view().len() == list.len());
            list.len()
        },
        None => 0,
    };
    let mut counts = String::from_str("Outgoing: ");
    push_decimal(&mut counts, outgoing);
    counts.append(" | Incoming: ");
    push_decimal(&mut counts, incoming);
    lines.push(counts);
    match cluster_size(&graph.clusters, name) {
        Some(size) => {
            let mut line = String::from_str("Cluster: ");
            push_decimal(&mut line, size);
            line.append(" members");
            lines.push(line);
        },
        None => {},
    }
    assert(lines.deep_view() =~= node_info_lines(g, name@));
    lines
}

/// The title of the edge list.
pub fn edges_title(count: usize) -> (title: String)
    ensures
        title@ == " Edges ("@ + decimal(count as nat) + ") - Enter: follow edge "@,
{
    let mut title = String::from_str(" Edges (");
    push_decimal(&mut title, count);
    title.append(") - Enter: follow edge ");
    title
}

} // verus!
