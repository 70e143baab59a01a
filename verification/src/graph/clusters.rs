//! What the clusters of small graphs are: two skills that refer to each
//! other are one cluster, two skills of which one refers to the other are
//! none.

use crate::graph::backend::{
    is_scc_partition, is_walk, joins_mutually_reachable, lists_each_node_once, lists_node,
    reaches,
};
use crate::graph::laws::lemma_built_nodes;
use crate::graph::model::{
    accepts, all_names, built, built_edges, built_nodes, candidates, clusters_of,
    component_names, components_of, components_sound, crossref_candidates, crossref_names,
    edge_indices, has_pair, pipeline_candidates, ref_candidates, ref_targets, resolve,
    EdgeModel,
};
use crate::graph::EdgeKind;
use crate::names::lemma_sorted_distinct;
use crate::skill::{CrossRefModel, CrossRefsModel};
use vstd::prelude::*;

verus! {

/// Of a list with one item that fits, the filter keeps that item.
proof fn lemma_filter_single(s: Seq<Seq<int>>, pred: spec_fn(Seq<int>) -> bool, c: int)
    requires
        0 <= c < s.len(),
        pred(s[c]),
        forall|i: int| 0 <= i < s.len() && i != c ==> !pred(#[trigger] s[i]),
    ensures
        s.filter(pred) == seq![s[c]],
    decreases s.len(),
{
    let rest = s.drop_last();
    rest.lemma_filter_push(s.last(), pred);
    assert(rest.push(s.last()) =~= s);
    if c == s.len() - 1 {
        assert forall|i: int| 0 <= i < rest.len() implies !pred(#[trigger] rest[i]) by {
            assert(rest[i] == s[i]);
        }
        lemma_filter_none(rest, pred);
        assert(Seq::<Seq<int>>::empty().push(s.last()) =~= seq![s[c]]);
    } else {
        assert forall|i: int| 0 <= i < rest.len() && i != c implies !pred(#[trigger] rest[i]) by {
            assert(rest[i] == s[i]);
        }
        assert(rest[c] == s[c]);
        lemma_filter_single(rest, pred, c);
        assert(!pred(s[s.len() - 1]));
    }
}

/// Of a list without an item that fits, the filter keeps nothing.
proof fn lemma_filter_none(s: Seq<Seq<int>>, pred: spec_fn(Seq<int>) -> bool)
    requires
        forall|i: int| 0 <= i < s.len() ==> !pred(#[trigger] s[i]),
    ensures
        s.filter(pred) == Seq::<Seq<int>>::empty(),
    decreases s.len(),
{
    if s.len() == 0 {
        assert(s.filter(pred) =~= Seq::<Seq<int>>::empty()) by {
            reveal(Seq::filter);
        }
    } else {
        let rest = s.drop_last();
        rest.lemma_filter_push(s.last(), pred);
        assert(rest.push(s.last()) =~= s);
        assert forall|i: int| 0 <= i < rest.len() implies !pred(#[trigger] rest[i]) by {
            assert(rest[i] == s[i]);
        }
        lemma_filter_none(rest, pred);
        assert(!pred(s[s.len() - 1]));
    }
}

/// In a graph of two nodes a component holds at most both.
proof fn lemma_component_of_two(comps: Seq<Seq<int>>, c: int)
    requires
        lists_each_node_once(2, comps),
        0 <= c < comps.len(),
    ensures
        comps[c].len() <= 2,
        comps[c].len() == 2 ==> comps[c].contains(0) && comps[c].contains(1),
{
    let comp = comps[c];
    if comp.len() >= 2 {
        assert(0 <= comps[c][0] < 2 && 0 <= comps[c][1] < 2);
        assert(comps[c][0] != comps[c][1]);
        if comp.len() >= 3 {
            assert(0 <= comps[c][2] < 2);
            assert(comps[c][2] != comps[c][0] && comps[c][2] != comps[c][1]);
        }
        if comp[0] == 0 {
            assert(comp[1] == 1);
        } else {
            assert(comp[1] == 0);
        }
    }
}

/// Two nodes with an edge each way are one component, and the only one of
/// more than one node.
pub proof fn lemma_partition_two_way(edges: Seq<(int, int)>, comps: Seq<Seq<int>>)
    requires
        is_scc_partition(2, edges, comps),
        edges.contains((0int, 1int)),
        edges.contains((1int, 0int)),
    ensures
        exists|c: int|
            0 <= c < comps.len() && (#[trigger] comps[c]).len() == 2 && comps[c].contains(0)
                && comps[c].contains(1) && forall|d: int|
                0 <= d < comps.len() && d != c ==> (#[trigger] comps[d]).len() <= 1,
{
    assert(lists_node(comps, 0));
    assert(lists_node(comps, 1));
    let (c, i) = choose|c: int, i: int|
        0 <= c < comps.len() && 0 <= i < comps[c].len() && #[trigger] comps[c][i] == 0;
    let (d, j) = choose|d: int, j: int|
        0 <= d < comps.len() && 0 <= j < comps[d].len() && #[trigger] comps[d][j] == 1;
    let there = seq![0int, 1int];
    let back = seq![1int, 0int];
    assert(is_walk(edges, there)) by {
        assert forall|k: int| 0 <= k < there.len() - 1 implies edges.contains(
            (#[trigger] there[k], there[k + 1]),
        ) by {
            assert(k == 0);
        }
    }
    assert(is_walk(edges, back)) by {
        assert forall|k: int| 0 <= k < back.len() - 1 implies edges.contains(
            (#[trigger] back[k], back[k + 1]),
        ) by {
            assert(k == 0);
        }
    }
    assert(there.first() == 0 && there.last() == 1);
    assert(back.first() == 1 && back.last() == 0);
    assert(reaches(edges, 0, 1));
    assert(reaches(edges, 1, 0));
    assert(reaches(edges, comps[c][i], comps[d][j]) && reaches(edges, comps[d][j], comps[c][i]));
    assert(c == d);
    assert(i != j);
    lemma_component_of_two(comps, c);
    assert(comps[c].len() == 2) by {
        if i == 0 {
            assert(j >= 1);
        } else {
            assert(i >= 1);
        }
    }
    assert forall|e: int| 0 <= e < comps.len() && e != c implies (#[trigger] comps[e]).len()
        <= 1 by {
        lemma_component_of_two(comps, e);
        if comps[e].len() == 2 {
            let k = choose|k: int| 0 <= k < comps[e].len() && comps[e][k] == 0;
            assert(comps[e][k] == comps[c][i]);
        }
    }
}

/// Where every edge leads from `source` to the other node, the other node
/// does not reach `source`.
proof fn lemma_no_way_back(edges: Seq<(int, int)>, source: int)
    requires
        0 <= source <= 1,
        forall|k: int| 0 <= k < edges.len() ==> #[trigger] edges[k] == (source, 1 - source),
    ensures
        !reaches(edges, 1 - source, source),
{
    if reaches(edges, 1 - source, source) {
        let path = choose|path: Seq<int>|
            is_walk(edges, path) && path.first() == 1 - source && path.last() == source;
        if path.len() >= 2 {
            assert(edges.contains((path[0int], path[0int + 1])));
            let k = choose|k: int| 0 <= k < edges.len() && edges[k] == (path[0], path[1]);
            assert(edges[k] == (source, 1 - source));
        }
    }
}

/// Two nodes of one component reach each other.
proof fn lemma_same_component(edges: Seq<(int, int)>, comps: Seq<Seq<int>>, c: int, i: int, j: int)
    requires
        joins_mutually_reachable(edges, comps),
        0 <= c < comps.len(),
        0 <= i < comps[c].len(),
        0 <= j < comps[c].len(),
    ensures
        reaches(edges, comps[c][i], comps[c][j]),
        reaches(edges, comps[c][j], comps[c][i]),
{
}

/// Two nodes with one edge between them are two components.
pub proof fn lemma_partition_one_way(edges: Seq<(int, int)>, comps: Seq<Seq<int>>, source: int)
    requires
        is_scc_partition(2, edges, comps),
        0 <= source <= 1,
        forall|k: int| 0 <= k < edges.len() ==> #[trigger] edges[k] == (source, 1 - source),
    ensures
        forall|c: int| 0 <= c < comps.len() ==> (#[trigger] comps[c]).len() <= 1,
{
    lemma_no_way_back(edges, source);
    assert forall|c: int| 0 <= c < comps.len() implies (#[trigger] comps[c]).len() <= 1 by {
        lemma_component_of_two(comps, c);
        if comps[c].len() == 2 {
            let i = choose|i: int| 0 <= i < comps[c].len() && comps[c][i] == source;
            let j = choose|j: int| 0 <= j < comps[c].len() && comps[c][j] == 1 - source;
            lemma_same_component(edges, comps, c, i, j);
        }
    }
}

/// The cross-references of two skills: `a` refers to what `to_b` names,
/// and, if `back` is given, `b` refers to what it names.
pub open spec fn two_skills(a: Seq<char>, b: Seq<char>, to_b: CrossRefModel, back: Option<CrossRefModel>) -> CrossRefsModel {
    match back {
        Some(to_a) => seq![(a, seq![to_b]), (b, seq![to_a])],
        None => seq![(a, seq![to_b])],
    }
}

/// The graph of two skills that refer to each other, or of which the first
/// refers to the second: its two nodes and its edges.
proof fn lemma_two_skills_graph(a: Seq<char>, b: Seq<char>, to_b: CrossRefModel, back: Option<CrossRefModel>)
    requires
        a != b,
        to_b.target == b,
        back matches Some(to_a) ==> to_a.target == a,
    ensures
        ({
            let crossrefs = two_skills(a, b, to_b, back);
            let nodes = built_nodes(crossrefs, Seq::empty());
            let edges = built_edges(crossrefs, Seq::empty());
            let there = EdgeModel { source: a, target: b, kind: EdgeKind::CrossRef };
            let here = EdgeModel { source: b, target: a, kind: EdgeKind::CrossRef };
            &&& nodes.len() == 2
            &&& nodes.contains(a)
            &&& nodes.contains(b)
            &&& nodes.index_of(a) + nodes.index_of(b) == 1
            &&& 0 <= nodes.index_of(a) <= 1
            &&& nodes[nodes.index_of(a)] == a
            &&& nodes[nodes.index_of(b)] == b
            &&& edges == if back is Some {
                seq![there, here]
            } else {
                seq![there]
            }
        }),
{
    let crossrefs = two_skills(a, b, to_b, back);
    let nodes = built_nodes(crossrefs, Seq::empty());
    let names = all_names(crossrefs, Seq::empty());
    let there = EdgeModel { source: a, target: b, kind: EdgeKind::CrossRef };
    let here = EdgeModel { source: b, target: a, kind: EdgeKind::CrossRef };
    lemma_built_nodes(crossrefs, Seq::empty());
    lemma_sorted_distinct(nodes);
    let one = seq![(a, seq![to_b])];
    assert(one.drop_last() =~= Seq::empty());
    assert(crossref_names(one.drop_last()) =~= Seq::<Seq<char>>::empty());
    assert(ref_targets(seq![to_b]) =~= seq![b]);
    assert(crossref_names(one) =~= seq![a, b]);
    assert(crossref_candidates(one.drop_last()) =~= Seq::<EdgeModel>::empty());
    assert(ref_candidates(a, seq![to_b]) =~= seq![there]);
    assert(crossref_candidates(one) =~= seq![there]);
    assert(pipeline_candidates(Seq::empty()) =~= Seq::<EdgeModel>::empty());
    match back {
        Some(to_a) => {
            assert(crossrefs.drop_last() =~= one);
            assert(ref_targets(seq![to_a]) =~= seq![a]);
            assert(crossref_names(crossrefs) =~= seq![a, b, b, a]);
            assert(names =~= seq![a, b, b, a]);
            assert(ref_candidates(b, seq![to_a]) =~= seq![here]);
            assert(crossref_candidates(crossrefs) =~= seq![there, here]);
            assert(candidates(crossrefs, Seq::empty()) =~= seq![there, here]);
        },
        None => {
            assert(names =~= seq![a, b]);
            assert(candidates(crossrefs, Seq::empty()) =~= seq![there]);
        },
    }
    assert(names[0] == a && names[1] == b);
    assert(nodes.contains(a) && nodes.contains(b));
    let ia = nodes.index_of(a);
    let ib = nodes.index_of(b);
    assert(ia != ib);
    assert(nodes.len() == 2) by {
        assert forall|i: int| 0 <= i < nodes.len() implies #[trigger] nodes[i] == a || nodes[i]
            == b by {
            assert(nodes.contains(nodes[i]));
            assert(names.contains(nodes[i]));
            let p = choose|p: int| 0 <= p < names.len() && names[p] == nodes[i];
        }
        if nodes.len() >= 3 {
            assert(nodes[0] == a || nodes[0] == b);
            assert(nodes[1] == a || nodes[1] == b);
            assert(nodes[2] == a || nodes[2] == b);
        }
    }
    let cands = candidates(crossrefs, Seq::empty());
    let first = seq![there];
    assert(first.drop_last() =~= Seq::<EdgeModel>::empty());
    assert(resolve(nodes, first.drop_last()) =~= Seq::<EdgeModel>::empty());
    assert(accepts(nodes, Seq::empty(), there));
    assert(resolve(nodes, first) =~= first);
    if back is Some {
        assert(cands.drop_last() =~= first);
        assert(cands.last() == here);
        assert(!has_pair(first, b, a)) by {
            if has_pair(first, b, a) {
                let i = choose|i: int|
                    0 <= i < first.len() && (#[trigger] first[i]).source == b && first[i].target
                        == a;
                assert(first[i] == there);
            }
        }
        assert(accepts(nodes, first, here));
        assert(resolve(nodes, cands) =~= seq![there, here]);
    }
}

/// Cluster correctness, two ways: two skills that refer to each other are
/// one cluster, of these two skills. What the backend finds is taken to be
/// the strongly connected components, as it is known of a graph that was
/// built.
pub proof fn lemma_two_way_is_one_cluster(a: Seq<char>, b: Seq<char>, to_b: CrossRefModel, to_a: CrossRefModel)
    requires
        a != b,
        to_b.target == b,
        to_a.target == a,
        components_sound(
            built_nodes(two_skills(a, b, to_b, Some(to_a)), Seq::empty()),
            built_edges(two_skills(a, b, to_b, Some(to_a)), Seq::empty()),
        ),
    ensures
        ({
            let clusters = built(two_skills(a, b, to_b, Some(to_a)), Seq::empty()).clusters;
            &&& clusters.len() == 1
            &&& clusters[0].len() == 2
            &&& clusters[0].contains(a)
            &&& clusters[0].contains(b)
        }),
{
    let crossrefs = two_skills(a, b, to_b, Some(to_a));
    let nodes = built_nodes(crossrefs, Seq::empty());
    let edges = built_edges(crossrefs, Seq::empty());
    lemma_two_skills_graph(a, b, to_b, Some(to_a));
    let pairs = edge_indices(nodes, edges);
    let ia = nodes.index_of(a);
    let ib = nodes.index_of(b);
    assert(pairs[0] == (ia, ib));
    assert(pairs[1] == (ib, ia));
    assert(pairs.contains((0int, 1int)) && pairs.contains((1int, 0int))) by {
        if ia == 0 {
            assert(pairs[0] == (0int, 1int) && pairs[1] == (1int, 0int));
        } else {
            assert(pairs[1] == (0int, 1int) && pairs[0] == (1int, 0int));
        }
    }
    let comps = components_of(nodes, edges);
    lemma_partition_two_way(pairs, comps);
    let c = choose|c: int|
        0 <= c < comps.len() && (#[trigger] comps[c]).len() == 2 && comps[c].contains(0)
            && comps[c].contains(1) && forall|d: int|
            0 <= d < comps.len() && d != c ==> (#[trigger] comps[d]).len() <= 1;
    let big = |c: Seq<int>| c.len() > 1;
    lemma_filter_single(comps, big, c);
    let clusters = clusters_of(nodes, comps);
    assert(clusters =~= seq![component_names(nodes, comps[c])]);
    let members = component_names(nodes, comps[c]);
    let pa = choose|p: int| 0 <= p < comps[c].len() && comps[c][p] == ia;
    let pb = choose|p: int| 0 <= p < comps[c].len() && comps[c][p] == ib;
    assert(members[pa] == a);
    assert(members[pb] == b);
}

/// Cluster correctness, one way: two skills of which one refers to the
/// other are no cluster.
pub proof fn lemma_one_way_is_no_cluster(a: Seq<char>, b: Seq<char>, to_b: CrossRefModel)
    requires
        a != b,
        to_b.target == b,
        components_sound(
            built_nodes(two_skills(a, b, to_b, None), Seq::empty()),
            built_edges(two_skills(a, b, to_b, None), Seq::empty()),
        ),
    ensures
        built(two_skills(a, b, to_b, None), Seq::empty()).clusters.len() == 0,
{
    let crossrefs = two_skills(a, b, to_b, None);
    let nodes = built_nodes(crossrefs, Seq::empty());
    let edges = built_edges(crossrefs, Seq::empty());
    lemma_two_skills_graph(a, b, to_b, None);
    let pairs = edge_indices(nodes, edges);
    let ia = nodes.index_of(a);
    let ib = nodes.index_of(b);
    assert(pairs[0] == (ia, ib));
    let comps = components_of(nodes, edges);
    let big = |c: Seq<int>| c.len() > 1;
    lemma_partition_one_way(pairs, comps, ia);
    lemma_filter_none(comps, big);
    assert(clusters_of(nodes, comps) =~= Seq::<Seq<Seq<char>>>::empty());
}

} // verus!
