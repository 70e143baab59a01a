//! Structural analysis of a graph: roots, leaves, bridges and clusters.

use crate::graph::backend::index_lists;
use crate::graph::model::{
    bridges_of, clusters_of, component_names, components_of, components_sound, has_incoming,
    has_outgoing, is_bridge, is_leaf, is_root, leaves_of, roots_of,
};
use crate::graph::store::{lemma_incoming_some, lemma_outgoing_some, GraphStore};
use vstd::prelude::*;

verus! {

/// Whether some edge enters the node, and whether some edge leaves it.
fn degrees(store: &GraphStore, node: usize) -> (r: (bool, bool))
    requires
        node < store.nodes().len(),
    ensures
        r.0 == has_incoming(store.edges(), store.nodes()[node as int]),
        r.1 == has_outgoing(store.edges(), store.nodes()[node as int]),
{
    let ins = store.entering(node);
    let outs = store.leaving(node);
    proof {
        lemma_incoming_some(store.edges(), store.nodes()[node as int]);
        lemma_outgoing_some(store.edges(), store.nodes()[node as int]);
    }
    (ins.len() > 0, outs.len() > 0)
}

/// The nodes that no edge enters, in ascending order of their names.
pub(crate) fn find_roots(store: &GraphStore) -> (roots: Vec<String>)
    ensures
        roots.deep_view() == roots_of(store.nodes(), store.edges()),
{
    let ghost nodes = store.nodes();
    let ghost pred = |n: Seq<char>| is_root(store.edges(), n);
    let mut roots: Vec<String> = Vec::new();
    let n = store.node_count();
    let mut i: usize = 0;
    assert(nodes.take(0) =~= Seq::<Seq<char>>::empty());
    assert(roots.deep_view() =~= nodes.take(0).filter(pred)) by {
        reveal(Seq::filter);
    }
    while i < n
        invariant
            i <= n,
            n == nodes.len(),
            nodes == store.nodes(),
            pred == |n: Seq<char>| is_root(store.edges(), n),
            roots.deep_view() == nodes.take(i as int).filter(pred),
        decreases n - i,
    {
        let ghost before = roots.deep_view();
        let d = degrees(store, i);
        proof {
            assert(nodes.take(i as int).push(nodes[i as int]) =~= nodes.take(i + 1));
            nodes.take(i as int).lemma_filter_push(nodes[i as int], pred);
        }
        if !d.0 {
            roots.push(store.name(i).clone());
            assert(roots.deep_view() =~= before.push(nodes[i as int]));
        }
        i += 1;
    }
    assert(nodes.take(i as int) =~= nodes);
    roots
}

/// The nodes that no edge leaves, in ascending order of their names.
pub(crate) fn find_leaves(store: &GraphStore) -> (leaves: Vec<String>)
    ensures
        leaves.deep_view() == leaves_of(store.nodes(), store.edges()),
{
    let ghost nodes = store.nodes();
    let ghost pred = |n: Seq<char>| is_leaf(store.edges(), n);
    let mut leaves: Vec<String> = Vec::new();
    let n = store.node_count();
    let mut i: usize = 0;
    assert(nodes.take(0) =~= Seq::<Seq<char>>::empty());
    assert(leaves.deep_view() =~= nodes.take(0).filter(pred)) by {
        reveal(Seq::filter);
    }
    while i < n
        invariant
            i <= n,
            n == nodes.len(),
            nodes == store.nodes(),
            pred == |n: Seq<char>| is_leaf(store.edges(), n),
            leaves.deep_view() == nodes.take(i as int).filter(pred),
        decreases n - i,
    {
        let ghost before = leaves.deep_view();
        let d = degrees(store, i);
        proof {
            assert(nodes.take(i as int).push(nodes[i as int]) =~= nodes.take(i + 1));
            nodes.take(i as int).lemma_filter_push(nodes[i as int], pred);
        }
        if !d.1 {
            leaves.push(store.name(i).clone());
            assert(leaves.deep_view() =~= before.push(nodes[i as int]));
        }
        i += 1;
    }
    assert(nodes.take(i as int) =~= nodes);
    leaves
}

/// The nodes that some edge enters and some edge leaves, in ascending order
/// of their names.
pub(crate) fn find_bridges(store: &GraphStore) -> (bridges: Vec<String>)
    ensures
        bridges.deep_view() == bridges_of(store.nodes(), store.edges()),
{
    let ghost nodes = store.nodes();
    let ghost pred = |n: Seq<char>| is_bridge(store.edges(), n);
    let mut bridges: Vec<String> = Vec::new();
    let n = store.node_count();
    let mut i: usize = 0;
    assert(nodes.take(0) =~= Seq::<Seq<char>>::empty());
    assert(bridges.deep_view() =~= nodes.take(0).filter(pred)) by {
        reveal(Seq::filter);
    }
    while i < n
        invariant
            i <= n,
            n == nodes.len(),
            nodes == store.nodes(),
            pred == |n: Seq<char>| is_bridge(store.edges(), n),
            bridges.deep_view() == nodes.take(i as int).filter(pred),
        decreases n - i,
    {
        let ghost before = bridges.deep_view();
        let d = degrees(store, i);
        proof {
            assert(nodes.take(i as int).push(nodes[i as int]) =~= nodes.take(i + 1));
            nodes.take(i as int).lemma_filter_push(nodes[i as int], pred);
        }
        if d.0 && d.1 {
            bridges.push(store.name(i).clone());
            assert(bridges.deep_view() =~= before.push(nodes[i as int]));
        }
        i += 1;
    }
    assert(nodes.take(i as int) =~= nodes);
    bridges
}

/// The names of the nodes of one component, in the order given.
fn name_list(store: &GraphStore, comp: &Vec<usize>) -> (names: Vec<String>)
    requires
        forall|i: int| 0 <= i < comp.len() ==> (#[trigger] comp[i]) < store.nodes().len(),
    ensures
        names.deep_view() == component_names(
            store.nodes(),
            comp@.map_values(|i: usize| i as int),
        ),
{
    let ghost nodes = store.nodes();
    let ghost ids = comp@.map_values(|i: usize| i as int);
    let mut names: Vec<String> = Vec::new();
    let mut k: usize = 0;
    while k < comp.len()
        invariant
            k <= comp.len(),
            nodes == store.nodes(),
            ids == comp@.map_values(|i: usize| i as int),
            forall|i: int| 0 <= i < comp.len() ==> (#[trigger] comp[i]) < store.nodes().len(),
            names.len() == k,
            forall|i: int| 0 <= i < k ==> (#[trigger] names[i])@ == nodes[ids[i]],
        decreases comp.len() - k,
    {
        names.push(store.name(comp[k]).clone());
        k += 1;
    }
    assert(names.deep_view() =~= component_names(nodes, ids));
    names
}

/// The strongly connected components of more than one node, in the order
/// and with the members in the order in which the backend finds them.
pub(crate) fn detect_clusters(store: &GraphStore) -> (clusters: Vec<Vec<String>>)
    ensures
        clusters.deep_view() == clusters_of(
            store.nodes(),
            components_of(store.nodes(), store.edges()),
        ),
        components_sound(store.nodes(), store.edges()),
{
    let ghost nodes = store.nodes();
    let comps = store.components();
    let ghost lists = index_lists(comps@);
    let ghost big = |c: Seq<int>| c.len() > 1;
    let ghost named = |c: Seq<int>| component_names(nodes, c);
    let mut clusters: Vec<Vec<String>> = Vec::new();
    let mut c: usize = 0;
    assert(lists.take(0) =~= Seq::<Seq<int>>::empty());
    assert(clusters.deep_view() =~= lists.take(0).filter(big).map_values(named)) by {
        reveal(Seq::filter);
    }
    while c < comps.len()
        invariant
            c <= comps.len(),
            nodes == store.nodes(),
            lists == index_lists(comps@),
            big == |c: Seq<int>| c.len() > 1,
            named == |c: Seq<int>| component_names(nodes, c),
            forall|c: int, i: int|
                0 <= c < comps.len() && 0 <= i < comps[c].len() ==> (#[trigger] comps[c][i])
                    < store.nodes().len(),
            clusters.deep_view() == lists.take(c as int).filter(big).map_values(named),
        decreases comps.len() - c,
    {
        let ghost before = clusters.deep_view();
        let ghost kept = lists.take(c as int).filter(big);
        proof {
            assert(lists.take(c as int).push(lists[c as int]) =~= lists.take(c + 1));
            lists.take(c as int).lemma_filter_push(lists[c as int], big);
            assert(lists[c as int] == comps[c as int]@.map_values(|i: usize| i as int));
        }
        if comps[c].len() > 1 {
            let names = name_list(store, &comps[c]);
            clusters.push(names);
            proof {
                assert(clusters.deep_view() =~= before.push(names.deep_view()));
                assert(kept.push(lists[c as int]).map_values(named) =~= kept.map_values(
                    named,
                ).push(named(lists[c as int])));
            }
        }
        c += 1;
    }
    assert(lists.take(c as int) =~= lists);
    clusters
}

} // verus!
