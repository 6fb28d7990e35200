//! The index behind each side of the link graph: a vector of nodes whose
//! keys are unique, viewed as a map from page key to link set.

use vstd::prelude::*;
use crate::pages::page_node::PageNode;

verus! {

/// The node keys, in order.
pub open spec fn node_urls(nodes: Seq<PageNode>) -> Seq<Seq<char>> {
    nodes.map_values(|n: PageNode| n.normalized_url@)
}

/// No two nodes share a key.
pub open spec fn keys_unique(nodes: Seq<PageNode>) -> bool {
    node_urls(nodes).no_duplicates()
}

/// Unique keys, deduplicated link lists, and no node linking to itself.
pub open spec fn nodes_wf(nodes: Seq<PageNode>) -> bool {
    &&& keys_unique(nodes)
    &&& forall|i: int| 0 <= i < nodes.len() ==> (#[trigger] nodes[i]).wf()
    &&& forall|i: int|
        0 <= i < nodes.len() ==> !(#[trigger] nodes[i]).link_set().contains(
            nodes[i].normalized_url@,
        )
}

pub open spec fn has_node(nodes: Seq<PageNode>, k: Seq<char>) -> bool {
    exists|i: int| 0 <= i < nodes.len() && (#[trigger] nodes[i]).normalized_url@ == k
}

pub open spec fn node_index(nodes: Seq<PageNode>, k: Seq<char>) -> int {
    choose|i: int| 0 <= i < nodes.len() && (#[trigger] nodes[i]).normalized_url@ == k
}

pub open spec fn node_links(nodes: Seq<PageNode>, k: Seq<char>) -> Set<Seq<char>> {
    nodes[node_index(nodes, k)].link_set()
}

/// The graph side as a map: each key to its link set.
pub open spec fn nodes_map(nodes: Seq<PageNode>) -> Map<Seq<char>, Set<Seq<char>>> {
    Map::new(|k: Seq<char>| has_node(nodes, k), |k: Seq<char>| node_links(nodes, k))
}

pub proof fn lemma_node_index(nodes: Seq<PageNode>, k: Seq<char>)
    requires
        has_node(nodes, k),
    ensures
        0 <= node_index(nodes, k) < nodes.len(),
        nodes[node_index(nodes, k)].normalized_url@ == k,
{
}

/// With unique keys, the indexing function inverts any witness.
pub proof fn lemma_node_index_unique(nodes: Seq<PageNode>, i: int)
    requires
        keys_unique(nodes),
        0 <= i < nodes.len(),
    ensures
        node_index(nodes, nodes[i].normalized_url@) == i,
{
    let k = nodes[i].normalized_url@;
    assert(has_node(nodes, k));
    lemma_node_index(nodes, k);
    let j = node_index(nodes, k);
    if i != j {
        assert(node_urls(nodes)[i] == k);
        assert(node_urls(nodes)[j] == k);
    }
}

/// Replacing a node, key kept, updates exactly that key's link set.
pub proof fn lemma_nodes_map_update(nodes: Seq<PageNode>, i: int, node: PageNode)
    requires
        keys_unique(nodes),
        0 <= i < nodes.len(),
        node.normalized_url@ == nodes[i].normalized_url@,
    ensures
        keys_unique(nodes.update(i, node)),
        nodes_map(nodes.update(i, node)) == nodes_map(nodes).insert(
            node.normalized_url@,
            node.link_set(),
        ),
{
    let k = node.normalized_url@;
    let after = nodes.update(i, node);
    assert(node_urls(after) =~= node_urls(nodes));
    assert forall|k2: Seq<char>| has_node(after, k2) implies has_node(nodes, k2) by {
        let j = choose|j: int| 0 <= j < after.len() && (#[trigger] after[j]).normalized_url@ == k2;
        assert(nodes[j].normalized_url@ == k2);
    }
    assert forall|k2: Seq<char>| has_node(nodes, k2) implies has_node(after, k2) by {
        let j = choose|j: int| 0 <= j < nodes.len() && (#[trigger] nodes[j]).normalized_url@ == k2;
        assert(after[j].normalized_url@ == k2);
    }
    assert forall|k2: Seq<char>| #[trigger]
        has_node(after, k2) && k2 != k implies node_links(after, k2) == node_links(
        nodes,
        k2,
    ) by {
        let j = node_index(nodes, k2);
        lemma_node_index(nodes, k2);
        assert(after[j].normalized_url@ == k2);
        assert(j != i);
        lemma_node_index_unique_for(after, j);
        assert(node_index(after, k2) == j);
    }
    assert(has_node(after, k));
    lemma_node_index_unique_for(after, i);
    assert(node_links(after, k) == node.link_set());
    assert(nodes_map(after) =~= nodes_map(nodes).insert(k, node.link_set()));
}

proof fn lemma_node_index_unique_for(nodes: Seq<PageNode>, i: int)
    requires
        keys_unique(nodes),
        0 <= i < nodes.len(),
    ensures
        node_index(nodes, nodes[i].normalized_url@) == i,
{
    lemma_node_index_unique(nodes, i);
}

/// Appending a node under a fresh key adds exactly that key.
pub proof fn lemma_nodes_map_push(nodes: Seq<PageNode>, node: PageNode)
    requires
        keys_unique(nodes),
        !has_node(nodes, node.normalized_url@),
    ensures
        keys_unique(nodes.push(node)),
        nodes_map(nodes.push(node)) == nodes_map(nodes).insert(
            node.normalized_url@,
            node.link_set(),
        ),
{
    let k = node.normalized_url@;
    let after = nodes.push(node);
    assert forall|a: int, b: int|
        0 <= a < node_urls(after).len() && 0 <= b < node_urls(after).len() && a
            != b implies node_urls(after)[a] != node_urls(after)[b] by {
        if a < nodes.len() && b < nodes.len() {
            assert(node_urls(nodes)[a] == node_urls(after)[a]);
            assert(node_urls(nodes)[b] == node_urls(after)[b]);
        } else if a == nodes.len() {
            assert(node_urls(after)[a] == k);
            assert(after[b].normalized_url@ != k);
        } else {
            assert(node_urls(after)[b] == k);
            assert(after[a].normalized_url@ != k);
        }
    }
    assert forall|k2: Seq<char>| #[trigger]
        has_node(after, k2) && k2 != k implies has_node(nodes, k2) && node_links(after, k2)
        == node_links(nodes, k2) by {
        let j = choose|j: int| 0 <= j < after.len() && (#[trigger] after[j]).normalized_url@ == k2;
        assert(j < nodes.len());
        assert(nodes[j].normalized_url@ == k2);
        lemma_node_index_unique_for(after, j);
        let j2 = node_index(nodes, k2);
        lemma_node_index(nodes, k2);
        assert(after[j2].normalized_url@ == k2);
        lemma_node_index_unique_for(after, j2);
    }
    assert forall|k2: Seq<char>| has_node(nodes, k2) implies has_node(after, k2) by {
        let j = choose|j: int| 0 <= j < nodes.len() && (#[trigger] nodes[j]).normalized_url@ == k2;
        assert(after[j].normalized_url@ == k2);
    }
    assert(after[nodes.len() as int].normalized_url@ == k);
    assert(has_node(after, k));
    lemma_node_index_unique_for(after, nodes.len() as int);
    assert(node_links(after, k) == node.link_set());
    assert(nodes_map(after) =~= nodes_map(nodes).insert(k, node.link_set()));
}

/// A well-formed graph side never records a self-link.
pub proof fn lemma_nodes_map_no_self(nodes: Seq<PageNode>, k: Seq<char>)
    requires
        nodes_wf(nodes),
        nodes_map(nodes).dom().contains(k),
    ensures
        !nodes_map(nodes)[k].contains(k),
{
    lemma_node_index(nodes, k);
}

/// Finds the node carrying `url`, if any.
pub fn find_node(nodes: &Vec<PageNode>, url: &String) -> (r: Option<usize>)
    ensures
        r matches Some(i) ==> i < nodes@.len() && nodes@[i as int].normalized_url@ == url@,
        r is None ==> !has_node(nodes@, url@),
{
    let n = nodes.len();
    let mut i: usize = 0;
    while i < n
        invariant
            n == nodes@.len(),
            i <= n,
            forall|j: int| 0 <= j < i ==> (#[trigger] nodes@[j]).normalized_url@ != url@,
        decreases n - i,
    {
        if nodes[i].normalized_url.eq(url) {
            return Some(i);
        }
        i += 1;
    }
    None
}

} // verus!
