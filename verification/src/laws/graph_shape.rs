//! The islands, the hubs and the histogram of a graph.

use crate::graph::hubs::{hub_row, hub_rows, slot_count, HubRow};
use crate::graph::nodes::Edge;
use crate::graph::shape::{closed, connected, is_histogram, island_size, islands, DegreeBucket};
use crate::model::{in_scope, owner_name, served_kind, KnowledgeBase, Scope};
use vstd::prelude::*;

verus! {

/// The two ends of an edge are on one island.
pub proof fn an_edge_joins_its_ends(edges: Seq<Edge>, k: int)
    requires
        0 <= k < edges.len(),
    ensures
        connected(edges, edges[k].from as int, edges[k].to as int),
        connected(edges, edges[k].to as int, edges[k].from as int),
{
    let e = edges[k];
}

/// A node that no edge touches is an island of its own.
pub proof fn a_node_without_edges_is_its_own_island(edges: Seq<Edge>, a: int, b: int)
    requires
        forall|k: int|
            #![trigger edges[k]]
            0 <= k < edges.len() ==> edges[k].from != a && edges[k].to != a,
    ensures
        connected(edges, a, b) <==> a == b,
{
    let s = Set::<int>::empty().insert(a);
    assert(closed(s, edges)) by {
        assert forall|k: int| #![trigger edges[k]] 0 <= k < edges.len() implies s.contains(
            edges[k].from as int,
        ) == s.contains(edges[k].to as int) by {}
    }
    if a != b {
        assert(s.contains(a) && !s.contains(b));
    }
}

/// Without edges every node is an island, and each island has one node.
pub proof fn without_edges_there_are_as_many_islands_as_nodes(n: nat, i: int)
    requires
        0 <= i < n,
    ensures
        islands(Seq::empty(), n as int) == n,
        island_size(Seq::empty(), i, n as int) == 1,
{
    lemma_islands(n as int);
    lemma_sizes(n as int, i);
}

proof fn lemma_islands(n: int)
    requires
        0 <= n,
    ensures
        islands(Seq::empty(), n) == n,
    decreases n,
{
    if n > 0 {
        lemma_islands(n - 1);
        let none = Seq::<Edge>::empty();
        assert forall|j: int| 0 <= j < n - 1 implies !#[trigger] connected(none, j, n - 1) by {
            a_node_without_edges_is_its_own_island(none, j, n - 1);
        }
    }
}

proof fn lemma_sizes(n: int, i: int)
    requires
        0 <= n,
        0 <= i,
    ensures
        island_size(Seq::empty(), i, n) == (if i < n {
            1nat
        } else {
            0
        }),
    decreases n,
{
    if n > 0 {
        lemma_sizes(n - 1, i);
        a_node_without_edges_is_its_own_island(Seq::empty(), i, n - 1);
    }
}

/// Nodes of one island have the whole island's size.
pub proof fn nodes_of_one_island_have_its_size(edges: Seq<Edge>, a: int, b: int, n: int)
    requires
        0 <= n,
        connected(edges, a, b),
    ensures
        island_size(edges, a, n) == island_size(edges, b, n),
    decreases n,
{
    if n > 0 {
        nodes_of_one_island_have_its_size(edges, a, b, n - 1);
        let c = n - 1;
        assert(connected(edges, a, c) == connected(edges, b, c)) by {
            if connected(edges, a, c) {
                assert forall|s: Set<int>| #[trigger] closed(s, edges) implies s.contains(b)
                    == s.contains(c) by {
                    assert(s.contains(a) == s.contains(b));
                    assert(s.contains(a) == s.contains(c));
                }
            }
            if connected(edges, b, c) {
                assert forall|s: Set<int>| #[trigger] closed(s, edges) implies s.contains(a)
                    == s.contains(c) by {
                    assert(s.contains(a) == s.contains(b));
                    assert(s.contains(b) == s.contains(c));
                }
            }
        }
    }
}

/// Every file in scope that something refers to is a hub, told with its own path, repo, role
/// and counts; nothing else is.
pub proof fn every_referenced_file_is_a_hub(
    kb: KnowledgeBase,
    repo: Option<Seq<char>>,
    scope: Scope,
    n: int,
    row: HubRow,
)
    requires
        0 <= n <= kb.backlinks@.len(),
    ensures
        hub_rows(kb, repo, scope, n).contains(row) <==> exists|l: int|
            0 <= l < n && {
                let target = (#[trigger] kb.backlinks@[l]).target@;
                let edges = kb.backlinks@[l].edges@;
                &&& in_scope(kb.repos@, repo, scope, target)
                &&& row.path == target
                &&& row.repo == owner_name(kb.repos@, target)
                &&& row.kind == served_kind(kb.catalog@, target)
                &&& row.refs_total == edges.len()
                &&& row.refs_structural == slot_count(edges)
                &&& row.refs_navigational == (edges.len() - slot_count(edges)) as nat
            },
    decreases n,
{
    if n > 0 {
        every_referenced_file_is_a_hub(kb, repo, scope, n - 1, row);
        let before = hub_rows(kb, repo, scope, n - 1);
        let now = hub_rows(kb, repo, scope, n);
        let here = kb.backlinks@[n - 1];
        if before.contains(row) {
            let j = choose|j: int| 0 <= j < before.len() && before[j] == row;
            assert(now[j] == row);
        }
        if now.contains(row) && !before.contains(row) {
            let j = choose|j: int| 0 <= j < now.len() && now[j] == row;
            if j < before.len() {
                assert(before[j] == row);
            }
            assert(row == hub_row(kb, here));
        }
        if in_scope(kb.repos@, repo, scope, here.target@) && row == hub_row(kb, here) {
            assert(now[before.len() as int] == row);
        }
    }
}

/// Every degree that occurs has one bucket, and the buckets come in order.
pub proof fn every_degree_has_its_bucket(b: Seq<DegreeBucket>, degrees: Seq<nat>, k: int)
    requires
        is_histogram(b, degrees),
        0 <= k < degrees.len(),
    ensures
        exists|i: int| 0 <= i < b.len() && (#[trigger] b[i]).degree == degrees[k],
        forall|i: int, j: int|
            #![trigger b[i], b[j]]
            0 <= i < j < b.len() ==> b[i].degree < b[j].degree,
        forall|i: int| #![trigger b[i]] 0 <= i < b.len() ==> b[i].count > 0,
{
    let d = degrees[k];
    assert(crate::graph::shape::has_bucket(b, d));
}

} // verus!
