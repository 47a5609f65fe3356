//! Laws that hold between the reads of the reference graph.

use crate::graph::links::{
    edge_row, edge_rows, edge_views, node_rows, node_views, structural_in, LinkGraphView, NodeRow,
};
use crate::graph::nodes::{
    chosen, edges_in, edges_of, edges_upto, edges_wf, is_node, lemma_chosen, lemma_node_at, node_named,
    nodes_of, structural, Edge,
};
use crate::graph::shape::{
    in_degree, is_shape, isolated, islands, out_degree, reached_before, structural_count, unreferenced,
    GraphShapeView,
};
use crate::model::{KnowledgeBase, Scope};
use crate::sorting::lemma_same_items;
use vstd::prelude::*;

verus! {

/// The sum of the in-degrees of the first `n` nodes.
pub open spec fn in_degree_sum(edges: Seq<Edge>, n: int) -> nat
    decreases n,
{
    if n <= 0 {
        0
    } else {
        in_degree_sum(edges, n - 1) + in_degree(edges, n - 1)
    }
}

/// The sum of the out-degrees of the first `n` nodes.
pub open spec fn out_degree_sum(edges: Seq<Edge>, n: int) -> nat
    decreases n,
{
    if n <= 0 {
        0
    } else {
        out_degree_sum(edges, n - 1) + out_degree(edges, n - 1)
    }
}

proof fn lemma_sum_step(edges: Seq<Edge>, n: int)
    requires
        0 <= n,
        edges.len() > 0,
    ensures
        in_degree_sum(edges, n) == in_degree_sum(edges.drop_last(), n) + (if edges.last().to < n {
            1nat
        } else {
            0
        }),
        out_degree_sum(edges, n) == out_degree_sum(edges.drop_last(), n) + (if edges.last().from
            < n {
            1nat
        } else {
            0
        }),
    decreases n,
{
    if n > 0 {
        lemma_sum_step(edges, n - 1);
    }
}

proof fn lemma_sum_zero(edges: Seq<Edge>, n: int)
    requires
        edges.len() == 0,
    ensures
        in_degree_sum(edges, n) == 0,
        out_degree_sum(edges, n) == 0,
    decreases n,
{
    if n > 0 {
        lemma_sum_zero(edges, n - 1);
    }
}

/// Every edge is counted once in the in-degrees and once in the out-degrees.
pub proof fn degrees_sum_to_the_edges(edges: Seq<Edge>, n: int)
    requires
        0 <= n,
        forall|k: int|
            #![trigger edges[k]]
            0 <= k < edges.len() ==> edges[k].from < n && edges[k].to < n,
    ensures
        in_degree_sum(edges, n) == edges.len(),
        out_degree_sum(edges, n) == edges.len(),
    decreases edges.len(),
{
    if edges.len() == 0 {
        lemma_sum_zero(edges, n);
    } else {
        let front = edges.drop_last();
        assert forall|k: int| #![trigger front[k]] 0 <= k < front.len() implies front[k].from < n
            && front[k].to < n by {
            assert(edges[k] == front[k]);
        }
        degrees_sum_to_the_edges(front, n);
        lemma_sum_step(edges, n);
        assert(edges[edges.len() - 1].to < n && edges[edges.len() - 1].from < n);
    }
}

/// An isolated file is one that nothing points at, and every orphan is a node.
pub proof fn isolated_files_are_orphans(edges: Seq<Edge>, n: int)
    requires
        0 <= n,
    ensures
        isolated(edges, n) <= unreferenced(edges, n) <= n,
    decreases n,
{
    if n > 0 {
        isolated_files_are_orphans(edges, n - 1);
    }
}

/// There are no more islands than nodes, and none only without nodes.
pub proof fn islands_are_bounded(edges: Seq<Edge>, n: int)
    requires
        0 <= n,
    ensures
        islands(edges, n) <= n,
        n > 0 ==> islands(edges, n) > 0,
    decreases n,
{
    if n > 1 {
        islands_are_bounded(edges, n - 1);
    } else if n == 1 {
        assert(!reached_before(edges, 0));
        assert(islands(edges, 0) == 0);
    }
}

/// How many rows of an edge payload point at `path`.
pub open spec fn rows_to(rows: Seq<Seq<Seq<char>>>, path: Seq<char>) -> nat
    decreases rows.len(),
{
    if rows.len() == 0 {
        0
    } else {
        rows_to(rows.drop_last(), path) + if rows.last()[1] == path {
            1nat
        } else {
            0
        }
    }
}

/// In one payload, the reference count of a node is the number of edges that
/// point at its path.
pub proof fn reference_counts_match_the_edges(
    kb: KnowledgeBase,
    nodes: Seq<int>,
    edges: Seq<Edge>,
    i: int,
)
    requires
        0 <= i < nodes.len(),
        forall|a: int, b: int|
            #![trigger nodes[a], nodes[b]]
            0 <= a < nodes.len() && 0 <= b < nodes.len() && a != b
                ==> kb.catalog@[nodes[a]].path@ != kb.catalog@[nodes[b]].path@,
        edges_wf(kb, edges, nodes.len()),
    ensures
        rows_to(edge_rows(kb, nodes, edges), kb.catalog@[nodes[i]].path@) == in_degree(edges, i),
    decreases edges.len(),
{
    let rows = edge_rows(kb, nodes, edges);
    if edges.len() > 0 {
        let front = edges.drop_last();
        assert forall|k: int| #![trigger front[k]] 0 <= k < front.len() implies edges[k]
            == front[k] by {}
        assert(edges_wf(kb, front, nodes.len())) by {
            assert forall|k: int| #![trigger front[k]] 0 <= k < front.len() implies {
                &&& front[k].from < nodes.len()
                &&& front[k].to < nodes.len()
                &&& front[k].list < kb.backlinks@.len()
                &&& front[k].item < kb.backlinks@[front[k].list as int].edges@.len()
            } by {
                assert(edges[k].to < nodes.len());
            }
        }
        reference_counts_match_the_edges(kb, nodes, front, i);
        assert(rows.drop_last() =~= edge_rows(kb, nodes, front));
        let e = edges[edges.len() - 1];
        assert(e.to < nodes.len());
        assert(rows.last() == edge_row(kb, nodes, e));
        if e.to != i {
            assert(kb.catalog@[nodes[e.to as int]].path@ != kb.catalog@[nodes[i]].path@);
        }
    }
}

proof fn lemma_in_degree_concat(a: Seq<Edge>, b: Seq<Edge>, i: int)
    ensures
        in_degree(a + b, i) == in_degree(a, i) + in_degree(b, i),
    decreases b.len(),
{
    if b.len() == 0 {
        assert(a + b =~= a);
    } else {
        assert((a + b).drop_last() =~= a + b.drop_last());
        lemma_in_degree_concat(a, b.drop_last(), i);
    }
}

proof fn lemma_in_degree_of_list(
    kb: KnowledgeBase,
    nodes: Seq<int>,
    list: int,
    n: int,
    t: int,
)
    requires
        0 <= t < nodes.len() <= usize::MAX,
        0 <= list < kb.backlinks@.len(),
        0 <= n <= kb.backlinks@[list].edges@.len(),
    ensures
        node_named(kb, nodes, kb.backlinks@[list].target@) != Some(t) ==> in_degree(
            edges_in(kb, nodes, list, n),
            t,
        ) == 0,
        node_named(kb, nodes, kb.backlinks@[list].target@) == Some(t) && (forall|k: int|
            #![trigger kb.backlinks@[list].edges@[k]]
            0 <= k < n ==> node_named(kb, nodes, kb.backlinks@[list].edges@[k].source@) is Some)
            ==> in_degree(edges_in(kb, nodes, list, n), t) == n,
    decreases n,
{
    if n > 0 {
        lemma_in_degree_of_list(kb, nodes, list, n - 1, t);
        let before = edges_in(kb, nodes, list, n - 1);
        let now = edges_in(kb, nodes, list, n);
        lemma_node_at(kb, nodes, kb.backlinks@[list].target@, nodes.len() as int);
        let source = kb.backlinks@[list].edges@[n - 1].source@;
        if now != before {
            assert(now.drop_last() =~= before);
        }
    }
}

/// A hub ranks by the number that the graph has as the in-degree of its node, as
/// long as the files that reference it are nodes too.
pub proof fn hub_counts_are_in_degrees(kb: KnowledgeBase, nodes: Seq<int>, list: int, t: int, n: int)
    requires
        kb.wf(),
        0 <= t < nodes.len() <= usize::MAX,
        0 <= list < kb.backlinks@.len(),
        0 <= n <= kb.backlinks@.len(),
        node_named(kb, nodes, kb.backlinks@[list].target@) == Some(t),
        forall|k: int|
            #![trigger kb.backlinks@[list].edges@[k]]
            0 <= k < kb.backlinks@[list].edges@.len() ==> node_named(
                kb,
                nodes,
                kb.backlinks@[list].edges@[k].source@,
            ) is Some,
    ensures
        in_degree(edges_upto(kb, nodes, n), t) == (if list < n {
            kb.backlinks@[list].edges@.len()
        } else {
            0
        }),
    decreases n,
{
    if n > 0 {
        hub_counts_are_in_degrees(kb, nodes, list, t, n - 1);
        let len = kb.backlinks@[n - 1].edges@.len() as int;
        lemma_in_degree_concat(edges_upto(kb, nodes, n - 1), edges_in(kb, nodes, n - 1, len), t);
        lemma_in_degree_of_list(kb, nodes, n - 1, len, t);
        lemma_node_at(kb, nodes, kb.backlinks@[list].target@, nodes.len() as int);
        lemma_node_at(kb, nodes, kb.backlinks@[n - 1].target@, nodes.len() as int);
        if list != n - 1 {
            assert(kb.backlinks@[list].target@ != kb.backlinks@[n - 1].target@);
        }
    }
}

/// Every file in scope is a node of the graph once, and nothing else is.
pub proof fn nodes_are_the_files_in_scope(
    kb: KnowledgeBase,
    repo: Option<Seq<char>>,
    scope: Scope,
    i: int,
)
    requires
        0 <= i < kb.catalog@.len(),
    ensures
        nodes_of(kb, repo, scope).contains(i) <==> is_node(kb, repo, scope, i),
        nodes_of(kb, repo, scope).no_duplicates(),
{
    let p = |j: int| is_node(kb, repo, scope, j);
    lemma_chosen(p, kb.catalog@.len() as int);
    let s = chosen(p, kb.catalog@.len() as int);
    if s.contains(i) {
        let k = choose|k: int| 0 <= k < s.len() && s[k] == i;
        assert(p(s[k]));
    }
    if is_node(kb, repo, scope, i) {
        assert(p(i));
    }
}

/// The graph of the user's own repos is part of the graph of all repos.
pub proof fn own_scope_is_within_all(kb: KnowledgeBase, repo: Option<Seq<char>>, i: int)
    requires
        0 <= i < kb.catalog@.len(),
        nodes_of(kb, repo, Scope::Own).contains(i),
    ensures
        nodes_of(kb, repo, Scope::All).contains(i),
{
    nodes_are_the_files_in_scope(kb, repo, Scope::Own, i);
    nodes_are_the_files_in_scope(kb, repo, Scope::All, i);
}

/// The list and the summary of the reference graph of one knowledge base tell the same
/// files and the same references, each node of the list is told with what points at it,
/// and every end of an edge is a node.
pub proof fn the_list_and_the_summary_agree(
    kb: KnowledgeBase,
    repo: Option<Seq<char>>,
    scope: Scope,
    g: LinkGraphView,
    s: GraphShapeView,
    orphan_paths: bool,
)
    requires
        kb.wf(),
        ({
            let nodes = nodes_of(kb, repo, scope);
            let edges = edges_of(kb, nodes);
            &&& node_views(g.nodes@).to_multiset() == node_rows(kb, nodes, edges).to_multiset()
            &&& edge_views(g.edges@).to_multiset() == edge_rows(kb, nodes, edges).to_multiset()
            &&& edges_wf(kb, edges, nodes.len())
            &&& is_shape(s, kb, nodes, edges, orphan_paths)
        }),
    ensures
        g.nodes@.len() == s.node_count,
        g.edges@.len() == s.edge_count,
        forall|k: int|
            #![trigger g.nodes@[k]]
            0 <= k < g.nodes@.len() ==> {
                &&& g.nodes@[k].refs_total == rows_to(edge_views(g.edges@), g.nodes@[k].path@)
                &&& g.nodes@[k].refs_structural <= g.nodes@[k].refs_total
            },
        forall|k: int|
            #![trigger g.edges@[k]]
            0 <= k < g.edges@.len() ==> lists_node(g, g.edges@[k].from@) && lists_node(
                g,
                g.edges@[k].to@,
            ),
        weight_of(node_views(g.nodes@), |r: NodeRow| r.refs_structural) == s.edges_structural,
{
    let nodes = nodes_of(kb, repo, scope);
    let edges = edges_of(kb, nodes);
    let rows = node_rows(kb, nodes, edges);
    let erows = edge_rows(kb, nodes, edges);
    let nv = node_views(g.nodes@);
    let ev = edge_views(g.edges@);
    rows.to_multiset_ensures();
    erows.to_multiset_ensures();
    nv.to_multiset_ensures();
    ev.to_multiset_ensures();
    assert(nv.len() == g.nodes@.len() && ev.len() == g.edges@.len());
    assert forall|k: int| #![trigger g.nodes@[k]] 0 <= k < g.nodes@.len() implies {
        &&& g.nodes@[k].refs_total == rows_to(ev, g.nodes@[k].path@)
        &&& g.nodes@[k].refs_structural <= g.nodes@[k].refs_total
    } by {
        assert(nv[k] == g.nodes@[k]@);
        assert(nv.contains(g.nodes@[k]@));
        lemma_same_items(nv, rows, g.nodes@[k]@);
        let i = choose|i: int| 0 <= i < rows.len() && rows[i] == g.nodes@[k]@;
        lemma_nodes_apart(kb, repo, scope);
        reference_counts_match_the_edges(kb, nodes, edges, i);
        lemma_rows_to_multiset(ev, erows, g.nodes@[k].path@);
        lemma_structural_bounded(kb, edges, i);
    }
    assert forall|k: int| #![trigger g.edges@[k]] 0 <= k < g.edges@.len() implies lists_node(
        g,
        g.edges@[k].from@,
    ) && lists_node(g, g.edges@[k].to@) by {
        assert(ev[k] == g.edges@[k]@);
        assert(ev.contains(g.edges@[k]@));
        lemma_same_items(ev, erows, g.edges@[k]@);
        let e = choose|e: int| 0 <= e < erows.len() && erows[e] == g.edges@[k]@;
        let edge = edges[e];
        assert(erows[e] == edge_row(kb, nodes, edge));
        assert(edge.from < nodes.len() && edge.to < nodes.len());
        assert(g.edges@[k]@[0] == g.edges@[k].from@ && g.edges@[k]@[1] == g.edges@[k].to@);
        lemma_lists_node(kb, nodes, edges, g, edge.from as int);
        lemma_lists_node(kb, nodes, edges, g, edge.to as int);
    }
    lemma_structural_sum(kb, edges, nodes.len() as int);
    lemma_rows_structural(kb, nodes, edges, nodes.len() as int);
    assert(rows.take(nodes.len() as int) =~= rows);
    lemma_weight_multiset(nv, rows, |r: NodeRow| r.refs_structural);
}

/// Whether a path is that of a node.
pub open spec fn lists_node(g: LinkGraphView, path: Seq<char>) -> bool {
    exists|k: int| 0 <= k < g.nodes@.len() && (#[trigger] g.nodes@[k]).path@ == path
}

proof fn lemma_lists_node(
    kb: KnowledgeBase,
    nodes: Seq<int>,
    edges: Seq<Edge>,
    g: LinkGraphView,
    i: int,
)
    requires
        0 <= i < nodes.len(),
        node_views(g.nodes@).to_multiset() == node_rows(kb, nodes, edges).to_multiset(),
    ensures
        lists_node(g, kb.catalog@[nodes[i]].path@),
{
    let rows = node_rows(kb, nodes, edges);
    let nv = node_views(g.nodes@);
    rows.to_multiset_ensures();
    nv.to_multiset_ensures();
    assert(rows.contains(rows[i]));
    lemma_same_items(rows, nv, rows[i]);
    let k = choose|k: int| 0 <= k < nv.len() && nv[k] == rows[i];
    assert(g.nodes@[k].path@ == kb.catalog@[nodes[i]].path@) by {
        assert(nv[k] == g.nodes@[k]@);
    }
}

/// Different nodes are different files.
proof fn lemma_nodes_apart(kb: KnowledgeBase, repo: Option<Seq<char>>, scope: Scope)
    requires
        kb.wf(),
    ensures
        ({
            let nodes = nodes_of(kb, repo, scope);
            forall|a: int, b: int|
                #![trigger nodes[a], nodes[b]]
                0 <= a < nodes.len() && 0 <= b < nodes.len() && a != b
                    ==> kb.catalog@[nodes[a]].path@ != kb.catalog@[nodes[b]].path@
        }),
{
    let nodes = nodes_of(kb, repo, scope);
    lemma_chosen(|i: int| is_node(kb, repo, scope, i), kb.catalog@.len() as int);
    assert forall|a: int, b: int|
        #![trigger nodes[a], nodes[b]]
        0 <= a < nodes.len() && 0 <= b < nodes.len() && a != b implies kb.catalog@[nodes[a]].path@
        != kb.catalog@[nodes[b]].path@ by {
        if a < b {
            assert(nodes[a] < nodes[b]);
        } else {
            assert(nodes[b] < nodes[a]);
        }
    }
}

/// The weights of the items put together.
pub open spec fn weight_of<A>(v: Seq<A>, w: spec_fn(A) -> nat) -> nat
    decreases v.len(),
{
    if v.len() == 0 {
        0
    } else {
        weight_of(v.drop_last(), w) + w(v.last())
    }
}

proof fn lemma_weight_remove<A>(v: Seq<A>, w: spec_fn(A) -> nat, k: int)
    requires
        0 <= k < v.len(),
    ensures
        weight_of(v, w) == weight_of(v.remove(k), w) + w(v[k]),
    decreases v.len(),
{
    if k == v.len() - 1 {
        assert(v.remove(k) =~= v.drop_last());
    } else {
        lemma_weight_remove(v.drop_last(), w, k);
        assert(v.remove(k).drop_last() =~= v.drop_last().remove(k));
    }
}

/// The weight of a list does not depend on its order.
proof fn lemma_weight_multiset<A>(a: Seq<A>, b: Seq<A>, w: spec_fn(A) -> nat)
    requires
        a.to_multiset() == b.to_multiset(),
    ensures
        weight_of(a, w) == weight_of(b, w),
    decreases a.len(),
{
    a.to_multiset_ensures();
    b.to_multiset_ensures();
    assert(a.len() == b.len());
    if a.len() > 0 {
        let n = a.len() - 1;
        let x = a[n];
        assert(a.contains(x));
        lemma_same_items(a, b, x);
        let k = choose|k: int| 0 <= k < b.len() && b[k] == x;
        lemma_weight_remove(a, w, n);
        lemma_weight_remove(b, w, k);
        vstd::seq_lib::to_multiset_remove(a, n);
        vstd::seq_lib::to_multiset_remove(b, k);
        lemma_weight_multiset(a.remove(n), b.remove(k), w);
    }
}

/// How many rows lead to a path, as a weight.
proof fn lemma_rows_to_weight(rows: Seq<Seq<Seq<char>>>, path: Seq<char>)
    ensures
        rows_to(rows, path) == weight_of(
            rows,
            |r: Seq<Seq<char>>|
                if r[1] == path {
                    1nat
                } else {
                    0
                },
        ),
    decreases rows.len(),
{
    if rows.len() > 0 {
        lemma_rows_to_weight(rows.drop_last(), path);
    }
}

proof fn lemma_rows_to_multiset(a: Seq<Seq<Seq<char>>>, b: Seq<Seq<Seq<char>>>, path: Seq<char>)
    requires
        a.to_multiset() == b.to_multiset(),
    ensures
        rows_to(a, path) == rows_to(b, path),
{
    let w = |r: Seq<Seq<char>>|
        if r[1] == path {
            1nat
        } else {
            0
        };
    lemma_rows_to_weight(a, path);
    lemma_rows_to_weight(b, path);
    lemma_weight_multiset(a, b, w);
}

proof fn lemma_structural_bounded(kb: KnowledgeBase, edges: Seq<Edge>, i: int)
    ensures
        structural_in(kb, edges, i) <= in_degree(edges, i),
    decreases edges.len(),
{
    if edges.len() > 0 {
        lemma_structural_bounded(kb, edges.drop_last(), i);
    }
}

/// The number of structural references over the first `n` nodes.
spec fn structural_sum(kb: KnowledgeBase, edges: Seq<Edge>, n: int) -> nat
    decreases n,
{
    if n <= 0 {
        0
    } else {
        structural_sum(kb, edges, n - 1) + structural_in(kb, edges, n - 1)
    }
}

proof fn lemma_structural_sum_step(kb: KnowledgeBase, edges: Seq<Edge>, n: int)
    requires
        edges.len() > 0,
        0 <= n,
    ensures
        structural_sum(kb, edges, n) == structural_sum(kb, edges.drop_last(), n) + if structural(
            kb,
            edges.last(),
        ) && edges.last().to < n {
            1nat
        } else {
            0
        },
    decreases n,
{
    if n > 0 {
        lemma_structural_sum_step(kb, edges, n - 1);
    }
}

/// The structural references over all nodes are those of the graph.
proof fn lemma_structural_sum(kb: KnowledgeBase, edges: Seq<Edge>, n: int)
    requires
        0 <= n,
        edges_wf(kb, edges, n as nat),
    ensures
        structural_sum(kb, edges, n) == structural_count(kb, edges),
    decreases edges.len(),
{
    if edges.len() == 0 {
        lemma_no_structural(kb, edges, n);
    } else {
        let front = edges.drop_last();
        assert(edges_wf(kb, front, n as nat)) by {
            assert forall|k: int| #![trigger front[k]] 0 <= k < front.len() implies {
                &&& front[k].from < n
                &&& front[k].to < n
                &&& front[k].list < kb.backlinks@.len()
                &&& front[k].item < kb.backlinks@[front[k].list as int].edges@.len()
            } by {
                assert(edges[k] == front[k]);
            }
        }
        assert(edges[edges.len() - 1].to < n);
        lemma_structural_sum(kb, front, n);
        lemma_structural_sum_step(kb, edges, n);
    }
}

proof fn lemma_no_structural(kb: KnowledgeBase, edges: Seq<Edge>, n: int)
    requires
        edges.len() == 0,
    ensures
        structural_sum(kb, edges, n) == 0,
    decreases n,
{
    if n > 0 {
        lemma_no_structural(kb, edges, n - 1);
    }
}

proof fn lemma_rows_structural(kb: KnowledgeBase, nodes: Seq<int>, edges: Seq<Edge>, n: int)
    requires
        0 <= n <= nodes.len(),
    ensures
        weight_of(node_rows(kb, nodes, edges).take(n), |r: NodeRow| r.refs_structural)
            == structural_sum(kb, edges, n),
    decreases n,
{
    if n > 0 {
        let rows = node_rows(kb, nodes, edges);
        lemma_rows_structural(kb, nodes, edges, n - 1);
        assert(rows.take(n).drop_last() =~= rows.take(n - 1));
        assert(rows.take(n).last() == rows[n - 1]);
    }
}

} // verus!
