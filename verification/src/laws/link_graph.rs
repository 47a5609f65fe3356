//! The reference graph has an edge for every reference between two files that it shows.

use crate::graph::links::{edge_row, edge_rows, node_rows, surface_label};
use crate::graph::nodes::{
    edges_in, edges_of, edges_upto, is_node, lemma_chosen, lemma_node_at, node_named, nodes_of,
    Edge,
};
use crate::graph::shape::{in_degree, orphans_upto, out_degree, OrphanRow};
use crate::laws::counting::link_of;
use crate::laws::refactors::lemma_chosen_iff;
use crate::model::{in_scope, owner_name, FileKind, KnowledgeBase, RefSurface, Scope};
use vstd::prelude::*;

verus! {

proof fn lemma_named(kb: KnowledgeBase, repo: Option<Seq<char>>, scope: Scope, path: Seq<char>, i: int)
    requires
        0 <= i < kb.catalog@.len(),
        is_node(kb, repo, scope, i),
        kb.catalog@[i].path@ == path,
    ensures
        ({
            let nodes = nodes_of(kb, repo, scope);
            &&& node_named(kb, nodes, path) matches Some(k) && 0 <= k < nodes.len()
                && kb.catalog@[nodes[k]].path@ == path
            &&& nodes.len() <= usize::MAX
        }),
{
    let p = |j: int| is_node(kb, repo, scope, j);
    lemma_chosen(p, kb.catalog@.len() as int);
    let nodes = nodes_of(kb, repo, scope);
    assert(p(i));
    assert(nodes.contains(i));
    let k = choose|k: int| 0 <= k < nodes.len() && nodes[k] == i;
    lemma_node_at(kb, nodes, path, nodes.len() as int);
    assert(kb.catalog@[nodes[k]].path@ == path);
    assert(kb.catalog@.len() == kb.catalog.len());
}

proof fn lemma_in_list(
    kb: KnowledgeBase,
    nodes: Seq<int>,
    l: int,
    n: int,
    j: int,
    from: int,
    to: int,
)
    requires
        0 <= l < kb.backlinks@.len(),
        0 <= j < n <= kb.backlinks@[l].edges@.len(),
        node_named(kb, nodes, kb.backlinks@[l].edges@[j].source@) == Some(from),
        node_named(kb, nodes, kb.backlinks@[l].target@) == Some(to),
    ensures
        edges_in(kb, nodes, l, n).contains(
            Edge { from: from as usize, to: to as usize, list: l as usize, item: j as usize },
        ),
    decreases n,
{
    let before = edges_in(kb, nodes, l, n - 1);
    let e = Edge { from: from as usize, to: to as usize, list: l as usize, item: j as usize };
    let now = edges_in(kb, nodes, l, n);
    if j < n - 1 {
        lemma_in_list(kb, nodes, l, n - 1, j, from, to);
        let k = choose|k: int| 0 <= k < before.len() && before[k] == e;
        assert(now[k] == e);
    } else {
        assert(now[before.len() as int] == e);
    }
}

proof fn lemma_in_graph(kb: KnowledgeBase, nodes: Seq<int>, l: int, n: int, e: Edge)
    requires
        0 <= l < n <= kb.backlinks@.len(),
        edges_in(kb, nodes, l, kb.backlinks@[l].edges@.len() as int).contains(e),
    ensures
        edges_upto(kb, nodes, n).contains(e),
    decreases n,
{
    let before = edges_upto(kb, nodes, n - 1);
    let here = edges_in(kb, nodes, n - 1, kb.backlinks@[n - 1].edges@.len() as int);
    if l < n - 1 {
        lemma_in_graph(kb, nodes, l, n - 1, e);
        let k = choose|k: int| 0 <= k < before.len() && before[k] == e;
        assert((before + here)[k] == e);
    } else {
        let k = choose|k: int| 0 <= k < here.len() && here[k] == e;
        assert((before + here)[before.len() + k] == e);
    }
}

/// Every reference from one file that the graph shows to another is an edge, from the file
/// that holds the reference to the file that it reaches, with the reference's own kind and
/// surface.
pub proof fn every_reference_is_an_edge(
    kb: KnowledgeBase,
    repo: Option<Seq<char>>,
    scope: Scope,
    l: int,
    j: int,
    a: int,
    b: int,
)
    requires
        0 <= l < kb.backlinks@.len(),
        0 <= j < kb.backlinks@[l].edges@.len(),
        0 <= a < kb.catalog@.len(),
        0 <= b < kb.catalog@.len(),
        is_node(kb, repo, scope, a),
        is_node(kb, repo, scope, b),
        kb.catalog@[a].path@ == kb.backlinks@[l].edges@[j].source@,
        kb.catalog@[b].path@ == kb.backlinks@[l].target@,
    ensures
        edge_rows(
            kb,
            nodes_of(kb, repo, scope),
            edges_of(kb, nodes_of(kb, repo, scope)),
        ).contains(
            seq![
                kb.backlinks@[l].edges@[j].source@,
                kb.backlinks@[l].target@,
                kb.backlinks@[l].edges@[j].kind@,
                surface_label(kb.backlinks@[l].edges@[j].surface),
            ],
        ),
{
    let nodes = nodes_of(kb, repo, scope);
    let link = kb.backlinks@[l].edges@[j];
    lemma_named(kb, repo, scope, link.source@, a);
    lemma_named(kb, repo, scope, kb.backlinks@[l].target@, b);
    let from = node_named(kb, nodes, link.source@)->0;
    let to = node_named(kb, nodes, kb.backlinks@[l].target@)->0;
    let n = kb.backlinks@[l].edges@.len() as int;
    lemma_in_list(kb, nodes, l, n, j, from, to);
    assert(kb.backlinks@.len() == kb.backlinks.len());
    assert(kb.backlinks@[l].edges@.len() == kb.backlinks@[l].edges.len());
    let e = Edge { from: from as usize, to: to as usize, list: l as usize, item: j as usize };
    lemma_in_graph(kb, nodes, l, kb.backlinks@.len() as int, e);
    let edges = edges_of(kb, nodes);
    let k = choose|k: int| 0 <= k < edges.len() && edges[k] == e;
    assert(edge_rows(kb, nodes, edges)[k] == edge_row(kb, nodes, e));
    assert(edge_row(kb, nodes, e) =~= seq![
        link.source@,
        kb.backlinks@[l].target@,
        link.kind@,
        surface_label(link.surface),
    ]);
}

proof fn lemma_list_edge(kb: KnowledgeBase, nodes: Seq<int>, l: int, n: int, k: int)
    requires
        0 <= l < kb.backlinks@.len(),
        0 <= n <= kb.backlinks@[l].edges@.len(),
        nodes.len() <= usize::MAX,
        0 <= k < edges_in(kb, nodes, l, n).len(),
    ensures
        ({
            let e = edges_in(kb, nodes, l, n)[k];
            &&& e.list == l
            &&& e.item < n
            &&& e.from < nodes.len()
            &&& e.to < nodes.len()
            &&& kb.catalog@[nodes[e.from as int]].path@ == link_of(kb, e).source@
            &&& kb.catalog@[nodes[e.to as int]].path@ == kb.backlinks@[l].target@
        }),
    decreases n,
{
    if n > 0 {
        let before = edges_in(kb, nodes, l, n - 1);
        assert(kb.backlinks@.len() == kb.backlinks.len());
        assert(kb.backlinks@[l].edges@.len() == kb.backlinks@[l].edges.len());
        if k < before.len() {
            lemma_list_edge(kb, nodes, l, n - 1, k);
        } else {
            lemma_node_at(
                kb,
                nodes,
                kb.backlinks@[l].edges@[n - 1].source@,
                nodes.len() as int,
            );
            lemma_node_at(kb, nodes, kb.backlinks@[l].target@, nodes.len() as int);
        }
    }
}

proof fn lemma_edge(kb: KnowledgeBase, nodes: Seq<int>, n: int, k: int)
    requires
        0 <= n <= kb.backlinks@.len(),
        nodes.len() <= usize::MAX,
        0 <= k < edges_upto(kb, nodes, n).len(),
    ensures
        ({
            let e = edges_upto(kb, nodes, n)[k];
            &&& e.list < n
            &&& e.item < kb.backlinks@[e.list as int].edges@.len()
            &&& e.from < nodes.len()
            &&& e.to < nodes.len()
            &&& kb.catalog@[nodes[e.from as int]].path@ == link_of(kb, e).source@
            &&& kb.catalog@[nodes[e.to as int]].path@ == kb.backlinks@[e.list as int].target@
        }),
    decreases n,
{
    if n > 0 {
        let before = edges_upto(kb, nodes, n - 1);
        if k < before.len() {
            lemma_edge(kb, nodes, n - 1, k);
        } else {
            lemma_list_edge(
                kb,
                nodes,
                n - 1,
                kb.backlinks@[n - 1].edges@.len() as int,
                k - before.len(),
            );
        }
    }
}

/// Every edge is a reference: it leaves the file that holds the reference and leads to the
/// file that the reference reaches.
pub proof fn every_edge_is_a_reference(
    kb: KnowledgeBase,
    repo: Option<Seq<char>>,
    scope: Scope,
    k: int,
)
    requires
        0 <= k < edges_of(kb, nodes_of(kb, repo, scope)).len(),
    ensures
        ({
            let nodes = nodes_of(kb, repo, scope);
            let edges = edges_of(kb, nodes);
            let l = edges[k].list as int;
            let j = edges[k].item as int;
            &&& 0 <= l < kb.backlinks@.len()
            &&& 0 <= j < kb.backlinks@[l].edges@.len()
            &&& edge_rows(kb, nodes, edges)[k] == seq![
                kb.backlinks@[l].edges@[j].source@,
                kb.backlinks@[l].target@,
                kb.backlinks@[l].edges@[j].kind@,
                surface_label(kb.backlinks@[l].edges@[j].surface),
            ]
        }),
{
    let nodes = nodes_of(kb, repo, scope);
    let edges = edges_of(kb, nodes);
    lemma_chosen(|j: int| is_node(kb, repo, scope, j), kb.catalog@.len() as int);
    assert(kb.catalog@.len() == kb.catalog.len());
    lemma_edge(kb, nodes, kb.backlinks@.len() as int, k);
    let e = edges[k];
    assert(edge_rows(kb, nodes, edges)[k] == edge_row(kb, nodes, e));
    assert(edge_row(kb, nodes, e) =~= seq![
        link_of(kb, e).source@,
        kb.backlinks@[e.list as int].target@,
        link_of(kb, e).kind@,
        surface_label(link_of(kb, e).surface),
    ]);
}

/// A surface is told by its name: frontmatter, body or docstring.
pub proof fn a_surface_has_its_name(s: RefSurface)
    ensures
        s == RefSurface::Frontmatter ==> surface_label(s) == "frontmatter"@,
        s == RefSurface::Body ==> surface_label(s) == "body"@,
        s == RefSurface::Docstring ==> surface_label(s) == "docstring"@,
{
}

/// A file that no edge leads to is told as an orphan, and as isolated where no edge leaves
/// it either; a file that an edge leads to is not told.
pub proof fn an_orphan_is_told_as_what_it_is(
    kb: KnowledgeBase,
    nodes: Seq<int>,
    edges: Seq<Edge>,
    n: int,
    i: int,
)
    requires
        0 <= i < n <= nodes.len(),
        in_degree(edges, i) == 0,
    ensures
        out_degree(edges, i) == 0 ==> orphans_upto(kb, nodes, edges, n).contains(
            OrphanRow { path: kb.catalog@[nodes[i]].path@, kind: "isolated"@ },
        ),
        out_degree(edges, i) > 0 ==> orphans_upto(kb, nodes, edges, n).contains(
            OrphanRow { path: kb.catalog@[nodes[i]].path@, kind: "no_inbound"@ },
        ),
    decreases n,
{
    let row = OrphanRow {
        path: kb.catalog@[nodes[i]].path@,
        kind: if out_degree(edges, i) == 0 {
            "isolated"@
        } else {
            "no_inbound"@
        },
    };
    let before = orphans_upto(kb, nodes, edges, n - 1);
    let now = orphans_upto(kb, nodes, edges, n);
    if i < n - 1 {
        an_orphan_is_told_as_what_it_is(kb, nodes, edges, n - 1, i);
        let k = choose|k: int| 0 <= k < before.len() && before[k] == row;
        assert(now[k] == row);
    } else {
        assert(now[before.len() as int] == row);
    }
}

/// Whatever is told as an orphan is a file that no edge leads to.
pub proof fn only_orphans_are_told(
    kb: KnowledgeBase,
    nodes: Seq<int>,
    edges: Seq<Edge>,
    n: int,
    k: int,
)
    requires
        0 <= n <= nodes.len(),
        0 <= k < orphans_upto(kb, nodes, edges, n).len(),
    ensures
        exists|i: int|
            0 <= i < n && in_degree(edges, i) == 0 && kb.catalog@[#[trigger] nodes[i]].path@
                == orphans_upto(kb, nodes, edges, n)[k].path,
    decreases n,
{
    if n > 0 {
        let before = orphans_upto(kb, nodes, edges, n - 1);
        if k < before.len() {
            only_orphans_are_told(kb, nodes, edges, n - 1, k);
        } else {
            assert(kb.catalog@[nodes[n - 1]].path@ == orphans_upto(kb, nodes, edges, n)[k].path);
        }
    }
}

/// The nodes are the catalogued files in scope, all but the engine's own configuration.
pub proof fn every_file_in_scope_is_a_node(
    kb: KnowledgeBase,
    repo: Option<Seq<char>>,
    scope: Scope,
    i: int,
)
    requires
        0 <= i < kb.catalog@.len(),
    ensures
        nodes_of(kb, repo, scope).contains(i) <==> {
            let kind = kb.catalog@[i].kind;
            &&& kind != FileKind::RepoRegistry && kind != FileKind::Workspace && kind
                != FileKind::RepoLock
            &&& in_scope(kb.repos@, repo, scope, kb.catalog@[i].path@)
        },
{
    lemma_chosen_iff(|j: int| is_node(kb, repo, scope, j), kb.catalog@.len() as int, i);
}

/// A node is told with the path, the repo and the role of its file, and with how many edges
/// lead to it.
pub proof fn a_node_is_told_of_its_file(
    kb: KnowledgeBase,
    nodes: Seq<int>,
    edges: Seq<Edge>,
    i: int,
)
    requires
        0 <= i < nodes.len(),
    ensures
        node_rows(kb, nodes, edges).len() == nodes.len(),
        ({
            let row = node_rows(kb, nodes, edges)[i];
            let entry = kb.catalog@[nodes[i]];
            &&& row.path == entry.path@
            &&& row.repo == owner_name(kb.repos@, entry.path@)
            &&& row.kind == entry.served@
            &&& row.refs_total == edges.filter(|e: Edge| e.to == i).len()
            &&& row.refs_structural == edges.filter(
                |e: Edge| e.to == i && link_of(kb, e).slot is Some,
            ).len()
        }),
{
    crate::laws::counting::the_degrees_count_the_edges(kb, edges, i);
}

} // verus!
