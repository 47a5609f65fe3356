//! The reference graph as a payload of nodes and edges.

use crate::graph::nodes::{edges_of, edges_wf, graph_edges, graph_nodes, ints, nodes_of, structural, Edge};
use crate::graph::shape::{degree_lists, in_degree, in_degrees, nats};
use crate::model::{owner_name, repo_name_of, KnowledgeBase, RefSurface, Scope};
use crate::sorting::{lemma_map_multiset, sort, sorted, Ranked};
use crate::text::{
    copy_opt, is_at_most, keys_at_most, keys_le, lemma_keys_le_total, lemma_keys_le_transitive,
    lemma_text_le_total, lemma_text_le_transitive, opt_view, str_views, text_le,
};
use vstd::prelude::*;

verus! {

/// A file, with the references in scope that reach it.
#[derive(Debug, PartialEq)]
pub struct GraphNodeView {
    pub path: String,
    pub repo: Option<String>,
    pub kind: &'static str,
    pub refs_structural: usize,
    pub refs_total: usize,
}

/// The contents of a [`GraphNodeView`].
pub struct NodeRow {
    pub path: Seq<char>,
    pub repo: Option<Seq<char>>,
    pub kind: Seq<char>,
    pub refs_structural: nat,
    pub refs_total: nat,
}

impl View for GraphNodeView {
    type V = NodeRow;

    open spec fn view(&self) -> NodeRow {
        NodeRow {
            path: self.path@,
            repo: opt_view(self.repo),
            kind: self.kind@,
            refs_structural: self.refs_structural as nat,
            refs_total: self.refs_total as nat,
        }
    }
}

impl Ranked for GraphNodeView {
    open spec fn rank_le(&self, other: &Self) -> bool {
        text_le(self.path@, other.path@)
    }

    fn at_most(&self, other: &Self) -> (r: bool) {
        is_at_most(self.path.as_str(), other.path.as_str())
    }

    proof fn rank_total(a: &Self, b: &Self) {
        lemma_text_le_total(a.path@, b.path@);
    }

    proof fn rank_transitive(a: &Self, b: &Self, c: &Self) {
        lemma_text_le_transitive(a.path@, b.path@, c.path@);
    }
}

/// A resolved reference from one file to another.
#[derive(Debug, PartialEq)]
pub struct GraphEdgeView {
    pub from: String,
    pub to: String,
    pub kind: &'static str,
    pub surface: &'static str,
}

impl View for GraphEdgeView {
    type V = Seq<Seq<char>>;

    /// The four texts of the edge, which also decide its place in a payload.
    open spec fn view(&self) -> Seq<Seq<char>> {
        seq![self.from@, self.to@, self.kind@, self.surface@]
    }
}

impl GraphEdgeView {
    pub fn key(&self) -> (r: Vec<&str>)
        ensures
            str_views(r@) == self@,
    {
        let mut k: Vec<&str> = Vec::new();
        k.push(self.from.as_str());
        k.push(self.to.as_str());
        k.push(self.kind);
        k.push(self.surface);
        assert(str_views(k@) =~= self@);
        k
    }

    pub fn copy(&self) -> (r: Self)
        ensures
            r == *self,
    {
        GraphEdgeView {
            from: self.from.clone(),
            to: self.to.clone(),
            kind: self.kind,
            surface: self.surface,
        }
    }
}

impl Ranked for GraphEdgeView {
    open spec fn rank_le(&self, other: &Self) -> bool {
        keys_le(self@, other@)
    }

    fn at_most(&self, other: &Self) -> (r: bool) {
        keys_at_most(&self.key(), &other.key())
    }

    proof fn rank_total(a: &Self, b: &Self) {
        lemma_keys_le_total(a@, b@);
    }

    proof fn rank_transitive(a: &Self, b: &Self, c: &Self) {
        lemma_keys_le_transitive(a@, b@, c@);
    }
}

/// The wire name of a surface.
pub open spec fn surface_label(s: RefSurface) -> Seq<char> {
    match s {
        RefSurface::Frontmatter => "frontmatter"@,
        RefSurface::Body => "body"@,
        RefSurface::Docstring => "docstring"@,
    }
}

pub fn surface_str(s: RefSurface) -> (r: &'static str)
    ensures
        r@ == surface_label(s),
{
    match s {
        RefSurface::Frontmatter => "frontmatter",
        RefSurface::Body => "body",
        RefSurface::Docstring => "docstring",
    }
}

/// How many edges that fill a typed slot point at node `i`.
pub open spec fn structural_in(kb: KnowledgeBase, edges: Seq<Edge>, i: int) -> nat
    decreases edges.len(),
{
    if edges.len() == 0 {
        0
    } else {
        structural_in(kb, edges.drop_last(), i) + if edges.last().to == i && structural(
            kb,
            edges.last(),
        ) {
            1nat
        } else {
            0
        }
    }
}

/// The row of the node at position `i`.
pub open spec fn node_row(kb: KnowledgeBase, nodes: Seq<int>, edges: Seq<Edge>, i: int) -> NodeRow {
    let entry = kb.catalog@[nodes[i]];
    NodeRow {
        path: entry.path@,
        repo: owner_name(kb.repos@, entry.path@),
        kind: entry.served@,
        refs_structural: structural_in(kb, edges, i),
        refs_total: in_degree(edges, i),
    }
}

/// The rows of all nodes, in node order.
pub open spec fn node_rows(kb: KnowledgeBase, nodes: Seq<int>, edges: Seq<Edge>) -> Seq<NodeRow> {
    Seq::new(nodes.len(), |i: int| node_row(kb, nodes, edges, i))
}

/// The row of an edge.
pub open spec fn edge_row(kb: KnowledgeBase, nodes: Seq<int>, e: Edge) -> Seq<Seq<char>> {
    let link = kb.backlinks@[e.list as int].edges@[e.item as int];
    seq![
        kb.catalog@[nodes[e.from as int]].path@,
        kb.catalog@[nodes[e.to as int]].path@,
        link.kind@,
        surface_label(link.surface),
    ]
}

/// The rows of all edges, in edge order.
pub open spec fn edge_rows(
    kb: KnowledgeBase,
    nodes: Seq<int>,
    edges: Seq<Edge>,
) -> Seq<Seq<Seq<char>>> {
    edges.map_values(|e: Edge| edge_row(kb, nodes, e))
}

/// The reference graph at a scope.
pub struct LinkGraphView {
    pub repo: Option<String>,
    pub scope: &'static str,
    pub nodes: Vec<GraphNodeView>,
    pub edges: Vec<GraphEdgeView>,
}

/// The contents of a list of nodes.
pub open spec fn node_views(v: Seq<GraphNodeView>) -> Seq<NodeRow> {
    v.map_values(|n: GraphNodeView| n@)
}

/// The contents of a list of edges.
pub open spec fn edge_views(v: Seq<GraphEdgeView>) -> Seq<Seq<Seq<char>>> {
    v.map_values(|e: GraphEdgeView| e@)
}

fn structural_in_list(kb: &KnowledgeBase, edges: &Vec<Edge>, n: usize) -> (r: Vec<usize>)
    requires
        edges_wf(*kb, edges@, n as nat),
    ensures
        r@.len() == n,
        forall|i: int| #![trigger r@[i]] 0 <= i < n ==> r@[i] == structural_in(*kb, edges@, i),
{
    let mut r: Vec<usize> = Vec::new();
    for i in 0..n
        invariant
            r@.len() == i,
            forall|j: int| #![trigger r@[j]] 0 <= j < i ==> r@[j] == 0,
    {
        r.push(0);
    }
    for k in 0..edges.len()
        invariant
            edges_wf(*kb, edges@, n as nat),
            r@.len() == n,
            forall|i: int|
                #![trigger r@[i]]
                0 <= i < n ==> r@[i] == structural_in(*kb, edges@.take(k as int), i) && r@[i] <= k,
    {
        let e: Edge = edges[k];
        proof {
            let next = edges@.take(k + 1);
            assert(next.drop_last() =~= edges@.take(k as int));
            assert(next.last() == e);
        }
        if kb.backlinks[e.list].edges[e.item].slot.is_some() {
            let c: usize = r[e.to];
            r.set(e.to, c + 1);
        }
    }
    assert(edges@.take(edges@.len() as int) =~= edges@);
    r
}

/// The reference graph at a scope: every file in scope, isolated ones too, and
/// every resolved reference between two of them. Nodes are sorted by path; edges
/// by source, target, kind and surface.
pub fn link_graph_view(kb: &KnowledgeBase, repo: &Option<String>, scope: Scope) -> (r: LinkGraphView)
    ensures
        r.repo == *repo,
        r.scope@ == scope.label_spec(),
        sorted(r.nodes@),
        sorted(r.edges@),
        ({
            let nodes = nodes_of(*kb, opt_view(*repo), scope);
            let edges = edges_of(*kb, nodes);
            &&& node_views(r.nodes@).to_multiset() == node_rows(*kb, nodes, edges).to_multiset()
            &&& edge_views(r.edges@).to_multiset() == edge_rows(*kb, nodes, edges).to_multiset()
            &&& edges_wf(*kb, edges, nodes.len())
        }),
{
    let nodes = graph_nodes(kb, repo, scope);
    let edges = graph_edges(kb, &nodes);
    let n: usize = nodes.len();
    let ghost ns = ints(nodes@);
    let (ins, _outs) = degree_lists(&edges, n);
    let filled = structural_in_list(kb, &edges, n);
    let mut node_list: Vec<GraphNodeView> = Vec::new();
    assert(nats(ins@).len() == ins@.len());
    assert(node_views(node_list@) =~= node_rows(*kb, ns, edges@).take(0));
    for i in 0..n
        invariant
            n == nodes@.len(),
            ns == ints(nodes@),
            forall|k: int|
                #![trigger nodes@[k]]
                0 <= k < nodes@.len() ==> nodes@[k] < kb.catalog@.len(),
            ins@.len() == n,
            filled@.len() == n,
            nats(ins@) == in_degrees(edges@, n as nat),
            forall|i: int|
                #![trigger filled@[i]]
                0 <= i < n ==> filled@[i] == structural_in(*kb, edges@, i),
            node_views(node_list@) == node_rows(*kb, ns, edges@).take(i as int),
    {
        let entry = &kb.catalog[nodes[i]];
        let ghost before = node_list@;
        let row = GraphNodeView {
            path: entry.path.clone(),
            repo: repo_name_of(&kb.repos, entry.path.as_str()),
            kind: entry.served,
            refs_structural: filled[i],
            refs_total: ins[i],
        };
        node_list.push(row);
        proof {
            assert(nats(ins@)[i as int] == in_degree(edges@, i as int));
            assert(ns[i as int] == nodes@[i as int]);
            assert(row@ == node_row(*kb, ns, edges@, i as int));
            assert(node_views(node_list@) =~= node_views(before).push(row@));
            assert(node_rows(*kb, ns, edges@).take(i + 1) =~= node_rows(*kb, ns, edges@).take(
                i as int,
            ).push(row@));
        }
    }
    let mut edge_list: Vec<GraphEdgeView> = Vec::new();
    assert(edge_views(edge_list@) =~= edge_rows(*kb, ns, edges@).take(0));
    for k in 0..edges.len()
        invariant
            n == nodes@.len(),
            ns == ints(nodes@),
            forall|k: int|
                #![trigger nodes@[k]]
                0 <= k < nodes@.len() ==> nodes@[k] < kb.catalog@.len(),
            edges_wf(*kb, edges@, n as nat),
            edge_views(edge_list@) == edge_rows(*kb, ns, edges@).take(k as int),
    {
        let e: Edge = edges[k];
        let link = &kb.backlinks[e.list].edges[e.item];
        let ghost before = edge_list@;
        let row = GraphEdgeView {
            from: kb.catalog[nodes[e.from]].path.clone(),
            to: kb.catalog[nodes[e.to]].path.clone(),
            kind: link.kind,
            surface: surface_str(link.surface),
        };
        edge_list.push(row);
        proof {
            assert(ns[e.from as int] == nodes@[e.from as int]);
            assert(ns[e.to as int] == nodes@[e.to as int]);
            assert(row@ =~= edge_row(*kb, ns, e));
            assert(edge_views(edge_list@) =~= edge_views(before).push(row@));
            assert(edge_rows(*kb, ns, edges@).take(k + 1) =~= edge_rows(*kb, ns, edges@).take(
                k as int,
            ).push(row@));
        }
    }
    proof {
        assert(ns.len() == n);
        assert(node_rows(*kb, ns, edges@).take(n as int) =~= node_rows(*kb, ns, edges@));
        assert(edge_rows(*kb, ns, edges@).take(edges@.len() as int) =~= edge_rows(*kb, ns, edges@));
    }
    let sorted_nodes = sort(node_list);
    let sorted_edges = sort(edge_list);
    proof {
        lemma_map_multiset(sorted_nodes@, node_list@, |n: GraphNodeView| n@);
        lemma_map_multiset(sorted_edges@, edge_list@, |e: GraphEdgeView| e@);
    }
    LinkGraphView {
        repo: copy_opt(repo),
        scope: scope.label(),
        nodes: sorted_nodes,
        edges: sorted_edges,
    }
}

} // verus!
