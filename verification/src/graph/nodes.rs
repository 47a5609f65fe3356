//! The nodes of the reference graph at a scope, and the edges between them.

use crate::model::{graph_node_kind, in_scope, is_graph_node_kind, node_in_scope, Inbound, KnowledgeBase, Scope};
use crate::text::{opt_view, same};
use vstd::prelude::*;

verus! {

/// The indices below `n` that satisfy `p`, ascending.
pub open spec fn chosen(p: spec_fn(int) -> bool, n: int) -> Seq<int>
    decreases n,
{
    if n <= 0 {
        Seq::empty()
    } else if p(n - 1) {
        chosen(p, n - 1).push(n - 1)
    } else {
        chosen(p, n - 1)
    }
}

/// `chosen` lists exactly the indices that satisfy `p`, each once, ascending.
pub proof fn lemma_chosen(p: spec_fn(int) -> bool, n: int)
    requires
        0 <= n,
    ensures
        chosen(p, n).len() <= n,
        forall|k: int|
            #![trigger chosen(p, n)[k]]
            0 <= k < chosen(p, n).len() ==> 0 <= chosen(p, n)[k] < n && p(chosen(p, n)[k]),
        forall|a: int, b: int|
            #![trigger chosen(p, n)[a], chosen(p, n)[b]]
            0 <= a < b < chosen(p, n).len() ==> chosen(p, n)[a] < chosen(p, n)[b],
        forall|i: int|
            #![trigger p(i)]
            0 <= i < n && p(i) ==> chosen(p, n).contains(i),
    decreases n,
{
    if n > 0 {
        lemma_chosen(p, n - 1);
        let before = chosen(p, n - 1);
        let s = chosen(p, n);
        assert forall|i: int| #![trigger p(i)] 0 <= i < n && p(i) implies s.contains(i) by {
            if i < n - 1 {
                let k = choose|k: int| 0 <= k < before.len() && before[k] == i;
                assert(s[k] == i);
            } else {
                assert(s[s.len() - 1] == i);
            }
        }
    }
}

/// A list of positions as integers.
pub open spec fn ints(v: Seq<usize>) -> Seq<int> {
    v.map_values(|i: usize| i as int)
}

/// Whether the catalogued file at `i` is a node of the graph at this scope.
pub open spec fn is_node(kb: KnowledgeBase, repo: Option<Seq<char>>, scope: Scope, i: int) -> bool {
    &&& graph_node_kind(kb.catalog@[i].kind)
    &&& in_scope(kb.repos@, repo, scope, kb.catalog@[i].path@)
}

/// The nodes of the graph, as positions in the catalog.
pub open spec fn nodes_of(kb: KnowledgeBase, repo: Option<Seq<char>>, scope: Scope) -> Seq<int> {
    chosen(|i: int| is_node(kb, repo, scope, i), kb.catalog@.len() as int)
}

/// Collects the nodes of the graph at a scope.
pub fn graph_nodes(kb: &KnowledgeBase, repo: &Option<String>, scope: Scope) -> (r: Vec<usize>)
    ensures
        ints(r@) == nodes_of(*kb, opt_view(*repo), scope),
        forall|k: int| #![trigger r@[k]] 0 <= k < r@.len() ==> r@[k] < kb.catalog@.len(),
{
    let mut r: Vec<usize> = Vec::new();
    let ghost p = |i: int| is_node(*kb, opt_view(*repo), scope, i);
    assert(ints(r@) =~= chosen(p, 0));
    for i in 0..kb.catalog.len()
        invariant
            p == (|i: int| is_node(*kb, opt_view(*repo), scope, i)),
            ints(r@) == chosen(p, i as int),
            forall|k: int| #![trigger r@[k]] 0 <= k < r@.len() ==> r@[k] < kb.catalog@.len(),
    {
        let entry = &kb.catalog[i];
        if is_graph_node_kind(entry.kind) && node_in_scope(
            &kb.repos,
            repo,
            scope,
            entry.path.as_str(),
        ) {
            let ghost before = r@;
            r.push(i);
            assert(ints(r@) =~= ints(before).push(i as int));
        }
    }
    r
}

/// An edge between two nodes, by their positions in the node list, and where its
/// reference is found: the item in the list of inbound references.
#[derive(Debug, Clone, Copy)]
pub struct Edge {
    pub from: usize,
    pub to: usize,
    pub list: usize,
    pub item: usize,
}

/// The position among the first `n` nodes of the one with this path.
pub open spec fn node_at(
    kb: KnowledgeBase,
    nodes: Seq<int>,
    path: Seq<char>,
    n: int,
) -> Option<int>
    decreases n,
{
    if n <= 0 {
        None
    } else if kb.catalog@[nodes[n - 1]].path@ == path {
        Some(n - 1)
    } else {
        node_at(kb, nodes, path, n - 1)
    }
}

/// The node with this path.
pub open spec fn node_named(kb: KnowledgeBase, nodes: Seq<int>, path: Seq<char>) -> Option<int> {
    node_at(kb, nodes, path, nodes.len() as int)
}

pub proof fn lemma_node_at(kb: KnowledgeBase, nodes: Seq<int>, path: Seq<char>, n: int)
    requires
        0 <= n <= nodes.len(),
    ensures
        match node_at(kb, nodes, path, n) {
            Some(i) => 0 <= i < n && kb.catalog@[nodes[i]].path@ == path,
            None => forall|k: int|
                #![trigger nodes[k]]
                0 <= k < n ==> kb.catalog@[nodes[k]].path@ != path,
        },
    decreases n,
{
    if n > 0 {
        lemma_node_at(kb, nodes, path, n - 1);
    }
}

pub fn find_node(kb: &KnowledgeBase, nodes: &Vec<usize>, path: &str) -> (r: Option<usize>)
    requires
        forall|k: int| #![trigger nodes@[k]] 0 <= k < nodes@.len() ==> nodes@[k] < kb.catalog@.len(),
    ensures
        match r {
            Some(i) => i < nodes@.len() && node_named(*kb, ints(nodes@), path@) == Some(i as int),
            None => node_named(*kb, ints(nodes@), path@) is None,
        },
{
    let mut i: usize = nodes.len();
    while i > 0
        invariant
            i <= nodes@.len(),
            forall|k: int|
                #![trigger nodes@[k]]
                0 <= k < nodes@.len() ==> nodes@[k] < kb.catalog@.len(),
            node_named(*kb, ints(nodes@), path@) == node_at(*kb, ints(nodes@), path@, i as int),
        decreases i,
    {
        i -= 1;
        assert(ints(nodes@)[i as int] == nodes@[i as int]);
        if same(kb.catalog[nodes[i]].path.as_str(), path) {
            return Some(i);
        }
    }
    None
}

/// The edges that the first `n` references of one list give: those whose source
/// and target are both nodes.
pub open spec fn edges_in(
    kb: KnowledgeBase,
    nodes: Seq<int>,
    list: int,
    n: int,
) -> Seq<Edge>
    decreases n,
{
    if n <= 0 {
        Seq::empty()
    } else {
        let before = edges_in(kb, nodes, list, n - 1);
        let inbound = kb.backlinks@[list];
        match (
            node_named(kb, nodes, inbound.edges@[n - 1].source@),
            node_named(kb, nodes, inbound.target@),
        ) {
            (Some(from), Some(to)) => before.push(
                Edge {
                    from: from as usize,
                    to: to as usize,
                    list: list as usize,
                    item: (n - 1) as usize,
                },
            ),
            _ => before,
        }
    }
}

/// The edges that the first `n` lists of inbound references give.
pub open spec fn edges_upto(kb: KnowledgeBase, nodes: Seq<int>, n: int) -> Seq<Edge>
    decreases n,
{
    if n <= 0 {
        Seq::empty()
    } else {
        edges_upto(kb, nodes, n - 1) + edges_in(
            kb,
            nodes,
            n - 1,
            kb.backlinks@[n - 1].edges@.len() as int,
        )
    }
}

/// The edges of the graph: the references whose two ends are both nodes.
pub open spec fn edges_of(kb: KnowledgeBase, nodes: Seq<int>) -> Seq<Edge> {
    edges_upto(kb, nodes, kb.backlinks@.len() as int)
}

/// Whether an edge list runs between `n` nodes and points at references that the
/// knowledge base holds.
pub open spec fn edges_wf(kb: KnowledgeBase, edges: Seq<Edge>, n: nat) -> bool {
    forall|k: int|
        #![trigger edges[k]]
        0 <= k < edges.len() ==> {
            &&& edges[k].from < n
            &&& edges[k].to < n
            &&& edges[k].list < kb.backlinks@.len()
            &&& edges[k].item < kb.backlinks@[edges[k].list as int].edges@.len()
        }
}

/// Collects the edges of the graph on these nodes.
pub fn graph_edges(kb: &KnowledgeBase, nodes: &Vec<usize>) -> (r: Vec<Edge>)
    requires
        forall|k: int| #![trigger nodes@[k]] 0 <= k < nodes@.len() ==> nodes@[k] < kb.catalog@.len(),
    ensures
        r@ == edges_of(*kb, ints(nodes@)),
        edges_wf(*kb, r@, nodes@.len()),
{
    let mut r: Vec<Edge> = Vec::new();
    let ghost ns = ints(nodes@);
    for g in 0..kb.backlinks.len()
        invariant
            ns == ints(nodes@),
            forall|k: int|
                #![trigger nodes@[k]]
                0 <= k < nodes@.len() ==> nodes@[k] < kb.catalog@.len(),
            r@ == edges_upto(*kb, ns, g as int),
            edges_wf(*kb, r@, nodes@.len()),
    {
        let inbound: &Inbound = &kb.backlinks[g];
        let to = find_node(kb, nodes, inbound.target.as_str());
        let ghost before = r@;
        assert(before + edges_in(*kb, ns, g as int, 0) =~= before);
        for i in 0..inbound.edges.len()
            invariant
                ns == ints(nodes@),
                g < kb.backlinks@.len(),
                *inbound == kb.backlinks@[g as int],
                forall|k: int|
                    #![trigger nodes@[k]]
                    0 <= k < nodes@.len() ==> nodes@[k] < kb.catalog@.len(),
                match to {
                    Some(t) => t < nodes@.len() && node_named(*kb, ns, inbound.target@) == Some(
                        t as int,
                    ),
                    None => node_named(*kb, ns, inbound.target@) is None,
                },
                r@ == before + edges_in(*kb, ns, g as int, i as int),
                edges_wf(*kb, r@, nodes@.len()),
        {
            let from = find_node(kb, nodes, inbound.edges[i].source.as_str());
            let ghost sofar = r@;
            if let (Some(f), Some(t)) = (from, to) {
                let e = Edge { from: f, to: t, list: g, item: i };
                r.push(e);
                assert(r@ =~= before + edges_in(*kb, ns, g as int, i as int).push(e));
                assert forall|k: int| #![trigger r@[k]] 0 <= k < r@.len() implies {
                    &&& r@[k].from < nodes@.len()
                    &&& r@[k].to < nodes@.len()
                    &&& r@[k].list < kb.backlinks@.len()
                    &&& r@[k].item < kb.backlinks@[r@[k].list as int].edges@.len()
                } by {
                    if k < sofar.len() {
                        assert(r@[k] == sofar[k]);
                    }
                }
            }
        }
    }
    r
}

/// Whether an edge stands for a reference that fills a typed slot.
pub open spec fn structural(kb: KnowledgeBase, e: Edge) -> bool {
    kb.backlinks@[e.list as int].edges@[e.item as int].slot is Some
}

} // verus!
