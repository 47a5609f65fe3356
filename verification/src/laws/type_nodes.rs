//! Which files a type graph shows, and how often an edge stands for a mention.

use crate::graph::types::{
    all_nodes, claim_edges, claiming, folds, times, type_node_rows, type_nodes, EdgeClasses,
    TypeGraphEdgeView,
};
use crate::laws::counting::{lemma_filter_empty, lemma_filter_step};
use crate::laws::refactors::lemma_chosen_iff;
use crate::model::{in_scope, owner_name, FileKind, KnowledgeBase, Scope};
use crate::tally::Keyed;
use vstd::prelude::*;

verus! {

proof fn lemma_times(list: Seq<Seq<Seq<char>>>, k: Seq<Seq<char>>, p: spec_fn(Seq<Seq<char>>) -> bool)
    requires
        forall|m: Seq<Seq<char>>| #[trigger] p(m) == (m == k),
    ensures
        times(list, k) == list.filter(p).len(),
    decreases list.len(),
{
    if list.len() > 0 {
        lemma_times(list.drop_last(), k, p);
        lemma_filter_step(list, p);
    } else {
        lemma_filter_empty(list, p);
    }
}

/// The count of an edge is how often its file mentions the type in that relation, and no two
/// edges have the same ends and the same relation.
pub proof fn an_edge_counts_its_mentions(
    edges: Seq<TypeGraphEdgeView>,
    mentions: Seq<Seq<Seq<char>>>,
    i: int,
    j: int,
)
    requires
        folds(edges, mentions),
        0 <= i < j < edges.len(),
    ensures
        edges[i].count == mentions.filter(
            |m: Seq<Seq<char>>| m == seq![edges[i].from@, edges[i].to@, edges[i].relation@],
        ).len(),
        edges[i].count > 0,
        !(edges[i].from@ == edges[j].from@ && edges[i].to@ == edges[j].to@ && edges[i].relation@
            == edges[j].relation@),
{
    let k = seq![edges[i].from@, edges[i].to@, edges[i].relation@];
    assert(edges[i].key() =~= k);
    lemma_times(
        mentions,
        k,
        |m: Seq<Seq<char>>| m == seq![edges[i].from@, edges[i].to@, edges[i].relation@],
    );
    assert(crate::text::keys_lt(edges[i].key(), edges[j].key()));
    if edges[i].from@ == edges[j].from@ && edges[i].to@ == edges[j].to@ && edges[i].relation@
        == edges[j].relation@ {
        assert(edges[i].key() =~= edges[j].key());
        crate::text::lemma_keys_lt_irreflexive(edges[i].key());
    }
}

proof fn lemma_in_concat<A>(a: Seq<A>, b: Seq<A>, x: A)
    ensures
        (a + b).contains(x) <==> a.contains(x) || b.contains(x),
{
    if a.contains(x) {
        let k = choose|k: int| 0 <= k < a.len() && a[k] == x;
        assert((a + b)[k] == x);
    }
    if b.contains(x) {
        let k = choose|k: int| 0 <= k < b.len() && b[k] == x;
        assert((a + b)[a.len() + k] == x);
    }
    if (a + b).contains(x) {
        let k = choose|k: int| 0 <= k < (a + b).len() && (a + b)[k] == x;
        if k < a.len() {
            assert(a[k] == x);
        } else {
            assert(b[k - a.len()] == x);
        }
    }
}

/// The type-defs in scope are nodes, and with the edges of instances the instances that have
/// one; no other file is.
pub proof fn the_nodes_are_the_types_and_what_claims_them(
    kb: KnowledgeBase,
    repo: Option<Seq<char>>,
    scope: Scope,
    classes: EdgeClasses,
    i: int,
)
    requires
        0 <= i < kb.catalog@.len(),
    ensures
        all_nodes(kb, repo, scope, classes).contains(i) <==> (kb.catalog@[i].kind
            == FileKind::TypeDef && in_scope(kb.repos@, repo, scope, kb.catalog@[i].path@)) || (
        classes.instance_of && claim_edges(
            kb,
            type_nodes(kb, repo, scope),
            repo,
            scope,
            i,
        ).len() > 0),
{
    let types = type_nodes(kb, repo, scope);
    let n = kb.catalog@.len() as int;
    lemma_chosen_iff(
        |i: int|
            kb.catalog@[i].kind == FileKind::TypeDef && in_scope(
                kb.repos@,
                repo,
                scope,
                kb.catalog@[i].path@,
            ),
        n,
        i,
    );
    lemma_chosen_iff(|i: int| claim_edges(kb, types, repo, scope, i).len() > 0, n, i);
    let rest = if classes.instance_of {
        claiming(kb, types, repo, scope)
    } else {
        Seq::empty()
    };
    lemma_in_concat(types, rest, i);
}

/// A node is told with its own path, the repo that owns it and its role.
pub proof fn a_type_node_is_told_of_its_file(kb: KnowledgeBase, nodes: Seq<int>, k: int)
    requires
        0 <= k < nodes.len(),
    ensures
        type_node_rows(kb, nodes).len() == nodes.len(),
        type_node_rows(kb, nodes)[k].path == kb.catalog@[nodes[k]].path@,
        type_node_rows(kb, nodes)[k].repo == owner_name(kb.repos@, kb.catalog@[nodes[k]].path@),
        type_node_rows(kb, nodes)[k].kind == kb.catalog@[nodes[k]].served@,
{
}

} // verus!
