//! How many of a list there are.

use crate::diagnostics::text_count;
use crate::graph::hubs::slot_count;
use crate::graph::links::structural_in;
use crate::graph::nodes::Edge;
use crate::graph::shape::{
    in_degree, isolated, occurrences, out_degree, structural_count, unreferenced,
};
use crate::model::{Backlink, KnowledgeBase};
use vstd::prelude::*;

verus! {

pub(crate) proof fn lemma_filter_step<A>(s: Seq<A>, p: spec_fn(A) -> bool)
    requires
        s.len() > 0,
    ensures
        s.filter(p).len() == s.drop_last().filter(p).len() + (if p(s.last()) {
            1int
        } else {
            0int
        }),
{
    reveal(Seq::filter);
}

pub(crate) proof fn lemma_filter_empty<A>(s: Seq<A>, p: spec_fn(A) -> bool)
    requires
        s.len() == 0,
    ensures
        s.filter(p).len() == 0,
{
    reveal(Seq::filter);
}

proof fn lemma_slots(edges: Seq<Backlink>, p: spec_fn(Backlink) -> bool)
    requires
        forall|b: Backlink| #[trigger] p(b) == (b.slot is Some),
    ensures
        slot_count(edges) == edges.filter(p).len(),
    decreases edges.len(),
{
    if edges.len() > 0 {
        lemma_slots(edges.drop_last(), p);
        lemma_filter_step(edges, p);
    } else {
        lemma_filter_empty(edges, p);
    }
}

/// The structural references of a file are those that fill a slot, and the others are
/// navigational.
pub proof fn a_reference_that_fills_a_slot_is_structural(edges: Seq<Backlink>)
    ensures
        slot_count(edges) == edges.filter(|b: Backlink| b.slot is Some).len(),
{
    lemma_slots(edges, |b: Backlink| b.slot is Some);
}

/// The reference that an edge stands for.
pub open spec fn link_of(kb: KnowledgeBase, e: Edge) -> Backlink {
    kb.backlinks@[e.list as int].edges@[e.item as int]
}

proof fn lemma_structural(kb: KnowledgeBase, edges: Seq<Edge>, p: spec_fn(Edge) -> bool)
    requires
        forall|e: Edge| #[trigger] p(e) == (link_of(kb, e).slot is Some),
    ensures
        structural_count(kb, edges) == edges.filter(p).len(),
    decreases edges.len(),
{
    if edges.len() > 0 {
        lemma_structural(kb, edges.drop_last(), p);
        lemma_filter_step(edges, p);
    } else {
        lemma_filter_empty(edges, p);
    }
}

proof fn lemma_structural_in(
    kb: KnowledgeBase,
    edges: Seq<Edge>,
    i: int,
    p: spec_fn(Edge) -> bool,
)
    requires
        forall|e: Edge| #[trigger] p(e) == (e.to == i && link_of(kb, e).slot is Some),
    ensures
        structural_in(kb, edges, i) == edges.filter(p).len(),
    decreases edges.len(),
{
    if edges.len() > 0 {
        lemma_structural_in(kb, edges.drop_last(), i, p);
        lemma_filter_step(edges, p);
    } else {
        lemma_filter_empty(edges, p);
    }
}

proof fn lemma_in(edges: Seq<Edge>, i: int, p: spec_fn(Edge) -> bool)
    requires
        forall|e: Edge| #[trigger] p(e) == (e.to == i),
    ensures
        in_degree(edges, i) == edges.filter(p).len(),
    decreases edges.len(),
{
    if edges.len() > 0 {
        lemma_in(edges.drop_last(), i, p);
        lemma_filter_step(edges, p);
    } else {
        lemma_filter_empty(edges, p);
    }
}

proof fn lemma_out(edges: Seq<Edge>, i: int, p: spec_fn(Edge) -> bool)
    requires
        forall|e: Edge| #[trigger] p(e) == (e.from == i),
    ensures
        out_degree(edges, i) == edges.filter(p).len(),
    decreases edges.len(),
{
    if edges.len() > 0 {
        lemma_out(edges.drop_last(), i, p);
        lemma_filter_step(edges, p);
    } else {
        lemma_filter_empty(edges, p);
    }
}

/// The degrees of a node count the edges that lead to it and that leave it, and the
/// structural ones among the edges are those whose reference fills a slot.
pub proof fn the_degrees_count_the_edges(kb: KnowledgeBase, edges: Seq<Edge>, i: int)
    ensures
        in_degree(edges, i) == edges.filter(|e: Edge| e.to == i).len(),
        out_degree(edges, i) == edges.filter(|e: Edge| e.from == i).len(),
        structural_count(kb, edges) == edges.filter(
            |e: Edge| link_of(kb, e).slot is Some,
        ).len(),
        structural_in(kb, edges, i) == edges.filter(
            |e: Edge| e.to == i && link_of(kb, e).slot is Some,
        ).len(),
{
    lemma_in(edges, i, |e: Edge| e.to == i);
    lemma_out(edges, i, |e: Edge| e.from == i);
    lemma_structural(kb, edges, |e: Edge| link_of(kb, e).slot is Some);
    lemma_structural_in(kb, edges, i, |e: Edge| e.to == i && link_of(kb, e).slot is Some);
}

/// No edge leads to a node of degree zero, and one does to any other.
pub proof fn a_node_without_edges_has_degree_zero(edges: Seq<Edge>, i: int)
    ensures
        in_degree(edges, i) == 0 <==> forall|k: int|
            #![trigger edges[k]]
            0 <= k < edges.len() ==> edges[k].to != i,
        out_degree(edges, i) == 0 <==> forall|k: int|
            #![trigger edges[k]]
            0 <= k < edges.len() ==> edges[k].from != i,
    decreases edges.len(),
{
    if edges.len() > 0 {
        let front = edges.drop_last();
        a_node_without_edges_has_degree_zero(front, i);
        assert(forall|k: int| #![trigger edges[k]] 0 <= k < front.len() ==> edges[k] == front[k]);
        assert(forall|k: int| #![trigger front[k]] 0 <= k < front.len() ==> edges[k] == front[k]);
        assert(edges[edges.len() - 1] == edges.last());
    }
}

proof fn lemma_unreferenced(edges: Seq<Edge>, n: int, p: spec_fn(int) -> bool)
    requires
        0 <= n,
        forall|i: int|
            #![trigger p(i)]
            p(i) == forall|k: int|
                #![trigger edges[k]]
                0 <= k < edges.len() ==> edges[k].to != i,
    ensures
        unreferenced(edges, n) == Seq::new(n as nat, |i: int| i).filter(p).len(),
    decreases n,
{
    let all = Seq::new(n as nat, |i: int| i);
    if n > 0 {
        lemma_unreferenced(edges, n - 1, p);
        assert(all.drop_last() =~= Seq::new((n - 1) as nat, |i: int| i));
        lemma_filter_step(all, p);
        a_node_without_edges_has_degree_zero(edges, n - 1);
        assert(all.last() == n - 1);
        assert(p(n - 1) == (in_degree(edges, n - 1) == 0));
    } else {
        lemma_filter_empty(all, p);
    }
}

proof fn lemma_isolated(edges: Seq<Edge>, n: int, p: spec_fn(int) -> bool)
    requires
        0 <= n,
        forall|i: int|
            #![trigger p(i)]
            p(i) == forall|k: int|
                #![trigger edges[k]]
                0 <= k < edges.len() ==> edges[k].to != i && edges[k].from != i,
    ensures
        isolated(edges, n) == Seq::new(n as nat, |i: int| i).filter(p).len(),
    decreases n,
{
    let all = Seq::new(n as nat, |i: int| i);
    if n > 0 {
        lemma_isolated(edges, n - 1, p);
        assert(all.drop_last() =~= Seq::new((n - 1) as nat, |i: int| i));
        lemma_filter_step(all, p);
        a_node_without_edges_has_degree_zero(edges, n - 1);
        assert(all.last() == n - 1);
        let none = in_degree(edges, n - 1) == 0 && out_degree(edges, n - 1) == 0;
        if none {
            assert(forall|k: int|
                #![trigger edges[k]]
                0 <= k < edges.len() ==> edges[k].to != n - 1 && edges[k].from != n - 1);
        }
        assert(p(n - 1) == none);
    } else {
        lemma_filter_empty(all, p);
    }
}

/// The unreferenced files are those that no edge leads to, and the isolated ones those
/// that no edge touches.
pub proof fn orphans_are_what_no_edge_leads_to(edges: Seq<Edge>, n: nat)
    ensures
        unreferenced(edges, n as int) == Seq::new(n, |i: int| i).filter(
            |i: int|
                forall|k: int|
                    #![trigger edges[k]]
                    0 <= k < edges.len() ==> edges[k].to != i,
        ).len(),
        isolated(edges, n as int) == Seq::new(n, |i: int| i).filter(
            |i: int|
                forall|k: int|
                    #![trigger edges[k]]
                    0 <= k < edges.len() ==> edges[k].to != i && edges[k].from != i,
        ).len(),
{
    lemma_unreferenced(
        edges,
        n as int,
        |i: int|
            forall|k: int|
                #![trigger edges[k]]
                0 <= k < edges.len() ==> edges[k].to != i,
    );
    lemma_isolated(
        edges,
        n as int,
        |i: int|
            forall|k: int|
                #![trigger edges[k]]
                0 <= k < edges.len() ==> edges[k].to != i && edges[k].from != i,
    );
}

proof fn lemma_occurrences(degrees: Seq<nat>, d: nat, p: spec_fn(nat) -> bool)
    requires
        forall|x: nat| #[trigger] p(x) == (x == d),
    ensures
        occurrences(degrees, d) == degrees.filter(p).len(),
    decreases degrees.len(),
{
    if degrees.len() > 0 {
        lemma_occurrences(degrees.drop_last(), d, p);
        lemma_filter_step(degrees, p);
    } else {
        lemma_filter_empty(degrees, p);
    }
}

proof fn lemma_texts(list: Seq<Seq<char>>, t: Seq<char>, p: spec_fn(Seq<char>) -> bool)
    requires
        forall|x: Seq<char>| #[trigger] p(x) == (x == t),
    ensures
        text_count(list, t) == list.filter(p).len(),
    decreases list.len(),
{
    if list.len() > 0 {
        lemma_texts(list.drop_last(), t, p);
        lemma_filter_step(list, p);
    } else {
        lemma_filter_empty(list, p);
    }
}

/// A bucket of a histogram counts the nodes of its degree, and a count by label the
/// labels.
pub proof fn a_bucket_counts_what_falls_into_it(
    degrees: Seq<nat>,
    d: nat,
    list: Seq<Seq<char>>,
    t: Seq<char>,
)
    ensures
        occurrences(degrees, d) == degrees.filter(|x: nat| x == d).len(),
        text_count(list, t) == list.filter(|x: Seq<char>| x == t).len(),
{
    lemma_occurrences(degrees, d, |x: nat| x == d);
    lemma_texts(list, t, |x: Seq<char>| x == t);
}

} // verus!
