//! The shape of the reference graph in numbers.

use crate::graph::nodes::{edges_of, edges_wf, graph_edges, graph_nodes, ints, nodes_of, structural, Edge};
use crate::model::{KnowledgeBase, Scope};
use crate::sorting::{sort, sorted, Ranked};
use crate::text::{is_at_most, lemma_text_le_total, lemma_text_le_transitive, opt_view, text_le};
use crate::union_find::UnionFind;
use vstd::prelude::*;

verus! {

/// How many edges point at node `i`.
pub open spec fn in_degree(edges: Seq<Edge>, i: int) -> nat
    decreases edges.len(),
{
    if edges.len() == 0 {
        0
    } else {
        in_degree(edges.drop_last(), i) + if edges.last().to == i {
            1nat
        } else {
            0
        }
    }
}

/// How many edges start at node `i`.
pub open spec fn out_degree(edges: Seq<Edge>, i: int) -> nat
    decreases edges.len(),
{
    if edges.len() == 0 {
        0
    } else {
        out_degree(edges.drop_last(), i) + if edges.last().from == i {
            1nat
        } else {
            0
        }
    }
}

/// How many edges fill a typed slot.
pub open spec fn structural_count(kb: KnowledgeBase, edges: Seq<Edge>) -> nat
    decreases edges.len(),
{
    if edges.len() == 0 {
        0
    } else {
        structural_count(kb, edges.drop_last()) + if structural(kb, edges.last()) {
            1nat
        } else {
            0
        }
    }
}

/// Whether no edge leaves or enters the set `s`.
pub open spec fn closed(s: Set<int>, edges: Seq<Edge>) -> bool {
    forall|k: int|
        #![trigger edges[k]]
        0 <= k < edges.len() ==> s.contains(edges[k].from as int) == s.contains(edges[k].to as int)
}

/// Whether a chain of edges, each walked either way, leads from `a` to `b`: no
/// closed set holds one without the other.
pub open spec fn connected(edges: Seq<Edge>, a: int, b: int) -> bool {
    forall|s: Set<int>| #[trigger] closed(s, edges) ==> s.contains(a) == s.contains(b)
}

/// How many of the first `n` nodes are connected to node `i`, itself among them.
pub open spec fn island_size(edges: Seq<Edge>, i: int, n: int) -> nat
    decreases n,
{
    if n <= 0 {
        0
    } else {
        island_size(edges, i, n - 1) + if connected(edges, i, n - 1) {
            1nat
        } else {
            0
        }
    }
}

/// Whether node `i` lies on the island of an earlier node.
pub open spec fn reached_before(edges: Seq<Edge>, i: int) -> bool {
    exists|j: int| 0 <= j < i && #[trigger] connected(edges, j, i)
}

/// How many islands the first `n` nodes lie on. An island counts at its first
/// node.
pub open spec fn islands(edges: Seq<Edge>, n: int) -> nat
    decreases n,
{
    if n <= 0 {
        0
    } else {
        islands(edges, n - 1) + if reached_before(edges, n - 1) {
            0nat
        } else {
            1
        }
    }
}

/// How many of the first `n` nodes nothing points at.
pub open spec fn unreferenced(edges: Seq<Edge>, n: int) -> nat
    decreases n,
{
    if n <= 0 {
        0
    } else {
        unreferenced(edges, n - 1) + if in_degree(edges, n - 1) == 0 {
            1nat
        } else {
            0
        }
    }
}

/// How many of the first `n` nodes have no edge at all.
pub open spec fn isolated(edges: Seq<Edge>, n: int) -> nat
    decreases n,
{
    if n <= 0 {
        0
    } else {
        isolated(edges, n - 1) + if in_degree(edges, n - 1) == 0 && out_degree(edges, n - 1) == 0 {
            1nat
        } else {
            0
        }
    }
}

/// An orphan file, as the view lists it.
pub struct OrphanPath {
    pub path: String,
    /// `isolated` when the file has no edge at all, else `no_inbound`.
    pub kind: &'static str,
}

/// The contents of an [`OrphanPath`].
pub struct OrphanRow {
    pub path: Seq<char>,
    pub kind: Seq<char>,
}

impl View for OrphanPath {
    type V = OrphanRow;

    open spec fn view(&self) -> OrphanRow {
        OrphanRow { path: self.path@, kind: self.kind@ }
    }
}

impl Ranked for OrphanPath {
    open spec fn rank_le(&self, other: &Self) -> bool {
        text_le(self.path@, other.path@)
    }

    fn at_most(&self, other: &Self) -> (r: bool) {
        is_at_most(self.path.as_str(), other.path.as_str())
    }

    proof fn rank_total(a: &Self, b: &Self) {
        lemma_text_le_total(a.path@, b.path@);
    }

    proof fn rank_transitive(a: &Self, b: &Self, c: &Self) {
        lemma_text_le_transitive(a.path@, b.path@, c.path@);
    }
}

/// The orphans among the first `n` nodes, in node order.
pub open spec fn orphans_upto(
    kb: KnowledgeBase,
    nodes: Seq<int>,
    edges: Seq<Edge>,
    n: int,
) -> Seq<OrphanRow>
    decreases n,
{
    if n <= 0 {
        Seq::empty()
    } else {
        let before = orphans_upto(kb, nodes, edges, n - 1);
        if in_degree(edges, n - 1) != 0 {
            before
        } else {
            before.push(
                OrphanRow {
                    path: kb.catalog@[nodes[n - 1]].path@,
                    kind: if out_degree(edges, n - 1) == 0 {
                        "isolated"@
                    } else {
                        "no_inbound"@
                    },
                },
            )
        }
    }
}

/// `count` nodes have exactly `degree` edges on one side.
#[derive(Debug, Clone, Copy, PartialEq, Eq, Structural)]
pub struct DegreeBucket {
    pub degree: usize,
    pub count: usize,
}

/// How many times `d` stands in `degrees`.
pub open spec fn occurrences(degrees: Seq<nat>, d: nat) -> nat
    decreases degrees.len(),
{
    if degrees.len() == 0 {
        0
    } else {
        occurrences(degrees.drop_last(), d) + if degrees.last() == d {
            1nat
        } else {
            0
        }
    }
}

/// Whether `b` is the histogram of `degrees`: one bucket for each degree that
/// occurs, ascending, with the number of times that it occurs.
pub open spec fn is_histogram(b: Seq<DegreeBucket>, degrees: Seq<nat>) -> bool {
    &&& forall|i: int, j: int|
        #![trigger b[i], b[j]]
        0 <= i < j < b.len() ==> b[i].degree < b[j].degree
    &&& forall|i: int|
        #![trigger b[i]]
        0 <= i < b.len() ==> b[i].count > 0 && b[i].count == occurrences(
            degrees,
            b[i].degree as nat,
        )
    &&& forall|k: int|
        #![trigger degrees[k]]
        0 <= k < degrees.len() ==> has_bucket(b, degrees[k])
}

/// Whether a bucket counts the degree `d`.
pub open spec fn has_bucket(b: Seq<DegreeBucket>, d: nat) -> bool {
    exists|i: int| #![trigger b[i]] 0 <= i < b.len() && b[i].degree == d
}

/// A list of machine integers as naturals.
pub open spec fn nats(v: Seq<usize>) -> Seq<nat> {
    v.map_values(|x: usize| x as nat)
}

proof fn lemma_occurrences_bound(degrees: Seq<nat>, d: nat)
    ensures
        occurrences(degrees, d) <= degrees.len(),
        occurrences(degrees, d) > 0 <==> degrees.contains(d),
    decreases degrees.len(),
{
    if degrees.len() > 0 {
        let front = degrees.drop_last();
        lemma_occurrences_bound(front, d);
        if front.contains(d) {
            let k = choose|k: int| 0 <= k < front.len() && front[k] == d;
            assert(degrees[k] == d);
        }
        if degrees.last() == d {
            assert(degrees[degrees.len() - 1] == d);
        }
        if degrees.contains(d) && degrees.last() != d {
            let k = choose|k: int| 0 <= k < degrees.len() && degrees[k] == d;
            assert(front[k] == d);
        }
    }
}

/// The histogram of a list of degrees.
pub fn histogram(degrees: &Vec<usize>) -> (r: Vec<DegreeBucket>)
    ensures
        is_histogram(r@, nats(degrees@)),
{
    let mut b: Vec<DegreeBucket> = Vec::new();
    for k in 0..degrees.len()
        invariant
            is_histogram(b@, nats(degrees@.take(k as int))),
    {
        let d: usize = degrees[k];
        let ghost done = nats(degrees@.take(k as int));
        let ghost next = nats(degrees@.take(k + 1));
        let ghost before = b@;
        proof {
            assert(next =~= done.push(d as nat));
            assert(next.drop_last() =~= done);
            lemma_occurrences_bound(done, d as nat);
        }
        let mut i: usize = 0;
        while i < b.len() && b[i].degree < d
            invariant
                i <= b@.len(),
                forall|j: int| #![trigger b@[j]] 0 <= j < i ==> b@[j].degree < d,
            decreases b@.len() - i,
        {
            i += 1;
        }
        if i < b.len() && b[i].degree == d {
            let c: usize = b[i].count;
            assert(c == occurrences(done, d as nat));
            b.set(i, DegreeBucket { degree: d, count: c + 1 });
            assert forall|j: int| #![trigger next[j]] 0 <= j < next.len() implies has_bucket(
                b@,
                next[j],
            ) by {
                if j < done.len() {
                    assert(done[j] == next[j]);
                    let w = choose|w: int|
                        #![trigger before[w]]
                        0 <= w < before.len() && before[w].degree == done[j];
                    assert(b@[w].degree == next[j]);
                } else {
                    assert(b@[i as int].degree == next[j]);
                }
            }
        } else {
            proof {
                if done.contains(d as nat) {
                    let q = choose|q: int| 0 <= q < done.len() && done[q] == d as nat;
                    assert(has_bucket(before, done[q]));
                    let w = choose|w: int|
                        #![trigger before[w]]
                        0 <= w < before.len() && before[w].degree == d;
                    assert(before[w].degree == d);
                    assert(i < before.len());
                    assert(before[i as int].degree > d);
                    assert(false);
                }
            }
            b.insert(i, DegreeBucket { degree: d, count: 1 });
            let ghost bb = b@;
            proof {
                assert(bb == before.insert(i as int, DegreeBucket { degree: d, count: 1 }));
                assert forall|x: int, y: int|
                    #![trigger bb[x], bb[y]]
                    0 <= x < y < bb.len() implies bb[x].degree < bb[y].degree by {
                    let xo = if x < i { x } else { x - 1 };
                    let yo = if y < i { y } else { y - 1 };
                    if x == i as int {
                        assert(bb[y] == before[yo]);
                        assert(before[i as int].degree > d);
                    } else if y == i as int {
                        assert(bb[x] == before[x]);
                    } else {
                        assert(bb[x] == before[xo]);
                        assert(bb[y] == before[yo]);
                    }
                }
                assert forall|x: int| #![trigger bb[x]] 0 <= x < bb.len() implies bb[x].count > 0
                    && bb[x].count == occurrences(next, bb[x].degree as nat) by {
                    if x == i as int {
                    } else {
                        let xo = if x < i { x } else { x - 1 };
                        assert(bb[x] == before[xo]);
                        assert(before[xo].degree != d);
                    }
                }
                assert forall|j: int| #![trigger next[j]] 0 <= j < next.len() implies has_bucket(
                    bb,
                    next[j],
                ) by {
                    if j < done.len() {
                        assert(done[j] == next[j]);
                        let w = choose|w: int|
                            #![trigger before[w]]
                            0 <= w < before.len() && before[w].degree == done[j];
                        if w < i {
                            assert(bb[w].degree == next[j]);
                        } else {
                            assert(bb[w + 1].degree == next[j]);
                        }
                    } else {
                        assert(bb[i as int].degree == next[j]);
                    }
                }
            }
        }
    }
    assert(degrees@.take(degrees@.len() as int) =~= degrees@);
    b
}

proof fn lemma_degree_bound(edges: Seq<Edge>, i: int)
    ensures
        in_degree(edges, i) <= edges.len(),
        out_degree(edges, i) <= edges.len(),
    decreases edges.len(),
{
    if edges.len() > 0 {
        lemma_degree_bound(edges.drop_last(), i);
    }
}

/// The in-degrees and the out-degrees of `n` nodes.
pub fn degree_lists(edges: &Vec<Edge>, n: usize) -> (r: (Vec<usize>, Vec<usize>))
    requires
        forall|k: int|
            #![trigger edges@[k]]
            0 <= k < edges@.len() ==> edges@[k].from < n && edges@[k].to < n,
    ensures
        nats(r.0@) == in_degrees(edges@, n as nat),
        nats(r.1@) == out_degrees(edges@, n as nat),
{
    let mut ins: Vec<usize> = Vec::new();
    let mut outs: Vec<usize> = Vec::new();
    for i in 0..n
        invariant
            ins@.len() == i,
            outs@.len() == i,
            forall|j: int| #![trigger ins@[j]] 0 <= j < i ==> ins@[j] == 0,
            forall|j: int| #![trigger outs@[j]] 0 <= j < i ==> outs@[j] == 0,
    {
        ins.push(0);
        outs.push(0);
    }
    for k in 0..edges.len()
        invariant
            ins@.len() == n,
            outs@.len() == n,
            forall|k: int|
                #![trigger edges@[k]]
                0 <= k < edges@.len() ==> edges@[k].from < n && edges@[k].to < n,
            forall|j: int|
                #![trigger ins@[j]]
                0 <= j < n ==> ins@[j] == in_degree(edges@.take(k as int), j),
            forall|j: int|
                #![trigger outs@[j]]
                0 <= j < n ==> outs@[j] == out_degree(edges@.take(k as int), j),
    {
        let e: Edge = edges[k];
        let ghost done = edges@.take(k as int);
        let ghost next = edges@.take(k + 1);
        proof {
            assert(next.drop_last() =~= done);
            assert(next.last() == e);
            lemma_degree_bound(done, e.to as int);
            lemma_degree_bound(done, e.from as int);
        }
        let a: usize = ins[e.to];
        ins.set(e.to, a + 1);
        let b: usize = outs[e.from];
        outs.set(e.from, b + 1);
    }
    assert(edges@.take(edges@.len() as int) =~= edges@);
    assert(nats(ins@) =~= in_degrees(edges@, n as nat));
    assert(nats(outs@) =~= out_degrees(edges@, n as nat));
    (ins, outs)
}

proof fn lemma_connected_grows(edges: Seq<Edge>, k: int, a: int, b: int)
    requires
        0 <= k < edges.len(),
        connected(edges.take(k), a, b),
    ensures
        connected(edges.take(k + 1), a, b),
{
    let less = edges.take(k);
    let more = edges.take(k + 1);
    assert forall|s: Set<int>| #[trigger] closed(s, more) implies s.contains(a) == s.contains(b) by {
        assert forall|j: int| #![trigger less[j]] 0 <= j < less.len() implies s.contains(
            less[j].from as int,
        ) == s.contains(less[j].to as int) by {
            assert(more[j] == less[j]);
        }
        assert(closed(s, less));
    }
}

proof fn lemma_connected_edge(edges: Seq<Edge>, k: int)
    requires
        0 <= k < edges.len(),
    ensures
        connected(edges, edges[k].from as int, edges[k].to as int),
{
    assert forall|s: Set<int>| #[trigger] closed(s, edges) implies s.contains(edges[k].from as int)
        == s.contains(edges[k].to as int) by {}
}

/// Being connected is an equivalence.
pub proof fn connected_is_equivalence(edges: Seq<Edge>, a: int, b: int, c: int)
    ensures
        connected(edges, a, a),
        connected(edges, a, b) ==> connected(edges, b, a),
        connected(edges, a, b) && connected(edges, b, c) ==> connected(edges, a, c),
{
}

/// The partition of `n` nodes into islands.
fn island_partition(edges: &Vec<Edge>, n: usize) -> (r: UnionFind)
    requires
        forall|k: int|
            #![trigger edges@[k]]
            0 <= k < edges@.len() ==> edges@[k].from < n && edges@[k].to < n,
    ensures
        r.wf(),
        r.len() == n,
        forall|a: int, b: int|
            #![trigger r.joined(a, b)]
            0 <= a < n && 0 <= b < n ==> r.joined(a, b) == connected(edges@, a, b),
{
    let mut uf = UnionFind::new(n);
    for k in 0..edges.len()
        invariant
            uf.wf(),
            uf.len() == n,
            forall|k: int|
                #![trigger edges@[k]]
                0 <= k < edges@.len() ==> edges@[k].from < n && edges@[k].to < n,
            forall|a: int, b: int|
                #![trigger uf.joined(a, b)]
                0 <= a < n && 0 <= b < n && uf.joined(a, b) ==> connected(
                    edges@.take(k as int),
                    a,
                    b,
                ),
            forall|j: int|
                #![trigger edges@[j]]
                0 <= j < k ==> uf.joined(edges@[j].from as int, edges@[j].to as int),
    {
        let e: Edge = edges[k];
        let ghost before = uf;
        uf.union(e.from, e.to);
        proof {
            let more = edges@.take(k + 1);
            let f = e.from as int;
            let t = e.to as int;
            assert(more[k as int] == e);
            lemma_connected_edge(more, k as int);
            assert forall|a: int, b: int|
                #![trigger uf.joined(a, b)]
                0 <= a < n && 0 <= b < n && uf.joined(a, b) implies connected(more, a, b) by {
                if before.joined(a, b) {
                    lemma_connected_grows(edges@, k as int, a, b);
                } else if before.joined(a, f) && before.joined(t, b) {
                    lemma_connected_grows(edges@, k as int, a, f);
                    lemma_connected_grows(edges@, k as int, t, b);
                    connected_is_equivalence(more, a, f, t);
                    connected_is_equivalence(more, a, t, b);
                } else {
                    assert(before.joined(a, t) && before.joined(f, b));
                    lemma_connected_grows(edges@, k as int, a, t);
                    lemma_connected_grows(edges@, k as int, f, b);
                    connected_is_equivalence(more, f, t, t);
                    connected_is_equivalence(more, a, t, f);
                    connected_is_equivalence(more, a, f, b);
                }
            }
            assert forall|j: int| #![trigger edges@[j]] 0 <= j < k + 1 implies uf.joined(
                edges@[j].from as int,
                edges@[j].to as int,
            ) by {
                let x = edges@[j].from as int;
                let y = edges@[j].to as int;
                if j < k {
                    assert(before.joined(x, y));
                } else {
                    assert(before.joined(f, f) && before.joined(t, t));
                }
            }
        }
    }
    proof {
        assert(edges@.take(edges@.len() as int) =~= edges@);
        assert forall|a: int, b: int|
            #![trigger uf.joined(a, b)]
            0 <= a < n && 0 <= b < n && connected(edges@, a, b) implies uf.joined(a, b) by {
            let s = Set::new(|x: int| 0 <= x < n && uf.joined(a, x));
            assert(closed(s, edges@)) by {
                assert forall|j: int| #![trigger edges@[j]] 0 <= j < edges@.len() implies s.contains(
                    edges@[j].from as int,
                ) == s.contains(edges@[j].to as int) by {
                    assert(uf.joined(edges@[j].from as int, edges@[j].to as int));
                }
            }
            assert(s.contains(a));
        }
    }
    uf
}

pub struct OrphansView {
    pub no_inbound: usize,
    pub isolated: usize,
    pub paths: Option<Vec<OrphanPath>>,
}

pub struct DegreeView {
    pub inbound: Vec<DegreeBucket>,
    pub out: Vec<DegreeBucket>,
}

/// The scalar summary of the reference graph at a scope. The density is the
/// quotient of `edge_count` and `node_count`.
pub struct GraphShapeView {
    pub repo: Option<String>,
    pub scope: &'static str,
    pub node_count: usize,
    pub edge_count: usize,
    pub edges_structural: usize,
    pub edges_navigational: usize,
    pub components: usize,
    pub largest_component: usize,
    pub orphans: OrphansView,
    pub degree: DegreeView,
}

/// The in-degrees of the first `n` nodes.
pub open spec fn in_degrees(edges: Seq<Edge>, n: nat) -> Seq<nat> {
    Seq::new(n, |i: int| in_degree(edges, i))
}

/// The out-degrees of the first `n` nodes.
pub open spec fn out_degrees(edges: Seq<Edge>, n: nat) -> Seq<nat> {
    Seq::new(n, |i: int| out_degree(edges, i))
}

/// Whether `m` is the size of the largest island among `n` nodes, 0 when there
/// is none.
pub open spec fn is_largest_island(m: nat, edges: Seq<Edge>, n: int) -> bool {
    &&& forall|i: int| 0 <= i < n ==> #[trigger] island_size(edges, i, n) <= m
    &&& n == 0 ==> m == 0
    &&& n > 0 ==> exists|i: int| 0 <= i < n && #[trigger] island_size(edges, i, n) == m
}

proof fn lemma_island_size_bound(edges: Seq<Edge>, i: int, n: int)
    requires
        0 <= n,
    ensures
        island_size(edges, i, n) <= n,
        island_size(edges, i, n) == 0 <==> forall|j: int|
            0 <= j < n ==> !#[trigger] connected(edges, i, j),
    decreases n,
{
    if n > 0 {
        lemma_island_size_bound(edges, i, n - 1);
        if connected(edges, i, n - 1) {
            assert(connected(edges, i, n - 1));
        }
    }
}

proof fn lemma_island_size_same(edges: Seq<Edge>, a: int, b: int, n: int)
    requires
        connected(edges, a, b),
    ensures
        island_size(edges, a, n) == island_size(edges, b, n),
    decreases n,
{
    if n > 0 {
        lemma_island_size_same(edges, a, b, n - 1);
        connected_is_equivalence(edges, a, b, n - 1);
        connected_is_equivalence(edges, b, a, n - 1);
    }
}

/// The number of islands and the size of the largest.
pub fn count_islands(edges: &Vec<Edge>, n: usize) -> (r: (usize, usize))
    requires
        forall|k: int|
            #![trigger edges@[k]]
            0 <= k < edges@.len() ==> edges@[k].from < n && edges@[k].to < n,
    ensures
        r.0 == islands(edges@, n as int),
        is_largest_island(r.1 as nat, edges@, n as int),
{
    let mut uf = island_partition(edges, n);
    let ghost same = uf;
    let mut size: Vec<usize> = Vec::new();
    for i in 0..n
        invariant
            size@.len() == i,
            forall|j: int| #![trigger size@[j]] 0 <= j < i ==> size@[j] == 0,
    {
        size.push(0);
    }
    let mut count: usize = 0;
    for i in 0..n
        invariant
            uf.wf(),
            uf.len() == n,
            same.wf(),
            same.len() == n,
            uf.classes() == same.classes(),
            size@.len() == n,
            forall|a: int, b: int|
                #![trigger same.joined(a, b)]
                0 <= a < n && 0 <= b < n ==> same.joined(a, b) == connected(edges@, a, b),
            forall|j: int|
                #![trigger size@[j]]
                0 <= j < n && same.classes()[j] == j ==> size@[j] == island_size(
                    edges@,
                    j,
                    i as int,
                ),
            count == islands(edges@, i as int),
            count <= i,
    {
        let root: usize = uf.find(i);
        proof {
            same.lemma_class_names_itself(i as int);
            assert(same.joined(root as int, i as int));
            lemma_island_size_bound(edges@, root as int, i as int);
        }
        let c: usize = size[root];
        if c == 0 {
            count += 1;
            proof {
                assert forall|j: int| 0 <= j < i implies !#[trigger] connected(
                    edges@,
                    j,
                    i as int,
                ) by {
                    assert(!connected(edges@, root as int, j));
                    connected_is_equivalence(edges@, j, i as int, root as int);
                    connected_is_equivalence(edges@, root as int, i as int, j);
                    connected_is_equivalence(edges@, i as int, root as int, j);
                    connected_is_equivalence(edges@, root as int, j, j);
                    connected_is_equivalence(edges@, j, root as int, j);
                }
            }
        } else {
            proof {
                let j = choose|j: int| 0 <= j < i && connected(edges@, root as int, j);
                connected_is_equivalence(edges@, root as int, j, i as int);
                connected_is_equivalence(edges@, j, root as int, i as int);
                assert(connected(edges@, j, i as int));
            }
        }
        size.set(root, c + 1);
        proof {
            assert forall|j: int|
                #![trigger size@[j]]
                0 <= j < n && same.classes()[j] == j implies size@[j] == island_size(
                edges@,
                j,
                i + 1,
            ) by {
                assert(same.joined(j, i as int) == connected(edges@, j, i as int));
            }
        }
    }
    let mut largest: usize = 0;
    let ghost mut at: int = 0;
    for i in 0..n
        invariant
            uf.wf(),
            uf.len() == n,
            same.wf(),
            same.len() == n,
            uf.classes() == same.classes(),
            size@.len() == n,
            forall|a: int, b: int|
                #![trigger same.joined(a, b)]
                0 <= a < n && 0 <= b < n ==> same.joined(a, b) == connected(edges@, a, b),
            forall|j: int|
                #![trigger size@[j]]
                0 <= j < n && same.classes()[j] == j ==> size@[j] == island_size(
                    edges@,
                    j,
                    n as int,
                ),
            forall|j: int| 0 <= j < i ==> #[trigger] island_size(edges@, j, n as int) <= largest,
            i == 0 ==> largest == 0,
            i > 0 ==> 0 <= at < n && island_size(edges@, at, n as int) == largest,
    {
        let root: usize = uf.find(i);
        proof {
            same.lemma_class_names_itself(i as int);
            assert(same.joined(root as int, i as int));
            lemma_island_size_same(edges@, root as int, i as int, n as int);
        }
        if i == 0 || size[root] > largest {
            largest = size[root];
            proof {
                at = i as int;
            }
        }
    }
    (count, largest)
}

/// How many edges fill a typed slot.
fn count_structural(kb: &KnowledgeBase, edges: &Vec<Edge>, n: usize) -> (r: usize)
    requires
        edges_wf(*kb, edges@, n as nat),
    ensures
        r == structural_count(*kb, edges@),
        r <= edges@.len(),
{
    let mut c: usize = 0;
    for k in 0..edges.len()
        invariant
            edges_wf(*kb, edges@, n as nat),
            c == structural_count(*kb, edges@.take(k as int)),
            c <= k,
    {
        let e: Edge = edges[k];
        proof {
            let next = edges@.take(k + 1);
            assert(next.drop_last() =~= edges@.take(k as int));
            assert(next.last() == e);
        }
        if kb.backlinks[e.list].edges[e.item].slot.is_some() {
            c += 1;
        }
    }
    assert(edges@.take(edges@.len() as int) =~= edges@);
    c
}

/// The rows of a list of orphans.
pub open spec fn orphan_rows(v: Seq<OrphanPath>) -> Seq<OrphanRow> {
    v.map_values(|o: OrphanPath| o@)
}

/// The orphans with their kind, by path, and how many there are of each kind.
fn find_orphans(
    kb: &KnowledgeBase,
    nodes: &Vec<usize>,
    edges: Ghost<Seq<Edge>>,
    ins: &Vec<usize>,
    outs: &Vec<usize>,
) -> (r: (usize, usize, Vec<OrphanPath>))
    requires
        forall|k: int| #![trigger nodes@[k]] 0 <= k < nodes@.len() ==> nodes@[k] < kb.catalog@.len(),
        nats(ins@) == in_degrees(edges@, nodes@.len()),
        nats(outs@) == out_degrees(edges@, nodes@.len()),
    ensures
        r.0 == unreferenced(edges@, nodes@.len() as int),
        r.1 == isolated(edges@, nodes@.len() as int),
        orphan_rows(r.2@) == orphans_upto(*kb, ints(nodes@), edges@, nodes@.len() as int),
{
    let mut no_inbound: usize = 0;
    let mut alone: usize = 0;
    let mut rows: Vec<OrphanPath> = Vec::new();
    assert(orphan_rows(rows@) =~= Seq::empty());
    assert(nats(ins@).len() == ins@.len() && nats(outs@).len() == outs@.len());
    for i in 0..nodes.len()
        invariant
            forall|k: int|
                #![trigger nodes@[k]]
                0 <= k < nodes@.len() ==> nodes@[k] < kb.catalog@.len(),
            nats(ins@) == in_degrees(edges@, nodes@.len()),
            nats(outs@) == out_degrees(edges@, nodes@.len()),
            ins@.len() == nodes@.len(),
            outs@.len() == nodes@.len(),
            no_inbound == unreferenced(edges@, i as int),
            alone == isolated(edges@, i as int),
            no_inbound <= i,
            alone <= i,
            orphan_rows(rows@) == orphans_upto(*kb, ints(nodes@), edges@, i as int),
    {
        proof {
            assert(nats(ins@)[i as int] == in_degree(edges@, i as int));
            assert(nats(outs@)[i as int] == out_degree(edges@, i as int));
        }
        if ins[i] == 0 {
            no_inbound += 1;
            let kind: &'static str = if outs[i] == 0 {
                alone += 1;
                "isolated"
            } else {
                "no_inbound"
            };
            let ghost before = rows@;
            let row = OrphanPath { path: kb.catalog[nodes[i]].path.clone(), kind };
            rows.push(row);
            assert(orphan_rows(rows@) =~= orphan_rows(before).push(row@));
            assert(ints(nodes@)[i as int] == nodes@[i as int]);
        }
    }
    (no_inbound, alone, rows)
}

/// Whether `v` is the shape of the graph with these nodes and edges.
pub open spec fn is_shape(
    v: GraphShapeView,
    kb: KnowledgeBase,
    nodes: Seq<int>,
    edges: Seq<Edge>,
    orphan_paths: bool,
) -> bool {
    let n = nodes.len();
    &&& v.node_count == n
    &&& v.edge_count == edges.len()
    &&& v.edges_structural == structural_count(kb, edges)
    &&& v.edges_navigational == edges.len() - structural_count(kb, edges)
    &&& v.components == islands(edges, n as int)
    &&& is_largest_island(v.largest_component as nat, edges, n as int)
    &&& v.orphans.no_inbound == unreferenced(edges, n as int)
    &&& v.orphans.isolated == isolated(edges, n as int)
    &&& (v.orphans.paths is Some) == orphan_paths
    &&& v.orphans.paths matches Some(rows) ==> sorted(rows@) && orphan_rows(rows@).to_multiset()
        == orphans_upto(kb, nodes, edges, n as int).to_multiset()
    &&& is_histogram(v.degree.inbound@, in_degrees(edges, n))
    &&& is_histogram(v.degree.out@, out_degrees(edges, n))
}

proof fn lemma_rows_multiset(a: Seq<OrphanPath>, b: Seq<OrphanPath>)
    requires
        a.to_multiset() == b.to_multiset(),
    ensures
        orphan_rows(a).to_multiset() == orphan_rows(b).to_multiset(),
{
    crate::sorting::lemma_map_multiset(a, b, |o: OrphanPath| o@);
}

/// The scalar summary of the reference graph: the files in scope, the references
/// between them, the islands that they form, the files that nothing points at
/// and the degree distributions.
pub fn graph_shape_view(
    kb: &KnowledgeBase,
    repo: &Option<String>,
    scope: Scope,
    orphan_paths: bool,
) -> (r: GraphShapeView)
    ensures
        r.repo == *repo,
        r.scope@ == scope.label_spec(),
        is_shape(
            r,
            *kb,
            nodes_of(*kb, opt_view(*repo), scope),
            edges_of(*kb, nodes_of(*kb, opt_view(*repo), scope)),
            orphan_paths,
        ),
{
    let nodes = graph_nodes(kb, repo, scope);
    let edges = graph_edges(kb, &nodes);
    let n: usize = nodes.len();
    assert(ints(nodes@).len() == n);
    let structural_edges: usize = count_structural(kb, &edges, n);
    let (components, largest) = count_islands(&edges, n);
    let (ins, outs) = degree_lists(&edges, n);
    let (no_inbound, alone, rows) = find_orphans(kb, &nodes, Ghost(edges@), &ins, &outs);
    let paths = if orphan_paths {
        let by_path = sort(rows);
        proof {
            lemma_rows_multiset(by_path@, rows@);
        }
        Some(by_path)
    } else {
        None
    };
    GraphShapeView {
        repo: crate::text::copy_opt(repo),
        scope: scope.label(),
        node_count: n,
        edge_count: edges.len(),
        edges_structural: structural_edges,
        edges_navigational: edges.len() - structural_edges,
        components,
        largest_component: largest,
        orphans: OrphansView { no_inbound, isolated: alone, paths },
        degree: DegreeView { inbound: histogram(&ins), out: histogram(&outs) },
    }
}

} // verus!
