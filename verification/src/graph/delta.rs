//! What changed between two payloads.

use crate::graph::links::{edge_views, GraphEdgeView, GraphNodeView, LinkGraphView};
use crate::graph::nodes::chosen;
use crate::sorting::{sorted, Ranked};
use crate::text::{
    copy_opt, keys_before, keys_le, keys_lt, lemma_keys_lt_irreflexive,
    lemma_keys_lt_total, lemma_keys_lt_transitive, same, same_opt,
};
use vstd::multiset::Multiset;
use vstd::prelude::*;

verus! {

/// An item that a payload lists under an identity.
pub trait Listed: Sized {
    /// What two payloads recognise the item by.
    spec fn same_id(&self, other: &Self) -> bool;

    /// Whether the two are the same in every part.
    spec fn same_record(&self, other: &Self) -> bool;

    fn is_same_id(&self, other: &Self) -> (r: bool)
        ensures
            r == self.same_id(other),
    ;

    fn is_same_record(&self, other: &Self) -> (r: bool)
        ensures
            r == self.same_record(other),
    ;

    fn duplicate(&self) -> (r: Self)
        ensures
            r == *self,
    ;
}

/// The last of the first `n` items of `list` that has the identity of `x`.
pub open spec fn latest<T: Listed>(list: Seq<T>, x: T, n: int) -> Option<int>
    decreases n,
{
    if n <= 0 {
        None
    } else if list[n - 1].same_id(&x) {
        Some(n - 1)
    } else {
        latest(list, x, n - 1)
    }
}

/// The item of `list` with the identity of `x`, the last of several.
pub open spec fn held<T: Listed>(list: Seq<T>, x: T) -> Option<int> {
    latest(list, x, list.len() as int)
}

/// Whether `x` is new against `list`, or its record is another.
pub open spec fn is_changed<T: Listed>(list: Seq<T>, x: T) -> bool {
    match held(list, x) {
        None => true,
        Some(i) => !list[i].same_record(&x),
    }
}

/// The items of `s` at the positions `at`.
pub open spec fn pick<T>(s: Seq<T>, at: Seq<int>) -> Seq<T> {
    at.map_values(|i: int| s[i])
}

/// The items of `cur` that are new against `last` or have another record.
pub open spec fn changed_spec<T: Listed>(last: Seq<T>, cur: Seq<T>) -> Seq<T> {
    pick(cur, chosen(|i: int| is_changed(last, cur[i]), cur.len() as int))
}

/// The items of `last` whose identity `cur` no longer lists.
pub open spec fn gone_spec<T: Listed>(last: Seq<T>, cur: Seq<T>) -> Seq<T> {
    pick(last, chosen(|i: int| held(cur, last[i]) is None, last.len() as int))
}

pub proof fn lemma_latest<T: Listed>(list: Seq<T>, x: T, n: int)
    requires
        0 <= n <= list.len(),
    ensures
        match latest(list, x, n) {
            Some(i) => {
                &&& 0 <= i < n
                &&& list[i].same_id(&x)
                &&& forall|k: int| #![trigger list[k]] i < k < n ==> !list[k].same_id(&x)
            },
            None => forall|k: int| #![trigger list[k]] 0 <= k < n ==> !list[k].same_id(&x),
        },
    decreases n,
{
    if n > 0 {
        lemma_latest(list, x, n - 1);
    }
}

/// Finds the item of `list` with the identity of `x`.
pub fn find_held<T: Listed>(list: &Vec<T>, x: &T) -> (r: Option<usize>)
    ensures
        match r {
            Some(i) => i < list@.len() && held(list@, *x) == Some(i as int),
            None => held(list@, *x) is None,
        },
{
    let mut i: usize = list.len();
    while i > 0
        invariant
            i <= list@.len(),
            held(list@, *x) == latest(list@, *x, i as int),
        decreases i,
    {
        i -= 1;
        if list[i].is_same_id(x) {
            return Some(i);
        }
    }
    None
}

/// The items of `cur` that are new against `last` or have another record.
pub fn changed<T: Listed>(last: &Vec<T>, cur: &Vec<T>) -> (r: Vec<T>)
    ensures
        r@ == changed_spec(last@, cur@),
{
    let mut r: Vec<T> = Vec::new();
    let ghost p = |i: int| is_changed(last@, cur@[i]);
    assert(r@ =~= pick(cur@, chosen(p, 0)));
    for i in 0..cur.len()
        invariant
            p == (|i: int| is_changed(last@, cur@[i])),
            r@ == pick(cur@, chosen(p, i as int)),
    {
        let old_at = find_held(last, &cur[i]);
        let differs = match old_at {
            Some(k) => !last[k].is_same_record(&cur[i]),
            None => true,
        };
        assert(differs == p(i as int));
        if differs {
            let ghost before = r@;
            r.push(cur[i].duplicate());
            assert(r@ =~= pick(cur@, chosen(p, i as int).push(i as int)));
        }
    }
    r
}

/// The items of `last` whose identity `cur` no longer lists.
pub fn gone<T: Listed>(last: &Vec<T>, cur: &Vec<T>) -> (r: Vec<T>)
    ensures
        r@ == gone_spec(last@, cur@),
{
    let mut r: Vec<T> = Vec::new();
    let ghost p = |i: int| held(cur@, last@[i]) is None;
    assert(r@ =~= pick(last@, chosen(p, 0)));
    for i in 0..last.len()
        invariant
            p == (|i: int| held(cur@, last@[i]) is None),
            r@ == pick(last@, chosen(p, i as int)),
    {
        let absent = find_held(cur, &last[i]).is_none();
        assert(absent == p(i as int));
        if absent {
            r.push(last[i].duplicate());
            assert(r@ =~= pick(last@, chosen(p, i as int).push(i as int)));
        }
    }
    r
}

/// Whether `list` has the identity of `x` under another record.
pub open spec fn is_altered<T: Listed>(list: Seq<T>, x: T) -> bool {
    match held(list, x) {
        None => false,
        Some(i) => !list[i].same_record(&x),
    }
}

/// The items of `cur` that `last` has under another record.
pub open spec fn altered_spec<T: Listed>(last: Seq<T>, cur: Seq<T>) -> Seq<T> {
    pick(cur, chosen(|i: int| is_altered(last, cur[i]), cur.len() as int))
}

/// The items of `cur` that `last` has under another record.
pub fn altered<T: Listed>(last: &Vec<T>, cur: &Vec<T>) -> (r: Vec<T>)
    ensures
        r@ == altered_spec(last@, cur@),
{
    let mut r: Vec<T> = Vec::new();
    let ghost p = |i: int| is_altered(last@, cur@[i]);
    assert(r@ =~= pick(cur@, chosen(p, 0)));
    for i in 0..cur.len()
        invariant
            p == (|i: int| is_altered(last@, cur@[i])),
            r@ == pick(cur@, chosen(p, i as int)),
    {
        let differs = match find_held(last, &cur[i]) {
            Some(k) => !last[k].is_same_record(&cur[i]),
            None => false,
        };
        assert(differs == p(i as int));
        if differs {
            r.push(cur[i].duplicate());
            assert(r@ =~= pick(cur@, chosen(p, i as int).push(i as int)));
        }
    }
    r
}

/// A payload that lists each identity once has no changes against itself.
pub proof fn unchanged_list_has_no_delta<T: Listed>(list: Seq<T>)
    requires
        forall|i: int, j: int|
            #![trigger list[i], list[j]]
            0 <= i < list.len() && 0 <= j < list.len() ==> list[i].same_id(&list[j]) == (i == j),
        forall|i: int| #![trigger list[i]] 0 <= i < list.len() ==> list[i].same_record(&list[i]),
    ensures
        changed_spec(list, list) == Seq::<T>::empty(),
        gone_spec(list, list) == Seq::<T>::empty(),
{
    let n = list.len() as int;
    let p = |i: int| is_changed(list, list[i]);
    let q = |i: int| held(list, list[i]) is None;
    crate::graph::nodes::lemma_chosen(p, n);
    crate::graph::nodes::lemma_chosen(q, n);
    assert forall|i: int| 0 <= i < n implies held(list, #[trigger] list[i]) == Some(i) by {
        lemma_latest(list, list[i], n);
        assert(list[i].same_id(&list[i]));
    }
    if chosen(p, n).len() > 0 {
        let i = chosen(p, n)[0];
        assert(p(i));
        assert(held(list, list[i]) == Some(i));
    }
    if chosen(q, n).len() > 0 {
        let i = chosen(q, n)[0];
        assert(q(i));
        assert(held(list, list[i]) == Some(i));
    }
    assert(changed_spec(list, list) =~= Seq::<T>::empty());
    assert(gone_spec(list, list) =~= Seq::<T>::empty());
}

/// What a delta does not tell is as it was.
pub proof fn what_is_not_told_is_as_it_was<T: Listed>(last: Seq<T>, cur: Seq<T>, i: int)
    requires
        0 <= i < cur.len(),
    ensures
        changed_spec(last, cur).contains(cur[i]) || exists|j: int|
            #![trigger last[j]]
            0 <= j < last.len() && last[j].same_id(&cur[i]) && last[j].same_record(&cur[i]),
{
    let n = cur.len() as int;
    let p = |i: int| is_changed(last, cur[i]);
    let told = changed_spec(last, cur);
    crate::graph::nodes::lemma_chosen(p, n);
    lemma_latest(last, cur[i], last.len() as int);
    if p(i) {
        let k = choose|k: int| 0 <= k < chosen(p, n).len() && chosen(p, n)[k] == i;
        assert(told[k] == cur[i]);
    } else {
        let j = held(last, cur[i])->0;
        assert(last[j].same_id(&cur[i]) && last[j].same_record(&cur[i]));
    }
}

/// What a delta tells as removed is what `last` lists and `cur` does not.
pub proof fn what_left_is_told<T: Listed>(last: Seq<T>, cur: Seq<T>, j: int)
    requires
        0 <= j < last.len(),
    ensures
        gone_spec(last, cur).contains(last[j]) == forall|i: int|
            #![trigger cur[i]]
            0 <= i < cur.len() ==> !cur[i].same_id(&last[j]),
{
    let n = last.len() as int;
    let p = |i: int| held(cur, last[i]) is None;
    let told = gone_spec(last, cur);
    crate::graph::nodes::lemma_chosen(p, n);
    lemma_latest(cur, last[j], cur.len() as int);
    if p(j) {
        let k = choose|k: int| 0 <= k < chosen(p, n).len() && chosen(p, n)[k] == j;
        assert(told[k] == last[j]);
    }
    if told.contains(last[j]) {
        let k = choose|k: int| 0 <= k < told.len() && told[k] == last[j];
        assert(p(chosen(p, n)[k]));
    }
}

impl Listed for GraphNodeView {
    open spec fn same_id(&self, other: &Self) -> bool {
        self.path@ == other.path@
    }

    open spec fn same_record(&self, other: &Self) -> bool {
        self@ == other@
    }

    fn is_same_id(&self, other: &Self) -> (r: bool) {
        same(self.path.as_str(), other.path.as_str())
    }

    fn is_same_record(&self, other: &Self) -> (r: bool) {
        same(self.path.as_str(), other.path.as_str()) && same_opt(&self.repo, &other.repo) && same(
            self.kind,
            other.kind,
        ) && self.refs_structural == other.refs_structural && self.refs_total == other.refs_total
    }

    fn duplicate(&self) -> (r: Self) {
        GraphNodeView {
            path: self.path.clone(),
            repo: copy_opt(&self.repo),
            kind: self.kind,
            refs_structural: self.refs_structural,
            refs_total: self.refs_total,
        }
    }
}

/// The contents of an edge list, without order.
pub open spec fn edge_bag(v: Seq<GraphEdgeView>) -> Multiset<Seq<Seq<char>>> {
    edge_views(v).to_multiset()
}

proof fn lemma_bag_push(v: Seq<GraphEdgeView>, e: GraphEdgeView)
    ensures
        edge_bag(v.push(e)) == edge_bag(v).insert(e@),
{
    assert(edge_views(v.push(e)) =~= edge_views(v).push(e@));
    edge_views(v).to_multiset_ensures();
}

proof fn lemma_bag_count(v: Seq<GraphEdgeView>, k: Seq<Seq<char>>)
    ensures
        edge_bag(v).count(k) > 0 <==> exists|i: int|
            #![trigger v[i]]
            0 <= i < v.len() && v[i]@ == k,
{
    edge_views(v).to_multiset_ensures();
    if edge_bag(v).count(k) > 0 {
        assert(edge_views(v).contains(k));
        let i = choose|i: int| 0 <= i < edge_views(v).len() && edge_views(v)[i] == k;
        assert(v[i]@ == k);
    }
    if exists|i: int| #![trigger v[i]] 0 <= i < v.len() && v[i]@ == k {
        let i = choose|i: int| #![trigger v[i]] 0 <= i < v.len() && v[i]@ == k;
        assert(edge_views(v)[i] == k);
        assert(edge_views(v).contains(k));
    }
}

proof fn lemma_insert_add<T>(a: Multiset<T>, b: Multiset<T>, x: T)
    ensures
        a.insert(x).add(b) == a.add(b).insert(x),
        a.add(b.insert(x)) == a.add(b).insert(x),
{
    assert(a.insert(x).add(b) =~= a.add(b).insert(x));
    assert(a.add(b.insert(x)) =~= a.add(b).insert(x));
}

/// Whether every edge of `a` may stand before those of `b` from `from` on.
spec fn leads_up(a: Seq<GraphEdgeView>, b: Seq<GraphEdgeView>, from: int) -> bool {
    forall|i: int, k: int|
        #![trigger a[i], b[k]]
        0 <= i < a.len() && from <= k < b.len() ==> a[i].rank_le(&b[k])
}

/// Taking up the next edge of a sorted list keeps the edges taken up sorted.
proof fn lemma_leads_up(a: Seq<GraphEdgeView>, b: Seq<GraphEdgeView>, from: int)
    requires
        sorted(a),
        sorted(b),
        0 <= from < b.len(),
        leads_up(a, b, from),
    ensures
        sorted(a.push(b[from])),
        leads_up(a.push(b[from]), b, from + 1),
{
    let more = a.push(b[from]);
    assert forall|i: int, j: int| #![trigger more[i], more[j]] 0 <= i < j < more.len() implies more[i].rank_le(
        &more[j],
    ) by {
        if j == a.len() {
            assert(a[i].rank_le(&b[from]));
        } else {
            assert(more[i] == a[i] && more[j] == a[j]);
        }
    }
    assert forall|i: int, k: int|
        #![trigger more[i], b[k]]
        0 <= i < more.len() && from + 1 <= k < b.len() implies more[i].rank_le(&b[k]) by {
        if i < a.len() {
            assert(more[i] == a[i]);
        }
    }
}

/// The surplus of `cur` over `last` and the surplus of `last` over `cur`,
/// counting how often each edge occurs. `last` with the added edges always has
/// the contents of `cur` with the removed ones. For sorted lists, as the payloads
/// hold them, no edge is in both surpluses, so each is the exact difference, and both
/// are sorted.
pub fn edge_multiset_diff(last: &Vec<GraphEdgeView>, cur: &Vec<GraphEdgeView>) -> (r: (
    Vec<GraphEdgeView>,
    Vec<GraphEdgeView>,
))
    ensures
        edge_bag(last@).add(edge_bag(r.0@)) == edge_bag(cur@).add(edge_bag(r.1@)),
        sorted(last@) && sorted(cur@) ==> {
            &&& edge_bag(r.0@) == edge_bag(cur@).sub(edge_bag(last@))
            &&& edge_bag(r.1@) == edge_bag(last@).sub(edge_bag(cur@))
            &&& sorted(r.0@)
            &&& sorted(r.1@)
        },
{
    let mut added: Vec<GraphEdgeView> = Vec::new();
    let mut removed: Vec<GraphEdgeView> = Vec::new();
    let mut i: usize = 0;
    let mut j: usize = 0;
    let ghost orderly = sorted(last@) && sorted(cur@);
    proof {
        assert(edge_views(last@.take(0)) =~= edge_views(added@));
        assert(edge_views(cur@.take(0)) =~= edge_views(removed@));
        assert(edge_views(last@.take(0)) =~= edge_views(removed@));
    }
    while i < last.len() || j < cur.len()
        invariant
            i <= last@.len(),
            j <= cur@.len(),
            edge_bag(last@.take(i as int)).add(edge_bag(added@)) == edge_bag(
                cur@.take(j as int),
            ).add(edge_bag(removed@)),
            orderly == (sorted(last@) && sorted(cur@)),
            orderly ==> forall|a: int, k: int|
                #![trigger added@[a], last@[k]]
                0 <= a < added@.len() && i <= k < last@.len() ==> keys_lt(added@[a]@, last@[k]@),
            orderly ==> forall|a: int, k: int|
                #![trigger removed@[a], cur@[k]]
                0 <= a < removed@.len() && j <= k < cur@.len() ==> keys_lt(removed@[a]@, cur@[k]@),
            orderly ==> forall|a: int, b: int|
                #![trigger added@[a], removed@[b]]
                0 <= a < added@.len() && 0 <= b < removed@.len() ==> added@[a]@ != removed@[b]@,
            orderly ==> sorted(added@) && sorted(removed@),
            orderly ==> leads_up(added@, cur@, j as int),
            orderly ==> leads_up(removed@, last@, i as int),
        decreases (last@.len() - i) + (cur@.len() - j),
    {
        let ghost li = last@.take(i as int);
        let ghost cj = cur@.take(j as int);
        let drop_last_edge = if j >= cur.len() {
            true
        } else if i >= last.len() {
            false
        } else {
            keys_before(&last[i].key(), &cur[j].key())
        };
        if drop_last_edge {
            let ghost x = last@[i as int];
            let ghost before = removed@;
            removed.push(last[i].copy());
            proof {
                assert(last@.take(i + 1) =~= li.push(x));
                lemma_bag_push(li, x);
                lemma_bag_push(before, x);
                lemma_insert_add(edge_bag(li), edge_bag(added@), x@);
                lemma_insert_add(edge_bag(cj), edge_bag(before), x@);
                assert(removed@ =~= before.push(x));
                if orderly {
                    lemma_leads_up(before, last@, i as int);
                    assert forall|a: int, k: int|
                        #![trigger removed@[a], cur@[k]]
                        0 <= a < removed@.len() && j <= k < cur@.len() implies keys_lt(
                        removed@[a]@,
                        cur@[k]@,
                    ) by {
                        if a == before.len() {
                            lemma_lt_le(x@, cur@[j as int]@, cur@[k]@, cur@, j as int, k);
                        } else {
                            assert(removed@[a] == before[a]);
                        }
                    }
                    assert forall|a: int, b: int|
                        #![trigger added@[a], removed@[b]]
                        0 <= a < added@.len() && 0 <= b < removed@.len() implies added@[a]@
                        != removed@[b]@ by {
                        if b == before.len() {
                            assert(keys_lt(added@[a]@, last@[i as int]@));
                            lemma_keys_lt_irreflexive(x@);
                        } else {
                            assert(removed@[b] == before[b]);
                        }
                    }
                }
            }
            i += 1;
        } else if i >= last.len() || keys_before(&cur[j].key(), &last[i].key()) {
            let ghost x = cur@[j as int];
            let ghost before = added@;
            added.push(cur[j].copy());
            proof {
                assert(cur@.take(j + 1) =~= cj.push(x));
                lemma_bag_push(cj, x);
                lemma_bag_push(before, x);
                lemma_insert_add(edge_bag(li), edge_bag(before), x@);
                lemma_insert_add(edge_bag(cj), edge_bag(removed@), x@);
                assert(added@ =~= before.push(x));
                if orderly {
                    lemma_leads_up(before, cur@, j as int);
                    assert forall|a: int, k: int|
                        #![trigger added@[a], last@[k]]
                        0 <= a < added@.len() && i <= k < last@.len() implies keys_lt(
                        added@[a]@,
                        last@[k]@,
                    ) by {
                        if a == before.len() {
                            lemma_lt_le(x@, last@[i as int]@, last@[k]@, last@, i as int, k);
                        } else {
                            assert(added@[a] == before[a]);
                        }
                    }
                    assert forall|a: int, b: int|
                        #![trigger added@[a], removed@[b]]
                        0 <= a < added@.len() && 0 <= b < removed@.len() implies added@[a]@
                        != removed@[b]@ by {
                        if a == before.len() {
                            assert(keys_lt(removed@[b]@, cur@[j as int]@));
                            lemma_keys_lt_irreflexive(x@);
                        } else {
                            assert(added@[a] == before[a]);
                        }
                    }
                }
            }
            j += 1;
        } else {
            proof {
                let x = last@[i as int];
                let y = cur@[j as int];
                lemma_keys_lt_total(x@, y@);
                assert(last@.take(i + 1) =~= li.push(x));
                assert(cur@.take(j + 1) =~= cj.push(y));
                lemma_bag_push(li, x);
                lemma_bag_push(cj, y);
                lemma_insert_add(edge_bag(li), edge_bag(added@), x@);
                lemma_insert_add(edge_bag(cj), edge_bag(removed@), x@);
            }
            i += 1;
            j += 1;
        }
    }
    proof {
        assert(last@.take(i as int) =~= last@);
        assert(cur@.take(j as int) =~= cur@);
        if orderly {
            let l = edge_bag(last@);
            let c = edge_bag(cur@);
            let a = edge_bag(added@);
            let r = edge_bag(removed@);
            assert forall|k: Seq<Seq<char>>| a.count(k) == 0 || #[trigger] r.count(k) == 0 by {
                lemma_bag_count(added@, k);
                lemma_bag_count(removed@, k);
            }
            assert forall|k: Seq<Seq<char>>| #[trigger] l.count(k) + a.count(k) == c.count(k)
                + r.count(k) by {
                assert(l.add(a).count(k) == c.add(r).count(k));
            }
            assert forall|k: Seq<Seq<char>>| #[trigger] a.count(k) == c.sub(l).count(k) by {
                assert(r.count(k) >= 0);
                assert(l.count(k) >= 0);
            }
            assert forall|k: Seq<Seq<char>>| #[trigger] r.count(k) == l.sub(c).count(k) by {
                assert(l.count(k) >= 0);
            }
            assert(a =~= c.sub(l));
            assert(r =~= l.sub(c));
        }
    }
    (added, removed)
}

/// An edge before the first of the rest of a sorted list is before all of it.
proof fn lemma_lt_le(
    x: Seq<Seq<char>>,
    first: Seq<Seq<char>>,
    later: Seq<Seq<char>>,
    list: Seq<GraphEdgeView>,
    at: int,
    k: int,
)
    requires
        sorted(list),
        0 <= at <= k < list.len(),
        first == list[at]@,
        later == list[k]@,
        keys_lt(x, first),
    ensures
        keys_lt(x, later),
{
    if at < k {
        assert(keys_le(list[at]@, list[k]@));
        if first != later {
            lemma_keys_lt_transitive(x, first, later);
        }
    }
}

/// What changed between two payloads of the reference graph.
pub struct LinkGraphDelta {
    pub nodes_added: Vec<GraphNodeView>,
    pub nodes_removed: Vec<String>,
    pub edges_added: Vec<GraphEdgeView>,
    pub edges_removed: Vec<GraphEdgeView>,
}

impl LinkGraphDelta {
    pub fn is_empty(&self) -> (r: bool)
        ensures
            r == (self.nodes_added@.len() == 0 && self.nodes_removed@.len() == 0
                && self.edges_added@.len() == 0 && self.edges_removed@.len() == 0),
    {
        self.nodes_added.len() == 0 && self.nodes_removed.len() == 0 && self.edges_added.len() == 0
            && self.edges_removed.len() == 0
    }
}

/// The change from `last` to `cur`. A node counts as added when its path is new
/// or its record is another, as removed when its path is gone.
pub fn link_graph_delta(last: &LinkGraphView, cur: &LinkGraphView) -> (r: LinkGraphDelta)
    ensures
        r.nodes_added@ == changed_spec(last.nodes@, cur.nodes@),
        r.nodes_removed@ == gone_spec(last.nodes@, cur.nodes@).map_values(
            |n: GraphNodeView| n.path,
        ),
        edge_bag(last.edges@).add(edge_bag(r.edges_added@)) == edge_bag(cur.edges@).add(
            edge_bag(r.edges_removed@),
        ),
        sorted(last.edges@) && sorted(cur.edges@) ==> {
            &&& edge_bag(r.edges_added@) == edge_bag(cur.edges@).sub(edge_bag(last.edges@))
            &&& edge_bag(r.edges_removed@) == edge_bag(last.edges@).sub(edge_bag(cur.edges@))
            &&& sorted(r.edges_added@)
            &&& sorted(r.edges_removed@)
        },
{
    let nodes_added = changed(&last.nodes, &cur.nodes);
    let lost = gone(&last.nodes, &cur.nodes);
    let mut nodes_removed: Vec<String> = Vec::new();
    for i in 0..lost.len()
        invariant
            nodes_removed@ == lost@.take(i as int).map_values(|n: GraphNodeView| n.path),
    {
        nodes_removed.push(lost[i].path.clone());
        assert(nodes_removed@ =~= lost@.take(i + 1).map_values(|n: GraphNodeView| n.path));
    }
    assert(lost@.take(lost@.len() as int) =~= lost@);
    let (edges_added, edges_removed) = edge_multiset_diff(&last.edges, &cur.edges);
    LinkGraphDelta { nodes_added, nodes_removed, edges_added, edges_removed }
}

} // verus!
