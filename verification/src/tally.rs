//! Counting items by a key.

use crate::text::{
    keys_before, keys_lt, lemma_keys_lt_irreflexive, lemma_keys_lt_total, lemma_keys_lt_transitive,
    str_views,
};
use vstd::prelude::*;

verus! {

/// An item with a key made of texts.
pub trait Keyed: Sized {
    spec fn key(&self) -> Seq<Seq<char>>;

    fn key_parts(&self) -> (r: Vec<&str>)
        ensures
            str_views(r@) == self.key(),
    ;
}

/// The items with one key: the position of the first of them, and how many.
#[derive(Debug, Clone, Copy)]
pub struct Group {
    pub at: usize,
    pub count: usize,
}

/// How many of the items have the key `k`.
pub open spec fn key_count<T: Keyed>(items: Seq<T>, k: Seq<Seq<char>>) -> nat
    decreases items.len(),
{
    if items.len() == 0 {
        0
    } else {
        key_count(items.drop_last(), k) + if items.last().key() == k {
            1nat
        } else {
            0
        }
    }
}

/// Whether a group has the key `k`.
pub open spec fn has_group<T: Keyed>(groups: Seq<Group>, items: Seq<T>, k: Seq<Seq<char>>) -> bool {
    exists|i: int|
        #![trigger groups[i]]
        0 <= i < groups.len() && items[groups[i].at as int].key() == k
}

/// Whether the groups are those of the items: one for each key that occurs, in
/// the order of the keys, with the number of items that have it.
pub open spec fn is_tally<T: Keyed>(groups: Seq<Group>, items: Seq<T>) -> bool {
    &&& forall|i: int|
        #![trigger groups[i]]
        0 <= i < groups.len() ==> {
            &&& groups[i].at < items.len()
            &&& groups[i].count > 0
            &&& groups[i].count == key_count(items, items[groups[i].at as int].key())
        }
    &&& forall|i: int, j: int|
        #![trigger groups[i], groups[j]]
        0 <= i < j < groups.len() ==> keys_lt(
            items[groups[i].at as int].key(),
            items[groups[j].at as int].key(),
        )
    &&& forall|k: int|
        #![trigger items[k]]
        0 <= k < items.len() ==> has_group(groups, items, items[k].key())
}

proof fn lemma_key_count<T: Keyed>(items: Seq<T>, k: Seq<Seq<char>>)
    ensures
        key_count(items, k) <= items.len(),
        key_count(items, k) > 0 <==> exists|i: int|
            #![trigger items[i]]
            0 <= i < items.len() && items[i].key() == k,
    decreases items.len(),
{
    if items.len() > 0 {
        let front = items.drop_last();
        lemma_key_count(front, k);
        if key_count(front, k) > 0 {
            let i = choose|i: int| #![trigger front[i]] 0 <= i < front.len() && front[i].key() == k;
            assert(items[i].key() == k);
        }
        if items.last().key() == k {
            assert(items[items.len() - 1].key() == k);
        }
        if exists|i: int| #![trigger items[i]] 0 <= i < items.len() && items[i].key() == k {
            let i = choose|i: int| #![trigger items[i]] 0 <= i < items.len() && items[i].key() == k;
            if i < front.len() {
                assert(front[i].key() == k);
            }
        }
    }
}

/// A group grows by the next item.
proof fn lemma_bump<T: Keyed>(items: Seq<T>, n: int, before: Seq<Group>, i: int)
    requires
        0 <= n < items.len() <= usize::MAX,
        is_tally(before, items.take(n)),
        0 <= i < before.len(),
        items[before[i].at as int].key() == items[n].key(),
    ensures
        before[i].count < usize::MAX,
        is_tally(
            before.update(i, Group { at: before[i].at, count: (before[i].count + 1) as usize }),
            items.take(n + 1),
        ),
{
    let done = items.take(n);
    let next = items.take(n + 1);
    let x = items[n].key();
    let gg = before.update(i, Group { at: before[i].at, count: (before[i].count + 1) as usize });
    assert(next.drop_last() =~= done);
    assert(next.last() == items[n]);
    lemma_key_count(done, x);
    assert(before[i].at < done.len());
    assert(done[before[i].at as int] == items[before[i].at as int]);
    assert(before[i].count == key_count(done, x));
    assert forall|j: int| #![trigger gg[j]] 0 <= j < gg.len() implies {
        &&& gg[j].at < next.len()
        &&& gg[j].count > 0
        &&& gg[j].count == key_count(next, next[gg[j].at as int].key())
    } by {
        assert(before[j].at < done.len());
        assert(next[before[j].at as int] == done[before[j].at as int]);
        if j < i {
            assert(keys_lt(done[before[j].at as int].key(), done[before[i].at as int].key()));
            lemma_keys_lt_irreflexive(x);
        } else if i < j {
            assert(keys_lt(done[before[i].at as int].key(), done[before[j].at as int].key()));
            lemma_keys_lt_irreflexive(x);
        }
    }
    assert forall|a: int, b: int| #![trigger gg[a], gg[b]] 0 <= a < b < gg.len() implies keys_lt(
        next[gg[a].at as int].key(),
        next[gg[b].at as int].key(),
    ) by {
        assert(before[a].at < done.len() && before[b].at < done.len());
        assert(next[before[a].at as int] == done[before[a].at as int]);
        assert(next[before[b].at as int] == done[before[b].at as int]);
    }
    assert forall|k: int| #![trigger next[k]] 0 <= k < next.len() implies has_group(
        gg,
        next,
        next[k].key(),
    ) by {
        if k < done.len() {
            assert(done[k] == next[k]);
            let w = choose|w: int|
                #![trigger before[w]]
                0 <= w < before.len() && done[before[w].at as int].key() == done[k].key();
            assert(before[w].at < done.len());
            assert(gg[w].at == before[w].at);
            assert(next[gg[w].at as int] == done[before[w].at as int]);
        } else {
            assert(gg[i].at == before[i].at);
            assert(next[gg[i].at as int] == done[before[i].at as int]);
        }
    }
}

/// The next item opens a group at `i`.
proof fn lemma_open<T: Keyed>(items: Seq<T>, n: int, before: Seq<Group>, i: int)
    requires
        0 <= n < items.len() <= usize::MAX,
        is_tally(before, items.take(n)),
        0 <= i <= before.len(),
        forall|j: int|
            #![trigger before[j]]
            0 <= j < i ==> keys_lt(items[before[j].at as int].key(), items[n].key()),
        forall|j: int|
            #![trigger before[j]]
            i <= j < before.len() ==> keys_lt(items[n].key(), items[before[j].at as int].key()),
    ensures
        is_tally(before.insert(i, Group { at: n as usize, count: 1 }), items.take(n + 1)),
{
    let done = items.take(n);
    let next = items.take(n + 1);
    let x = items[n].key();
    let gg = before.insert(i, Group { at: n as usize, count: 1 });
    assert(next.drop_last() =~= done);
    assert(next.last() == items[n]);
    lemma_key_count(done, x);
    lemma_keys_lt_irreflexive(x);
    assert forall|j: int| #![trigger before[j]] 0 <= j < before.len() implies before[j].at
        < done.len() && done[before[j].at as int] == items[before[j].at as int]
        && next[before[j].at as int] == items[before[j].at as int] && items[before[j].at as int].key()
        != x by {}
    if key_count(done, x) > 0 {
        let q = choose|q: int| #![trigger done[q]] 0 <= q < done.len() && done[q].key() == x;
        assert(has_group(before, done, done[q].key()));
        let w = choose|w: int|
            #![trigger before[w]]
            0 <= w < before.len() && done[before[w].at as int].key() == x;
        assert(before[w].at < done.len());
    }
    assert forall|j: int| #![trigger gg[j]] 0 <= j < gg.len() implies {
        &&& gg[j].at < next.len()
        &&& gg[j].count > 0
        &&& gg[j].count == key_count(next, next[gg[j].at as int].key())
    } by {
        if j == i {
            assert(next[n].key() == x);
        } else {
            let o = if j < i { j } else { j - 1 };
            assert(gg[j] == before[o]);
        }
    }
    assert forall|a: int, b: int| #![trigger gg[a], gg[b]] 0 <= a < b < gg.len() implies keys_lt(
        next[gg[a].at as int].key(),
        next[gg[b].at as int].key(),
    ) by {
        let ao = if a < i { a } else { a - 1 };
        let bo = if b < i { b } else { b - 1 };
        if a == i {
            assert(gg[b] == before[bo]);
        } else if b == i {
            assert(gg[a] == before[ao]);
        } else {
            assert(gg[a] == before[ao]);
            assert(gg[b] == before[bo]);
        }
    }
    assert forall|k: int| #![trigger next[k]] 0 <= k < next.len() implies has_group(
        gg,
        next,
        next[k].key(),
    ) by {
        if k < done.len() {
            assert(done[k] == next[k]);
            let w = choose|w: int|
                #![trigger before[w]]
                0 <= w < before.len() && done[before[w].at as int].key() == done[k].key();
            let v = if w < i { w } else { w + 1 };
            assert(gg[v] == before[w]);
        } else {
            assert(gg[i].at == n);
        }
    }
}

/// Groups the items by key.
pub fn tally<T: Keyed>(items: &Vec<T>) -> (r: Vec<Group>)
    ensures
        is_tally(r@, items@),
{
    let mut g: Vec<Group> = Vec::new();
    let size: usize = items.len();
    for n in 0..size
        invariant
            size == items@.len(),
            is_tally(g@, items@.take(n as int)),
    {
        let ghost x = items@[n as int].key();
        let ghost before = g@;
        let ghost done = items@.take(n as int);
        let key = items[n].key_parts();
        let mut i: usize = 0;
        proof {
            assert forall|j: int| #![trigger g@[j]] 0 <= j < g@.len() implies g@[j].at < n by {
                assert(g@[j].at < done.len());
            }
        }
        while i < g.len() && keys_before(&items[g[i].at].key_parts(), &key)
            invariant
                i <= g@.len(),
                n < items@.len(),
                str_views(key@) == x,
                forall|j: int| #![trigger g@[j]] 0 <= j < g@.len() ==> g@[j].at < n,
                forall|j: int|
                    #![trigger g@[j]]
                    0 <= j < i ==> keys_lt(items@[g@[j].at as int].key(), x),
            decreases g@.len() - i,
        {
            i += 1;
        }
        if i < g.len() && !keys_before(&key, &items[g[i].at].key_parts()) {
            let at: usize = g[i].at;
            let c: usize = g[i].count;
            proof {
                lemma_keys_lt_total(items@[at as int].key(), x);
                lemma_bump(items@, n as int, before, i as int);
            }
            g.set(i, Group { at, count: c + 1 });
        } else {
            proof {
                if i < before.len() {
                    assert(keys_lt(x, items@[before[i as int].at as int].key()));
                    assert forall|j: int|
                        #![trigger before[j]]
                        i <= j < before.len() implies keys_lt(
                        x,
                        items@[before[j].at as int].key(),
                    ) by {
                        if j > i {
                            assert(keys_lt(
                                done[before[i as int].at as int].key(),
                                done[before[j].at as int].key(),
                            ));
                            lemma_keys_lt_transitive(
                                x,
                                items@[before[i as int].at as int].key(),
                                items@[before[j].at as int].key(),
                            );
                        }
                    }
                }
                lemma_open(items@, n as int, before, i as int);
            }
            g.insert(i, Group { at: n, count: 1 });
        }
    }
    assert(items@.take(items@.len() as int) =~= items@);
    g
}

} // verus!
