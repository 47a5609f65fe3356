//! A map from texts to texts, in the order of its keys.

use crate::json::{jv, Json, JsonView, ObjectBuilder};
use crate::text::{
    is_before, lemma_text_lt_irreflexive, lemma_text_lt_total, lemma_text_lt_transitive, same, text_lt,
};
use vstd::prelude::*;

verus! {

#[derive(Debug)]
pub struct TextEntry {
    pub key: String,
    pub value: String,
}

/// A map from texts to texts.
#[derive(Debug)]
pub struct TextMap {
    entries: Vec<TextEntry>,
}

/// Whether the keys are in strict order.
pub open spec fn keys_ascend(v: Seq<TextEntry>) -> bool {
    forall|i: int, j: int|
        #![trigger v[i], v[j]]
        0 <= i < j < v.len() ==> text_lt(v[i].key@, v[j].key@)
}

/// The map that a list of entries makes; a later entry takes the place of an
/// earlier one with its key.
pub open spec fn map_of(v: Seq<TextEntry>) -> Map<Seq<char>, Seq<char>>
    decreases v.len(),
{
    if v.len() == 0 {
        Map::empty()
    } else {
        map_of(v.drop_last()).insert(v.last().key@, v.last().value@)
    }
}

/// Whether an entry has the key `k`.
pub open spec fn has_key(v: Seq<TextEntry>, k: Seq<char>) -> bool {
    exists|i: int| #![trigger v[i]] 0 <= i < v.len() && v[i].key@ == k
}

proof fn lemma_map_of(v: Seq<TextEntry>)
    requires
        keys_ascend(v),
    ensures
        forall|k: Seq<char>| #[trigger] map_of(v).contains_key(k) == has_key(v, k),
        forall|i: int|
            #![trigger v[i]]
            0 <= i < v.len() ==> map_of(v).contains_key(v[i].key@) && map_of(v)[v[i].key@]
                == v[i].value@,
    decreases v.len(),
{
    if v.len() > 0 {
        let front = v.drop_last();
        assert(keys_ascend(front)) by {
            assert forall|i: int, j: int|
                #![trigger front[i], front[j]]
                0 <= i < j < front.len() implies text_lt(front[i].key@, front[j].key@) by {
                assert(v[i] == front[i] && v[j] == front[j]);
            }
        }
        lemma_map_of(front);
        let n = v.len() - 1;
        assert forall|k: Seq<char>| #[trigger] map_of(v).contains_key(k) == has_key(v, k) by {
            assert(map_of(front).contains_key(k) == has_key(front, k));
            if has_key(front, k) {
                let i = choose|i: int|
                    #![trigger front[i]]
                    0 <= i < front.len() && front[i].key@ == k;
                assert(v[i].key@ == k);
            }
            if v.last().key@ == k {
                assert(v[n].key@ == k);
            }
            if has_key(v, k) {
                let i = choose|i: int| #![trigger v[i]] 0 <= i < v.len() && v[i].key@ == k;
                if i < n {
                    assert(front[i].key@ == k);
                }
            }
        }
        assert forall|i: int| #![trigger v[i]] 0 <= i < v.len() implies map_of(v).contains_key(
            v[i].key@,
        ) && map_of(v)[v[i].key@] == v[i].value@ by {
            if i < n {
                assert(front[i] == v[i]);
                assert(text_lt(v[i].key@, v[n].key@));
                lemma_text_lt_irreflexive(v[i].key@);
            }
        }
    }
}

impl View for TextMap {
    type V = Map<Seq<char>, Seq<char>>;

    closed spec fn view(&self) -> Map<Seq<char>, Seq<char>> {
        map_of(self.entries@)
    }
}

impl TextMap {
    pub closed spec fn wf(&self) -> bool {
        keys_ascend(self.entries@)
    }

    /// The entries, in the order of their keys.
    pub closed spec fn listed(&self) -> Seq<TextEntry> {
        self.entries@
    }

    pub fn new() -> (r: Self)
        ensures
            r.wf(),
            r@ == Map::<Seq<char>, Seq<char>>::empty(),
    {
        TextMap { entries: Vec::new() }
    }

    /// Puts a value at a key, in place of any other.
    pub fn insert(&mut self, key: String, value: String)
        requires
            old(self).wf(),
        ensures
            final(self).wf(),
            final(self)@ == old(self)@.insert(key@, value@),
    {
        let ghost before = self.entries@;
        let mut i: usize = 0;
        while i < self.entries.len() && is_before(self.entries[i].key.as_str(), key.as_str())
            invariant
                self.entries@ == before,
                i <= before.len(),
                forall|k: int| #![trigger before[k]] 0 <= k < i ==> text_lt(before[k].key@, key@),
            decreases before.len() - i,
        {
            i += 1;
        }
        let ghost e = TextEntry { key, value };
        if i < self.entries.len() && same(self.entries[i].key.as_str(), key.as_str()) {
            self.entries.set(i, TextEntry { key, value });
            proof {
                let now = self.entries@;
                assert(now == before.update(i as int, e));
                assert forall|a: int, b: int|
                    #![trigger now[a], now[b]]
                    0 <= a < b < now.len() implies text_lt(now[a].key@, now[b].key@) by {
                    assert(before[a].key@ == now[a].key@ && before[b].key@ == now[b].key@);
                }
                lemma_map_of(before);
                lemma_map_of(now);
                lemma_same_map(before, now, e, i as int);
            }
        } else {
            self.entries.insert(i, TextEntry { key, value });
            proof {
                let now = self.entries@;
                assert(now == before.insert(i as int, e));
                if i < before.len() {
                    lemma_text_lt_total(before[i as int].key@, e.key@);
                }
                assert forall|a: int, b: int|
                    #![trigger now[a], now[b]]
                    0 <= a < b < now.len() implies text_lt(now[a].key@, now[b].key@) by {
                    let ao = if a < i { a } else { a - 1 };
                    let bo = if b < i { b } else { b - 1 };
                    if a == i as int {
                        assert(now[b] == before[bo]);
                        if bo > i {
                            lemma_text_lt_transitive(
                                e.key@,
                                before[i as int].key@,
                                before[bo].key@,
                            );
                        }
                    } else if b == i as int {
                        assert(now[a] == before[a]);
                    } else {
                        assert(now[a] == before[ao] && now[b] == before[bo]);
                    }
                }
                lemma_map_of(before);
                lemma_map_of(now);
                lemma_grown_map(before, now, e, i as int);
            }
        }
    }

    /// The map as a JSON object.
    pub fn to_json(&self) -> (r: Json)
        ensures
            jv(r) == JsonView::Object(
                self.listed().map_values(|e: TextEntry| (e.key@, JsonView::Text(e.value@))),
            ),
    {
        let mut b = ObjectBuilder::new();
        let ghost all = self.entries@.map_values(
            |e: TextEntry| (e.key@, JsonView::Text(e.value@)),
        );
        assert(b@ =~= all.take(0));
        for i in 0..self.entries.len()
            invariant
                all == self.entries@.map_values(
                    |e: TextEntry| (e.key@, JsonView::Text(e.value@)),
                ),
                b@ == all.take(i as int),
        {
            b.put_text(self.entries[i].key.as_str(), self.entries[i].value.as_str());
            assert(b@ =~= all.take(i + 1));
        }
        assert(all.take(all.len() as int) =~= all);
        b.done()
    }

    /// The listed entries are the map, each key once and in order.
    pub proof fn listed_is_the_map(&self)
        requires
            self.wf(),
        ensures
            keys_ascend(self.listed()),
            map_of(self.listed()) == self@,
    {
    }
}

proof fn lemma_same_map(before: Seq<TextEntry>, now: Seq<TextEntry>, e: TextEntry, i: int)
    requires
        0 <= i < before.len(),
        now == before.update(i, e),
        before[i].key@ == e.key@,
        keys_ascend(before),
        keys_ascend(now),
    ensures
        map_of(now) == map_of(before).insert(e.key@, e.value@),
{
    lemma_map_of(before);
    lemma_map_of(now);
    let a = map_of(now);
    let b = map_of(before).insert(e.key@, e.value@);
    assert forall|k: Seq<char>| #[trigger] a.contains_key(k) == b.contains_key(k) by {
        if has_key(now, k) {
            let j = choose|j: int| #![trigger now[j]] 0 <= j < now.len() && now[j].key@ == k;
            assert(before[j].key@ == now[j].key@);
        }
        if has_key(before, k) {
            let j = choose|j: int| #![trigger before[j]] 0 <= j < before.len() && before[j].key@ == k;
            assert(now[j].key@ == before[j].key@);
        }
        if e.key@ == k {
            assert(now[i].key@ == k);
        }
    }
    assert forall|k: Seq<char>| #[trigger] a.contains_key(k) implies a[k] == b[k] by {
        let j = choose|j: int| #![trigger now[j]] 0 <= j < now.len() && now[j].key@ == k;
        if j == i {
            assert(now[i].value@ == e.value@);
        } else {
            assert(now[j] == before[j]);
            if k == e.key@ {
                if i < j {
                    assert(text_lt(now[i].key@, now[j].key@));
                } else {
                    assert(text_lt(now[j].key@, now[i].key@));
                }
                lemma_text_lt_irreflexive(k);
            }
        }
    }
    assert(a =~= b);
}

proof fn lemma_grown_map(before: Seq<TextEntry>, now: Seq<TextEntry>, e: TextEntry, i: int)
    requires
        0 <= i <= before.len(),
        now == before.insert(i, e),
        keys_ascend(before),
        keys_ascend(now),
    ensures
        map_of(now) == map_of(before).insert(e.key@, e.value@),
{
    lemma_map_of(before);
    lemma_map_of(now);
    let a = map_of(now);
    let b = map_of(before).insert(e.key@, e.value@);
    assert forall|k: Seq<char>| #[trigger] a.contains_key(k) == b.contains_key(k) by {
        if has_key(now, k) {
            let j = choose|j: int| #![trigger now[j]] 0 <= j < now.len() && now[j].key@ == k;
            if j < i {
                assert(before[j] == now[j]);
            } else if j > i {
                assert(before[j - 1] == now[j]);
            }
        }
        if has_key(before, k) {
            let j = choose|j: int| #![trigger before[j]] 0 <= j < before.len() && before[j].key@ == k;
            if j < i {
                assert(now[j] == before[j]);
            } else {
                assert(now[j + 1] == before[j]);
            }
        }
        if e.key@ == k {
            assert(now[i].key@ == k);
        }
    }
    assert forall|k: Seq<char>| #[trigger] a.contains_key(k) implies a[k] == b[k] by {
        let j = choose|j: int| #![trigger now[j]] 0 <= j < now.len() && now[j].key@ == k;
        if j == i {
            assert(now[i].value@ == e.value@);
        } else {
            let o = if j < i { j } else { j - 1 };
            assert(now[j] == before[o]);
            if k == e.key@ {
                assert(now[i].key@ == k);
                if i < j {
                    assert(text_lt(now[i].key@, now[j].key@));
                } else {
                    assert(text_lt(now[j].key@, now[i].key@));
                }
                lemma_text_lt_irreflexive(k);
            }
        }
    }
    assert(a =~= b);
}

} // verus!
