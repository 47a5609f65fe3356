//! What the members of a JSON value tell.

use crate::json::{
    extended, member, member_from, with_member, with_opt, with_opt_text, without, without_member,
    JsonView,
};
use vstd::prelude::*;

verus! {

/// Whether the members tell this value under this key.
pub open spec fn tells(m: Seq<(Seq<char>, JsonView)>, key: Seq<char>, value: JsonView) -> bool {
    m.contains((key, value))
}

/// Whether no member has this key.
pub open spec fn silent(m: Seq<(Seq<char>, JsonView)>, key: Seq<char>) -> bool {
    forall|k: int| #![trigger m[k]] 0 <= k < m.len() ==> m[k].0 != key
}

pub(crate) proof fn lemma_push(m: Seq<(Seq<char>, JsonView)>, key: Seq<char>, value: JsonView)
    ensures
        forall|k: Seq<char>, v: JsonView| tells(m, k, v) ==> #[trigger] tells(m.push((key, value)), k, v),
        tells(m.push((key, value)), key, value),
{
    let now = m.push((key, value));
    assert forall|k: Seq<char>, v: JsonView| tells(m, k, v) implies #[trigger] tells(now, k, v) by {
        let i = choose|i: int| 0 <= i < m.len() && m[i] == (k, v);
        assert(now[i] == (k, v));
    }
    assert(now[m.len() as int] == (key, value));
}

pub(crate) proof fn lemma_opt(m: Seq<(Seq<char>, JsonView)>, key: Seq<char>, value: Option<JsonView>)
    ensures
        forall|k: Seq<char>, v: JsonView| tells(m, k, v) ==> #[trigger] tells(with_opt(m, key, value), k, v),
        value matches Some(v) ==> tells(with_opt(m, key, value), key, v),
{
    if let Some(v) = value {
        lemma_push(m, key, v);
    }
}

pub(crate) proof fn lemma_opt_text(
    m: Seq<(Seq<char>, JsonView)>,
    key: Seq<char>,
    value: Option<Seq<char>>,
)
    ensures
        forall|k: Seq<char>, v: JsonView|
            tells(m, k, v) ==> #[trigger] tells(with_opt_text(m, key, value), k, v),
        value matches Some(v) ==> tells(with_opt_text(m, key, value), key, JsonView::Text(v)),
{
    if let Some(v) = value {
        lemma_push(m, key, JsonView::Text(v));
    }
}

proof fn lemma_found(m: Seq<(Seq<char>, JsonView)>, key: Seq<char>, i: int, at: int)
    requires
        0 <= i <= at < m.len(),
        m[at].0 == key,
        forall|k: int| #![trigger m[k]] i <= k < at ==> m[k].0 != key,
    ensures
        member_from(m, key, i) == Some(m[at].1),
    decreases at - i,
{
    if i < at {
        assert(m[i].0 != key);
        lemma_found(m, key, i + 1, at);
    }
}

proof fn lemma_silent(m: Seq<(Seq<char>, JsonView)>, key: Seq<char>, i: int)
    requires
        0 <= i,
        silent(m, key),
    ensures
        member_from(m, key, i) is None,
    decreases m.len() - i,
{
    if i < m.len() {
        assert(m[i].0 != key);
        lemma_silent(m, key, i + 1);
    }
}

proof fn lemma_without(m: Seq<(Seq<char>, JsonView)>, key: Seq<char>)
    ensures
        silent(without(m, key), key),
        forall|k: Seq<char>, v: JsonView| #[trigger]
            tells(without(m, key), k, v) == (k != key && tells(m, k, v)),
    decreases m.len(),
{
    if m.len() > 0 {
        let front = m.drop_last();
        let before = without(front, key);
        let now = without(m, key);
        lemma_without(front, key);
        assert forall|k: int| #![trigger now[k]] 0 <= k < now.len() implies now[k].0 != key by {
            if k < before.len() {
                assert(now[k] == before[k]);
            }
        }
        assert forall|k: Seq<char>, v: JsonView| #[trigger] tells(now, k, v) == (k != key && tells(
            m,
            k,
            v,
        )) by {
            if tells(now, k, v) {
                let i = choose|i: int| 0 <= i < now.len() && now[i] == (k, v);
                assert(now[i].0 != key);
                if i < before.len() {
                    assert(before[i] == (k, v));
                    assert(tells(before, k, v));
                    let j = choose|j: int| 0 <= j < front.len() && front[j] == (k, v);
                    assert(m[j] == (k, v));
                } else {
                    assert(m[m.len() - 1] == (k, v));
                }
            }
            if k != key && tells(m, k, v) {
                let i = choose|i: int| 0 <= i < m.len() && m[i] == (k, v);
                if i < front.len() {
                    assert(front[i] == (k, v));
                    assert(tells(front, k, v));
                    assert(tells(before, k, v));
                    let j = choose|j: int| 0 <= j < before.len() && before[j] == (k, v);
                    assert(now[j] == (k, v));
                } else {
                    assert(now[before.len() as int] == (k, v));
                }
            }
        }
    }
}

/// A member that was taken out is not there, and the others are.
pub proof fn a_dropped_member_is_gone(m: Seq<(Seq<char>, JsonView)>, key: Seq<char>)
    ensures
        member(without_member(JsonView::Object(m), key), key) is None,
        forall|k: Seq<char>, v: JsonView| #[trigger]
            tells(without(m, key), k, v) == (k != key && tells(m, k, v)),
{
    lemma_without(m, key);
    lemma_silent(without(m, key), key, 0);
}

/// A member that was set is found with its value, and the others are as they were.
pub proof fn a_set_member_is_found(m: Seq<(Seq<char>, JsonView)>, key: Seq<char>, value: JsonView)
    ensures
        member(with_member(JsonView::Object(m), key, value), key) == Some(value),
        with_member(JsonView::Object(m), key, value) matches JsonView::Object(now) && forall|
            k: Seq<char>,
            v: JsonView,
        | k != key ==> (#[trigger] tells(now, k, v) == tells(m, k, v)),
{
    let rest = without(m, key);
    let now = rest.push((key, value));
    lemma_without(m, key);
    assert forall|k: int| #![trigger now[k]] 0 <= k < rest.len() implies now[k].0 != key by {
        assert(now[k] == rest[k]);
    }
    lemma_found(now, key, 0, rest.len() as int);
    lemma_push(rest, key, value);
    assert forall|k: Seq<char>, v: JsonView| k != key implies (#[trigger] tells(now, k, v) == tells(
        m,
        k,
        v,
    )) by {
        if tells(now, k, v) {
            let i = choose|i: int| 0 <= i < now.len() && now[i] == (k, v);
            assert(rest[i] == (k, v));
            assert(tells(rest, k, v));
        }
        if tells(m, k, v) {
            assert(tells(rest, k, v));
        }
    }
}

proof fn lemma_extended_object(j: JsonView, extra: Seq<(Seq<char>, JsonView)>, n: int)
    requires
        j is Object,
    ensures
        extended(j, extra, n) is Object,
    decreases n,
{
    if n > 0 {
        lemma_extended_object(j, extra, n - 1);
    }
}

/// Of members that are set one after the other, the last of a key counts.
pub proof fn the_last_of_a_key_counts(
    j: JsonView,
    extra: Seq<(Seq<char>, JsonView)>,
    n: int,
    k: int,
)
    requires
        j is Object,
        0 <= k < n <= extra.len(),
        forall|i: int| #![trigger extra[i]] k < i < n ==> extra[i].0 != extra[k].0,
    ensures
        extended(j, extra, n) matches JsonView::Object(m) && tells(m, extra[k].0, extra[k].1),
    decreases n,
{
    lemma_extended_object(j, extra, n - 1);
    let before = extended(j, extra, n - 1)->Object_0;
    a_set_member_is_found(before, extra[n - 1].0, extra[n - 1].1);
    let now = extended(j, extra, n)->Object_0;
    if k == n - 1 {
        lemma_push(without(before, extra[k].0), extra[k].0, extra[k].1);
    } else {
        the_last_of_a_key_counts(j, extra, n - 1, k);
        assert(extra[n - 1].0 != extra[k].0);
        assert(tells(before, extra[k].0, extra[k].1));
        assert(tells(now, extra[k].0, extra[k].1));
    }
}

} // verus!
