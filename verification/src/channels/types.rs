//! The channel of the type definitions.

use crate::frames::{change_frame, change_members, initial_members, initial_value_frame};
use crate::json::{
    copy_json, get_member, jv, member, same_json, Json, JsonView, ListBuilder, ObjectBuilder,
};
use crate::sorting::{in_rank, sort, Ranked};
use crate::text::{
    keys_at_most, keys_le, lemma_keys_le_total, lemma_keys_le_transitive, same, str_views,
};
use vstd::prelude::*;

verus! {

/// A type definition as it is served. Two repos may each define a type of one
/// name, so a type is known by its name and its repo.
#[derive(Debug)]
pub struct TypeState {
    pub name: String,
    pub repo: String,
    pub served: Json,
}

impl TypeState {
    pub open spec fn key(self) -> Seq<Seq<char>> {
        seq![self.name@, self.repo@]
    }

    fn key_parts(&self) -> (r: Vec<&str>)
        ensures
            str_views(r@) == self.key(),
    {
        let mut k: Vec<&str> = Vec::new();
        k.push(self.name.as_str());
        k.push(self.repo.as_str());
        assert(str_views(k@) =~= self.key());
        k
    }
}

/// Types are ordered by name, then by repo.
impl Ranked for TypeState {
    open spec fn rank_le(&self, other: &Self) -> bool {
        keys_le(self.key(), other.key())
    }

    fn at_most(&self, other: &Self) -> (r: bool) {
        let a = self.key_parts();
        let b = other.key_parts();
        keys_at_most(&a, &b)
    }

    proof fn rank_total(a: &Self, b: &Self) {
        lemma_keys_le_total(a.key(), b.key());
    }

    proof fn rank_transitive(a: &Self, b: &Self, c: &Self) {
        lemma_keys_le_transitive(a.key(), b.key(), c.key());
    }
}

/// The last of the first `n` types with this name and repo.
pub open spec fn type_among(list: Seq<TypeState>, name: Seq<char>, repo: Seq<char>, n: int) -> Option<
    int,
>
    decreases n,
{
    if n <= 0 {
        None
    } else if list[n - 1].name@ == name && list[n - 1].repo@ == repo {
        Some(n - 1)
    } else {
        type_among(list, name, repo, n - 1)
    }
}

/// The type that a list has under the identity of `t`.
pub open spec fn known_type(list: Seq<TypeState>, t: TypeState) -> Option<int> {
    type_among(list, t.name@, t.repo@, list.len() as int)
}

fn find_type(list: &Vec<TypeState>, t: &TypeState) -> (r: Option<usize>)
    ensures
        match r {
            Some(i) => i < list@.len() && known_type(list@, *t) == Some(i as int),
            None => known_type(list@, *t) is None,
        },
{
    let mut i: usize = list.len();
    while i > 0
        invariant
            i <= list@.len(),
            known_type(list@, *t) == type_among(list@, t.name@, t.repo@, i as int),
        decreases i,
    {
        i -= 1;
        if same(list[i].name.as_str(), t.name.as_str()) && same(
            list[i].repo.as_str(),
            t.repo.as_str(),
        ) {
            return Some(i);
        }
    }
    None
}

/// The identity of a type on the wire, with the digest that it is served with.
pub open spec fn handle_json(t: TypeState) -> JsonView {
    JsonView::Object(
        seq![
            ("name"@, JsonView::Text(t.name@)),
            ("repo"@, JsonView::Text(t.repo@)),
            (
                "hash"@,
                match member(jv(t.served), "hash"@) {
                    Some(h) => h,
                    None => JsonView::Null,
                },
            ),
        ],
    )
}

fn render_handle(t: &TypeState) -> (r: Json)
    ensures
        jv(r) == handle_json(*t),
{
    let mut b = ObjectBuilder::new();
    b.put_text("name", t.name.as_str());
    b.put_text("repo", t.repo.as_str());
    let hash = match get_member(&t.served, "hash") {
        Some(h) => copy_json(h),
        None => Json::Null,
    };
    b.put("hash", hash);
    let ghost want = handle_json(*t);
    assert(b@ =~= want->Object_0);
    b.done()
}

/// The first `n` types of `cur` whose identity `last` does not have.
pub open spec fn types_beyond(last: Seq<TypeState>, cur: Seq<TypeState>, n: int) -> Seq<JsonView>
    decreases n,
{
    if n <= 0 {
        Seq::empty()
    } else if known_type(last, cur[n - 1]) is None {
        types_beyond(last, cur, n - 1).push(handle_json(cur[n - 1]))
    } else {
        types_beyond(last, cur, n - 1)
    }
}

/// The first `n` types of `cur` that `last` served otherwise.
pub open spec fn types_altered(last: Seq<TypeState>, cur: Seq<TypeState>, n: int) -> Seq<JsonView>
    decreases n,
{
    if n <= 0 {
        Seq::empty()
    } else {
        let before = types_altered(last, cur, n - 1);
        match known_type(last, cur[n - 1]) {
            Some(k) => if jv(last[k].served) != jv(cur[n - 1].served) {
                before.push(handle_json(cur[n - 1]))
            } else {
                before
            },
            None => before,
        }
    }
}

fn list_beyond(last: &Vec<TypeState>, cur: &Vec<TypeState>) -> (r: (ListBuilder, usize))
    ensures
        r.0@ == types_beyond(last@, cur@, cur@.len() as int),
        r.1 == r.0@.len(),
{
    let mut list = ListBuilder::new();
    let mut n: usize = 0;
    for i in 0..cur.len()
        invariant
            list@ == types_beyond(last@, cur@, i as int),
            n == list@.len(),
            n <= i,
    {
        if find_type(last, &cur[i]).is_none() {
            list.put(render_handle(&cur[i]));
            n += 1;
        }
    }
    (list, n)
}

fn list_altered(last: &Vec<TypeState>, cur: &Vec<TypeState>) -> (r: (ListBuilder, usize))
    ensures
        r.0@ == types_altered(last@, cur@, cur@.len() as int),
        r.1 == r.0@.len(),
{
    let mut list = ListBuilder::new();
    let mut n: usize = 0;
    for i in 0..cur.len()
        invariant
            list@ == types_altered(last@, cur@, i as int),
            n == list@.len(),
            n <= i,
    {
        if let Some(k) = find_type(last, &cur[i]) {
            if !same_json(&last[k].served, &cur[i].served) {
                list.put(render_handle(&cur[i]));
                n += 1;
            }
        }
    }
    (list, n)
}

/// What an event of the channel covers: the identities of the types that appeared,
/// vanished or are served otherwise.
pub open spec fn types_hint(last: Seq<TypeState>, cur: Seq<TypeState>) -> JsonView {
    JsonView::Object(
        seq![
            ("scope"@, JsonView::Text("types"@)),
            ("added"@, JsonView::List(types_beyond(last, cur, cur.len() as int))),
            ("removed"@, JsonView::List(types_beyond(cur, last, last.len() as int))),
            ("changed"@, JsonView::List(types_altered(last, cur, cur.len() as int))),
        ],
    )
}

/// Whether two lists of types differ on the wire.
pub open spec fn types_differ(last: Seq<TypeState>, cur: Seq<TypeState>) -> bool {
    ||| types_beyond(last, cur, cur.len() as int).len() > 0
    ||| types_beyond(cur, last, last.len() as int).len() > 0
    ||| types_altered(last, cur, cur.len() as int).len() > 0
}

/// The `types` channel.
#[derive(Debug)]
pub struct TypesWatch {
    pub id: u64,
    /// The types that were last reported, in order.
    pub last: Vec<TypeState>,
}

impl TypesWatch {
    pub fn new(id: u64, types: Vec<TypeState>) -> (r: Self)
        ensures
            r.id == id,
            r.last@ == in_rank(types@),
    {
        TypesWatch { id, last: sort(types) }
    }

    /// The types at the time of the subscription, as the `types` read lists them.
    pub fn initial_frame(&self, version: u64, listed: Json) -> (r: Json)
        ensures
            jv(r) == JsonView::Object(
                initial_members(self.id as nat, version as nat, jv(listed)),
            ),
    {
        initial_value_frame(self.id, version, listed)
    }

    /// Tells which types changed since the last event, unless none did. An edit of
    /// a file that leaves what is served as it was is not told.
    pub fn wake(&mut self, version: u64, types: Vec<TypeState>) -> (r: Option<Json>)
        ensures
            final(self).id == old(self).id,
            r is Some <==> types_differ(old(self).last@, in_rank(types@)),
            match r {
                Some(frame) => {
                    &&& jv(frame) == JsonView::Object(
                        change_members(
                            old(self).id as nat,
                            "types-changed"@,
                            version as nat,
                            types_hint(old(self).last@, in_rank(types@)),
                        ),
                    )
                    &&& final(self).last@ == in_rank(types@)
                },
                None => final(self).last == old(self).last,
            },
    {
        let cur = sort(types);
        let (added, a) = list_beyond(&self.last, &cur);
        let (removed, d) = list_beyond(&cur, &self.last);
        let (changed, c) = list_altered(&self.last, &cur);
        if a == 0 && d == 0 && c == 0 {
            return None;
        }
        let mut b = ObjectBuilder::new();
        b.put_text("scope", "types");
        b.put("added", added.done());
        b.put("removed", removed.done());
        b.put("changed", changed.done());
        let ghost want = types_hint(self.last@, cur@);
        assert(b@ =~= want->Object_0);
        self.last = cur;
        Some(change_frame(self.id, "types-changed", version, b.done()))
    }
}

proof fn lemma_type_among(list: Seq<TypeState>, name: Seq<char>, repo: Seq<char>, n: int)
    requires
        0 <= n <= list.len(),
    ensures
        match type_among(list, name, repo, n) {
            Some(i) => 0 <= i < n && list[i].name@ == name && list[i].repo@ == repo,
            None => forall|i: int|
                #![trigger list[i]]
                0 <= i < n ==> !(list[i].name@ == name && list[i].repo@ == repo),
        },
    decreases n,
{
    if n > 0 {
        lemma_type_among(list, name, repo, n - 1);
    }
}

/// A rebuild that serves every type as before is not told.
pub proof fn unchanged_types_are_not_told(list: Seq<TypeState>, n: int)
    requires
        0 <= n <= list.len(),
        forall|i: int, j: int|
            #![trigger list[i], list[j]]
            0 <= i < j < list.len() ==> list[i].key() != list[j].key(),
    ensures
        types_beyond(list, list, n).len() == 0,
        types_altered(list, list, n).len() == 0,
    decreases n,
{
    if n > 0 {
        unchanged_types_are_not_told(list, n - 1);
        let t = list[n - 1];
        lemma_type_among(list, t.name@, t.repo@, list.len() as int);
        match known_type(list, t) {
            Some(k) => {
                if k != n - 1 {
                    assert(list[k].key() =~= t.key());
                    assert(list[k].key() == list[n - 1].key());
                }
            },
            None => {
                assert(list[n - 1].name@ == t.name@);
            },
        }
    }
}

} // verus!
