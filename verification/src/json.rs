//! JSON values.

use crate::text::same;
use vstd::prelude::*;

verus! {

/// A JSON value. The members of an object keep their order.
#[derive(Debug)]
pub enum Json {
    Null,
    Bool(bool),
    /// A whole number.
    Int(u64),
    /// Any other number, as it is written.
    Number(String),
    Text(String),
    List(Vec<Json>),
    Object(Vec<Member>),
}

/// A member of an object.
#[derive(Debug)]
pub struct Member {
    pub key: String,
    pub value: Json,
}

/// The contents of a JSON value.
pub enum JsonView {
    Null,
    Bool(bool),
    Int(nat),
    Number(Seq<char>),
    Text(Seq<char>),
    List(Seq<JsonView>),
    Object(Seq<(Seq<char>, JsonView)>),
}

/// The contents of a JSON value.
pub open spec fn jv(j: Json) -> JsonView
    decreases j, 0int,
{
    match j {
        Json::Null => JsonView::Null,
        Json::Bool(b) => JsonView::Bool(b),
        Json::Int(n) => JsonView::Int(n as nat),
        Json::Number(s) => JsonView::Number(s@),
        Json::Text(s) => JsonView::Text(s@),
        Json::List(v) => JsonView::List(list_view(v, v.len() as int)),
        Json::Object(v) => JsonView::Object(members_view(v, v.len() as int)),
    }
}

/// The contents of the first `n` values.
pub open spec fn list_view(v: Vec<Json>, n: int) -> Seq<JsonView>
    decreases v, n,
{
    if n <= 0 || n > v.len() {
        Seq::empty()
    } else {
        list_view(v, n - 1).push(jv(v[n - 1]))
    }
}

/// The contents of the first `n` members.
pub open spec fn members_view(v: Vec<Member>, n: int) -> Seq<(Seq<char>, JsonView)>
    decreases v, n,
{
    if n <= 0 || n > v.len() {
        Seq::empty()
    } else {
        members_view(v, n - 1).push((v[n - 1].key@, jv(v[n - 1].value)))
    }
}

proof fn lemma_list_prefix(a: Vec<Json>, b: Vec<Json>, n: int)
    requires
        0 <= n <= a.len(),
        n <= b.len(),
        forall|k: int| #![trigger a[k]] 0 <= k < n ==> a[k] == b[k],
    ensures
        list_view(a, n) == list_view(b, n),
    decreases n,
{
    if n > 0 {
        lemma_list_prefix(a, b, n - 1);
        assert(a[n - 1] == b[n - 1]);
    }
}

proof fn lemma_members_prefix(a: Vec<Member>, b: Vec<Member>, n: int)
    requires
        0 <= n <= a.len(),
        n <= b.len(),
        forall|k: int| #![trigger a[k]] 0 <= k < n ==> a[k] == b[k],
    ensures
        members_view(a, n) == members_view(b, n),
    decreases n,
{
    if n > 0 {
        lemma_members_prefix(a, b, n - 1);
        assert(a[n - 1] == b[n - 1]);
    }
}

/// The contents of a list, by index.
pub proof fn lemma_list_view(v: Vec<Json>, n: int)
    requires
        0 <= n <= v.len(),
    ensures
        list_view(v, n).len() == n,
        forall|k: int| #![trigger list_view(v, n)[k]] 0 <= k < n ==> list_view(v, n)[k] == jv(v[k]),
    decreases n,
{
    if n > 0 {
        lemma_list_view(v, n - 1);
    }
}

/// The contents of an object, by index.
pub proof fn lemma_members_view(v: Vec<Member>, n: int)
    requires
        0 <= n <= v.len(),
    ensures
        members_view(v, n).len() == n,
        forall|k: int|
            #![trigger members_view(v, n)[k]]
            0 <= k < n ==> members_view(v, n)[k] == (v[k].key@, jv(v[k].value)),
    decreases n,
{
    if n > 0 {
        lemma_members_view(v, n - 1);
    }
}

/// A JSON list under construction.
pub struct ListBuilder {
    items: Vec<Json>,
}

impl View for ListBuilder {
    type V = Seq<JsonView>;

    closed spec fn view(&self) -> Seq<JsonView> {
        list_view(self.items, self.items.len() as int)
    }
}

impl ListBuilder {
    pub fn new() -> (r: Self)
        ensures
            r@ == Seq::<JsonView>::empty(),
    {
        ListBuilder { items: Vec::new() }
    }

    pub fn put(&mut self, value: Json)
        ensures
            final(self)@ == old(self)@.push(jv(value)),
    {
        let ghost before = self.items;
        self.items.push(value);
        proof {
            lemma_list_prefix(before, self.items, before.len() as int);
            assert(self.items[before.len() as int] == value);
        }
    }

    pub fn done(self) -> (r: Json)
        ensures
            jv(r) == JsonView::List(self@),
    {
        Json::List(self.items)
    }
}

/// Members with one more, where there is a value for it.
pub open spec fn with_opt(
    m: Seq<(Seq<char>, JsonView)>,
    key: Seq<char>,
    value: Option<JsonView>,
) -> Seq<(Seq<char>, JsonView)> {
    match value {
        Some(v) => m.push((key, v)),
        None => m,
    }
}

/// Members with one more, where there is a text for it.
pub open spec fn with_opt_text(
    m: Seq<(Seq<char>, JsonView)>,
    key: Seq<char>,
    value: Option<Seq<char>>,
) -> Seq<(Seq<char>, JsonView)> {
    match value {
        Some(v) => m.push((key, JsonView::Text(v))),
        None => m,
    }
}

/// An optional count; `null` without one.
pub open spec fn count_or_null(n: Option<usize>) -> JsonView {
    match n {
        Some(k) => JsonView::Int(k as nat),
        None => JsonView::Null,
    }
}

pub fn json_opt_count(n: Option<usize>) -> (r: Json)
    ensures
        jv(r) == count_or_null(n),
{
    match n {
        Some(k) => Json::Int(k as u64),
        None => Json::Null,
    }
}

/// A JSON object under construction.
pub struct ObjectBuilder {
    members: Vec<Member>,
}

impl View for ObjectBuilder {
    type V = Seq<(Seq<char>, JsonView)>;

    closed spec fn view(&self) -> Seq<(Seq<char>, JsonView)> {
        members_view(self.members, self.members.len() as int)
    }
}

impl ObjectBuilder {
    pub fn new() -> (r: Self)
        ensures
            r@ == Seq::<(Seq<char>, JsonView)>::empty(),
    {
        ObjectBuilder { members: Vec::new() }
    }

    pub fn put(&mut self, key: &str, value: Json)
        ensures
            final(self)@ == old(self)@.push((key@, jv(value))),
    {
        let ghost before = self.members;
        self.members.push(Member { key: key.to_owned(), value });
        proof {
            lemma_members_prefix(before, self.members, before.len() as int);
            assert(self.members[before.len() as int].value == value);
        }
    }

    pub fn put_text(&mut self, key: &str, value: &str)
        ensures
            final(self)@ == old(self)@.push((key@, JsonView::Text(value@))),
    {
        self.put(key, Json::Text(value.to_owned()));
    }

    /// Adds a member when there is a value for it.
    pub fn put_opt(&mut self, key: &str, value: Option<Json>)
        ensures
            final(self)@ == with_opt(old(self)@, key@, opt_jv(value)),
    {
        if let Some(v) = value {
            self.put(key, v);
        }
    }

    /// Adds a member when there is a text for it.
    pub fn put_opt_text(&mut self, key: &str, value: &Option<String>)
        ensures
            final(self)@ == with_opt_text(old(self)@, key@, crate::text::opt_view(*value)),
    {
        if let Some(v) = value {
            self.put_text(key, v.as_str());
        }
    }

    /// Adds the members of a list, in order.
    pub fn put_all(&mut self, members: Vec<Member>)
        ensures
            final(self)@ == old(self)@ + members_view(members, members.len() as int),
    {
        let ghost before = self.members;
        let ghost added = members;
        let mut rest = members;
        self.members.append(&mut rest);
        proof {
            lemma_members_view(before, before.len() as int);
            lemma_members_view(added, added.len() as int);
            lemma_members_view(self.members, self.members.len() as int);
            assert(members_view(self.members, self.members.len() as int) =~= members_view(
                before,
                before.len() as int,
            ) + members_view(added, added.len() as int));
        }
    }

    pub fn done(self) -> (r: Json)
        ensures
            jv(r) == JsonView::Object(self@),
    {
        Json::Object(self.members)
    }
}

/// A text as a JSON value.
pub fn json_text(s: &str) -> (r: Json)
    ensures
        jv(r) == JsonView::Text(s@),
{
    Json::Text(s.to_owned())
}

/// An optional text; `null` without one.
pub open spec fn text_or_null(s: Option<Seq<char>>) -> JsonView {
    match s {
        Some(t) => JsonView::Text(t),
        None => JsonView::Null,
    }
}

pub fn json_opt_text(s: &Option<String>) -> (r: Json)
    ensures
        jv(r) == text_or_null(crate::text::opt_view(*s)),
{
    match s {
        Some(t) => Json::Text(t.clone()),
        None => Json::Null,
    }
}

/// A list of texts as a JSON value.
pub open spec fn text_list(v: Seq<Seq<char>>) -> JsonView {
    JsonView::List(v.map_values(|s: Seq<char>| JsonView::Text(s)))
}

pub fn json_texts(v: &Vec<String>) -> (r: Json)
    ensures
        jv(r) == text_list(crate::text::views(v@)),
{
    let mut b = ListBuilder::new();
    let ghost all = crate::text::views(v@).map_values(|s: Seq<char>| JsonView::Text(s));
    assert(b@ =~= all.take(0));
    for i in 0..v.len()
        invariant
            all == crate::text::views(v@).map_values(|s: Seq<char>| JsonView::Text(s)),
            b@ == all.take(i as int),
    {
        b.put(Json::Text(v[i].clone()));
        assert(b@ =~= all.take(i + 1));
    }
    assert(all.take(all.len() as int) =~= all);
    b.done()
}

/// A value that has a form on the wire.
pub trait Rendered: Sized {
    spec fn rendered(&self) -> JsonView;

    fn render(&self) -> (r: Json)
        ensures
            jv(r) == self.rendered(),
    ;
}

/// A list of values on the wire.
pub open spec fn rendered_list<T: Rendered>(v: Seq<T>) -> JsonView {
    JsonView::List(Seq::new(v.len(), |i: int| v[i].rendered()))
}

/// Renders a list of values.
pub fn render_list<T: Rendered>(v: &Vec<T>) -> (r: Json)
    ensures
        jv(r) == rendered_list(v@),
{
    let mut b = ListBuilder::new();
    let ghost all = Seq::new(v@.len(), |i: int| v@[i].rendered());
    assert(b@ =~= all.take(0));
    for i in 0..v.len()
        invariant
            all == Seq::new(v@.len(), |i: int| v@[i].rendered()),
            b@ == all.take(i as int),
    {
        b.put(v[i].render());
        assert(b@ =~= all.take(i + 1));
    }
    assert(all.take(all.len() as int) =~= all);
    b.done()
}

/// Copies a JSON value.
pub fn copy_json(j: &Json) -> (r: Json)
    ensures
        jv(r) == jv(*j),
    decreases *j, 0int,
{
    match j {
        Json::Null => Json::Null,
        Json::Bool(b) => Json::Bool(*b),
        Json::Int(n) => Json::Int(*n),
        Json::Number(s) => Json::Number(s.clone()),
        Json::Text(s) => Json::Text(s.clone()),
        Json::List(v) => {
            let mut b = ListBuilder::new();
            for i in 0..v.len()
                invariant
                    j->List_0 == *v,
                    *j == Json::List(*v),
                    b@ == list_view(*v, i as int),
            {
                assert(decreases_to!(*j => *v));
                assert(decreases_to!(*v => v[i as int]));
                b.put(copy_json(&v[i]));
            }
            b.done()
        },
        Json::Object(v) => {
            let mut b = ObjectBuilder::new();
            for i in 0..v.len()
                invariant
                    j->Object_0 == *v,
                    *j == Json::Object(*v),
                    b@ == members_view(*v, i as int),
            {
                assert(decreases_to!(*j => *v));
                assert(decreases_to!(*v => v[i as int]));
                b.put(v[i].key.as_str(), copy_json(&v[i].value));
            }
            b.done()
        },
    }
}

/// The first of the members from `i` on with this key.
pub open spec fn member_from(m: Seq<(Seq<char>, JsonView)>, key: Seq<char>, i: int) -> Option<
    JsonView,
>
    decreases m.len() - i,
{
    if i < 0 || i >= m.len() {
        None
    } else if m[i].0 == key {
        Some(m[i].1)
    } else {
        member_from(m, key, i + 1)
    }
}

/// The member of a value with this key; only objects have members.
pub open spec fn member(j: JsonView, key: Seq<char>) -> Option<JsonView> {
    match j {
        JsonView::Object(m) => member_from(m, key, 0),
        _ => None,
    }
}

pub open spec fn opt_jv(j: Option<Json>) -> Option<JsonView> {
    match j {
        Some(x) => Some(jv(x)),
        None => None,
    }
}

/// Finds a member.
pub fn get_member<'a>(j: &'a Json, key: &str) -> (r: Option<&'a Json>)
    ensures
        match r {
            Some(x) => member(jv(*j), key@) == Some(jv(*x)),
            None => member(jv(*j), key@) is None,
        },
{
    match j {
        Json::Object(v) => {
            let ghost m = members_view(*v, v.len() as int);
            proof {
                lemma_members_view(*v, v.len() as int);
            }
            for i in 0..v.len()
                invariant
                    m == members_view(*v, v.len() as int),
                    m.len() == v.len(),
                    forall|k: int|
                        #![trigger m[k]]
                        0 <= k < m.len() ==> m[k] == (v[k].key@, jv(v[k].value)),
                    jv(*j) == JsonView::Object(m),
                    member_from(m, key@, 0) == member_from(m, key@, i as int),
            {
                assert(m[i as int] == (v[i as int].key@, jv(v[i as int].value)));
                if same(v[i].key.as_str(), key) {
                    return Some(&v[i].value);
                }
            }
            None
        },
        _ => None,
    }
}

/// The members without those that have this key.
pub open spec fn without(m: Seq<(Seq<char>, JsonView)>, key: Seq<char>) -> Seq<(
    Seq<char>,
    JsonView,
)>
    decreases m.len(),
{
    if m.len() == 0 {
        Seq::empty()
    } else if m.last().0 == key {
        without(m.drop_last(), key)
    } else {
        without(m.drop_last(), key).push(m.last())
    }
}

/// A value without the members that have this key.
pub open spec fn without_member(j: JsonView, key: Seq<char>) -> JsonView {
    match j {
        JsonView::Object(m) => JsonView::Object(without(m, key)),
        _ => j,
    }
}

/// Takes a member out of a value.
pub fn drop_member(j: Json, key: &str) -> (r: Json)
    ensures
        jv(r) == without_member(jv(j), key@),
{
    match j {
        Json::Object(v) => {
            let mut b = ObjectBuilder::new();
            let ghost m = members_view(v, v.len() as int);
            proof {
                lemma_members_view(v, v.len() as int);
                assert(m.take(0) =~= Seq::empty());
            }
            for i in 0..v.len()
                invariant
                    m == members_view(v, v.len() as int),
                    m.len() == v.len(),
                    forall|k: int|
                        #![trigger m[k]]
                        0 <= k < m.len() ==> m[k] == (v[k].key@, jv(v[k].value)),
                    b@ == without(m.take(i as int), key@),
            {
                proof {
                    let now = m.take(i + 1);
                    assert(now.drop_last() =~= m.take(i as int));
                    assert(now.last() == (v[i as int].key@, jv(v[i as int].value)));
                }
                if !same(v[i].key.as_str(), key) {
                    b.put(v[i].key.as_str(), copy_json(&v[i].value));
                }
            }
            assert(m.take(m.len() as int) =~= m);
            b.done()
        },
        other => other,
    }
}

/// A value with a member set, in place of any other of its key. Only objects have
/// members.
pub open spec fn with_member(j: JsonView, key: Seq<char>, value: JsonView) -> JsonView {
    match j {
        JsonView::Object(m) => JsonView::Object(without(m, key).push((key, value))),
        _ => j,
    }
}

/// Sets a member.
pub fn set_member(j: Json, key: &str, value: Json) -> (r: Json)
    ensures
        jv(r) == with_member(jv(j), key@, jv(value)),
{
    let rest = drop_member(j, key);
    match rest {
        Json::Object(members) => {
            let mut b = ObjectBuilder::new();
            let ghost all = members;
            b.put_all(members);
            b.put(key, value);
            proof {
                let m = members_view(all, all.len() as int);
                assert(Seq::<(Seq<char>, JsonView)>::empty() + m =~= m);
            }
            b.done()
        },
        other => other,
    }
}

/// A value with members set, one after the other.
pub open spec fn extended(j: JsonView, extra: Seq<(Seq<char>, JsonView)>, n: int) -> JsonView
    decreases n,
{
    if n <= 0 {
        j
    } else {
        with_member(extended(j, extra, n - 1), extra[n - 1].0, extra[n - 1].1)
    }
}

/// Sets members, one after the other.
pub fn extend_object(j: Json, extra: &Vec<Member>) -> (r: Json)
    ensures
        jv(r) == extended(jv(j), members_view(*extra, extra.len() as int), extra.len() as int),
{
    let ghost all = members_view(*extra, extra.len() as int);
    proof {
        lemma_members_view(*extra, extra.len() as int);
    }
    let ghost start = jv(j);
    let mut out = j;
    for i in 0..extra.len()
        invariant
            all == members_view(*extra, extra.len() as int),
            all.len() == extra.len(),
            forall|k: int|
                #![trigger all[k]]
                0 <= k < all.len() ==> all[k] == (extra[k].key@, jv(extra[k].value)),
            jv(out) == extended(start, all, i as int),
    {
        assert(all[i as int] == (extra[i as int].key@, jv(extra[i as int].value)));
        out = set_member(out, extra[i].key.as_str(), copy_json(&extra[i].value));
    }
    out
}

/// Whether two values have the same contents.
pub fn same_json(a: &Json, b: &Json) -> (r: bool)
    ensures
        r == (jv(*a) == jv(*b)),
    decreases *a, 0int,
{
    match (a, b) {
        (Json::Null, Json::Null) => true,
        (Json::Bool(x), Json::Bool(y)) => *x == *y,
        (Json::Int(x), Json::Int(y)) => *x == *y,
        (Json::Number(x), Json::Number(y)) => same(x.as_str(), y.as_str()),
        (Json::Text(x), Json::Text(y)) => same(x.as_str(), y.as_str()),
        (Json::List(x), Json::List(y)) => {
            proof {
                lemma_list_view(*x, x.len() as int);
                lemma_list_view(*y, y.len() as int);
            }
            if x.len() != y.len() {
                return false;
            }
            for i in 0..x.len()
                invariant
                    a->List_0 == *x,
                    *a == Json::List(*x),
                    *b == Json::List(*y),
                    x.len() == y.len(),
                    list_view(*x, x.len() as int).len() == x.len(),
                    list_view(*y, y.len() as int).len() == y.len(),
                    forall|k: int|
                        #![trigger list_view(*x, x.len() as int)[k]]
                        0 <= k < x.len() ==> list_view(*x, x.len() as int)[k] == jv(x[k]),
                    forall|k: int|
                        #![trigger list_view(*y, y.len() as int)[k]]
                        0 <= k < y.len() ==> list_view(*y, y.len() as int)[k] == jv(y[k]),
                    forall|k: int| #![trigger jv(x[k])] 0 <= k < i ==> jv(x[k]) == jv(y[k]),
            {
                assert(decreases_to!(*a => *x));
                assert(decreases_to!(*x => x[i as int]));
                if !same_json(&x[i], &y[i]) {
                    assert(list_view(*x, x.len() as int)[i as int] != list_view(
                        *y,
                        y.len() as int,
                    )[i as int]);
                    return false;
                }
            }
            assert(list_view(*x, x.len() as int) =~= list_view(*y, y.len() as int));
            true
        },
        (Json::Object(x), Json::Object(y)) => {
            proof {
                lemma_members_view(*x, x.len() as int);
                lemma_members_view(*y, y.len() as int);
            }
            if x.len() != y.len() {
                return false;
            }
            for i in 0..x.len()
                invariant
                    a->Object_0 == *x,
                    *a == Json::Object(*x),
                    *b == Json::Object(*y),
                    x.len() == y.len(),
                    members_view(*x, x.len() as int).len() == x.len(),
                    members_view(*y, y.len() as int).len() == y.len(),
                    forall|k: int|
                        #![trigger members_view(*x, x.len() as int)[k]]
                        0 <= k < x.len() ==> members_view(*x, x.len() as int)[k] == (
                            x[k].key@,
                            jv(x[k].value),
                        ),
                    forall|k: int|
                        #![trigger members_view(*y, y.len() as int)[k]]
                        0 <= k < y.len() ==> members_view(*y, y.len() as int)[k] == (
                            y[k].key@,
                            jv(y[k].value),
                        ),
                    forall|k: int|
                        #![trigger members_view(*x, x.len() as int)[k]]
                        0 <= k < i ==> members_view(*x, x.len() as int)[k] == members_view(
                            *y,
                            y.len() as int,
                        )[k],
            {
                assert(decreases_to!(*a => *x));
                assert(decreases_to!(*x => x[i as int]));
                assert(members_view(*x, x.len() as int)[i as int] == (
                    x[i as int].key@,
                    jv(x[i as int].value),
                ));
                assert(members_view(*y, y.len() as int)[i as int] == (
                    y[i as int].key@,
                    jv(y[i as int].value),
                ));
                if !same(x[i].key.as_str(), y[i].key.as_str()) || !same_json(
                    &x[i].value,
                    &y[i].value,
                ) {
                    return false;
                }
            }
            assert(members_view(*x, x.len() as int) =~= members_view(*y, y.len() as int));
            true
        },
        _ => false,
    }
}

} // verus!
