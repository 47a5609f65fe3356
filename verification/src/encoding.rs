//! JSON as text and as bytes. Reading and writing are those of `serde_json`.

use crate::json::{jv, Json, JsonView, Member};
use crate::text::{decimal, hex_of, text_le};
use vstd::prelude::*;

verus! {

/// A value as `serde_json` holds it.
#[verifier::external_type_specification]
#[verifier::external_body]
pub struct ExValue(serde_json::Value);

/// What a value of `serde_json` holds: its parts by their kinds, the members of an object
/// in the order of the object, a number that is no `u64` as it is written.
pub uninterp spec fn json_contents(v: serde_json::Value) -> JsonView;

/// A character inside a JSON text.
pub open spec fn json_char(c: char) -> Seq<char> {
    if c == '"' || c == '\\' {
        seq!['\\', c]
    } else if c as u32 == 8 {
        seq!['\\', 'b']
    } else if c == '\t' {
        seq!['\\', 't']
    } else if c == '\n' {
        seq!['\\', 'n']
    } else if c as u32 == 12 {
        seq!['\\', 'f']
    } else if c == '\r' {
        seq!['\\', 'r']
    } else if (c as u32) < 32 {
        seq!['\\', 'u'] + hex_of(c as nat, 4)
    } else {
        seq![c]
    }
}

/// The characters of a JSON text.
pub open spec fn json_chars(s: Seq<char>) -> Seq<char>
    decreases s.len(),
{
    if s.len() == 0 {
        Seq::empty()
    } else {
        json_chars(s.drop_last()) + json_char(s.last())
    }
}

/// A text as JSON writes it.
pub open spec fn json_quoted(s: Seq<char>) -> Seq<char> {
    seq!['"'] + json_chars(s) + seq!['"']
}

/// A JSON value without white space between its parts.
pub open spec fn compact(j: JsonView) -> Seq<char>
    decreases j,
{
    match j {
        JsonView::Null => "null"@,
        JsonView::Bool(b) => if b {
            "true"@
        } else {
            "false"@
        },
        JsonView::Int(n) => decimal(n),
        JsonView::Number(s) => s,
        JsonView::Text(s) => json_quoted(s),
        JsonView::List(items) => "["@ + compact_items(items, items.len() as int) + "]"@,
        JsonView::Object(members) => "{"@ + compact_members(members, members.len() as int) + "}"@,
    }
}

/// The first `n` values of a list, with commas between them.
pub open spec fn compact_items(items: Seq<JsonView>, n: int) -> Seq<char>
    decreases items, n,
{
    if n <= 0 || n > items.len() {
        Seq::empty()
    } else if n == 1 {
        compact(items[0])
    } else {
        compact_items(items, n - 1) + ","@ + compact(items[n - 1])
    }
}

/// The first `n` members of an object, with commas between them.
pub open spec fn compact_members(members: Seq<(Seq<char>, JsonView)>, n: int) -> Seq<char>
    decreases members, n,
{
    if n <= 0 || n > members.len() {
        Seq::empty()
    } else {
        let here = json_quoted(members[n - 1].0) + ":"@ + compact(members[n - 1].1);
        if n == 1 {
            here
        } else {
            compact_members(members, n - 1) + ","@ + here
        }
    }
}

/// Whether no part of a value is a number other than a whole one.
pub open spec fn numberless(j: JsonView) -> bool
    decreases j,
{
    match j {
        JsonView::Number(_) => false,
        JsonView::List(items) => forall|k: int|
            #![trigger items[k]]
            0 <= k < items.len() ==> numberless(items[k]),
        JsonView::Object(members) => forall|k: int|
            #![trigger members[k]]
            0 <= k < members.len() ==> numberless(members[k].1),
        _ => true,
    }
}

/// Whether every object in a value has each of its keys once.
pub open spec fn keys_differ(j: JsonView) -> bool
    decreases j,
{
    match j {
        JsonView::List(items) => forall|k: int|
            #![trigger items[k]]
            0 <= k < items.len() ==> keys_differ(items[k]),
        JsonView::Object(members) => {
            &&& forall|a: int, b: int|
                #![trigger members[a], members[b]]
                0 <= a < b < members.len() ==> members[a].0 != members[b].0
            &&& forall|k: int|
                #![trigger members[k]]
                0 <= k < members.len() ==> keys_differ(members[k].1)
        },
        _ => true,
    }
}

/// Where a member goes among others in the order of their keys, from `i` on.
pub open spec fn key_place(v: Seq<(Seq<char>, JsonView)>, key: Seq<char>, i: int) -> int
    decreases v.len() - i,
{
    if i >= v.len() || text_le(key, v[i].0) {
        i
    } else {
        key_place(v, key, i + 1)
    }
}

/// Members in the order of their keys.
pub open spec fn by_key(v: Seq<(Seq<char>, JsonView)>) -> Seq<(Seq<char>, JsonView)>
    decreases v.len(),
{
    if v.len() == 0 {
        v
    } else {
        let rest = by_key(v.drop_last());
        rest.insert(key_place(rest, v.last().0, 0), v.last())
    }
}

/// A value with the members of every object in the order of their keys.
pub open spec fn keyed(j: JsonView) -> JsonView
    decreases j,
{
    match j {
        JsonView::List(items) => JsonView::List(keyed_items(items, items.len() as int)),
        JsonView::Object(members) => JsonView::Object(
            by_key(keyed_members(members, members.len() as int)),
        ),
        _ => j,
    }
}

pub open spec fn keyed_items(items: Seq<JsonView>, n: int) -> Seq<JsonView>
    decreases items, n,
{
    if n <= 0 || n > items.len() {
        Seq::empty()
    } else {
        keyed_items(items, n - 1).push(keyed(items[n - 1]))
    }
}

pub open spec fn keyed_members(members: Seq<(Seq<char>, JsonView)>, n: int) -> Seq<
    (Seq<char>, JsonView),
>
    decreases members, n,
{
    if n <= 0 || n > members.len() {
        Seq::empty()
    } else {
        keyed_members(members, n - 1).push((members[n - 1].0, keyed(members[n - 1].1)))
    }
}

/// Why bytes are no JSON.
#[derive(Debug)]
pub struct JsonError {
    pub message: String,
    /// Whether the bytes end before the value does.
    pub cut_short: bool,
}

pub open spec fn error_view(e: JsonError) -> (Seq<char>, bool) {
    (e.message@, e.cut_short)
}

/// What `serde_json::from_slice` makes of bytes: what the value holds, or the text of the
/// error and whether it is that of a premature end.
pub uninterp spec fn parsed_json(bytes: Seq<u8>) -> Result<JsonView, (Seq<char>, bool)>;

/// Reads bytes as one JSON value.
///
/// The body is `serde_json::from_slice` into a `Value`. Its result depends on the bytes
/// alone. Of an error the text and `is_eof` are kept.
#[verifier::external_body]
fn parse_value(bytes: &Vec<u8>) -> (r: Result<serde_json::Value, JsonError>)
    ensures
        match r {
            Ok(v) => parsed_json(bytes@) == Ok::<JsonView, (Seq<char>, bool)>(json_contents(v)),
            Err(e) => parsed_json(bytes@) == Err::<JsonView, (Seq<char>, bool)>(error_view(e)),
        },
{
    match serde_json::from_slice(bytes) {
        Ok(v) => Ok(v),
        Err(e) => Err(JsonError { message: e.to_string(), cut_short: e.is_eof() }),
    }
}

/// Takes a value of `serde_json` apart.
///
/// The body moves the fields of each variant of `serde_json::Value` over, one for one; a
/// number is asked for its `u64`, and written where it is none.
#[verifier::external_body]
fn json_of(v: serde_json::Value) -> (r: Json)
    ensures
        jv(r) == json_contents(v),
{
    match v {
        serde_json::Value::Null => Json::Null,
        serde_json::Value::Bool(b) => Json::Bool(b),
        serde_json::Value::Number(n) => n.as_u64().map_or(Json::Number(n.to_string()), Json::Int),
        serde_json::Value::String(s) => Json::Text(s),
        serde_json::Value::Array(v) => Json::List(v.into_iter().map(json_of).collect()),
        serde_json::Value::Object(m) => Json::Object(
            m.into_iter().map(|(key, v)| Member { key, value: json_of(v) }).collect(),
        ),
    }
}

/// What a value holds once it is put together in `serde_json`. A number that is no `u64`
/// is read from its text, and is null where that is no number.
pub uninterp spec fn held_json(j: JsonView) -> JsonView;

/// Puts a value of `serde_json` together.
///
/// The body makes each variant of `serde_json::Value` from its parts, one for one. An
/// object of `serde_json` holds its members in the order of their keys. What it keeps of
/// members with one key, and how it reads the text of a number, is told by the name alone.
#[verifier::external_body]
fn value_of(j: &Json) -> (r: serde_json::Value)
    ensures
        json_contents(r) == held_json(jv(*j)),
        numberless(jv(*j)) && keys_differ(jv(*j)) ==> json_contents(r) == keyed(jv(*j)),
{
    match j {
        Json::Null => serde_json::Value::Null,
        Json::Bool(b) => serde_json::Value::Bool(*b),
        Json::Int(n) => serde_json::Value::from(*n),
        Json::Number(s) => serde_json::from_str::<serde_json::Number>(s).map_or(
            serde_json::Value::Null,
            serde_json::Value::Number,
        ),
        Json::Text(s) => serde_json::Value::from(s.as_str()),
        Json::List(v) => v.iter().map(value_of).collect(),
        Json::Object(v) => v.iter().map(|m| (m.key.clone(), value_of(&m.value))).collect(),
    }
}

/// A value as the `Display` of `serde_json::Value` writes it.
pub uninterp spec fn displayed(j: JsonView) -> Seq<char>;

/// Writes a value as text.
///
/// The body is the `Display` of `serde_json::Value`, which writes no white space between
/// the parts. How a number that is no `u64` is written is told by the name alone.
#[verifier::external_body]
fn display_value(v: serde_json::Value) -> (r: String)
    ensures
        r@ == displayed(json_contents(v)),
        numberless(json_contents(v)) ==> r@ == compact(json_contents(v)),
{
    v.to_string()
}

/// A value as `serde_json::to_vec` writes it.
pub uninterp spec fn encoded(j: JsonView) -> Seq<u8>;

/// Writes a value as bytes.
///
/// The body is `serde_json::to_vec` on a `Value`, which fails on no such value. It writes
/// UTF-8, without white space between the parts. How a number that is no `u64` is written
/// is told by the name alone.
#[verifier::external_body]
fn encode_value(v: serde_json::Value) -> (r: Vec<u8>)
    ensures
        r@ == encoded(json_contents(v)),
        numberless(json_contents(v)) ==> r@ == vstd::utf8::encode_utf8(compact(json_contents(v))),
{
    serde_json::to_vec(&v).expect("a JSON value serializes")
}

/// What reading JSON comes to.
pub open spec fn parse_view(r: Result<Json, JsonError>) -> Result<JsonView, (Seq<char>, bool)> {
    match r {
        Ok(j) => Ok(jv(j)),
        Err(e) => Err(error_view(e)),
    }
}

/// Reads bytes as one JSON value.
pub fn parse_json(bytes: &Vec<u8>) -> (r: Result<Json, JsonError>)
    ensures
        parse_view(r) == parsed_json(bytes@),
{
    match parse_value(bytes) {
        Ok(v) => Ok(json_of(v)),
        Err(e) => Err(e),
    }
}

/// A value as it is written.
pub open spec fn written(j: JsonView) -> Seq<char> {
    displayed(held_json(j))
}

/// Writes a value as text. Where it has no numbers but whole ones, and each key once, this
/// is its compact form with the keys in order.
pub fn compact_text(j: &Json) -> (r: String)
    ensures
        r@ == written(jv(*j)),
        numberless(jv(*j)) && keys_differ(jv(*j)) ==> r@ == compact(keyed(jv(*j))),
{
    proof {
        if numberless(jv(*j)) {
            lemma_keyed_numberless(jv(*j));
        }
    }
    display_value(value_of(j))
}

/// Writes a text as JSON does.
pub fn quote_json(s: &str) -> (r: String)
    ensures
        r@ == json_quoted(s@),
{
    let j = Json::Text(s.to_owned());
    assert(jv(j) == JsonView::Text(s@));
    assert(keyed(jv(j)) == jv(j));
    compact_text(&j)
}

/// The bytes of a frame. Where it has no numbers but whole ones, and each key once, they
/// are those of its compact form with the keys in order.
pub fn frame_bytes(frame: &Json) -> (r: Vec<u8>)
    ensures
        r@ == encoded(held_json(jv(*frame))),
        numberless(jv(*frame)) && keys_differ(jv(*frame)) ==> r@ == vstd::utf8::encode_utf8(
            compact(keyed(jv(*frame))),
        ),
{
    proof {
        if numberless(jv(*frame)) {
            lemma_keyed_numberless(jv(*frame));
        }
    }
    encode_value(value_of(frame))
}

proof fn lemma_key_place(v: Seq<(Seq<char>, JsonView)>, key: Seq<char>, i: int)
    requires
        0 <= i <= v.len(),
    ensures
        i <= key_place(v, key, i) <= v.len(),
    decreases v.len() - i,
{
    if i < v.len() {
        lemma_key_place(v, key, i + 1);
    }
}

/// The order of the keys adds no member.
proof fn lemma_by_key(v: Seq<(Seq<char>, JsonView)>)
    requires
        forall|k: int| #![trigger v[k]] 0 <= k < v.len() ==> numberless(v[k].1),
    ensures
        forall|k: int|
            #![trigger by_key(v)[k]]
            0 <= k < by_key(v).len() ==> numberless(by_key(v)[k].1),
    decreases v.len(),
{
    if v.len() > 0 {
        let front = v.drop_last();
        let rest = by_key(front);
        let at = key_place(rest, v.last().0, 0);
        assert forall|k: int| #![trigger front[k]] 0 <= k < front.len() implies numberless(
            front[k].1,
        ) by {
            assert(v[k] == front[k]);
        }
        assert(numberless(v[v.len() - 1].1));
        lemma_by_key(front);
        lemma_key_place(rest, v.last().0, 0);
        let all = by_key(v);
        assert forall|k: int| #![trigger all[k]] 0 <= k < all.len() implies numberless(all[k].1) by {
            if k < at {
                assert(all[k] == rest[k]);
            } else if k > at {
                assert(all[k] == rest[k - 1]);
            }
        }
    }
}

proof fn lemma_keyed_numberless(j: JsonView)
    requires
        numberless(j),
    ensures
        numberless(keyed(j)),
    decreases j,
{
    match j {
        JsonView::List(items) => {
            lemma_items_numberless(items, items.len() as int);
            assert(keyed(j) == JsonView::List(keyed_items(items, items.len() as int)));
        },
        JsonView::Object(members) => {
            lemma_members_numberless(members, members.len() as int);
            lemma_by_key(keyed_members(members, members.len() as int));
        },
        _ => {},
    }
}

proof fn lemma_items_numberless(items: Seq<JsonView>, n: int)
    requires
        0 <= n <= items.len(),
        forall|k: int| #![trigger items[k]] 0 <= k < items.len() ==> numberless(items[k]),
    ensures
        forall|k: int|
            #![trigger keyed_items(items, n)[k]]
            0 <= k < keyed_items(items, n).len() ==> numberless(keyed_items(items, n)[k]),
    decreases items, n,
{
    if n > 0 {
        lemma_items_numberless(items, n - 1);
        lemma_keyed_numberless(items[n - 1]);
        let before = keyed_items(items, n - 1);
        let all = keyed_items(items, n);
        assert(all == before.push(keyed(items[n - 1])));
        assert forall|k: int| #![trigger all[k]] 0 <= k < all.len() implies numberless(all[k]) by {
            if k < before.len() {
                assert(all[k] == before[k]);
            }
        }
    }
}

proof fn lemma_members_numberless(members: Seq<(Seq<char>, JsonView)>, n: int)
    requires
        0 <= n <= members.len(),
        forall|k: int| #![trigger members[k]] 0 <= k < members.len() ==> numberless(members[k].1),
    ensures
        forall|k: int|
            #![trigger keyed_members(members, n)[k]]
            0 <= k < keyed_members(members, n).len() ==> numberless(keyed_members(members, n)[k].1),
    decreases members, n,
{
    if n > 0 {
        lemma_members_numberless(members, n - 1);
        lemma_keyed_numberless(members[n - 1].1);
        let before = keyed_members(members, n - 1);
        let all = keyed_members(members, n);
        assert(all == before.push((members[n - 1].0, keyed(members[n - 1].1))));
        assert forall|k: int| #![trigger all[k]] 0 <= k < all.len() implies numberless(all[k].1) by {
            if k < before.len() {
                assert(all[k] == before[k]);
            }
        }
    }
}

} // verus!
