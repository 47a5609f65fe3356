//! What a value is checked as.

use crate::encoding::json_quoted;
use crate::json::JsonView;
use crate::values::{frontmatter, member_lines, undeclared, undeclared_among, undeclared_in};
use vstd::prelude::*;

verus! {

/// A field is undeclared where its type does not declare it, but for the claim itself and
/// for qualified keys.
pub proof fn a_field_is_declared_by_its_type(key: Seq<char>, declared: Seq<String>)
    ensures
        undeclared(key, declared) <==> key != "type"@ && !key.contains('{') && forall|k: int|
            #![trigger declared[k]]
            0 <= k < declared.len() ==> declared[k]@ != key,
{
}

/// The undeclared fields of a value are those of its own members, all of them.
pub proof fn every_undeclared_field_is_told(
    members: Seq<(Seq<char>, JsonView)>,
    declared: Seq<String>,
    n: int,
    key: Seq<char>,
)
    requires
        0 <= n <= members.len(),
    ensures
        undeclared_among(members, declared, n).contains(key) <==> undeclared(key, declared)
            && exists|k: int| 0 <= k < n && (#[trigger] members[k]).0 == key,
    decreases n,
{
    if n > 0 {
        every_undeclared_field_is_told(members, declared, n - 1, key);
        let before = undeclared_among(members, declared, n - 1);
        let now = undeclared_among(members, declared, n);
        let here = members[n - 1];
        if before.contains(key) {
            let j = choose|j: int| 0 <= j < before.len() && before[j] == key;
            assert(now[j] == key);
        }
        if now.contains(key) && !before.contains(key) {
            let j = choose|j: int| 0 <= j < now.len() && now[j] == key;
            if j < before.len() {
                assert(before[j] == key);
            }
            assert(here.0 == key);
        }
        if here.0 == key && undeclared(key, declared) {
            assert(now[before.len() as int] == key);
        }
    }
}

/// Only an object has fields.
pub proof fn only_an_object_has_fields(value: JsonView, declared: Seq<String>)
    ensures
        !(value is Object) ==> undeclared_in(value, declared).len() == 0,
        value matches JsonView::Object(m) ==> undeclared_in(value, declared) == undeclared_among(
            m,
            declared,
            m.len() as int,
        ),
{
}

/// A value is read as a file of its type: the claim leads, and a member adds its own line
/// unless it repeats the claim.
pub proof fn a_member_adds_its_line(
    ty: Seq<char>,
    members: Seq<(Seq<char>, JsonView)>,
    key: Seq<char>,
    value: JsonView,
)
    ensures
        ({
            let more = members.push((key, value));
            let n = members.len() as int;
            if key == "type"@ && value == JsonView::Text(ty) {
                frontmatter(ty, JsonView::Object(more)) == frontmatter(
                    ty,
                    JsonView::Object(members),
                )
            } else {
                frontmatter(ty, JsonView::Object(more)) == frontmatter(
                    ty,
                    JsonView::Object(members),
                ) + (json_quoted(key) + ": "@ + crate::encoding::written(value) + "\n"@)
            }
        }),
        frontmatter(ty, JsonView::Object(Seq::empty())) == "type: "@ + json_quoted(ty) + "\n"@,
{
    let more = members.push((key, value));
    let n = members.len() as int;
    lemma_lines(ty, members, more, n);
    assert(frontmatter(ty, JsonView::Object(Seq::empty())) =~= "type: "@ + json_quoted(ty)
        + "\n"@);
    if !(key == "type"@ && value == JsonView::Text(ty)) {
        assert(frontmatter(ty, JsonView::Object(more)) =~= frontmatter(
            ty,
            JsonView::Object(members),
        ) + (json_quoted(key) + ": "@ + crate::encoding::written(value) + "\n"@));
    }
}

proof fn lemma_lines(
    ty: Seq<char>,
    a: Seq<(Seq<char>, JsonView)>,
    b: Seq<(Seq<char>, JsonView)>,
    n: int,
)
    requires
        0 <= n <= a.len(),
        n <= b.len(),
        forall|k: int| #![trigger b[k]] 0 <= k < n ==> a[k] == b[k],
    ensures
        member_lines(ty, a, n) == member_lines(ty, b, n),
    decreases n,
{
    if n > 0 {
        lemma_lines(ty, a, b, n - 1);
        assert(a[n - 1] == b[n - 1]);
    }
}

} // verus!
