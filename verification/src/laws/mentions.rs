//! A rename finds every mention of a type, wherever in a file it stands, and makes it a
//! mention of the new name.

use crate::ast::{
    BodyItem, ByteRange, ClaimedName, FileParse, InlineValue, InstanceField, InstanceValue,
    SequenceElement, TypeClaim,
};
use crate::text::{bytes_in, find_from, occurs_at, opt_view};
use crate::typerefs::{
    body_item_sites, body_sites, edits_at, elements_sites, field_sites, fields_sites, first_of,
    key_sites, mentions, meta_sites, name_site, name_sites, rewritten_shape, shape_sites, site_edit,
    site_names, sites_of, targeted, type_def_sites, value_sites, SiteView,
};
use vstd::prelude::*;

verus! {

/// Whether a claim has this name.
pub open spec fn claims(claim: TypeClaim, c: ClaimedName) -> bool {
    match claim {
        TypeClaim::Bare(n) => n == c,
        TypeClaim::List(items) => items@.contains(c),
    }
}

/// Whether a field stands in a value, at any depth.
pub open spec fn field_in_value(v: InstanceValue, f: InstanceField) -> bool
    decreases v,
{
    match v {
        InstanceValue::Mapping(inline) => exists|k: int|
            0 <= k < inline.fields.len() && ((#[trigger] inline.fields[k]) == f || field_in_value(
                inline.fields[k].value,
                f,
            )),
        InstanceValue::Sequence(elems) => exists|k: int|
            0 <= k < elems.len() && field_in_value((#[trigger] elems[k]).value, f),
        _ => false,
    }
}

/// Whether a field stands among fields, at any depth.
pub open spec fn field_in(fields: Vec<InstanceField>, f: InstanceField) -> bool {
    exists|k: int|
        0 <= k < fields.len() && ((#[trigger] fields[k]) == f || field_in_value(fields[k].value, f))
}

/// Whether an inline record stands in a value, at any depth.
pub open spec fn record_in_value(v: InstanceValue, x: InlineValue) -> bool
    decreases v,
{
    match v {
        InstanceValue::Mapping(inline) => inline == x || exists|k: int|
            0 <= k < inline.fields.len() && record_in_value((#[trigger] inline.fields[k]).value, x),
        InstanceValue::Sequence(elems) => exists|k: int|
            0 <= k < elems.len() && record_in_value((#[trigger] elems[k]).value, x),
        _ => false,
    }
}

/// Whether an inline record stands among fields, at any depth.
pub open spec fn record_in(fields: Vec<InstanceField>, x: InlineValue) -> bool {
    exists|k: int| 0 <= k < fields.len() && record_in_value((#[trigger] fields[k]).value, x)
}

/// Whether these are fields that a file holds itself: those of an instance or a note, or
/// those of a metadata block of a type-def.
pub open spec fn holds_fields(parse: FileParse, fields: Vec<InstanceField>) -> bool {
    match parse {
        FileParse::Instance(Some(inst)) => inst.fields == fields,
        FileParse::Note(own) => own == fields,
        FileParse::TypeDef(Some(td)) => td.meta_blocks matches Some(blocks) && exists|k: int|
            0 <= k < blocks@.len() && (#[trigger] blocks@[k]).fields == fields,
        _ => false,
    }
}

/// Whether a prescribed body uses this name, in any section.
pub open spec fn uses(items: Vec<BodyItem>, c: ClaimedName) -> bool
    decreases items,
{
    exists|k: int|
        0 <= k < items.len() && match #[trigger] items[k] {
            BodyItem::Use(n) => n == c,
            BodyItem::Section { body: Some(sub) } => uses(sub, c),
            _ => false,
        }
}

/// Whether a file mentions a type by this name somewhere else than in a shape or a key: in
/// its claim, as a parent or a sealed branch, as the type of a metadata block, in a
/// prescribed body, or in the claim of a record at any depth.
pub open spec fn names_type(parse: FileParse, c: ClaimedName) -> bool {
    ||| (parse matches FileParse::Instance(Some(inst)) && claims(inst.type_claim, c))
    ||| (parse matches FileParse::TypeDef(Some(td)) && {
        ||| td.parents@.contains(c)
        ||| td.sealed@.contains(c)
        ||| (td.meta_blocks matches Some(blocks) && exists|k: int|
            0 <= k < blocks@.len() && (#[trigger] blocks@[k]).claim == c)
        ||| (td.body matches Some(body) && uses(body, c))
    })
    ||| exists|fields: Vec<InstanceField>, x: InlineValue|
        #![trigger holds_fields(parse, fields), record_in(fields, x)]
        holds_fields(parse, fields) && record_in(fields, x) && (x.type_claim matches Some(tc)
            && claims(tc, c))
}

/// The site of a name.
pub open spec fn named(c: ClaimedName) -> SiteView {
    SiteView::Name { name: c.name@, repo: opt_view(c.repo), span: c.span }
}

proof fn lemma_name_sites(items: Seq<ClaimedName>, c: ClaimedName)
    requires
        items.contains(c),
    ensures
        name_sites(items).contains(named(c)),
{
    let k = choose|k: int| 0 <= k < items.len() && items[k] == c;
    assert(name_sites(items)[k] == named(c));
}

proof fn lemma_claim_sites(claim: TypeClaim, c: ClaimedName)
    requires
        claims(claim, c),
    ensures
        name_sites(crate::ast::claim_items(claim)).contains(named(c)),
{
    match claim {
        TypeClaim::Bare(n) => {
            assert(seq![n][0] == c);
            lemma_name_sites(seq![n], c);
        },
        TypeClaim::List(items) => lemma_name_sites(items@, c),
    }
}

proof fn lemma_in_concat<A>(a: Seq<A>, b: Seq<A>, x: A)
    requires
        a.contains(x) || b.contains(x),
    ensures
        (a + b).contains(x),
{
    if a.contains(x) {
        let k = choose|k: int| 0 <= k < a.len() && a[k] == x;
        assert((a + b)[k] == x);
    } else {
        let k = choose|k: int| 0 <= k < b.len() && b[k] == x;
        assert((a + b)[a.len() + k] == x);
    }
}

/// What one of the fields mentions, the fields mention.
proof fn lemma_fields_hold(fields: Vec<InstanceField>, n: int, k: int, s: SiteView)
    requires
        0 <= k < n <= fields.len(),
        field_sites(fields[k]).contains(s),
    ensures
        fields_sites(fields, n).contains(s),
    decreases n,
{
    if k < n - 1 {
        lemma_fields_hold(fields, n - 1, k, s);
    }
    lemma_in_concat(fields_sites(fields, n - 1), field_sites(fields[n - 1]), s);
}

proof fn lemma_elements_hold(elems: Vec<SequenceElement>, n: int, k: int, s: SiteView)
    requires
        0 <= k < n <= elems.len(),
        value_sites(elems[k].value).contains(s),
    ensures
        elements_sites(elems, n).contains(s),
    decreases n,
{
    if k < n - 1 {
        lemma_elements_hold(elems, n - 1, k, s);
    }
    lemma_in_concat(elements_sites(elems, n - 1), value_sites(elems[n - 1].value), s);
}

/// What the value of a field mentions, the field mentions.
proof fn lemma_field_holds(f: InstanceField, s: SiteView)
    requires
        value_sites(f.value).contains(s) || key_sites(f).contains(s),
    ensures
        field_sites(f).contains(s),
{
    lemma_in_concat(key_sites(f), value_sites(f.value), s);
}

proof fn lemma_mapping_holds(inline: InlineValue, k: int, s: SiteView)
    requires
        0 <= k < inline.fields.len(),
        field_sites(inline.fields[k]).contains(s),
    ensures
        value_sites(InstanceValue::Mapping(inline)).contains(s),
{
    lemma_fields_hold(inline.fields, inline.fields.len() as int, k, s);
    lemma_in_concat(
        crate::typerefs::inline_claim_sites(inline),
        fields_sites(inline.fields, inline.fields.len() as int),
        s,
    );
}

proof fn lemma_record_sites(v: InstanceValue, x: InlineValue, tc: TypeClaim, c: ClaimedName)
    requires
        record_in_value(v, x),
        x.type_claim == Some(tc),
        claims(tc, c),
    ensures
        value_sites(v).contains(named(c)),
    decreases v,
{
    match v {
        InstanceValue::Mapping(inline) => {
            if inline == x {
                lemma_claim_sites(tc, c);
                lemma_in_concat(
                    crate::typerefs::inline_claim_sites(inline),
                    fields_sites(inline.fields, inline.fields.len() as int),
                    named(c),
                );
            } else {
                let k = choose|k: int|
                    0 <= k < inline.fields.len() && record_in_value(
                        (#[trigger] inline.fields[k]).value,
                        x,
                    );
                assert(decreases_to!(v => inline.fields));
                assert(decreases_to!(inline.fields => inline.fields[k]));
                lemma_record_sites(inline.fields[k].value, x, tc, c);
                lemma_field_holds(inline.fields[k], named(c));
                lemma_mapping_holds(inline, k, named(c));
            }
        },
        InstanceValue::Sequence(elems) => {
            let k = choose|k: int|
                0 <= k < elems.len() && record_in_value((#[trigger] elems[k]).value, x);
            assert(decreases_to!(v => elems));
            assert(decreases_to!(elems => elems[k]));
            lemma_record_sites(elems[k].value, x, tc, c);
            lemma_elements_hold(elems, elems.len() as int, k, named(c));
        },
        _ => {},
    }
}

proof fn lemma_key_in_value(v: InstanceValue, f: InstanceField, s: SiteView)
    requires
        field_in_value(v, f),
        key_sites(f).contains(s),
    ensures
        value_sites(v).contains(s),
    decreases v,
{
    match v {
        InstanceValue::Mapping(inline) => {
            let k = choose|k: int|
                0 <= k < inline.fields.len() && ((#[trigger] inline.fields[k]) == f
                    || field_in_value(inline.fields[k].value, f));
            assert(decreases_to!(v => inline.fields));
            assert(decreases_to!(inline.fields => inline.fields[k]));
            if inline.fields[k] != f {
                lemma_key_in_value(inline.fields[k].value, f, s);
            }
            lemma_field_holds(inline.fields[k], s);
            lemma_mapping_holds(inline, k, s);
        },
        InstanceValue::Sequence(elems) => {
            let k = choose|k: int|
                0 <= k < elems.len() && field_in_value((#[trigger] elems[k]).value, f);
            assert(decreases_to!(v => elems));
            assert(decreases_to!(elems => elems[k]));
            lemma_key_in_value(elems[k].value, f, s);
            lemma_elements_hold(elems, elems.len() as int, k, s);
        },
        _ => {},
    }
}

proof fn lemma_meta_holds(td: crate::ast::TypeDef, n: int, k: int, s: SiteView)
    requires
        td.meta_blocks matches Some(blocks) && 0 <= k < n <= blocks@.len() && (named(
            blocks@[k].claim,
        ) == s || fields_sites(blocks@[k].fields, blocks@[k].fields.len() as int).contains(s)),
    ensures
        meta_sites(td, n).contains(s),
    decreases n,
{
    let mb = td.meta_blocks->0@[n - 1];
    let before = meta_sites(td, n - 1);
    let fs = fields_sites(mb.fields, mb.fields.len() as int);
    let led = before.push(name_site(mb.claim));
    if k < n - 1 {
        lemma_meta_holds(td, n - 1, k, s);
        let j = choose|j: int| 0 <= j < before.len() && before[j] == s;
        assert(led[j] == s);
    } else if named(mb.claim) == s {
        assert(led[before.len() as int] == s);
    }
    lemma_in_concat(led, fs, s);
}

proof fn lemma_uses_hold(items: Vec<BodyItem>, c: ClaimedName)
    requires
        uses(items, c),
    ensures
        body_sites(items, items.len() as int).contains(named(c)),
    decreases items,
{
    let k = choose|k: int|
        0 <= k < items.len() && match #[trigger] items[k] {
            BodyItem::Use(n) => n == c,
            BodyItem::Section { body: Some(sub) } => uses(sub, c),
            _ => false,
        };
    assert(decreases_to!(items => items[k]));
    match items[k] {
        BodyItem::Use(n) => {
            assert(seq![name_site(n)][0] == named(c));
        },
        BodyItem::Section { body: Some(sub) } => {
            lemma_uses_hold(sub, c);
        },
        _ => {},
    }
    assert(body_item_sites(items[k]).contains(named(c)));
    lemma_body_holds(items, items.len() as int, k, named(c));
}

proof fn lemma_body_holds(items: Vec<BodyItem>, n: int, k: int, s: SiteView)
    requires
        0 <= k < n <= items.len(),
        body_item_sites(items[k]).contains(s),
    ensures
        body_sites(items, n).contains(s),
    decreases n,
{
    if k < n - 1 {
        lemma_body_holds(items, n - 1, k, s);
    }
    lemma_in_concat(body_sites(items, n - 1), body_item_sites(items[n - 1]), s);
}

proof fn lemma_shapes_hold(td: crate::ast::TypeDef, n: int, k: int)
    requires
        0 <= k < n <= td.fields@.len(),
    ensures
        shape_sites(td, n).contains(
            SiteView::Shape { raw: td.fields@[k].raw_shape@, span: td.fields@[k].shape_span },
        ),
    decreases n,
{
    let before = shape_sites(td, n - 1);
    let s = SiteView::Shape { raw: td.fields@[k].raw_shape@, span: td.fields@[k].shape_span };
    if k < n - 1 {
        lemma_shapes_hold(td, n - 1, k);
        let j = choose|j: int| 0 <= j < before.len() && before[j] == s;
        assert(shape_sites(td, n)[j] == s);
    } else {
        assert(shape_sites(td, n)[before.len() as int] == s);
    }
}

/// What a part of a type-def mentions, the type-def mentions.
proof fn lemma_type_def_holds(td: crate::ast::TypeDef, s: SiteView)
    requires
        ({
            ||| name_sites(td.parents@).contains(s)
            ||| name_sites(td.sealed@).contains(s)
            ||| shape_sites(td, td.fields@.len() as int).contains(s)
            ||| (td.meta_blocks is Some && meta_sites(
                td,
                td.meta_blocks->0@.len() as int,
            ).contains(s))
            ||| (td.body is Some && body_sites(td.body->0, td.body->0.len() as int).contains(s))
        }),
    ensures
        type_def_sites(td).contains(s),
{
    let a = name_sites(td.parents@);
    let b = name_sites(td.sealed@);
    let c = shape_sites(td, td.fields@.len() as int);
    let d = if td.meta_blocks is Some {
        meta_sites(td, td.meta_blocks->0@.len() as int)
    } else {
        Seq::empty()
    };
    let e = if td.body is Some {
        body_sites(td.body->0, td.body->0.len() as int)
    } else {
        Seq::empty()
    };
    if a.contains(s) || b.contains(s) {
        lemma_in_concat(a, b, s);
    }
    if (a + b).contains(s) || c.contains(s) {
        lemma_in_concat(a + b, c, s);
    }
    if (a + b + c).contains(s) || d.contains(s) {
        lemma_in_concat(a + b + c, d, s);
    }
    lemma_in_concat(a + b + c + d, e, s);
}

proof fn lemma_own_fields_hold(parse: FileParse, fields: Vec<InstanceField>, s: SiteView)
    requires
        holds_fields(parse, fields),
        fields_sites(fields, fields.len() as int).contains(s),
    ensures
        sites_of(parse).contains(s),
{
    match parse {
        FileParse::Instance(Some(inst)) => lemma_in_concat(
            name_sites(crate::ast::claim_items(inst.type_claim)),
            fields_sites(inst.fields, inst.fields.len() as int),
            s,
        ),
        FileParse::TypeDef(Some(td)) => {
            let blocks = td.meta_blocks->0;
            let k = choose|k: int| 0 <= k < blocks@.len() && (#[trigger] blocks@[k]).fields == fields;
            lemma_meta_holds(td, blocks@.len() as int, k, s);
            lemma_type_def_holds(td, s);
        },
        _ => {},
    }
}

/// Every name of a type in a file is found: in its claim, as a parent, a sealed branch or
/// a metadata type, in a prescribed body at any depth, and in the claim of a record at
/// any depth of its fields.
pub proof fn every_name_is_found(parse: FileParse, c: ClaimedName)
    requires
        names_type(parse, c),
    ensures
        sites_of(parse).contains(
            SiteView::Name { name: c.name@, repo: opt_view(c.repo), span: c.span },
        ),
{
    if exists|fields: Vec<InstanceField>, x: InlineValue|
        #![trigger holds_fields(parse, fields), record_in(fields, x)]
        holds_fields(parse, fields) && record_in(fields, x) && (x.type_claim matches Some(tc)
            && claims(tc, c)) {
        let (fields, x) = choose|fields: Vec<InstanceField>, x: InlineValue|
            #![trigger holds_fields(parse, fields), record_in(fields, x)]
            holds_fields(parse, fields) && record_in(fields, x) && (x.type_claim matches Some(tc)
                && claims(tc, c));
        let k = choose|k: int|
            0 <= k < fields.len() && record_in_value((#[trigger] fields[k]).value, x);
        lemma_record_sites(fields[k].value, x, x.type_claim->0, c);
        lemma_field_holds(fields[k], named(c));
        lemma_fields_hold(fields, fields.len() as int, k, named(c));
        lemma_own_fields_hold(parse, fields, named(c));
    } else {
        match parse {
            FileParse::Instance(Some(inst)) => {
                lemma_claim_sites(inst.type_claim, c);
                lemma_in_concat(
                    name_sites(crate::ast::claim_items(inst.type_claim)),
                    fields_sites(inst.fields, inst.fields.len() as int),
                    named(c),
                );
            },
            FileParse::TypeDef(Some(td)) => {
                if td.parents@.contains(c) {
                    lemma_name_sites(td.parents@, c);
                } else if td.sealed@.contains(c) {
                    lemma_name_sites(td.sealed@, c);
                } else if td.body is Some && uses(td.body->0, c) {
                    lemma_uses_hold(td.body->0, c);
                } else {
                    let blocks = td.meta_blocks->0;
                    let k = choose|k: int| 0 <= k < blocks@.len() && (#[trigger] blocks@[k]).claim == c;
                    lemma_meta_holds(td, blocks@.len() as int, k, named(c));
                }
                lemma_type_def_holds(td, named(c));
            },
            _ => {},
        }
    }
}

/// Every declared shape of a type-def is found.
pub proof fn every_shape_is_found(td: crate::ast::TypeDef, k: int)
    requires
        0 <= k < td.fields@.len(),
    ensures
        sites_of(FileParse::TypeDef(Some(td))).contains(
            SiteView::Shape { raw: td.fields@[k].raw_shape@, span: td.fields@[k].shape_span },
        ),
{
    lemma_shapes_hold(td, td.fields@.len() as int, k);
    lemma_type_def_holds(
        td,
        SiteView::Shape { raw: td.fields@[k].raw_shape@, span: td.fields@[k].shape_span },
    );
}

/// The place where `n` stands first is found.
proof fn lemma_first(s: Seq<char>, n: Seq<char>, from: int, at: int)
    requires
        0 <= from <= at,
        occurs_at(s, n, at),
        at < s.len(),
        forall|k: int| from <= k < at ==> !#[trigger] occurs_at(s, n, k),
    ensures
        first_of(s, n, from) == at,
    decreases at - from,
{
    if from < at {
        assert(!occurs_at(s, n, from));
        lemma_first(s, n, from + 1, at);
    }
}

/// Where `n` does not stand, no place is found.
proof fn lemma_first_none(s: Seq<char>, n: Seq<char>, from: int)
    requires
        0 <= from,
        forall|k: int| from <= k ==> !#[trigger] occurs_at(s, n, k),
    ensures
        first_of(s, n, from) == s.len(),
    decreases s.len() - from,
{
    if from < s.len() && from + n.len() <= s.len() {
        assert(!occurs_at(s, n, from));
        lemma_first_none(s, n, from + 1);
    }
}

proof fn lemma_char(s: Seq<char>, c: char, from: int, at: int)
    requires
        0 <= from <= at < s.len(),
        s[at] == c,
        forall|k: int| from <= k < at ==> #[trigger] s[k] != c,
    ensures
        find_from(s, c, from) == at,
    decreases at - from,
{
    if from < at {
        assert(s[from] != c);
        lemma_char(s, c, from + 1, at);
    }
}

/// The key of a field whose slot a type qualifies: the field, the type and its repo, if it
/// has one, between braces, and what follows.
pub open spec fn qualified_key(
    field: Seq<char>,
    ty: Seq<char>,
    repo: Option<Seq<char>>,
    tail: Seq<char>,
) -> Seq<char> {
    field + seq!['{'] + ty + (match repo {
        Some(r) => seq![':', ':'] + r,
        None => Seq::empty(),
    }) + seq!['}'] + tail
}

/// The type in a qualified key is found, at its own bytes and with its repo, at any depth
/// of the fields of a file.
pub proof fn every_qualified_key_is_found(
    parse: FileParse,
    fields: Vec<InstanceField>,
    f: InstanceField,
    field: Seq<char>,
    ty: Seq<char>,
    repo: Option<Seq<char>>,
    tail: Seq<char>,
)
    requires
        holds_fields(parse, fields),
        field_in(fields, f),
        f.key@ == qualified_key(field, ty, repo, tail),
        f.key_span.start + bytes_in(f.key@) <= usize::MAX,
        ty.len() > 0,
        field.len() > 0 ==> field[0] != '^',
        !field.contains('{'),
        forall|k: int| 0 <= k < ty.len() ==> #[trigger] ty[k] != '}' && ty[k] != ':',
        repo matches Some(r) ==> !r.contains('}'),
        repo is None ==> forall|k: int| 0 <= k < tail.len() ==> #[trigger] tail[k] != ':',
    ensures
        sites_of(parse).contains(
            SiteView::Qualifier {
                qualifier: ty,
                repo,
                span: ByteRange {
                    start: (f.key_span.start + bytes_in(field) + 1) as usize,
                    end: (f.key_span.start + bytes_in(field) + 1 + bytes_in(ty)) as usize,
                },
            },
        ),
{
    let key = f.key@;
    let open = field.len() as int;
    let end = open + 1 + ty.len();
    let colons = seq![':', ':'];
    let site = SiteView::Qualifier {
        qualifier: ty,
        repo,
        span: ByteRange {
            start: (f.key_span.start + bytes_in(field) + 1) as usize,
            end: (f.key_span.start + bytes_in(field) + 1 + bytes_in(ty)) as usize,
        },
    };
    assert forall|k: int| 0 <= k < open implies #[trigger] key[k] != '{' by {
        assert(field[k] == key[k]);
        assert(field.contains(field[k]));
    }
    assert(key[open] == '{');
    lemma_char(key, '{', 0, open);
    assert(key.take(open) =~= field);
    assert(key.subrange(open + 1, end) =~= ty);
    assert forall|k: int| open + 1 <= k < end implies #[trigger] key[k] != '}' && key[k] != ':' by {
        assert(key[k] == ty[k - open - 1]);
    }
    if open > 0 {
        assert(key[0] == field[0]);
    } else {
        assert(key[0] == '{');
    }
    match repo {
        Some(r) => {
            let close = end + 2 + r.len();
            assert(key[end] == ':' && key[end + 1] == ':');
            assert(key.subrange(end, end + 2) =~= colons);
            assert forall|k: int| open + 1 <= k < end implies !#[trigger] occurs_at(
                key,
                colons,
                k,
            ) by {
                if occurs_at(key, colons, k) {
                    assert(key.subrange(k, k + 2)[0] == key[k]);
                    assert(colons[0] == ':');
                }
            }
            lemma_first(key, colons, open + 1, end);
            assert(key[close] == '}');
            assert forall|k: int| open + 1 <= k < close implies #[trigger] key[k] != '}' by {
                if k >= end + 2 {
                    assert(key[k] == r[k - end - 2]);
                    assert(r.contains(r[k - end - 2]));
                }
            }
            lemma_char(key, '}', open + 1, close);
            assert(key.subrange(end + 2, close) =~= r);
        },
        None => {
            assert(key[end] == '}');
            lemma_char(key, '}', open + 1, end);
            assert forall|k: int| open + 1 <= k implies !#[trigger] occurs_at(key, colons, k) by {
                if occurs_at(key, colons, k) {
                    assert(key.subrange(k, k + 2)[0] == key[k]);
                    assert(colons[0] == ':');
                    if k > end {
                        assert(key[k] == tail[k - end - 1]);
                    }
                }
            }
            lemma_first_none(key, colons, open + 1);
        },
    }
    assert(key_sites(f)[0] == site);
    let k = choose|k: int|
        0 <= k < fields.len() && ((#[trigger] fields[k]) == f || field_in_value(fields[k].value, f));
    if fields[k] != f {
        lemma_key_in_value(fields[k].value, f, site);
    }
    lemma_field_holds(fields[k], site);
    lemma_fields_hold(fields, fields.len() as int, k, site);
    lemma_own_fields_hold(parse, fields, site);
}

proof fn lemma_edit_of(
    sites: Seq<SiteView>,
    file_repo: Seq<char>,
    name: Seq<char>,
    def_repo: Seq<char>,
    new: Seq<char>,
    s: SiteView,
)
    requires
        sites.contains(s),
        site_names(s, file_repo, name, def_repo),
    ensures
        edits_at(sites, file_repo, name, def_repo, new).contains(
            site_edit(s, file_repo, name, def_repo, new),
        ),
    decreases sites.len(),
{
    let k = choose|k: int| 0 <= k < sites.len() && sites[k] == s;
    let front = sites.drop_last();
    let before = edits_at(front, file_repo, name, def_repo, new);
    let all = edits_at(sites, file_repo, name, def_repo, new);
    let e = site_edit(s, file_repo, name, def_repo, new);
    if k < front.len() {
        assert(front[k] == s);
        lemma_edit_of(front, file_repo, name, def_repo, new, s);
        let j = choose|j: int| 0 <= j < before.len() && before[j] == e;
        assert(all[j] == e);
    } else {
        assert(all[before.len() as int] == e);
    }
}

/// Whether a name that stands in a file of `file_repo` means a type of `def_repo`: its
/// qualifier says so, or it has none and the file is of that repo.
pub open spec fn means(repo: Option<Seq<char>>, file_repo: Seq<char>, def_repo: Seq<char>) -> bool {
    repo == Some(def_repo) || (repo is None && file_repo == def_repo)
}

/// A rename makes every name of the type, wherever in a file it stands, the new name at
/// the same place, with the qualifier that it had. The file counts as one that mentions
/// the type.
pub proof fn every_name_is_renamed(
    parse: FileParse,
    c: ClaimedName,
    file_repo: Seq<char>,
    def_repo: Seq<char>,
    new: Seq<char>,
)
    requires
        names_type(parse, c),
        means(opt_view(c.repo), file_repo, def_repo),
    ensures
        mentions(parse, file_repo, c.name@, def_repo),
        edits_at(sites_of(parse), file_repo, c.name@, def_repo, new).contains(
            (
                c.span,
                match c.repo {
                    Some(r) => new + "::"@ + r@,
                    None => new,
                },
            ),
        ),
{
    every_name_is_found(parse, c);
    let sites = sites_of(parse);
    let k = choose|k: int| 0 <= k < sites.len() && sites[k] == named(c);
    assert(site_names(sites[k], file_repo, c.name@, def_repo));
    lemma_edit_of(sites, file_repo, c.name@, def_repo, new, named(c));
}

/// A rename makes the type in a qualified key the new one, and leaves the rest of the key.
pub proof fn every_qualifier_is_renamed(
    parse: FileParse,
    ty: Seq<char>,
    repo: Option<Seq<char>>,
    span: ByteRange,
    file_repo: Seq<char>,
    def_repo: Seq<char>,
    new: Seq<char>,
)
    requires
        sites_of(parse).contains(SiteView::Qualifier { qualifier: ty, repo, span }),
        means(repo, file_repo, def_repo),
    ensures
        mentions(parse, file_repo, ty, def_repo),
        edits_at(sites_of(parse), file_repo, ty, def_repo, new).contains((span, new)),
{
    let s = SiteView::Qualifier { qualifier: ty, repo, span };
    let sites = sites_of(parse);
    let k = choose|k: int| 0 <= k < sites.len() && sites[k] == s;
    assert(site_names(sites[k], file_repo, ty, def_repo));
    lemma_edit_of(sites, file_repo, ty, def_repo, new, s);
}

/// A rename rewrites the shapes in which a token names the type.
pub proof fn every_shape_is_renamed(
    td: crate::ast::TypeDef,
    k: int,
    file_repo: Seq<char>,
    name: Seq<char>,
    def_repo: Seq<char>,
    new: Seq<char>,
)
    requires
        0 <= k < td.fields@.len(),
        rewritten_shape(td.fields@[k].raw_shape@, name, new, file_repo, def_repo) is Some,
    ensures
        mentions(FileParse::TypeDef(Some(td)), file_repo, name, def_repo),
        edits_at(
            sites_of(FileParse::TypeDef(Some(td))),
            file_repo,
            name,
            def_repo,
            new,
        ).contains(
            (
                td.fields@[k].shape_span,
                rewritten_shape(td.fields@[k].raw_shape@, name, new, file_repo, def_repo)->0,
            ),
        ),
{
    every_shape_is_found(td, k);
    let s = SiteView::Shape { raw: td.fields@[k].raw_shape@, span: td.fields@[k].shape_span };
    let sites = sites_of(FileParse::TypeDef(Some(td)));
    let j = choose|j: int| 0 <= j < sites.len() && sites[j] == s;
    assert(site_names(sites[j], file_repo, name, def_repo));
    lemma_edit_of(sites, file_repo, name, def_repo, new, s);
}

/// Whether the claim of a record in a value has the name at this site.
spec fn claimed_in_value(v: InstanceValue, s: SiteView) -> bool {
    exists|x: InlineValue, tc: TypeClaim, c: ClaimedName|
        #![trigger record_in_value(v, x), claims(tc, c)]
        record_in_value(v, x) && x.type_claim == Some(tc) && claims(tc, c) && s == named(c)
}

proof fn lemma_name_from(items: Seq<ClaimedName>, s: SiteView) -> (c: ClaimedName)
    requires
        name_sites(items).contains(s),
    ensures
        items.contains(c),
        s == named(c),
{
    let k = choose|k: int| 0 <= k < name_sites(items).len() && name_sites(items)[k] == s;
    assert(s == named(items[k]));
    items[k]
}

proof fn lemma_claim_from(claim: TypeClaim, s: SiteView) -> (c: ClaimedName)
    requires
        name_sites(crate::ast::claim_items(claim)).contains(s),
    ensures
        claims(claim, c),
        s == named(c),
{
    let c = lemma_name_from(crate::ast::claim_items(claim), s);
    match claim {
        TypeClaim::Bare(n) => {
            assert(seq![n].contains(c));
            let k = choose|k: int| 0 <= k < seq![n].len() && seq![n][k] == c;
            assert(k == 0);
        },
        TypeClaim::List(_) => {},
    }
    c
}

/// Whether a name at a site is found in one of two lists.
proof fn lemma_from_concat<A>(a: Seq<A>, b: Seq<A>, x: A)
    requires
        (a + b).contains(x),
    ensures
        a.contains(x) || b.contains(x),
{
    let k = choose|k: int| 0 <= k < (a + b).len() && (a + b)[k] == x;
    if k < a.len() {
        assert(a[k] == x);
    } else {
        assert(b[k - a.len()] == x);
    }
}

proof fn lemma_fields_from(fields: Vec<InstanceField>, n: int, s: SiteView) -> (k: int)
    requires
        0 <= n <= fields.len(),
        fields_sites(fields, n).contains(s),
        s is Name,
    ensures
        0 <= k < n,
        value_sites(fields[k].value).contains(s),
    decreases n,
{
    lemma_from_concat(fields_sites(fields, n - 1), field_sites(fields[n - 1]), s);
    if fields_sites(fields, n - 1).contains(s) {
        lemma_fields_from(fields, n - 1, s)
    } else {
        let f = fields[n - 1];
        lemma_from_concat(key_sites(f), value_sites(f.value), s);
        n - 1
    }
}

proof fn lemma_elements_from(elems: Vec<SequenceElement>, n: int, s: SiteView) -> (k: int)
    requires
        0 <= n <= elems.len(),
        elements_sites(elems, n).contains(s),
    ensures
        0 <= k < n,
        value_sites(elems[k].value).contains(s),
    decreases n,
{
    lemma_from_concat(elements_sites(elems, n - 1), value_sites(elems[n - 1].value), s);
    if elements_sites(elems, n - 1).contains(s) {
        lemma_elements_from(elems, n - 1, s)
    } else {
        n - 1
    }
}

proof fn lemma_value_from(v: InstanceValue, s: SiteView)
    requires
        value_sites(v).contains(s),
        s is Name,
    ensures
        claimed_in_value(v, s),
    decreases v,
{
    match v {
        InstanceValue::Mapping(inline) => {
            let own = crate::typerefs::inline_claim_sites(inline);
            lemma_from_concat(own, fields_sites(inline.fields, inline.fields.len() as int), s);
            if own.contains(s) {
                let tc = inline.type_claim->0;
                let c = lemma_claim_from(tc, s);
                assert(record_in_value(v, inline) && claims(tc, c));
            } else {
                let k = lemma_fields_from(inline.fields, inline.fields.len() as int, s);
                assert(decreases_to!(v => inline.fields));
                assert(decreases_to!(inline.fields => inline.fields[k]));
                lemma_value_from(inline.fields[k].value, s);
                let (x, tc, c) = choose|x: InlineValue, tc: TypeClaim, c: ClaimedName|
                    #![trigger record_in_value(inline.fields[k].value, x), claims(tc, c)]
                    record_in_value(inline.fields[k].value, x) && x.type_claim == Some(tc)
                        && claims(tc, c) && s == named(c);
                assert(record_in_value(v, x) && claims(tc, c));
            }
        },
        InstanceValue::Sequence(elems) => {
            let k = lemma_elements_from(elems, elems.len() as int, s);
            assert(decreases_to!(v => elems));
            assert(decreases_to!(elems => elems[k]));
            lemma_value_from(elems[k].value, s);
            let (x, tc, c) = choose|x: InlineValue, tc: TypeClaim, c: ClaimedName|
                #![trigger record_in_value(elems[k].value, x), claims(tc, c)]
                record_in_value(elems[k].value, x) && x.type_claim == Some(tc) && claims(tc, c)
                    && s == named(c);
            assert(record_in_value(v, x) && claims(tc, c));
        },
        _ => {},
    }
}

proof fn lemma_own_from(parse: FileParse, fields: Vec<InstanceField>, s: SiteView) -> (c: ClaimedName)
    requires
        holds_fields(parse, fields),
        fields_sites(fields, fields.len() as int).contains(s),
        s is Name,
    ensures
        names_type(parse, c),
        s == named(c),
{
    let k = lemma_fields_from(fields, fields.len() as int, s);
    lemma_value_from(fields[k].value, s);
    let (x, tc, c) = choose|x: InlineValue, tc: TypeClaim, c: ClaimedName|
        #![trigger record_in_value(fields[k].value, x), claims(tc, c)]
        record_in_value(fields[k].value, x) && x.type_claim == Some(tc) && claims(tc, c) && s
            == named(c);
    assert(record_in(fields, x));
    assert(holds_fields(parse, fields) && record_in(fields, x) && claims(x.type_claim->0, c));
    c
}

proof fn lemma_body_from(items: Vec<BodyItem>, n: int, s: SiteView) -> (c: ClaimedName)
    requires
        0 <= n <= items.len(),
        body_sites(items, n).contains(s),
    ensures
        uses(items, c),
        s == named(c),
    decreases items, n,
{
    lemma_from_concat(body_sites(items, n - 1), body_item_sites(items[n - 1]), s);
    if body_sites(items, n - 1).contains(s) {
        lemma_body_from(items, n - 1, s)
    } else {
        assert(decreases_to!(items => items[n - 1]));
        match items[n - 1] {
            BodyItem::Use(u) => {
                let k = choose|k: int| 0 <= k < seq![name_site(u)].len() && seq![name_site(u)][k] == s;
                assert(k == 0);
                assert(uses(items, u));
                u
            },
            BodyItem::Section { body: Some(sub) } => {
                let c = lemma_body_from(sub, sub.len() as int, s);
                assert(uses(items, c)) by {
                    assert(match items[n - 1] {
                        BodyItem::Use(n) => n == c,
                        BodyItem::Section { body: Some(sub) } => uses(sub, c),
                        _ => false,
                    });
                }
                c
            },
            _ => arbitrary(),
        }
    }
}

proof fn lemma_meta_from(parse: FileParse, td: crate::ast::TypeDef, n: int, s: SiteView) -> (c:
    ClaimedName)
    requires
        parse == FileParse::TypeDef(Some(td)),
        td.meta_blocks matches Some(blocks) && 0 <= n <= blocks@.len(),
        meta_sites(td, n).contains(s),
        s is Name,
    ensures
        names_type(parse, c),
        s == named(c),
    decreases n,
{
    let blocks = td.meta_blocks->0;
    let mb = blocks@[n - 1];
    let before = meta_sites(td, n - 1);
    let led = before.push(name_site(mb.claim));
    let fs = fields_sites(mb.fields, mb.fields.len() as int);
    lemma_from_concat(led, fs, s);
    if led.contains(s) {
        let k = choose|k: int| 0 <= k < led.len() && led[k] == s;
        if k < before.len() {
            assert(before[k] == s);
            lemma_meta_from(parse, td, n - 1, s)
        } else {
            assert(blocks@[n - 1].claim == mb.claim);
            assert(names_type(parse, mb.claim));
            mb.claim
        }
    } else {
        assert(blocks@[n - 1].fields == mb.fields);
        assert(holds_fields(parse, mb.fields));
        lemma_own_from(parse, mb.fields, s)
    }
}

/// Nothing is found as a name of a type but the names in the file.
pub proof fn only_names_are_found(parse: FileParse, s: SiteView) -> (c: ClaimedName)
    requires
        sites_of(parse).contains(s),
        s is Name,
    ensures
        names_type(parse, c),
        s == (SiteView::Name { name: c.name@, repo: opt_view(c.repo), span: c.span }),
{
    match parse {
        FileParse::Instance(Some(inst)) => {
            let own = name_sites(crate::ast::claim_items(inst.type_claim));
            lemma_from_concat(own, fields_sites(inst.fields, inst.fields.len() as int), s);
            if own.contains(s) {
                lemma_claim_from(inst.type_claim, s)
            } else {
                assert(holds_fields(parse, inst.fields));
                lemma_own_from(parse, inst.fields, s)
            }
        },
        FileParse::Note(fields) => {
            assert(holds_fields(parse, fields));
            lemma_own_from(parse, fields, s)
        },
        FileParse::TypeDef(Some(td)) => {
            let a = name_sites(td.parents@);
            let b = name_sites(td.sealed@);
            let sh = shape_sites(td, td.fields@.len() as int);
            let d = if td.meta_blocks is Some {
                meta_sites(td, td.meta_blocks->0@.len() as int)
            } else {
                Seq::empty()
            };
            let e = if td.body is Some {
                body_sites(td.body->0, td.body->0.len() as int)
            } else {
                Seq::empty()
            };
            lemma_from_concat(a + b + sh + d, e, s);
            if e.contains(s) {
                lemma_body_from(td.body->0, td.body->0.len() as int, s)
            } else {
                lemma_from_concat(a + b + sh, d, s);
                if d.contains(s) {
                    lemma_meta_from(parse, td, td.meta_blocks->0@.len() as int, s)
                } else {
                    lemma_from_concat(a + b, sh, s);
                    if sh.contains(s) {
                        lemma_shapes_are_shapes(td, td.fields@.len() as int, s);
                        arbitrary()
                    } else {
                        lemma_from_concat(a, b, s);
                        if a.contains(s) {
                            lemma_name_from(td.parents@, s)
                        } else {
                            lemma_name_from(td.sealed@, s)
                        }
                    }
                }
            }
        },
        _ => arbitrary(),
    }
}

proof fn lemma_shapes_are_shapes(td: crate::ast::TypeDef, n: int, s: SiteView)
    requires
        shape_sites(td, n).contains(s),
    ensures
        s is Shape,
    decreases n,
{
    let all = shape_sites(td, n);
    let k = choose|k: int| 0 <= k < all.len() && all[k] == s;
    if n > 0 {
        let before = shape_sites(td, n - 1);
        if k < before.len() {
            assert(before[k] == s);
            lemma_shapes_are_shapes(td, n - 1, s);
        }
    }
}

proof fn lemma_edit_from(
    sites: Seq<SiteView>,
    file_repo: Seq<char>,
    name: Seq<char>,
    def_repo: Seq<char>,
    new: Seq<char>,
    e: (ByteRange, Seq<char>),
) -> (s: SiteView)
    requires
        edits_at(sites, file_repo, name, def_repo, new).contains(e),
    ensures
        sites.contains(s),
        site_names(s, file_repo, name, def_repo),
        e == site_edit(s, file_repo, name, def_repo, new),
    decreases sites.len(),
{
    let all = edits_at(sites, file_repo, name, def_repo, new);
    let k = choose|k: int| 0 <= k < all.len() && all[k] == e;
    let front = sites.drop_last();
    let before = edits_at(front, file_repo, name, def_repo, new);
    if k < before.len() {
        assert(before[k] == e);
        let s = lemma_edit_from(front, file_repo, name, def_repo, new, e);
        let j = choose|j: int| 0 <= j < front.len() && front[j] == s;
        assert(sites[j] == s);
        s
    } else {
        assert(sites[sites.len() - 1] == sites.last());
        sites.last()
    }
}

/// What a rename edits is a name of the type, the type in a qualified key, or a shape; a
/// name that means a type of another repo is left.
pub proof fn only_mentions_are_edited(
    parse: FileParse,
    file_repo: Seq<char>,
    name: Seq<char>,
    def_repo: Seq<char>,
    new: Seq<char>,
    e: (ByteRange, Seq<char>),
)
    requires
        edits_at(sites_of(parse), file_repo, name, def_repo, new).contains(e),
    ensures
        ({
            ||| exists|c: ClaimedName| #[trigger]
                names_type(parse, c) && c.name@ == name && c.span == e.0 && means(
                    opt_view(c.repo),
                    file_repo,
                    def_repo,
                )
            ||| exists|repo: Option<Seq<char>>|
                #![trigger means(repo, file_repo, def_repo)]
                means(repo, file_repo, def_repo) && sites_of(parse).contains(
                    SiteView::Qualifier { qualifier: name, repo, span: e.0 },
                ) && e.1 == new
            ||| exists|raw: Seq<char>|
                #![trigger rewritten_shape(raw, name, new, file_repo, def_repo)]
                rewritten_shape(raw, name, new, file_repo, def_repo) == Some(e.1) && sites_of(
                    parse,
                ).contains(SiteView::Shape { raw, span: e.0 })
        }),
{
    let s = lemma_edit_from(sites_of(parse), file_repo, name, def_repo, new, e);
    match s {
        SiteView::Name { repo, .. } => {
            let c = only_names_are_found(parse, s);
            assert(names_type(parse, c) && means(opt_view(c.repo), file_repo, def_repo));
        },
        SiteView::Qualifier { repo, .. } => {
            assert(means(repo, file_repo, def_repo));
        },
        SiteView::Shape { raw, .. } => {
            assert(targeted(raw, name, file_repo, def_repo).len() > 0);
            assert(rewritten_shape(raw, name, new, file_repo, def_repo) == Some(e.1));
        },
    }
}

} // verus!
