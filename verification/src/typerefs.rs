//! References to type-defs by name: who mentions a type, and the edits that
//! follow a rename.
//!
//! A type is named by `type:` and `sealed:` claims, by slot shapes, by qualified
//! keys, by `use:` items and by metadata blocks. A name may carry a `::repo`
//! qualifier; without one it names a type of the file's own repo.

use crate::ast::{
    claim_items, BodyItem, ByteRange, ClaimedName, FileParse, InlineValue, Instance, InstanceField,
    InstanceValue, SequenceElement, TypeClaim, TypeDef,
};
use crate::text::{
    byte_len, chars_of, copy_opt, find_char, find_from, is_at, joined3, lemma_bytes_concat, bytes_in,
    occurs_at, opt_view, same, text_of,
};
use vstd::prelude::*;

verus! {

/// A place in a file that names a type.
pub enum Site {
    /// A whole name, with its qualifier, at `span`.
    Name { name: String, repo: Option<String>, span: ByteRange },
    /// The type in a qualified key `field{T}` or `field{T::repo}`; the range
    /// covers only `T`.
    Qualifier { qualifier: String, repo: Option<String>, span: ByteRange },
    /// A slot shape, in which names stand as tokens.
    Shape { raw: String, span: ByteRange },
}

/// The contents of a [`Site`].
pub enum SiteView {
    Name { name: Seq<char>, repo: Option<Seq<char>>, span: ByteRange },
    Qualifier { qualifier: Seq<char>, repo: Option<Seq<char>>, span: ByteRange },
    Shape { raw: Seq<char>, span: ByteRange },
}

impl View for Site {
    type V = SiteView;

    open spec fn view(&self) -> SiteView {
        match self {
            Site::Name { name, repo, span } => SiteView::Name {
                name: name@,
                repo: opt_view(*repo),
                span: *span,
            },
            Site::Qualifier { qualifier, repo, span } => SiteView::Qualifier {
                qualifier: qualifier@,
                repo: opt_view(*repo),
                span: *span,
            },
            Site::Shape { raw, span } => SiteView::Shape { raw: raw@, span: *span },
        }
    }
}

pub open spec fn site_views(v: Seq<Site>) -> Seq<SiteView> {
    v.map_values(|s: Site| s@)
}

proof fn lemma_site_push(v: Seq<Site>, s: Site)
    ensures
        site_views(v.push(s)) == site_views(v).push(s@),
{
    assert(site_views(v.push(s)) =~= site_views(v).push(s@));
}

/// The site of a claimed name.
pub open spec fn name_site(c: ClaimedName) -> SiteView {
    SiteView::Name { name: c.name@, repo: opt_view(c.repo), span: c.span }
}

/// The sites of a list of claimed names.
pub open spec fn name_sites(items: Seq<ClaimedName>) -> Seq<SiteView> {
    items.map_values(|c: ClaimedName| name_site(c))
}

/// The first place at or after `from` where `n` stands in `s`, or the end of `s`.
pub open spec fn first_of(s: Seq<char>, n: Seq<char>, from: int) -> int
    decreases s.len() - from,
{
    if from >= s.len() || from + n.len() > s.len() {
        s.len() as int
    } else if occurs_at(s, n, from) {
        from
    } else {
        first_of(s, n, from + 1)
    }
}

pub open spec fn least(a: int, b: int) -> int {
    if a < b {
        a
    } else {
        b
    }
}

/// The site in a qualified key: the type between the brace and the first `::` or
/// closing brace. A key that begins with `^` is an identity, not a qualifier.
pub open spec fn key_sites(f: InstanceField) -> Seq<SiteView> {
    let key = f.key@;
    let open = find_from(key, '{', 0);
    if key.len() > 0 && key[0] == '^' || open == key.len() {
        Seq::empty()
    } else {
        let close = find_from(key, '}', open + 1);
        let sep = first_of(key, seq![':', ':'], open + 1);
        let end = least(close, sep);
        if end == open + 1 {
            Seq::empty()
        } else {
            let start = f.key_span.start + bytes_in(key.take(open)) + 1;
            let qualifier = key.subrange(open + 1, end);
            seq![
                SiteView::Qualifier {
                    qualifier,
                    repo: if sep < close {
                        Some(key.subrange(sep + 2, close))
                    } else {
                        None
                    },
                    span: ByteRange {
                        start: start as usize,
                        end: (start + bytes_in(qualifier)) as usize,
                    },
                },
            ]
        }
    }
}

/// The sites in a field: those in its key, then those in its value.
pub open spec fn field_sites(f: InstanceField) -> Seq<SiteView>
    decreases f, 0int,
{
    key_sites(f) + value_sites(f.value)
}

/// The sites in the first `n` fields.
pub open spec fn fields_sites(fields: Vec<InstanceField>, n: int) -> Seq<SiteView>
    decreases fields, n,
{
    if n <= 0 || n > fields.len() {
        Seq::empty()
    } else {
        fields_sites(fields, n - 1) + field_sites(fields[n - 1])
    }
}

/// The sites in the first `n` elements.
pub open spec fn elements_sites(elems: Vec<SequenceElement>, n: int) -> Seq<SiteView>
    decreases elems, n,
{
    if n <= 0 || n > elems.len() {
        Seq::empty()
    } else {
        elements_sites(elems, n - 1) + value_sites(elems[n - 1].value)
    }
}

/// The sites in a value: the claims and fields of records, at any depth.
pub open spec fn value_sites(v: InstanceValue) -> Seq<SiteView>
    decreases v, 0int,
{
    match v {
        InstanceValue::Mapping(inline) => inline_claim_sites(inline) + fields_sites(
            inline.fields,
            inline.fields.len() as int,
        ),
        InstanceValue::Sequence(elems) => elements_sites(elems, elems.len() as int),
        _ => Seq::empty(),
    }
}

/// The sites in the claim of an inline record.
pub open spec fn inline_claim_sites(inline: InlineValue) -> Seq<SiteView> {
    match inline.type_claim {
        Some(tc) => name_sites(claim_items(tc)),
        None => Seq::empty(),
    }
}

/// The sites in the first `n` body items.
pub open spec fn body_sites(items: Vec<BodyItem>, n: int) -> Seq<SiteView>
    decreases items, n,
{
    if n <= 0 || n > items.len() {
        Seq::empty()
    } else {
        body_sites(items, n - 1) + body_item_sites(items[n - 1])
    }
}

pub open spec fn body_item_sites(item: BodyItem) -> Seq<SiteView>
    decreases item, 0int,
{
    match item {
        BodyItem::Use(c) => seq![name_site(c)],
        BodyItem::Section { body: Some(sub) } => body_sites(sub, sub.len() as int),
        _ => Seq::empty(),
    }
}

/// The sites of the first `n` field shapes.
pub open spec fn shape_sites(td: TypeDef, n: int) -> Seq<SiteView>
    decreases n,
{
    if n <= 0 {
        Seq::empty()
    } else {
        shape_sites(td, n - 1).push(
            SiteView::Shape {
                raw: td.fields@[n - 1].raw_shape@,
                span: td.fields@[n - 1].shape_span,
            },
        )
    }
}

/// The sites of the first `n` metadata blocks: each name, then its fields.
pub open spec fn meta_sites(td: TypeDef, n: int) -> Seq<SiteView>
    decreases n,
{
    if n <= 0 {
        Seq::empty()
    } else {
        let mb = td.meta_blocks->0@[n - 1];
        meta_sites(td, n - 1).push(
            name_site(mb.claim),
        ) + fields_sites(mb.fields, mb.fields.len() as int)
    }
}

/// The sites of a type-def: parents, sealed branches, shapes, metadata, body.
pub open spec fn type_def_sites(td: TypeDef) -> Seq<SiteView> {
    name_sites(td.parents@) + name_sites(td.sealed@) + shape_sites(td, td.fields@.len() as int) + (
    if td.meta_blocks is Some {
        meta_sites(td, td.meta_blocks->0@.len() as int)
    } else {
        Seq::empty()
    }) + (if td.body is Some {
        body_sites(td.body->0, td.body->0.len() as int)
    } else {
        Seq::empty()
    })
}

/// Every site of a file, in the order of the walk.
pub open spec fn sites_of(parse: FileParse) -> Seq<SiteView> {
    match parse {
        FileParse::TypeDef(Some(td)) => type_def_sites(td),
        FileParse::Instance(Some(inst)) => name_sites(claim_items(inst.type_claim)) + fields_sites(
            inst.fields,
            inst.fields.len() as int,
        ),
        FileParse::Note(fields) => fields_sites(fields, fields.len() as int),
        _ => Seq::empty(),
    }
}

/// Whether the offsets of the keys at or below these fields are machine
/// integers, as the offsets in any file are.
pub open spec fn fields_fit(fields: Vec<InstanceField>) -> bool
    decreases fields, 0int,
{
    forall|i: int| 0 <= i < fields.len() ==> field_fits(#[trigger] fields[i])
}

pub open spec fn field_fits(f: InstanceField) -> bool
    decreases f, 1int,
{
    f.key_span.start + bytes_in(f.key@) <= usize::MAX && value_fits(f.value)
}

pub open spec fn value_fits(v: InstanceValue) -> bool
    decreases v, 0int,
{
    match v {
        InstanceValue::Mapping(inline) => fields_fit(inline.fields),
        InstanceValue::Sequence(elems) => forall|i: int|
            0 <= i < elems.len() ==> value_fits((#[trigger] elems[i]).value),
        _ => true,
    }
}

/// Whether the key offsets of a file are machine integers.
pub open spec fn parse_fits(parse: FileParse) -> bool {
    match parse {
        FileParse::TypeDef(Some(td)) => td.meta_blocks matches Some(blocks) ==> forall|i: int|
            0 <= i < blocks@.len() ==> fields_fit((#[trigger] blocks@[i]).fields),
        FileParse::Instance(Some(inst)) => fields_fit(inst.fields),
        FileParse::Note(fields) => fields_fit(fields),
        _ => true,
    }
}

fn push_names(items: &Vec<ClaimedName>, out: &mut Vec<Site>)
    ensures
        site_views(final(out)@) == site_views(old(out)@) + name_sites(items@),
{
    let ghost before = out@;
    assert(site_views(before) + name_sites(items@.take(0)) =~= site_views(before));
    for i in 0..items.len()
        invariant
            site_views(out@) == site_views(before) + name_sites(items@.take(i as int)),
    {
        let c = &items[i];
        let ghost done = out@;
        let site = Site::Name { name: c.name.clone(), repo: copy_opt(&c.repo), span: c.span };
        out.push(site);
        proof {
            lemma_site_push(done, site);
            assert(name_sites(items@.take(i + 1)) =~= name_sites(items@.take(i as int)).push(
                name_site(*c),
            ));
            assert(site_views(out@) =~= site_views(before) + name_sites(items@.take(i + 1)));
        }
    }
    assert(items@.take(items@.len() as int) =~= items@);
}

fn push_claim(claim: &TypeClaim, out: &mut Vec<Site>)
    ensures
        site_views(final(out)@) == site_views(old(out)@) + name_sites(claim_items(*claim)),
{
    match claim {
        TypeClaim::Bare(c) => {
            let ghost before = out@;
            let site = Site::Name { name: c.name.clone(), repo: copy_opt(&c.repo), span: c.span };
            out.push(site);
            proof {
                lemma_site_push(before, site);
                assert(name_sites(seq![*c]) =~= seq![name_site(*c)]);
                assert(site_views(out@) =~= site_views(before) + name_sites(seq![*c]));
            }
        },
        TypeClaim::List(items) => push_names(items, out),
    }
}

pub fn find_first(s: &Vec<char>, n: &Vec<char>, from: usize) -> (r: usize)
    requires
        from <= s@.len(),
    ensures
        r == first_of(s@, n@, from as int),
        from <= r <= s@.len(),
        r < s@.len() ==> occurs_at(s@, n@, r as int),
{
    let mut i: usize = from;
    while i < s.len() && n.len() <= s.len() - i
        invariant
            from <= i <= s@.len(),
            first_of(s@, n@, from as int) == first_of(s@, n@, i as int),
        decreases s@.len() - i,
    {
        if is_at(s, n, i) {
            return i;
        }
        i += 1;
    }
    s.len()
}

fn push_key(f: &InstanceField, out: &mut Vec<Site>)
    requires
        f.key_span.start + bytes_in(f.key@) <= usize::MAX,
    ensures
        site_views(final(out)@) == site_views(old(out)@) + key_sites(*f),
{
    let ghost before = out@;
    let key = chars_of(f.key.as_str());
    let open: usize = find_char(&key, '{', 0);
    assert(site_views(before) + Seq::<SiteView>::empty() =~= site_views(before));
    if open == key.len() || key[0] == '^' {
        return;
    }
    let close: usize = find_char(&key, '}', open + 1);
    let colons: Vec<char> = vec![':', ':'];
    assert(colons@ =~= seq![':', ':']);
    let sep: usize = find_first(&key, &colons, open + 1);
    let end: usize = if close < sep {
        close
    } else {
        sep
    };
    if end == open + 1 {
        return;
    }
    let head = text_of(&key, 0, open);
    let qualifier = text_of(&key, open + 1, end);
    proof {
        let k = f.key@;
        assert(k.take(open as int) =~= head@);
        assert(k =~= head@ + (seq!['{'] + (qualifier@ + k.skip(end as int))));
        lemma_bytes_concat(head@, seq!['{'] + (qualifier@ + k.skip(end as int)));
        lemma_bytes_concat(seq!['{'], qualifier@ + k.skip(end as int));
        lemma_bytes_concat(qualifier@, k.skip(end as int));
        crate::text::lemma_bytes_nonempty(seq!['{']);
    }
    let repo: Option<String> = if sep < close {
        Some(text_of(&key, sep + 2, close))
    } else {
        None
    };
    let start: usize = f.key_span.start + byte_len(head.as_str()) + 1;
    let site = Site::Qualifier {
        span: ByteRange { start, end: start + byte_len(qualifier.as_str()) },
        qualifier,
        repo,
    };
    out.push(site);
    proof {
        lemma_site_push(before, site);
        assert(site_views(out@) =~= site_views(before) + key_sites(*f));
    }
}

fn push_field(f: &InstanceField, out: &mut Vec<Site>)
    requires
        field_fits(*f),
    ensures
        site_views(final(out)@) == site_views(old(out)@) + field_sites(*f),
    decreases *f, 0int,
{
    let ghost before = out@;
    push_key(f, out);
    push_value(&f.value, out);
    assert(site_views(out@) =~= site_views(before) + field_sites(*f));
}

fn push_fields(fields: &Vec<InstanceField>, out: &mut Vec<Site>)
    requires
        fields_fit(*fields),
    ensures
        site_views(final(out)@) == site_views(old(out)@) + fields_sites(
            *fields,
            fields.len() as int,
        ),
    decreases *fields, 0int,
{
    let ghost before = out@;
    assert(site_views(before) + fields_sites(*fields, 0) =~= site_views(before));
    for i in 0..fields.len()
        invariant
            fields_fit(*fields),
            site_views(out@) == site_views(before) + fields_sites(*fields, i as int),
    {
        assert(field_fits(fields[i as int]));
        assert(decreases_to!(*fields => fields[i as int]));
        push_field(&fields[i], out);
        assert(site_views(out@) =~= site_views(before) + fields_sites(*fields, i + 1));
    }
}

fn push_value(v: &InstanceValue, out: &mut Vec<Site>)
    requires
        value_fits(*v),
    ensures
        site_views(final(out)@) == site_views(old(out)@) + value_sites(*v),
    decreases *v, 0int,
{
    let ghost before = out@;
    assert(site_views(before) + Seq::<SiteView>::empty() =~= site_views(before));
    match v {
        InstanceValue::Mapping(inline) => {
            match &inline.type_claim {
                Some(tc) => push_claim(tc, out),
                None => {},
            }
            push_fields(&inline.fields, out);
            assert(site_views(out@) =~= site_views(before) + value_sites(*v));
        },
        InstanceValue::Sequence(elems) => {
            for i in 0..elems.len()
                invariant
                    value_fits(*v),
                    *v == InstanceValue::Sequence(*elems),
                    site_views(out@) == site_views(before) + elements_sites(*elems, i as int),
            {
                assert(value_fits(elems[i as int].value));
                assert(decreases_to!(*v => *elems));
                assert(decreases_to!(*elems => elems[i as int]));
                push_value(&elems[i].value, out);
                assert(site_views(out@) =~= site_views(before) + elements_sites(*elems, i + 1));
            }
        },
        _ => {},
    }
}

fn push_body(items: &Vec<BodyItem>, out: &mut Vec<Site>)
    ensures
        site_views(final(out)@) == site_views(old(out)@) + body_sites(*items, items.len() as int),
    decreases *items,
{
    let ghost before = out@;
    assert(site_views(before) + body_sites(*items, 0) =~= site_views(before));
    for i in 0..items.len()
        invariant
            site_views(out@) == site_views(before) + body_sites(*items, i as int),
    {
        let ghost done = out@;
        assert(decreases_to!(*items => items[i as int]));
        match &items[i] {
            BodyItem::Use(c) => {
                let site = Site::Name { name: c.name.clone(), repo: copy_opt(&c.repo), span: c.span };
                out.push(site);
                proof {
                    lemma_site_push(done, site);
                }
            },
            BodyItem::Section { body: Some(sub) } => push_body(sub, out),
            _ => {},
        }
        assert(site_views(out@) =~= site_views(done) + body_item_sites(items[i as int]));
        assert(site_views(out@) =~= site_views(before) + body_sites(*items, i + 1));
    }
}

fn push_type_def(td: &TypeDef, out: &mut Vec<Site>)
    requires
        td.meta_blocks matches Some(blocks) ==> forall|i: int|
            0 <= i < blocks@.len() ==> fields_fit((#[trigger] blocks@[i]).fields),
    ensures
        site_views(final(out)@) == site_views(old(out)@) + type_def_sites(*td),
{
    let ghost before = out@;
    push_names(&td.parents, out);
    push_names(&td.sealed, out);
    let ghost named = out@;
    for i in 0..td.fields.len()
        invariant
            site_views(out@) == site_views(named) + shape_sites(*td, i as int),
    {
        let ghost done = out@;
        let site = Site::Shape {
            raw: td.fields[i].raw_shape.clone(),
            span: td.fields[i].shape_span,
        };
        out.push(site);
        proof {
            lemma_site_push(done, site);
            assert(site_views(out@) =~= site_views(named) + shape_sites(*td, i + 1));
        }
    }
    let ghost shaped = out@;
    if let Some(blocks) = &td.meta_blocks {
        for i in 0..blocks.len()
            invariant
                td.meta_blocks == Some(*blocks),
                forall|i: int| 0 <= i < blocks@.len() ==> fields_fit((#[trigger] blocks@[i]).fields),
                site_views(out@) == site_views(shaped) + meta_sites(*td, i as int),
        {
            let mb = &blocks[i];
            let ghost done = out@;
            let site = Site::Name {
                name: mb.claim.name.clone(),
                repo: copy_opt(&mb.claim.repo),
                span: mb.claim.span,
            };
            out.push(site);
            proof {
                lemma_site_push(done, site);
            }
            push_fields(&mb.fields, out);
            assert(site_views(out@) =~= site_views(shaped) + meta_sites(*td, i + 1));
        }
    }
    if let Some(body) = &td.body {
        push_body(body, out);
    }
    assert(site_views(out@) =~= site_views(before) + type_def_sites(*td));
}

/// Every place of a file that names a type.
pub fn sites(parse: &FileParse) -> (r: Vec<Site>)
    requires
        parse_fits(*parse),
    ensures
        site_views(r@) == sites_of(*parse),
{
    let mut out: Vec<Site> = Vec::new();
    match parse {
        FileParse::TypeDef(Some(td)) => push_type_def(td, &mut out),
        FileParse::Instance(Some(inst)) => {
            push_claim(&inst.type_claim, &mut out);
            push_fields(&inst.fields, &mut out);
        },
        FileParse::Note(fields) => push_fields(fields, &mut out),
        _ => {},
    }
    assert(site_views(out@) =~= sites_of(*parse));
    out
}

/// Whether a name that a `::repo` qualifier accompanies, or none, names a type of
/// `def_repo` when it stands in a file of `file_repo`.
pub open spec fn targets(repo: Option<Seq<char>>, file_repo: Seq<char>, def_repo: Seq<char>) -> bool {
    match repo {
        Some(r) => r == def_repo,
        None => file_repo == def_repo,
    }
}

fn site_targets(repo: &Option<String>, file_repo: &str, def_repo: &str) -> (r: bool)
    ensures
        r == targets(opt_view(*repo), file_repo@, def_repo@),
{
    match repo {
        Some(r) => same(r.as_str(), def_repo),
        None => same(file_repo, def_repo),
    }
}

/// Whether a type name can go on with `c`: letters, digits, `_`, `-` and the
/// inner `.` of a sealed leaf.
pub open spec fn name_char(c: char) -> bool {
    ||| 'a' <= c <= 'z'
    ||| 'A' <= c <= 'Z'
    ||| '0' <= c <= '9'
    ||| c == '_'
    ||| c == '-'
    ||| c == '.'
}

fn is_name_char(c: char) -> (r: bool)
    ensures
        r == name_char(c),
{
    ('a' <= c && c <= 'z') || ('A' <= c && c <= 'Z') || ('0' <= c && c <= '9') || c == '_' || c
        == '-' || c == '.'
}

/// Whether what stands at `at` qualifies the name before it: it follows that name and a
/// `::`.
pub open spec fn qualifies(raw: Seq<char>, at: int) -> bool {
    at >= 3 && raw[at - 1] == ':' && raw[at - 2] == ':' && name_char(raw[at - 3])
}

/// Whether the `n` characters of `raw` at `at` are bounded by characters that no
/// name goes on with, or by the ends, and are no qualifier.
pub open spec fn whole_token(raw: Seq<char>, n: nat, at: int) -> bool {
    &&& at == 0 || !name_char(raw[at - 1])
    &&& at + n >= raw.len() || !name_char(raw[at + n as int])
    &&& !qualifies(raw, at)
}

/// The places at or after `from` where `needle` stands in `raw` as a whole token; the
/// repo behind a name and a `::` is none. The search goes on behind each place where it
/// stands. An empty needle stands everywhere up to the first character outside ASCII.
pub open spec fn token_positions(raw: Seq<char>, needle: Seq<char>, from: int) -> Seq<int>
    decreases raw.len() - from + 1,
{
    if from < 0 || from + needle.len() > raw.len() {
        Seq::empty()
    } else if !occurs_at(raw, needle, from) {
        token_positions(raw, needle, from + 1)
    } else {
        let here = if whole_token(raw, needle.len(), from) {
            seq![from]
        } else {
            Seq::empty()
        };
        let rest = if needle.len() > 0 {
            token_positions(raw, needle, from + needle.len())
        } else if from < raw.len() && raw[from] as u32 >= 128 {
            Seq::empty()
        } else {
            token_positions(raw, needle, from + 1)
        };
        here + rest
    }
}

/// The end of the run of name characters that begins at `from`.
pub open spec fn name_end(raw: Seq<char>, from: int) -> int
    decreases raw.len() - from,
{
    if from >= raw.len() || !name_char(raw[from]) {
        from
    } else {
        name_end(raw, from + 1)
    }
}

/// The qualifier of a token that ends at `after`: the name behind a `::`.
pub open spec fn qualifier_at(raw: Seq<char>, after: int) -> Option<Seq<char>> {
    if occurs_at(raw, seq![':', ':'], after) && name_end(raw, after + 2) > after + 2 {
        Some(raw.subrange(after + 2, name_end(raw, after + 2)))
    } else {
        None
    }
}

/// The places from `from` on where a token of `raw` names the type `old` of
/// `def_repo`.
pub open spec fn targeted(
    raw: Seq<char>,
    old: Seq<char>,
    file_repo: Seq<char>,
    def_repo: Seq<char>,
) -> Seq<int> {
    token_positions(raw, old, 0).filter(
        |p: int| targets(qualifier_at(raw, p + old.len()), file_repo, def_repo),
    )
}

/// Where the last of the tokens ends.
pub open spec fn tokens_end(n: nat, at: Seq<int>) -> int {
    if at.len() == 0 {
        0
    } else {
        at.last() + n
    }
}

/// `raw` up to the end of the last of the tokens, each replaced by `new`.
pub open spec fn replaced_head(raw: Seq<char>, n: nat, new: Seq<char>, at: Seq<int>) -> Seq<char>
    decreases at.len(),
{
    if at.len() == 0 {
        Seq::empty()
    } else {
        let before = at.drop_last();
        replaced_head(raw, n, new, before) + raw.subrange(tokens_end(n, before), at.last()) + new
    }
}

/// `raw` with the `n` characters at each of the places replaced by `new`.
pub open spec fn replaced(raw: Seq<char>, n: nat, new: Seq<char>, at: Seq<int>) -> Seq<char> {
    replaced_head(raw, n, new, at) + raw.skip(tokens_end(n, at))
}

/// The shape with every token that names the type replaced, or nothing when no
/// token does.
pub open spec fn rewritten_shape(
    raw: Seq<char>,
    old: Seq<char>,
    new: Seq<char>,
    file_repo: Seq<char>,
    def_repo: Seq<char>,
) -> Option<Seq<char>> {
    let at = targeted(raw, old, file_repo, def_repo);
    if at.len() == 0 {
        None
    } else {
        Some(replaced(raw, old.len(), new, at))
    }
}

/// Whether the places lie at or after `from`, in order and without overlap, and
/// `needle` stands at each of them as a whole token.
pub open spec fn are_tokens(raw: Seq<char>, needle: Seq<char>, from: int, at: Seq<int>) -> bool {
    &&& forall|k: int|
        #![trigger at[k]]
        0 <= k < at.len() ==> from <= at[k] && occurs_at(raw, needle, at[k]) && whole_token(
            raw,
            needle.len(),
            at[k],
        )
    &&& forall|a: int, b: int|
        #![trigger at[a], at[b]]
        0 <= a < b < at.len() ==> at[a] + needle.len() <= at[b]
}

/// The search finds whole tokens only, in order and without overlap.
pub proof fn tokens_are_whole(raw: Seq<char>, needle: Seq<char>, from: int)
    requires
        0 <= from,
    ensures
        are_tokens(raw, needle, from, token_positions(raw, needle, from)),
    decreases raw.len() - from + 1,
{
    let found = token_positions(raw, needle, from);
    if from + needle.len() > raw.len() {
    } else if !occurs_at(raw, needle, from) {
        tokens_are_whole(raw, needle, from + 1);
        assert(found == token_positions(raw, needle, from + 1));
    } else {
        let next = if needle.len() > 0 {
            from + needle.len()
        } else {
            from + 1
        };
        tokens_are_whole(raw, needle, next);
        let all = token_positions(raw, needle, next);
        let stops = needle.len() == 0 && from < raw.len() && raw[from] as u32 >= 128;
        let rest = if stops {
            Seq::empty()
        } else {
            all
        };
        if whole_token(raw, needle.len(), from) {
            assert(found == seq![from] + rest);
            assert forall|k: int| #![trigger found[k]] 1 <= k < found.len() implies found[k]
                == all[k - 1] by {}
        } else {
            assert(found =~= rest);
        }
    }
}

/// The places where `needle` stands in `raw` as a whole token.
fn token_list(raw: &Vec<char>, needle: &Vec<char>) -> (r: Vec<usize>)
    ensures
        crate::graph::nodes::ints(r@) == token_positions(raw@, needle@, 0),
        forall|k: int|
            #![trigger r@[k]]
            0 <= k < r@.len() ==> r@[k] + needle@.len() <= raw@.len(),
        forall|a: int, b: int|
            #![trigger r@[a], r@[b]]
            0 <= a < b < r@.len() ==> r@[a] + needle@.len() <= r@[b],
{
    let mut r: Vec<usize> = Vec::new();
    let mut from: usize = 0;
    let ghost all = token_positions(raw@, needle@, 0);
    assert(crate::graph::nodes::ints(r@) + all =~= all);
    while from <= raw.len() && needle.len() <= raw.len() - from
        invariant
            all == token_positions(raw@, needle@, 0),
            crate::graph::nodes::ints(r@) + token_positions(raw@, needle@, from as int) == all,
        decreases raw@.len() + 1 - from,
    {
        let ghost done = r@;
        if !is_at(raw, needle, from) {
            if from == raw.len() {
                assert(needle@.len() == 0 && occurs_at(raw@, needle@, from as int)) by {
                    assert(raw@.subrange(from as int, from as int) =~= needle@);
                }
            }
            from += 1;
        } else {
            let after: usize = from + needle.len();
            let qualifier = from >= 3 && raw[from - 1] == ':' && raw[from - 2] == ':'
                && is_name_char(raw[from - 3]);
            let whole = !qualifier && (from == 0 || !is_name_char(raw[from - 1])) && (after
                >= raw.len() || !is_name_char(raw[after]));
            if whole {
                r.push(from);
            }
            proof {
                let here = if whole {
                    seq![from as int]
                } else {
                    Seq::empty()
                };
                assert(crate::graph::nodes::ints(r@) =~= crate::graph::nodes::ints(done) + here);
            }
            if needle.len() > 0 {
                assert(crate::graph::nodes::ints(r@) + token_positions(raw@, needle@, after as int)
                    =~= all);
                from = after;
            } else if from < raw.len() && crate::text::scalar(raw[from]) >= 128 {
                assert(crate::graph::nodes::ints(r@) =~= all);
                proof {
                    lemma_token_list(raw@, needle@, r@);
                }
                return r;
            } else {
                assert(crate::graph::nodes::ints(r@) + token_positions(raw@, needle@, from + 1)
                    =~= all);
                if from == raw.len() {
                    assert(token_positions(raw@, needle@, from + 1) =~= Seq::empty());
                    assert(crate::graph::nodes::ints(r@) =~= all);
                    proof {
                        lemma_token_list(raw@, needle@, r@);
                    }
                    return r;
                }
                from += 1;
            }
        }
    }
    assert(token_positions(raw@, needle@, from as int) =~= Seq::empty());
    assert(crate::graph::nodes::ints(r@) =~= all);
    proof {
        lemma_token_list(raw@, needle@, r@);
    }
    r
}

proof fn lemma_token_list(raw: Seq<char>, needle: Seq<char>, r: Seq<usize>)
    requires
        crate::graph::nodes::ints(r) == token_positions(raw, needle, 0),
    ensures
        forall|k: int| #![trigger r[k]] 0 <= k < r.len() ==> r[k] + needle.len() <= raw.len(),
        forall|a: int, b: int|
            #![trigger r[a], r[b]]
            0 <= a < b < r.len() ==> r[a] + needle.len() <= r[b],
{
    tokens_are_whole(raw, needle, 0);
    let t = token_positions(raw, needle, 0);
    assert(t.len() == r.len());
    assert forall|k: int| #![trigger r[k]] 0 <= k < r.len() implies r[k] + needle.len()
        <= raw.len() by {
        assert(t[k] == r[k]);
    }
    assert forall|a: int, b: int|
        #![trigger r[a], r[b]]
        0 <= a < b < r.len() implies r[a] + needle.len() <= r[b] by {
        assert(t[a] == r[a] && t[b] == r[b]);
    }
}

fn qualifier_after(raw: &Vec<char>, after: usize) -> (r: Option<String>)
    requires
        after <= raw@.len(),
    ensures
        opt_view(r) == qualifier_at(raw@, after as int),
{
    let n: usize = raw.len();
    let colons: Vec<char> = vec![':', ':'];
    assert(colons@ =~= seq![':', ':']);
    if !is_at(raw, &colons, after) {
        return None;
    }
    let start: usize = after + 2;
    let mut end: usize = start;
    while end < raw.len() && is_name_char(raw[end])
        invariant
            start <= end <= raw@.len(),
            name_end(raw@, start as int) == name_end(raw@, end as int),
        decreases raw@.len() - end,
    {
        end += 1;
    }
    if end > start {
        Some(text_of(raw, start, end))
    } else {
        None
    }
}

proof fn lemma_filter_push<A>(s: Seq<A>, p: spec_fn(A) -> bool, x: A)
    ensures
        s.push(x).filter(p) == (if p(x) {
            s.filter(p).push(x)
        } else {
            s.filter(p)
        }),
{
    reveal(Seq::filter);
    assert(s.push(x).drop_last() =~= s);
}

/// Replaces every whole token `old` of the shape `raw` that names the type of
/// `def_repo`; qualifiers and operators stay. Nothing when no token does.
pub fn rewrite_shape_tokens(
    raw: &str,
    old_name: &str,
    new_name: &str,
    file_repo: &str,
    def_repo: &str,
) -> (r: Option<String>)
    ensures
        opt_view(r) == rewritten_shape(raw@, old_name@, new_name@, file_repo@, def_repo@),
{
    let cs = chars_of(raw);
    let needle = chars_of(old_name);
    let n: usize = cs.len();
    let found = token_list(&cs, &needle);
    let ghost all = token_positions(raw@, old_name@, 0);
    let ghost p = |p: int|
        targets(qualifier_at(raw@, p + old_name@.len()), file_repo@, def_repo@);
    let mut out = String::new();
    let mut last: usize = 0;
    let mut hits: usize = 0;
    proof {
        assert(all.take(0) =~= Seq::empty());
        assert(crate::graph::nodes::ints(found@).len() == found@.len());
        reveal(Seq::filter);
    }
    for k in 0..found.len()
        invariant
            cs@ == raw@,
            n == cs@.len(),
            needle@ == old_name@,
            crate::graph::nodes::ints(found@) == all,
            all.len() == found@.len(),
            all == token_positions(raw@, old_name@, 0),
            p == (|p: int|
                targets(qualifier_at(raw@, p + old_name@.len()), file_repo@, def_repo@)),
            forall|k: int|
                #![trigger found@[k]]
                0 <= k < found@.len() ==> found@[k] + needle@.len() <= cs@.len(),
            forall|a: int, b: int|
                #![trigger found@[a], found@[b]]
                0 <= a < b < found@.len() ==> found@[a] + needle@.len() <= found@[b],
            last <= n,
            k < found@.len() ==> last <= found@[k as int],
            hits == all.take(k as int).filter(p).len(),
            hits <= k,
            out@ == replaced_head(
                raw@,
                old_name@.len(),
                new_name@,
                all.take(k as int).filter(p),
            ),
            last == tokens_end(old_name@.len(), all.take(k as int).filter(p)),
    {
        let at: usize = found[k];
        let repo = qualifier_after(&cs, at + needle.len());
        let ghost done = all.take(k as int).filter(p);
        proof {
            assert(all[k as int] == at);
            assert(all.take(k + 1) =~= all.take(k as int).push(at as int));
            lemma_filter_push(all.take(k as int), p, at as int);
        }
        if site_targets(&repo, file_repo, def_repo) {
            let gap = text_of(&cs, last, at);
            out.append(gap.as_str());
            out.append(new_name);
            last = at + needle.len();
            hits += 1;
            assert(done.push(at as int).drop_last() =~= done);
        }
    }
    assert(all.take(all.len() as int) =~= all);
    if hits == 0 {
        return None;
    }
    let tail = text_of(&cs, last, n);
    out.append(tail.as_str());
    assert(tail@ =~= raw@.skip(last as int));
    Some(out)
}

/// Whether a site names the type `name` of `def_repo`.
pub open spec fn site_names(
    site: SiteView,
    file_repo: Seq<char>,
    name: Seq<char>,
    def_repo: Seq<char>,
) -> bool {
    match site {
        SiteView::Name { name: n, repo, .. } => n == name && targets(repo, file_repo, def_repo),
        SiteView::Qualifier { qualifier, repo, .. } => qualifier == name && targets(
            repo,
            file_repo,
            def_repo,
        ),
        SiteView::Shape { raw, .. } => targeted(raw, name, file_repo, def_repo).len() > 0,
    }
}

/// The replacement at a site that names the type, which keeps its qualifier.
pub open spec fn site_edit(
    site: SiteView,
    file_repo: Seq<char>,
    name: Seq<char>,
    def_repo: Seq<char>,
    new: Seq<char>,
) -> (ByteRange, Seq<char>) {
    match site {
        SiteView::Name { repo, span, .. } => (
            span,
            match repo {
                Some(r) => new + "::"@ + r,
                None => new,
            },
        ),
        SiteView::Qualifier { span, .. } => (span, new),
        SiteView::Shape { raw, span } => (
            span,
            rewritten_shape(raw, name, new, file_repo, def_repo)->0,
        ),
    }
}

/// The replacements at the sites that name the type, in order.
pub open spec fn edits_at(
    sites: Seq<SiteView>,
    file_repo: Seq<char>,
    name: Seq<char>,
    def_repo: Seq<char>,
    new: Seq<char>,
) -> Seq<(ByteRange, Seq<char>)>
    decreases sites.len(),
{
    if sites.len() == 0 {
        Seq::empty()
    } else {
        let before = edits_at(sites.drop_last(), file_repo, name, def_repo, new);
        if site_names(sites.last(), file_repo, name, def_repo) {
            before.push(site_edit(sites.last(), file_repo, name, def_repo, new))
        } else {
            before
        }
    }
}

/// Whether a file mentions the type `name` of `def_repo`.
pub open spec fn mentions(
    parse: FileParse,
    file_repo: Seq<char>,
    name: Seq<char>,
    def_repo: Seq<char>,
) -> bool {
    exists|i: int|
        0 <= i < sites_of(parse).len() && site_names(
            #[trigger] sites_of(parse)[i],
            file_repo,
            name,
            def_repo,
        )
}

/// Whether a site names the type `name` of `def_repo`.
fn site_mentions(site: &Site, file_repo: &str, name: &str, def_repo: &str) -> (r: bool)
    ensures
        r == site_names(site@, file_repo@, name@, def_repo@),
{
    match site {
        Site::Name { name: n, repo, .. } => same(n.as_str(), name) && site_targets(
            repo,
            file_repo,
            def_repo,
        ),
        Site::Qualifier { qualifier, repo, .. } => same(qualifier.as_str(), name) && site_targets(
            repo,
            file_repo,
            def_repo,
        ),
        Site::Shape { raw, .. } => rewrite_shape_tokens(
            raw.as_str(),
            name,
            name,
            file_repo,
            def_repo,
        ).is_some(),
    }
}

/// Whether a file of `file_repo` mentions the type `def_name` of `def_repo`. A
/// bare name counts only inside that repo, a qualified one from anywhere.
pub fn references_type(parse: &FileParse, file_repo: &str, def_name: &str, def_repo: &str) -> (r:
    bool)
    requires
        parse_fits(*parse),
    ensures
        r == mentions(*parse, file_repo@, def_name@, def_repo@),
{
    let all = sites(parse);
    for i in 0..all.len()
        invariant
            site_views(all@) == sites_of(*parse),
            forall|k: int|
                0 <= k < i ==> !site_names(
                    #[trigger] sites_of(*parse)[k],
                    file_repo@,
                    def_name@,
                    def_repo@,
                ),
    {
        assert(sites_of(*parse)[i as int] == all@[i as int]@);
        if site_mentions(&all[i], file_repo, def_name, def_repo) {
            return true;
        }
    }
    assert(sites_of(*parse).len() == all@.len());
    false
}

/// The contents of a list of edits.
pub open spec fn edit_views(v: Seq<(ByteRange, String)>) -> Seq<(ByteRange, Seq<char>)> {
    v.map_values(|e: (ByteRange, String)| (e.0, e.1@))
}

/// The edits that make every mention of the type `old_name` of `def_repo` in a
/// file of `file_repo` a mention of `new_name`. A qualifier stays as it is.
pub fn type_ref_edits(
    parse: &FileParse,
    file_repo: &str,
    old_name: &str,
    def_repo: &str,
    new_name: &str,
) -> (r: Vec<(ByteRange, String)>)
    requires
        parse_fits(*parse),
    ensures
        edit_views(r@) == edits_at(
            sites_of(*parse),
            file_repo@,
            old_name@,
            def_repo@,
            new_name@,
        ),
{
    let all = sites(parse);
    let mut edits: Vec<(ByteRange, String)> = Vec::new();
    assert(site_views(all@).take(0) =~= Seq::empty());
    for i in 0..all.len()
        invariant
            edit_views(edits@) == edits_at(
                site_views(all@).take(i as int),
                file_repo@,
                old_name@,
                def_repo@,
                new_name@,
            ),
    {
        let site = &all[i];
        let ghost before = edits@;
        proof {
            let next = site_views(all@).take(i + 1);
            assert(next.drop_last() =~= site_views(all@).take(i as int));
            assert(next.last() == site@);
        }
        if site_mentions(site, file_repo, old_name, def_repo) {
            let edit: (ByteRange, String) = match site {
                Site::Name { repo, span, .. } => match repo {
                    Some(r) => (*span, joined3(new_name, "::", r.as_str())),
                    None => (*span, new_name.to_owned()),
                },
                Site::Qualifier { span, .. } => (*span, new_name.to_owned()),
                Site::Shape { raw, span } => {
                    let text = match rewrite_shape_tokens(
                        raw.as_str(),
                        old_name,
                        new_name,
                        file_repo,
                        def_repo,
                    ) {
                        Some(t) => t,
                        None => String::new(),
                    };
                    (*span, text)
                },
            };
            edits.push(edit);
            assert(edit_views(edits@) =~= edit_views(before).push((edit.0, edit.1@)));
        }
    }
    assert(site_views(all@).take(all@.len() as int) =~= site_views(all@));
    edits
}

proof fn lemma_edits_iff(
    sites: Seq<SiteView>,
    file_repo: Seq<char>,
    name: Seq<char>,
    def_repo: Seq<char>,
    new: Seq<char>,
)
    ensures
        edits_at(sites, file_repo, name, def_repo, new).len() > 0 <==> exists|i: int|
            0 <= i < sites.len() && site_names(#[trigger] sites[i], file_repo, name, def_repo),
    decreases sites.len(),
{
    if sites.len() > 0 {
        let front = sites.drop_last();
        lemma_edits_iff(front, file_repo, name, def_repo, new);
        if exists|i: int|
            0 <= i < front.len() && site_names(#[trigger] front[i], file_repo, name, def_repo) {
            let i = choose|i: int|
                0 <= i < front.len() && site_names(#[trigger] front[i], file_repo, name, def_repo);
            assert(sites[i] == front[i]);
        }
        if exists|i: int|
            0 <= i < sites.len() && site_names(#[trigger] sites[i], file_repo, name, def_repo) {
            let i = choose|i: int|
                0 <= i < sites.len() && site_names(#[trigger] sites[i], file_repo, name, def_repo);
            if i < front.len() {
                assert(front[i] == sites[i]);
            }
        }
        if site_names(sites.last(), file_repo, name, def_repo) {
            assert(sites[sites.len() - 1] == sites.last());
        }
    }
}

/// A rename edits exactly the files that mention the type.
pub proof fn edits_exactly_where_mentioned(
    parse: FileParse,
    file_repo: Seq<char>,
    name: Seq<char>,
    def_repo: Seq<char>,
    new: Seq<char>,
)
    ensures
        edits_at(sites_of(parse), file_repo, name, def_repo, new).len() > 0 <==> mentions(
            parse,
            file_repo,
            name,
            def_repo,
        ),
{
    lemma_edits_iff(sites_of(parse), file_repo, name, def_repo, new);
}

/// A file that mentions a type only without a qualifier is untouched by a rename
/// in another repo.
pub proof fn bare_names_are_local(
    site: SiteView,
    file_repo: Seq<char>,
    name: Seq<char>,
    def_repo: Seq<char>,
)
    requires
        file_repo != def_repo,
        match site {
            SiteView::Name { repo, .. } => repo is None,
            SiteView::Qualifier { repo, .. } => repo is None,
            SiteView::Shape { .. } => false,
        },
    ensures
        !site_names(site, file_repo, name, def_repo),
{
}

/// A qualified name means the same type wherever it stands.
pub proof fn a_qualifier_decides(
    site: SiteView,
    file_repo: Seq<char>,
    other_repo: Seq<char>,
    name: Seq<char>,
    def_repo: Seq<char>,
)
    requires
        match site {
            SiteView::Name { repo, .. } => repo is Some,
            SiteView::Qualifier { repo, .. } => repo is Some,
            SiteView::Shape { .. } => false,
        },
    ensures
        site_names(site, file_repo, name, def_repo) == site_names(site, other_repo, name, def_repo),
        match site {
            SiteView::Name { repo, .. } => repo != Some(def_repo),
            SiteView::Qualifier { repo, .. } => repo != Some(def_repo),
            SiteView::Shape { .. } => false,
        } ==> !site_names(site, file_repo, name, def_repo),
{
}

/// Renaming a type to its own name leaves a shape as it is.
pub proof fn renaming_to_itself_keeps_a_shape(
    raw: Seq<char>,
    name: Seq<char>,
    file_repo: Seq<char>,
    def_repo: Seq<char>,
)
    ensures
        rewritten_shape(raw, name, name, file_repo, def_repo) matches Some(t) ==> t == raw,
{
    let p = |p: int| targets(qualifier_at(raw, p + name.len()), file_repo, def_repo);
    let all = token_positions(raw, name, 0);
    tokens_are_whole(raw, name, 0);
    lemma_filter_keeps_tokens(raw, name, all, p);
    lemma_identity_head(raw, name, all.filter(p));
    let at = all.filter(p);
    let e = tokens_end(name.len(), at);
    if at.len() > 0 {
        assert(occurs_at(raw, name, at[at.len() - 1]));
        assert(raw.take(e) + raw.skip(e) =~= raw);
    }
}

pub(crate) proof fn lemma_filter_keeps_tokens(
    raw: Seq<char>,
    needle: Seq<char>,
    at: Seq<int>,
    p: spec_fn(int) -> bool,
)
    requires
        are_tokens(raw, needle, 0, at),
    ensures
        are_tokens(raw, needle, 0, at.filter(p)),
        forall|k: int|
            #![trigger at.filter(p)[k]]
            0 <= k < at.filter(p).len() ==> at.contains(at.filter(p)[k]),
    decreases at.len(),
{
    reveal(Seq::filter);
    if at.len() > 0 {
        let front = at.drop_last();
        lemma_filter_keeps_tokens(raw, needle, front, p);
        let kept = front.filter(p);
        let f = at.filter(p);
        assert forall|k: int| #![trigger f[k]] 0 <= k < f.len() implies at.contains(f[k]) by {
            if k < kept.len() {
                assert(f[k] == kept[k]);
                let j = choose|j: int| 0 <= j < front.len() && front[j] == kept[k];
                assert(at[j] == f[k]);
            } else {
                assert(at[at.len() - 1] == f[k]);
            }
        }
        assert forall|k: int| #![trigger f[k]] 0 <= k < f.len() implies 0 <= f[k] && occurs_at(
            raw,
            needle,
            f[k],
        ) && whole_token(raw, needle.len(), f[k]) by {
            let j = choose|j: int| 0 <= j < at.len() && at[j] == f[k];
            assert(at[j] == f[k]);
        }
        assert forall|a: int, b: int|
            #![trigger f[a], f[b]]
            0 <= a < b < f.len() implies f[a] + needle.len() <= f[b] by {
            if b < kept.len() {
                assert(f[a] == kept[a] && f[b] == kept[b]);
            } else {
                assert(f[a] == kept[a]);
                let j = choose|j: int| 0 <= j < front.len() && front[j] == kept[a];
                assert(at[j] == f[a]);
                assert(at[at.len() - 1] == f[b]);
            }
        }
    }
}

proof fn lemma_identity_head(raw: Seq<char>, name: Seq<char>, at: Seq<int>)
    requires
        are_tokens(raw, name, 0, at),
    ensures
        0 <= tokens_end(name.len(), at) <= raw.len(),
        replaced_head(raw, name.len(), name, at) == raw.take(tokens_end(name.len(), at)),
    decreases at.len(),
{
    if at.len() == 0 {
        assert(raw.take(0) =~= Seq::empty());
    } else {
        let before = at.drop_last();
        assert(are_tokens(raw, name, 0, before)) by {
            assert forall|k: int| #![trigger before[k]] 0 <= k < before.len() implies 0 <= before[k]
                && occurs_at(raw, name, before[k]) && whole_token(raw, name.len(), before[k]) by {
                assert(at[k] == before[k]);
            }
            assert forall|a: int, b: int|
                #![trigger before[a], before[b]]
                0 <= a < b < before.len() implies before[a] + name.len() <= before[b] by {
                assert(at[a] == before[a] && at[b] == before[b]);
            }
        }
        lemma_identity_head(raw, name, before);
        let e = tokens_end(name.len(), before);
        let l = at[at.len() - 1];
        assert(occurs_at(raw, name, l));
        if before.len() > 0 {
            assert(before[before.len() - 1] == at[at.len() - 2]);
            assert(at[at.len() - 2] + name.len() <= at[at.len() - 1]);
        }
        assert(raw.take(e) + raw.subrange(e, l) + name =~= raw.take(l + name.len()));
    }
}

} // verus!
