//! What of a file is told as a token.

use crate::ast::{
    ByteRange, ClaimedName, FieldDef, FileParse, InlineValue, Instance, InstanceField,
    InstanceValue, NavLink, SequenceElement, TypeClaim, TypeDef,
};
use crate::instances::authored;
use crate::json::{jv, opt_jv};
use crate::laws::mentions::claims;
use crate::laws::records::{stands_among, stands_in};
use crate::model::{BodyEvent, CatalogEntry, FencedBlock, MarkdownBody};
use crate::mutation::links::LinkView;
use crate::mutation::promote::RecordTarget;
use crate::text::{bytes_in, opt_view, views};
use crate::tokens::{
    body_tokens_of, claim_tokens, element_shape, element_tokens, event_tokens, fence_shape,
    fence_tokens, field_def_tokens, field_defs_tokens, field_shape, field_tokens, file_tokens,
    id_tokens, instance_tokens, link_from, link_kind, meta_tokens, mixed_tokens, part_token,
    record_shape, record_tokens, sealed_tokens, shape_from, shape_of_key, value_tokens, FileFacts,
    KindView, LinkFact, NamedShape, ParsedShape, ShapeForm, ShapePart, ShapeRole, SlotField,
    SlotShape, TokenFacts, TokenView, ValueTypeView,
};
use vstd::prelude::*;

verus! {

proof fn lemma_in_concat<A>(a: Seq<A>, b: Seq<A>, x: A)
    requires
        a.contains(x) || b.contains(x),
    ensures
        (a + b).contains(x),
{
    if a.contains(x) {
        let k = choose|k: int| 0 <= k < a.len() && a[k] == x;
        assert((a + b)[k] == x);
    } else {
        let k = choose|k: int| 0 <= k < b.len() && b[k] == x;
        assert((a + b)[a.len() + k] == x);
    }
}

/// A link that is pinned to a commit is told as pinned, one within the file as leading to
/// the file itself, one that leads to a file as leading there, and any other as broken; each
/// with the target and the repo that it names.
pub proof fn a_link_is_told_as_what_it_is(
    source: Seq<char>,
    w: LinkView,
    resolved: Option<Seq<char>>,
)
    ensures
        ({
            let kind = link_kind(source, w, resolved);
            let own = w.target.len() == 0 && w.repo is None && (w.block_id is Some || w.anchor is Some);
            &&& w.commit matches Some(commit) ==> kind == (KindView::WikilinkPinned {
                target: w.target,
                repo: w.repo,
                commit,
            })
            &&& w.commit is None && own ==> kind == (KindView::WikilinkResolved {
                target: w.target,
                repo: w.repo,
                resolved: source,
            })
            &&& w.commit is None && !own && resolved is Some ==> kind == (
            KindView::WikilinkResolved { target: w.target, repo: w.repo, resolved: resolved->0 })
            &&& w.commit is None && !own && resolved is None ==> kind == (
            KindView::WikilinkBroken { target: w.target, repo: w.repo })
        }),
{
}

proof fn lemma_link_from(links: Seq<LinkFact>, raw: Seq<char>, i: int, k: int)
    requires
        0 <= i <= k < links.len(),
        links[k].raw@ == raw,
        links[k].parsed is Some,
        forall|j: int| #![trigger links[j]] i <= j < k ==> links[j].raw@ != raw,
    ensures
        link_from(links, raw, i) == Some(links[k]),
    decreases k - i,
{
    if i < k {
        let here = links[i];
        lemma_link_from(links, raw, i + 1, k);
    }
}

/// Whether these are the facts of a link that is written like this: the first of that text,
/// and one that parses.
pub open spec fn is_fact(links: Seq<LinkFact>, raw: Seq<char>, k: int) -> bool {
    0 <= k < links.len() && links[k].raw@ == raw && links[k].parsed is Some && forall|j: int|
        #![trigger links[j]]
        0 <= j < k ==> links[j].raw@ != raw
}

/// The token of a link.
pub open spec fn link_token(source: Seq<char>, range: ByteRange, f: LinkFact) -> TokenView {
    TokenView { range, kind: link_kind(source, f.parsed->0@, opt_view(f.resolved)) }
}

proof fn lemma_field_holds(
    facts: TokenFacts,
    source: Seq<char>,
    fields: Vec<InstanceField>,
    shape: Option<Seq<SlotField>>,
    n: int,
    k: int,
    t: TokenView,
)
    requires
        0 <= k < n <= fields.len(),
        value_tokens(
            facts,
            source,
            fields[k].value,
            fields[k].value_span,
            fields[k].nav_links@,
            fields[k].key@,
            shape_of_key(shape, fields[k].key@),
        ).contains(t),
    ensures
        field_tokens(facts, source, fields, shape, n).contains(t),
    decreases n,
{
    let f = fields[n - 1];
    if k < n - 1 {
        lemma_field_holds(facts, source, fields, shape, n - 1, k, t);
    }
    lemma_in_concat(
        field_tokens(facts, source, fields, shape, n - 1),
        value_tokens(
            facts,
            source,
            f.value,
            f.value_span,
            f.nav_links@,
            f.key@,
            shape_of_key(shape, f.key@),
        ),
        t,
    );
}

proof fn lemma_element_holds(
    facts: TokenFacts,
    source: Seq<char>,
    elems: Vec<SequenceElement>,
    field: Seq<char>,
    shape: Option<SlotShape>,
    n: int,
    k: int,
    t: TokenView,
)
    requires
        0 <= k < n <= elems.len(),
        value_tokens(
            facts,
            source,
            elems[k].value,
            elems[k].span,
            elems[k].nav_links@,
            field,
            shape,
        ).contains(t),
    ensures
        element_tokens(facts, source, elems, field, shape, n).contains(t),
    decreases n,
{
    if k < n - 1 {
        lemma_element_holds(facts, source, elems, field, shape, n - 1, k, t);
    }
    lemma_in_concat(
        element_tokens(facts, source, elems, field, shape, n - 1),
        value_tokens(
            facts,
            source,
            elems[n - 1].value,
            elems[n - 1].span,
            elems[n - 1].nav_links@,
            field,
            shape,
        ),
        t,
    );
}

proof fn lemma_record_holds(
    facts: TokenFacts,
    source: Seq<char>,
    inline: InlineValue,
    slot: Option<SlotShape>,
    k: int,
    t: TokenView,
)
    requires
        0 <= k < inline.fields.len(),
        value_tokens(
            facts,
            source,
            inline.fields[k].value,
            inline.fields[k].value_span,
            inline.fields[k].nav_links@,
            inline.fields[k].key@,
            shape_of_key(record_shape(facts, inline, slot), inline.fields[k].key@),
        ).contains(t),
    ensures
        record_tokens(facts, source, inline, slot).contains(t),
{
    let n = inline.fields.len() as int;
    let shape = record_shape(facts, inline, slot);
    lemma_field_holds(facts, source, inline.fields, shape, n, k, t);
    let led = match inline.type_claim {
        Some(claim) => claim_tokens(crate::ast::claim_items(claim)),
        None => Seq::empty(),
    };
    lemma_in_concat(led, field_tokens(facts, source, inline.fields, shape, n), t);
}

proof fn lemma_claims_held(claim: TypeClaim, c: ClaimedName)
    requires
        claims(claim, c),
    ensures
        claim_tokens(crate::ast::claim_items(claim)).contains(
            TokenView { range: c.span, kind: KindView::TypeClaim { name: authored(c) } },
        ),
{
    let items = crate::ast::claim_items(claim);
    match claim {
        TypeClaim::Bare(n) => {
            assert(items[0] == c);
            assert(claim_tokens(items)[0].range == c.span);
        },
        TypeClaim::List(list) => {
            let k = choose|k: int| 0 <= k < list@.len() && list@[k] == c;
            assert(claim_tokens(items)[k].range == c.span);
        },
    }
}

/// A value that is a link as a whole is told as one.
proof fn lemma_whole_link(
    facts: TokenFacts,
    source: Seq<char>,
    v: InstanceValue,
    span: ByteRange,
    links: Vec<NavLink>,
    field: Seq<char>,
    shape: Option<SlotShape>,
    text: String,
    at: ByteRange,
    with: Vec<NavLink>,
    k: int,
)
    requires
        stands_in(v, span, links, InstanceValue::Text(text), at, with),
        is_fact(facts.whole@, text@, k),
    ensures
        value_tokens(facts, source, v, span, links@, field, shape).contains(
            link_token(source, at, facts.whole@[k]),
        ),
    decreases v,
{
    let w = InstanceValue::Text(text);
    let t = link_token(source, at, facts.whole@[k]);
    match v {
        InstanceValue::Text(s) => {
            lemma_link_from(facts.whole@, text@, 0, k);
            assert(value_tokens(facts, source, v, span, links@, field, shape)[0] == t);
        },
        InstanceValue::Mapping(inline) => {
            let j = choose|j: int|
                0 <= j < inline.fields.len() && stands_in(
                    (#[trigger] inline.fields[j]).value,
                    inline.fields[j].value_span,
                    inline.fields[j].nav_links,
                    w,
                    at,
                    with,
                );
            let f = inline.fields[j];
            assert(decreases_to!(v => inline.fields));
            assert(decreases_to!(inline.fields => inline.fields[j]));
            lemma_whole_link(
                facts,
                source,
                f.value,
                f.value_span,
                f.nav_links,
                f.key@,
                shape_of_key(record_shape(facts, inline, shape), f.key@),
                text,
                at,
                with,
                k,
            );
            lemma_record_holds(facts, source, inline, shape, j, t);
        },
        InstanceValue::Sequence(elems) => {
            let j = choose|j: int|
                0 <= j < elems.len() && stands_in(
                    (#[trigger] elems[j]).value,
                    elems[j].span,
                    elems[j].nav_links,
                    w,
                    at,
                    with,
                );
            assert(decreases_to!(v => elems));
            assert(decreases_to!(elems => elems[j]));
            lemma_whole_link(
                facts,
                source,
                elems[j].value,
                elems[j].span,
                elems[j].nav_links,
                field,
                element_shape(shape),
                text,
                at,
                with,
                k,
            );
            lemma_element_holds(
                facts,
                source,
                elems,
                field,
                element_shape(shape),
                elems.len() as int,
                j,
                t,
            );
        },
        _ => {},
    }
}

/// A value that is a link as a whole is told as one, at any depth of the fields.
pub proof fn every_link_value_is_told(
    facts: TokenFacts,
    source: Seq<char>,
    fields: Vec<InstanceField>,
    shape: Option<Seq<SlotField>>,
    text: String,
    at: ByteRange,
    with: Vec<NavLink>,
    k: int,
)
    requires
        stands_among(fields, InstanceValue::Text(text), at, with),
        is_fact(facts.whole@, text@, k),
    ensures
        field_tokens(facts, source, fields, shape, fields.len() as int).contains(
            link_token(source, at, facts.whole@[k]),
        ),
{
    let j = choose|j: int|
        0 <= j < fields.len() && stands_in(
            (#[trigger] fields[j]).value,
            fields[j].value_span,
            fields[j].nav_links,
            InstanceValue::Text(text),
            at,
            with,
        );
    let f = fields[j];
    lemma_whole_link(
        facts,
        source,
        f.value,
        f.value_span,
        f.nav_links,
        f.key@,
        shape_of_key(shape, f.key@),
        text,
        at,
        with,
        k,
    );
    lemma_field_holds(
        facts,
        source,
        fields,
        shape,
        fields.len() as int,
        j,
        link_token(source, at, facts.whole@[k]),
    );
}

/// Whether a value is a number or a truth value.
pub open spec fn is_scalar(v: InstanceValue) -> bool {
    v is Integer || v is Float || v is Boolean
}

/// Whether tokens tell the value of a field at a range.
pub open spec fn tells_value(tokens: Seq<TokenView>, at: ByteRange) -> bool {
    exists|t: TokenView| #[trigger] tokens.contains(t) && t.range == at && t.kind is FieldValue
}

proof fn lemma_scalar(
    facts: TokenFacts,
    source: Seq<char>,
    v: InstanceValue,
    span: ByteRange,
    links: Vec<NavLink>,
    field: Seq<char>,
    shape: Option<SlotShape>,
    w: InstanceValue,
    at: ByteRange,
    with: Vec<NavLink>,
) -> (t: TokenView)
    requires
        stands_in(v, span, links, w, at, with),
        is_scalar(w),
    ensures
        value_tokens(facts, source, v, span, links@, field, shape).contains(t),
        t.range == at,
        t.kind is FieldValue,
    decreases v,
{
    match v {
        InstanceValue::Mapping(inline) => {
            let j = choose|j: int|
                0 <= j < inline.fields.len() && stands_in(
                    (#[trigger] inline.fields[j]).value,
                    inline.fields[j].value_span,
                    inline.fields[j].nav_links,
                    w,
                    at,
                    with,
                );
            let f = inline.fields[j];
            assert(decreases_to!(v => inline.fields));
            assert(decreases_to!(inline.fields => inline.fields[j]));
            let t = lemma_scalar(
                facts,
                source,
                f.value,
                f.value_span,
                f.nav_links,
                f.key@,
                shape_of_key(record_shape(facts, inline, shape), f.key@),
                w,
                at,
                with,
            );
            lemma_record_holds(facts, source, inline, shape, j, t);
            t
        },
        InstanceValue::Sequence(elems) => {
            let j = choose|j: int|
                0 <= j < elems.len() && stands_in(
                    (#[trigger] elems[j]).value,
                    elems[j].span,
                    elems[j].nav_links,
                    w,
                    at,
                    with,
                );
            assert(decreases_to!(v => elems));
            assert(decreases_to!(elems => elems[j]));
            let t = lemma_scalar(
                facts,
                source,
                elems[j].value,
                elems[j].span,
                elems[j].nav_links,
                field,
                element_shape(shape),
                w,
                at,
                with,
            );
            lemma_element_holds(
                facts,
                source,
                elems,
                field,
                element_shape(shape),
                elems.len() as int,
                j,
                t,
            );
            t
        },
        _ => {
            let all = value_tokens(facts, source, v, span, links@, field, shape);
            assert(all.contains(all[0]));
            all[0]
        },
    }
}

/// A number or a truth value is told as the value of a field, at any depth.
pub proof fn every_scalar_is_told(
    facts: TokenFacts,
    source: Seq<char>,
    fields: Vec<InstanceField>,
    shape: Option<Seq<SlotField>>,
    w: InstanceValue,
    at: ByteRange,
    with: Vec<NavLink>,
)
    requires
        stands_among(fields, w, at, with),
        is_scalar(w),
    ensures
        tells_value(field_tokens(facts, source, fields, shape, fields.len() as int), at),
{
    let j = choose|j: int|
        0 <= j < fields.len() && stands_in(
            (#[trigger] fields[j]).value,
            fields[j].value_span,
            fields[j].nav_links,
            w,
            at,
            with,
        );
    let f = fields[j];
    let t = lemma_scalar(
        facts,
        source,
        f.value,
        f.value_span,
        f.nav_links,
        f.key@,
        shape_of_key(shape, f.key@),
        w,
        at,
        with,
    );
    lemma_field_holds(facts, source, fields, shape, fields.len() as int, j, t);
}

proof fn lemma_inline_claim(
    facts: TokenFacts,
    source: Seq<char>,
    v: InstanceValue,
    span: ByteRange,
    links: Vec<NavLink>,
    field: Seq<char>,
    shape: Option<SlotShape>,
    x: InlineValue,
    at: ByteRange,
    with: Vec<NavLink>,
    claim: TypeClaim,
    c: ClaimedName,
)
    requires
        stands_in(v, span, links, InstanceValue::Mapping(x), at, with),
        x.type_claim == Some(claim),
        claims(claim, c),
    ensures
        value_tokens(facts, source, v, span, links@, field, shape).contains(
            TokenView { range: c.span, kind: KindView::TypeClaim { name: authored(c) } },
        ),
    decreases v,
{
    let w = InstanceValue::Mapping(x);
    let t = TokenView { range: c.span, kind: KindView::TypeClaim { name: authored(c) } };
    match v {
        InstanceValue::Mapping(inline) => {
            if v == w && span == at && links == with {
                lemma_claims_held(claim, c);
                lemma_in_concat(
                    claim_tokens(crate::ast::claim_items(claim)),
                    field_tokens(
                        facts,
                        source,
                        inline.fields,
                        record_shape(facts, inline, shape),
                        inline.fields.len() as int,
                    ),
                    t,
                );
            } else {
                let j = choose|j: int|
                    0 <= j < inline.fields.len() && stands_in(
                        (#[trigger] inline.fields[j]).value,
                        inline.fields[j].value_span,
                        inline.fields[j].nav_links,
                        w,
                        at,
                        with,
                    );
                let f = inline.fields[j];
                assert(decreases_to!(v => inline.fields));
                assert(decreases_to!(inline.fields => inline.fields[j]));
                lemma_inline_claim(
                    facts,
                    source,
                    f.value,
                    f.value_span,
                    f.nav_links,
                    f.key@,
                    shape_of_key(record_shape(facts, inline, shape), f.key@),
                    x,
                    at,
                    with,
                    claim,
                    c,
                );
                lemma_record_holds(facts, source, inline, shape, j, t);
            }
        },
        InstanceValue::Sequence(elems) => {
            let j = choose|j: int|
                0 <= j < elems.len() && stands_in(
                    (#[trigger] elems[j]).value,
                    elems[j].span,
                    elems[j].nav_links,
                    w,
                    at,
                    with,
                );
            assert(decreases_to!(v => elems));
            assert(decreases_to!(elems => elems[j]));
            lemma_inline_claim(
                facts,
                source,
                elems[j].value,
                elems[j].span,
                elems[j].nav_links,
                field,
                element_shape(shape),
                x,
                at,
                with,
                claim,
                c,
            );
            lemma_element_holds(
                facts,
                source,
                elems,
                field,
                element_shape(shape),
                elems.len() as int,
                j,
                t,
            );
        },
        _ => {},
    }
}

/// The claim of a record is told as a claim, at any depth of the fields.
pub proof fn every_claim_of_a_record_is_told(
    facts: TokenFacts,
    source: Seq<char>,
    fields: Vec<InstanceField>,
    shape: Option<Seq<SlotField>>,
    x: InlineValue,
    at: ByteRange,
    with: Vec<NavLink>,
    claim: TypeClaim,
    c: ClaimedName,
)
    requires
        stands_among(fields, InstanceValue::Mapping(x), at, with),
        x.type_claim == Some(claim),
        claims(claim, c),
    ensures
        field_tokens(facts, source, fields, shape, fields.len() as int).contains(
            TokenView { range: c.span, kind: KindView::TypeClaim { name: authored(c) } },
        ),
{
    let j = choose|j: int|
        0 <= j < fields.len() && stands_in(
            (#[trigger] fields[j]).value,
            fields[j].value_span,
            fields[j].nav_links,
            InstanceValue::Mapping(x),
            at,
            with,
        );
    let f = fields[j];
    let t = TokenView { range: c.span, kind: KindView::TypeClaim { name: authored(c) } };
    lemma_inline_claim(
        facts,
        source,
        f.value,
        f.value_span,
        f.nav_links,
        f.key@,
        shape_of_key(shape, f.key@),
        x,
        at,
        with,
        claim,
        c,
    );
    lemma_field_holds(facts, source, fields, shape, fields.len() as int, j, t);
}

proof fn lemma_shape(fields: Seq<SlotField>, key: Seq<char>, i: int, k: int)
    requires
        0 <= i <= k < fields.len(),
        fields[k].name@ == key,
        forall|j: int| #![trigger fields[j]] i <= j < k ==> fields[j].name@ != key,
    ensures
        field_shape(fields, key, i) == fields[k].shape,
    decreases k - i,
{
    if i < k {
        let here = fields[i];
        lemma_shape(fields, key, i + 1, k);
    }
}

/// The value of a field is told with the shape that its type declares for the field, or with
/// the kind of literal that it is.
pub proof fn a_value_is_told_with_its_shape(
    facts: TokenFacts,
    source: Seq<char>,
    v: InstanceValue,
    span: ByteRange,
    links: Seq<NavLink>,
    slots: Seq<SlotField>,
    key: Seq<char>,
    k: int,
)
    requires
        is_scalar(v) || (v matches InstanceValue::Text(s) && links.len() == 0 && link_from(
            facts.whole@,
            s@,
            0,
        ) is None),
        0 <= k < slots.len(),
        slots[k].name@ == key,
        forall|j: int| #![trigger slots[j]] 0 <= j < k ==> slots[j].name@ != key,
    ensures
        ({
            let all = value_tokens(
                facts,
                source,
                v,
                span,
                links,
                key,
                shape_of_key(Some(slots), key),
            );
            let bare = value_tokens(facts, source, v, span, links, key, shape_of_key(None, key));
            &&& all.len() == 1 && all[0].range == span
            &&& slots[k].shape matches Some(s) ==> all[0].kind == (KindView::FieldValue {
                field: key,
                value_type: ValueTypeView::Declared(jv(s.served)),
            })
            &&& bare.len() == 1 && bare[0].range == span
            &&& v is Text ==> bare[0].kind == (KindView::FieldValue {
                field: key,
                value_type: ValueTypeView::Literal("String"@),
            })
            &&& v is Integer || v is Float ==> bare[0].kind == (KindView::FieldValue {
                field: key,
                value_type: ValueTypeView::Literal("Number"@),
            })
            &&& v is Boolean ==> bare[0].kind == (KindView::FieldValue {
                field: key,
                value_type: ValueTypeView::Literal("Boolean"@),
            })
        }),
{
    lemma_shape(slots, key, 0, k);
}

/// The elements of a list have the shape that the list declares for them, and a record the
/// shape of the type that it claims, or that its slot pins.
pub proof fn a_nested_value_has_the_shape_of_its_place(
    facts: TokenFacts,
    inline: InlineValue,
    slot: SlotShape,
    name: String,
    k: int,
)
    requires
        0 <= k < facts.shapes@.len(),
        forall|j: int|
            #![trigger facts.shapes@[j]]
            0 <= j < k ==> views(facts.shapes@[j].names@) != views(facts.shapes@[k].names@),
    ensures
        slot.form matches ShapeForm::List(b) ==> element_shape(Some(slot)) == Some(*b),
        !(slot.form is List) ==> element_shape(Some(slot)) is None,
        inline.type_claim is None && (slot.form == ShapeForm::Record(name) || slot.form
            == ShapeForm::InlineOrReference(name)) && views(facts.shapes@[k].names@) == seq![name@]
            ==> record_shape(facts, inline, Some(slot)) == Some(facts.shapes@[k].fields@),
        inline.type_claim matches Some(TypeClaim::Bare(c)) ==> (views(facts.shapes@[k].names@)
            == seq![c.name@] ==> record_shape(facts, inline, Some(slot)) == Some(
            facts.shapes@[k].fields@,
        ) && record_shape(facts, inline, None) == Some(facts.shapes@[k].fields@)),
        inline.type_claim is None ==> record_shape(facts, inline, None) is None,
{
    lemma_named_shape(facts.shapes@, views(facts.shapes@[k].names@), 0, k);
    if let Some(TypeClaim::Bare(c)) = inline.type_claim {
        assert(crate::tokens::bare_names(crate::ast::claim_items(TypeClaim::Bare(c))) =~= seq![
            c.name@,
        ]);
    }
}

proof fn lemma_named_shape(shapes: Seq<NamedShape>, names: Seq<Seq<char>>, i: int, k: int)
    requires
        0 <= i <= k < shapes.len(),
        views(shapes[k].names@) == names,
        forall|j: int| #![trigger shapes[j]] i <= j < k ==> views(shapes[j].names@) != names,
    ensures
        shape_from(shapes, names, i) == Some(shapes[k].fields@),
    decreases k - i,
{
    if i < k {
        let here = shapes[i];
        lemma_named_shape(shapes, names, i + 1, k);
    }
}

// Whole files.

/// The claim of an instance, the tokens of its fields and the ids of its records are told.
pub proof fn an_instance_tells_its_claim_and_its_ids(
    facts: TokenFacts,
    source: Seq<char>,
    inst: Instance,
    shape: Option<Seq<SlotField>>,
    records: Seq<RecordTarget>,
    c: ClaimedName,
    k: int,
    t: TokenView,
)
    ensures
        claims(inst.type_claim, c) ==> instance_tokens(
            facts,
            source,
            inst,
            shape,
            records,
        ).contains(TokenView { range: c.span, kind: KindView::TypeClaim { name: authored(c) } }),
        0 <= k < records.len() ==> instance_tokens(facts, source, inst, shape, records).contains(
            TokenView { range: records[k].span, kind: KindView::BlockId { id: records[k].id@ } },
        ),
        field_tokens(facts, source, inst.fields, shape, inst.fields.len() as int).contains(t)
            ==> instance_tokens(facts, source, inst, shape, records).contains(t),
{
    let a = claim_tokens(crate::ast::claim_items(inst.type_claim));
    let b = field_tokens(facts, source, inst.fields, shape, inst.fields.len() as int);
    let d = id_tokens(records);
    if claims(inst.type_claim, c) {
        lemma_claims_held(inst.type_claim, c);
        let x = TokenView { range: c.span, kind: KindView::TypeClaim { name: authored(c) } };
        lemma_in_concat(a, b, x);
        lemma_in_concat(a + b, d, x);
    }
    if 0 <= k < records.len() {
        let x = TokenView {
            range: records[k].span,
            kind: KindView::BlockId { id: records[k].id@ },
        };
        assert(d[k] == x);
        lemma_in_concat(a + b, d, x);
    }
    if b.contains(t) {
        lemma_in_concat(a, b, t);
        lemma_in_concat(a + b, d, t);
    }
}

proof fn lemma_event(
    facts: TokenFacts,
    source: Seq<char>,
    typed: bool,
    shape: Option<Seq<SlotField>>,
    body: MarkdownBody,
    n: int,
    i: int,
    t: TokenView,
)
    requires
        0 <= i < n <= body.events@.len(),
        event_tokens(facts, source, typed, shape, body.events@[i], body.offset).contains(t),
    ensures
        body_tokens_of(facts, source, typed, shape, body, n).contains(t),
    decreases n,
{
    if i < n - 1 {
        lemma_event(facts, source, typed, shape, body, n - 1, i, t);
    }
    lemma_in_concat(
        body_tokens_of(facts, source, typed, shape, body, n - 1),
        event_tokens(facts, source, typed, shape, body.events@[n - 1], body.offset),
        t,
    );
}

/// A range of a body as it stands in the file.
pub open spec fn in_file(span: ByteRange, body: MarkdownBody) -> ByteRange {
    ByteRange {
        start: (span.start + body.offset) as usize,
        end: (span.end + body.offset) as usize,
    }
}

/// Every link, marker and heading of a body is told where it stands in the file, and in a
/// typed file every block that fills a field.
pub proof fn every_element_of_a_body_is_told(
    facts: TokenFacts,
    source: Seq<char>,
    typed: bool,
    shape: Option<Seq<SlotField>>,
    body: MarkdownBody,
    i: int,
    k: int,
)
    requires
        0 <= i < body.events@.len(),
    ensures
        ({
            let all = body_tokens_of(
                facts,
                source,
                typed,
                shape,
                body,
                body.events@.len() as int,
            );
            match body.events@[i] {
                BodyEvent::Wikilink { raw, span } => is_fact(facts.inner@, raw@, k) ==> all.contains(
                    link_token(source, in_file(span, body), facts.inner@[k]),
                ),
                BodyEvent::BlockIdMarker { id, span } => all.contains(
                    TokenView {
                        range: in_file(span, body),
                        kind: KindView::BlockId { id: id@ },
                    },
                ),
                BodyEvent::Heading { text, span, .. } => all.contains(
                    TokenView {
                        range: in_file(span, body),
                        kind: KindView::Anchor { text: text@ },
                    },
                ),
                BodyEvent::FencedBlock { block } => {
                    &&& typed ==> (block.field matches Some(f) ==> all.contains(
                        TokenView {
                            range: in_file(block.span, body),
                            kind: KindView::TypedBlock { field: f@ },
                        },
                    ))
                    &&& block.trailing_block_id matches Some(id) ==> all.contains(
                        TokenView {
                            range: in_file(
                                ByteRange {
                                    start: (block.id_at - 1) as usize,
                                    end: (block.id_at + bytes_in(id@)) as usize,
                                },
                                body,
                            ),
                            kind: KindView::BlockId { id: id@ },
                        },
                    )
                },
            }
        }),
{
    let n = body.events@.len() as int;
    let e = body.events@[i];
    let here = event_tokens(facts, source, typed, shape, e, body.offset);
    match e {
        BodyEvent::Wikilink { raw, span } => {
            if is_fact(facts.inner@, raw@, k) {
                lemma_link_from(facts.inner@, raw@, 0, k);
                assert(here[0] == link_token(source, in_file(span, body), facts.inner@[k]));
                lemma_event(facts, source, typed, shape, body, n, i, here[0]);
            }
        },
        BodyEvent::BlockIdMarker { id, span } => {
            assert(here.contains(here[0]));
            lemma_event(facts, source, typed, shape, body, n, i, here[0]);
        },
        BodyEvent::Heading { text, span, .. } => {
            assert(here.contains(here[0]));
            lemma_event(facts, source, typed, shape, body, n, i, here[0]);
        },
        BodyEvent::FencedBlock { block } => {
            if let Some(id) = block.trailing_block_id {
                assert(here.contains(here[0]));
                lemma_event(facts, source, typed, shape, body, n, i, here[0]);
            }
            if typed && block.field is Some {
                let at = if block.trailing_block_id is Some {
                    1int
                } else {
                    0int
                };
                assert(here[at].range == in_file(block.span, body));
                assert(here.contains(here[at]));
                lemma_event(facts, source, typed, shape, body, n, i, here[at]);
            }
        },
    }
}

/// The record in a block that fills a field of a typed file is told like one in the fields,
/// with the shape of the field, or of its elements where the field is a list.
pub proof fn a_record_in_a_block_is_told(
    facts: TokenFacts,
    source: Seq<char>,
    shape: Option<Seq<SlotField>>,
    block: FencedBlock,
    field: String,
    inline: InlineValue,
    offset: usize,
    t: TokenView,
)
    requires
        block.field == Some(field),
        block.record == Some(inline),
        record_tokens(facts, source, inline, fence_shape(shape, field@)).contains(t),
    ensures
        fence_tokens(facts, source, true, shape, block, offset).contains(t),
        fence_shape(shape, field@) == (match shape_of_key(shape, field@) {
            Some(s) => if s.form is List {
                element_shape(Some(s))
            } else {
                Some(s)
            },
            None => None,
        }),
{
    let all = fence_tokens(facts, source, true, shape, block, offset);
    let rest = record_tokens(facts, source, inline, fence_shape(shape, field@));
    lemma_in_concat(all.take(all.len() - rest.len()), rest, t);
    assert(all.take(all.len() - rest.len()) + rest =~= all);
}

/// The file of an instance tells its body and its frontmatter, and any other file but a
/// type-def its body alone.
pub proof fn a_file_tells_its_body_and_its_frontmatter(
    entry: CatalogEntry,
    facts: FileFacts,
    body: MarkdownBody,
    inst: Instance,
    t: TokenView,
)
    requires
        entry.body == Some(body),
        !(entry.parse is TypeDef),
    ensures
        body_tokens_of(
            facts.links,
            entry.path@,
            entry.parse matches FileParse::Instance(Some(_)),
            crate::tokens::known_shape(facts.shape),
            body,
            body.events@.len() as int,
        ).contains(t) ==> file_tokens(entry, facts).contains(t),
        entry.parse == FileParse::Instance(Some(inst)) && instance_tokens(
            facts.links,
            entry.path@,
            inst,
            crate::tokens::known_shape(facts.shape),
            facts.records@,
        ).contains(t) ==> file_tokens(entry, facts).contains(t),
{
    let typed = entry.parse matches FileParse::Instance(Some(_));
    let shape = crate::tokens::known_shape(facts.shape);
    let b = body_tokens_of(
        facts.links,
        entry.path@,
        typed,
        shape,
        body,
        body.events@.len() as int,
    );
    if let FileParse::Instance(Some(i)) = entry.parse {
        let f = instance_tokens(facts.links, entry.path@, i, shape, facts.records@);
        if b.contains(t) || f.contains(t) {
            lemma_in_concat(b, f, t);
        }
    }
}

/// A type-def tells its parents and the types of its metadata as claims, its sealed branches
/// as types, and each field with its shape; and the parts of a shape that is written plainly.
pub proof fn a_type_def_tells_what_it_names(
    entry: CatalogEntry,
    facts: FileFacts,
    def: TypeDef,
    c: ClaimedName,
    k: int,
    p: int,
)
    requires
        entry.parse == FileParse::TypeDef(Some(def)),
        facts.declared@.len() == def.fields@.len(),
    ensures
        ({
            let all = file_tokens(entry, facts);
            &&& def.parents@.contains(c) ==> all.contains(
                TokenView { range: c.span, kind: KindView::TypeClaim { name: authored(c) } },
            )
            &&& def.meta_blocks matches Some(blocks) ==> (0 <= k < blocks@.len() ==> all.contains(
                TokenView {
                    range: blocks@[k].claim.span,
                    kind: KindView::TypeClaim { name: authored(blocks@[k].claim) },
                },
            ))
            &&& def.sealed@.contains(c) ==> all.contains(
                TokenView { range: c.span, kind: KindView::TypeRef { name: c.name@ } },
            )
            &&& 0 <= k < def.fields@.len() ==> all.contains(
                TokenView {
                    range: def.fields@[k].shape_span,
                    kind: KindView::FieldShape {
                        field: def.fields@[k].name@,
                        declared: opt_jv(facts.declared@[k].served),
                    },
                },
            )
            &&& 0 <= k < def.fields@.len() && 0 <= p < facts.declared@[k].parts@.len()
                && def.fields@[k].shape_span.start + bytes_in(def.fields@[k].raw_shape@)
                == def.fields@[k].shape_span.end ==> all.contains(
                part_token(def.fields@[k], facts.declared@[k].parts@[p]),
            )
        }),
{
    let a = claim_tokens(def.parents@);
    let b = meta_tokens(def);
    let d = sealed_tokens(def.sealed@);
    let f = field_defs_tokens(def.fields@, facts.declared@, def.fields@.len() as int);
    let claim = TokenView { range: c.span, kind: KindView::TypeClaim { name: authored(c) } };
    if def.parents@.contains(c) {
        let j = choose|j: int| 0 <= j < def.parents@.len() && def.parents@[j] == c;
        assert(a[j] == claim);
        lemma_in_concat(a, b, claim);
        lemma_in_concat(a + b, d, claim);
        lemma_in_concat(a + b + d, f, claim);
    }
    if let Some(blocks) = def.meta_blocks {
        if 0 <= k < blocks@.len() {
            let x = b[k];
            assert(b.contains(x));
            lemma_in_concat(a, b, x);
            lemma_in_concat(a + b, d, x);
            lemma_in_concat(a + b + d, f, x);
        }
    }
    if def.sealed@.contains(c) {
        let j = choose|j: int| 0 <= j < def.sealed@.len() && def.sealed@[j] == c;
        let x = d[j];
        assert(d.contains(x));
        lemma_in_concat(a + b, d, x);
        lemma_in_concat(a + b + d, f, x);
    }
    if 0 <= k < def.fields@.len() {
        let here = field_def_tokens(def.fields@[k], facts.declared@[k]);
        assert(here.contains(here[0]));
        lemma_field_defs(def.fields@, facts.declared@, def.fields@.len() as int, k, here[0]);
        lemma_in_concat(a + b + d, f, here[0]);
        if 0 <= p < facts.declared@[k].parts@.len() && def.fields@[k].shape_span.start + bytes_in(
            def.fields@[k].raw_shape@,
        ) == def.fields@[k].shape_span.end {
            assert(here[1 + p] == part_token(def.fields@[k], facts.declared@[k].parts@[p]));
            assert(here.contains(here[1 + p]));
            lemma_field_defs(
                def.fields@,
                facts.declared@,
                def.fields@.len() as int,
                k,
                here[1 + p],
            );
            lemma_in_concat(a + b + d, f, here[1 + p]);
        }
    }
}

proof fn lemma_field_defs(
    fields: Seq<FieldDef>,
    shapes: Seq<ParsedShape>,
    n: int,
    k: int,
    t: TokenView,
)
    requires
        0 <= k < n <= fields.len(),
        field_def_tokens(fields[k], shapes[k]).contains(t),
    ensures
        field_defs_tokens(fields, shapes, n).contains(t),
    decreases n,
{
    if k < n - 1 {
        lemma_field_defs(fields, shapes, n - 1, k, t);
    }
    lemma_in_concat(
        field_defs_tokens(fields, shapes, n - 1),
        field_def_tokens(fields[n - 1], shapes[n - 1]),
        t,
    );
}

/// A part of a shape is told where it stands in the file, as what it is.
pub proof fn a_part_of_a_shape_is_told_as_what_it_is(f: FieldDef, part: ShapePart)
    ensures
        part_token(f, part).range.start == (part.range.start + f.shape_span.start) as usize,
        part_token(f, part).range.end == (part.range.end + f.shape_span.start) as usize,
        part.role == ShapeRole::TypeName ==> part_token(f, part).kind == (KindView::TypeRef {
            name: part.text@,
        }),
        part.role == ShapeRole::Builtin ==> part_token(f, part).kind == (KindView::ShapeBuiltin {
            name: part.text@,
        }),
        part.role == ShapeRole::EnumMember ==> part_token(f, part).kind == (KindView::EnumMember {
            value: part.text@,
        }),
{
}

proof fn lemma_mixed(
    facts: TokenFacts,
    source: Seq<char>,
    span: ByteRange,
    links: Seq<NavLink>,
    run: KindView,
    n: int,
    i: int,
    k: int,
)
    requires
        0 <= i < n <= links.len(),
        is_fact(facts.inner@, links[i].raw@, k),
    ensures
        mixed_tokens(facts, source, span, links, run, n).contains(
            link_token(source, links[i].span, facts.inner@[k]),
        ),
    decreases n,
{
    let t = link_token(source, links[i].span, facts.inner@[k]);
    let before = mixed_tokens(facts, source, span, links, run, n - 1);
    let now = mixed_tokens(facts, source, span, links, run, n);
    if i < n - 1 {
        lemma_mixed(facts, source, span, links, run, n - 1, i, k);
        let j = choose|j: int| 0 <= j < before.len() && before[j] == t;
        assert(now[j] == t);
    } else {
        lemma_link_from(facts.inner@, links[i].raw@, 0, k);
        assert(now[now.len() - 1] == t);
    }
}

/// A link inside a text is told as a link, where it stands.
pub proof fn every_link_inside_a_text_is_told(
    facts: TokenFacts,
    source: Seq<char>,
    text: String,
    span: ByteRange,
    links: Seq<NavLink>,
    field: Seq<char>,
    shape: Option<SlotShape>,
    i: int,
    k: int,
)
    requires
        0 <= i < links.len(),
        is_fact(facts.inner@, links[i].raw@, k),
        link_from(facts.whole@, text@, 0) is None,
    ensures
        value_tokens(facts, source, InstanceValue::Text(text), span, links, field, shape).contains(
            link_token(source, links[i].span, facts.inner@[k]),
        ),
{
    let run = crate::tokens::value_kind(field, shape, "String"@);
    let t = link_token(source, links[i].span, facts.inner@[k]);
    lemma_mixed(facts, source, span, links, run, links.len() as int, i, k);
    let all = mixed_tokens(facts, source, span, links, run, links.len() as int);
    let j = choose|j: int| 0 <= j < all.len() && all[j] == t;
    let now = crate::tokens::mixed(facts, source, span, links, run);
    assert(now[j] == t);
}

/// A value that is absent has no token, a block of an untyped file none but that of its id,
/// and the fields of a file that is no instance have none.
pub proof fn what_says_nothing_is_not_told(
    facts: TokenFacts,
    source: Seq<char>,
    span: ByteRange,
    links: Seq<NavLink>,
    field: Seq<char>,
    slot: Option<SlotShape>,
    shape: Option<Seq<SlotField>>,
    block: FencedBlock,
    offset: usize,
    entry: CatalogEntry,
    file: FileFacts,
)
    ensures
        value_tokens(facts, source, InstanceValue::Null, span, links, field, slot).len() == 0,
        value_tokens(
            facts,
            source,
            InstanceValue::NotYetSupported,
            span,
            links,
            field,
            slot,
        ).len() == 0,
        block.trailing_block_id is None ==> fence_tokens(
            facts,
            source,
            false,
            shape,
            block,
            offset,
        ).len() == 0,
        fence_tokens(facts, source, false, shape, block, offset).len() <= 1,
        !(entry.parse matches FileParse::Instance(Some(_))) && !(entry.parse matches FileParse::TypeDef(
            Some(_),
        )) && entry.body is None ==> file_tokens(entry, file).len() == 0,
{
}

} // verus!
