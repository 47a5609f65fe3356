//! What is found in the fields of a file, at any depth.

use crate::ast::{ByteRange, InlineValue, InstanceField, InstanceValue, NavLink, SequenceElement};
use crate::records::{
    element_links, element_texts_at, elements_with_id, enclosing, enclosing_elements,
    enclosing_fields, field_links, field_texts_at, fields_with_id, links_at, texts_at, value_links,
    with_id,
};
use crate::text::opt_view;
use vstd::prelude::*;

verus! {

/// Whether a value stands in another, or is it, with the range and the links that are
/// written with it.
pub open spec fn stands_in(
    v: InstanceValue,
    span: ByteRange,
    links: Vec<NavLink>,
    w: InstanceValue,
    at: ByteRange,
    with: Vec<NavLink>,
) -> bool
    decreases v,
{
    ||| (v == w && span == at && links == with)
    ||| match v {
        InstanceValue::Mapping(inline) => exists|k: int|
            0 <= k < inline.fields.len() && stands_in(
                (#[trigger] inline.fields[k]).value,
                inline.fields[k].value_span,
                inline.fields[k].nav_links,
                w,
                at,
                with,
            ),
        InstanceValue::Sequence(elems) => exists|k: int|
            0 <= k < elems.len() && stands_in(
                (#[trigger] elems[k]).value,
                elems[k].span,
                elems[k].nav_links,
                w,
                at,
                with,
            ),
        _ => false,
    }
}

/// Whether a value stands among fields, at any depth.
pub open spec fn stands_among(
    fields: Vec<InstanceField>,
    w: InstanceValue,
    at: ByteRange,
    with: Vec<NavLink>,
) -> bool {
    exists|k: int|
        0 <= k < fields.len() && stands_in(
            (#[trigger] fields[k]).value,
            fields[k].value_span,
            fields[k].nav_links,
            w,
            at,
            with,
        )
}

/// Whether a value stands in another and every value on the way to it, itself included,
/// holds an offset.
pub open spec fn reached(
    v: InstanceValue,
    span: ByteRange,
    w: InstanceValue,
    at: ByteRange,
    offset: int,
) -> bool
    decreases v,
{
    span.start <= offset && offset < span.end && {
        ||| (v == w && span == at)
        ||| match v {
            InstanceValue::Mapping(inline) => exists|k: int|
                0 <= k < inline.fields.len() && reached(
                    (#[trigger] inline.fields[k]).value,
                    inline.fields[k].value_span,
                    w,
                    at,
                    offset,
                ),
            InstanceValue::Sequence(elems) => exists|k: int|
                0 <= k < elems.len() && reached(
                    (#[trigger] elems[k]).value,
                    elems[k].span,
                    w,
                    at,
                    offset,
                ),
            _ => false,
        }
    }
}

/// Whether a value stands among fields and every value on the way to it holds an offset.
pub open spec fn reached_among(
    fields: Vec<InstanceField>,
    w: InstanceValue,
    at: ByteRange,
    offset: int,
) -> bool {
    exists|k: int|
        0 <= k < fields.len() && reached(
            (#[trigger] fields[k]).value,
            fields[k].value_span,
            w,
            at,
            offset,
        )
}

proof fn lemma_in_concat<A>(a: Seq<A>, b: Seq<A>, x: A)
    ensures
        (a + b).contains(x) <==> a.contains(x) || b.contains(x),
{
    if a.contains(x) {
        let k = choose|k: int| 0 <= k < a.len() && a[k] == x;
        assert((a + b)[k] == x);
    }
    if b.contains(x) {
        let k = choose|k: int| 0 <= k < b.len() && b[k] == x;
        assert((a + b)[a.len() + k] == x);
    }
    if (a + b).contains(x) {
        let k = choose|k: int| 0 <= k < (a + b).len() && (a + b)[k] == x;
        if k < a.len() {
            assert(a[k] == x);
        } else {
            assert(b[k - a.len()] == x);
        }
    }
}

// Records by id.

proof fn lemma_id_fields(fields: Vec<InstanceField>, id: Seq<char>, n: int, s: ByteRange)
    requires
        0 <= n <= fields.len(),
    ensures
        fields_with_id(fields, id, n).contains(s) <==> exists|k: int|
            0 <= k < n && with_id((#[trigger] fields[k]).value, fields[k].value_span, id).contains(s),
    decreases n,
{
    if n > 0 {
        lemma_id_fields(fields, id, n - 1, s);
        lemma_in_concat(
            fields_with_id(fields, id, n - 1),
            with_id(fields[n - 1].value, fields[n - 1].value_span, id),
            s,
        );
    }
}

proof fn lemma_id_elements(elems: Vec<SequenceElement>, id: Seq<char>, n: int, s: ByteRange)
    requires
        0 <= n <= elems.len(),
    ensures
        elements_with_id(elems, id, n).contains(s) <==> exists|k: int|
            0 <= k < n && with_id((#[trigger] elems[k]).value, elems[k].span, id).contains(s),
    decreases n,
{
    if n > 0 {
        lemma_id_elements(elems, id, n - 1, s);
        lemma_in_concat(
            elements_with_id(elems, id, n - 1),
            with_id(elems[n - 1].value, elems[n - 1].span, id),
            s,
        );
    }
}

proof fn lemma_id_found(
    v: InstanceValue,
    span: ByteRange,
    links: Vec<NavLink>,
    x: InlineValue,
    at: ByteRange,
    with: Vec<NavLink>,
    id: Seq<char>,
)
    requires
        stands_in(v, span, links, InstanceValue::Mapping(x), at, with),
        opt_view(x.block_id) == Some(id),
    ensures
        with_id(v, span, id).contains(at),
    decreases v,
{
    match v {
        InstanceValue::Mapping(inline) => {
            let own = if opt_view(inline.block_id) == Some(id) {
                seq![span]
            } else {
                Seq::empty()
            };
            let rest = fields_with_id(inline.fields, id, inline.fields.len() as int);
            if v == InstanceValue::Mapping(x) && span == at && links == with {
                assert(seq![span][0] == at);
            } else {
                let k = choose|k: int|
                    0 <= k < inline.fields.len() && stands_in(
                        (#[trigger] inline.fields[k]).value,
                        inline.fields[k].value_span,
                        inline.fields[k].nav_links,
                        InstanceValue::Mapping(x),
                        at,
                        with,
                    );
                assert(decreases_to!(v => inline.fields));
                assert(decreases_to!(inline.fields => inline.fields[k]));
                lemma_id_found(
                    inline.fields[k].value,
                    inline.fields[k].value_span,
                    inline.fields[k].nav_links,
                    x,
                    at,
                    with,
                    id,
                );
                lemma_id_fields(inline.fields, id, inline.fields.len() as int, at);
            }
            lemma_in_concat(own, rest, at);
        },
        InstanceValue::Sequence(elems) => {
            let k = choose|k: int|
                0 <= k < elems.len() && stands_in(
                    (#[trigger] elems[k]).value,
                    elems[k].span,
                    elems[k].nav_links,
                    InstanceValue::Mapping(x),
                    at,
                    with,
                );
            assert(decreases_to!(v => elems));
            assert(decreases_to!(elems => elems[k]));
            lemma_id_found(elems[k].value, elems[k].span, elems[k].nav_links, x, at, with, id);
            lemma_id_elements(elems, id, elems.len() as int, at);
        },
        _ => {},
    }
}

proof fn lemma_id_stands(
    v: InstanceValue,
    span: ByteRange,
    links: Vec<NavLink>,
    at: ByteRange,
    id: Seq<char>,
) -> (r: (InlineValue, Vec<NavLink>))
    requires
        with_id(v, span, id).contains(at),
    ensures
        stands_in(v, span, links, InstanceValue::Mapping(r.0), at, r.1),
        opt_view(r.0.block_id) == Some(id),
    decreases v,
{
    match v {
        InstanceValue::Mapping(inline) => {
            let own = if opt_view(inline.block_id) == Some(id) {
                seq![span]
            } else {
                Seq::empty()
            };
            let rest = fields_with_id(inline.fields, id, inline.fields.len() as int);
            lemma_in_concat(own, rest, at);
            if own.contains(at) {
                (inline, links)
            } else {
                lemma_id_fields(inline.fields, id, inline.fields.len() as int, at);
                let k = choose|k: int|
                    0 <= k < inline.fields.len() && with_id(
                        (#[trigger] inline.fields[k]).value,
                        inline.fields[k].value_span,
                        id,
                    ).contains(at);
                assert(decreases_to!(v => inline.fields));
                assert(decreases_to!(inline.fields => inline.fields[k]));
                lemma_id_stands(
                    inline.fields[k].value,
                    inline.fields[k].value_span,
                    inline.fields[k].nav_links,
                    at,
                    id,
                )
            }
        },
        InstanceValue::Sequence(elems) => {
            lemma_id_elements(elems, id, elems.len() as int, at);
            let k = choose|k: int|
                0 <= k < elems.len() && with_id(
                    (#[trigger] elems[k]).value,
                    elems[k].span,
                    id,
                ).contains(at);
            assert(decreases_to!(v => elems));
            assert(decreases_to!(elems => elems[k]));
            lemma_id_stands(elems[k].value, elems[k].span, elems[k].nav_links, at, id)
        },
        _ => { (arbitrary(), links) },
    }
}

/// A record that carries an id is found by it, however deep it stands.
pub proof fn a_record_is_found_by_its_id(
    fields: Vec<InstanceField>,
    x: InlineValue,
    at: ByteRange,
    with: Vec<NavLink>,
    id: Seq<char>,
)
    requires
        stands_among(fields, InstanceValue::Mapping(x), at, with),
        opt_view(x.block_id) == Some(id),
    ensures
        fields_with_id(fields, id, fields.len() as int).contains(at),
{
    let k = choose|k: int|
        0 <= k < fields.len() && stands_in(
            (#[trigger] fields[k]).value,
            fields[k].value_span,
            fields[k].nav_links,
            InstanceValue::Mapping(x),
            at,
            with,
        );
    lemma_id_found(
        fields[k].value,
        fields[k].value_span,
        fields[k].nav_links,
        x,
        at,
        with,
        id,
    );
    lemma_id_fields(fields, id, fields.len() as int, at);
}

/// What is found by an id is a record that carries it.
pub proof fn what_is_found_carries_the_id(
    fields: Vec<InstanceField>,
    at: ByteRange,
    id: Seq<char>,
)
    requires
        fields_with_id(fields, id, fields.len() as int).contains(at),
    ensures
        exists|x: InlineValue, with: Vec<NavLink>|
            #![trigger stands_among(fields, InstanceValue::Mapping(x), at, with)]
            stands_among(fields, InstanceValue::Mapping(x), at, with) && opt_view(x.block_id)
                == Some(id),
{
    lemma_id_fields(fields, id, fields.len() as int, at);
    let k = choose|k: int|
        0 <= k < fields.len() && with_id(
            (#[trigger] fields[k]).value,
            fields[k].value_span,
            id,
        ).contains(at);
    let (x, with) = lemma_id_stands(
        fields[k].value,
        fields[k].value_span,
        fields[k].nav_links,
        at,
        id,
    );
    assert(stands_among(fields, InstanceValue::Mapping(x), at, with));
}

// Texts at an offset.

proof fn lemma_text_fields(fields: Vec<InstanceField>, offset: int, n: int, s: ByteRange)
    requires
        0 <= n <= fields.len(),
    ensures
        field_texts_at(fields, offset, n).contains(s) <==> exists|k: int|
            0 <= k < n && texts_at((#[trigger] fields[k]).value, fields[k].value_span, offset).contains(
                s,
            ),
    decreases n,
{
    if n > 0 {
        lemma_text_fields(fields, offset, n - 1, s);
        lemma_in_concat(
            field_texts_at(fields, offset, n - 1),
            texts_at(fields[n - 1].value, fields[n - 1].value_span, offset),
            s,
        );
    }
}

proof fn lemma_text_elements(elems: Vec<SequenceElement>, offset: int, n: int, s: ByteRange)
    requires
        0 <= n <= elems.len(),
    ensures
        element_texts_at(elems, offset, n).contains(s) <==> exists|k: int|
            0 <= k < n && texts_at((#[trigger] elems[k]).value, elems[k].span, offset).contains(s),
    decreases n,
{
    if n > 0 {
        lemma_text_elements(elems, offset, n - 1, s);
        lemma_in_concat(
            element_texts_at(elems, offset, n - 1),
            texts_at(elems[n - 1].value, elems[n - 1].span, offset),
            s,
        );
    }
}

proof fn lemma_text_found(
    v: InstanceValue,
    span: ByteRange,
    w: InstanceValue,
    at: ByteRange,
    offset: int,
)
    requires
        reached(v, span, w, at, offset),
        w is Text,
    ensures
        texts_at(v, span, offset).contains(at),
    decreases v,
{
    match v {
        InstanceValue::Mapping(inline) => {
            let k = choose|k: int|
                0 <= k < inline.fields.len() && reached(
                    (#[trigger] inline.fields[k]).value,
                    inline.fields[k].value_span,
                    w,
                    at,
                    offset,
                );
            assert(decreases_to!(v => inline.fields));
            assert(decreases_to!(inline.fields => inline.fields[k]));
            lemma_text_found(inline.fields[k].value, inline.fields[k].value_span, w, at, offset);
            lemma_text_fields(inline.fields, offset, inline.fields.len() as int, at);
        },
        InstanceValue::Sequence(elems) => {
            let k = choose|k: int|
                0 <= k < elems.len() && reached(
                    (#[trigger] elems[k]).value,
                    elems[k].span,
                    w,
                    at,
                    offset,
                );
            assert(decreases_to!(v => elems));
            assert(decreases_to!(elems => elems[k]));
            lemma_text_found(elems[k].value, elems[k].span, w, at, offset);
            lemma_text_elements(elems, offset, elems.len() as int, at);
        },
        _ => {
            assert(seq![span][0] == at);
        },
    }
}

proof fn lemma_text_reached(v: InstanceValue, span: ByteRange, at: ByteRange, offset: int) -> (w:
    InstanceValue)
    requires
        texts_at(v, span, offset).contains(at),
    ensures
        reached(v, span, w, at, offset),
        w is Text,
    decreases v,
{
    match v {
        InstanceValue::Mapping(inline) => {
            lemma_text_fields(inline.fields, offset, inline.fields.len() as int, at);
            let k = choose|k: int|
                0 <= k < inline.fields.len() && texts_at(
                    (#[trigger] inline.fields[k]).value,
                    inline.fields[k].value_span,
                    offset,
                ).contains(at);
            assert(decreases_to!(v => inline.fields));
            assert(decreases_to!(inline.fields => inline.fields[k]));
            lemma_text_reached(inline.fields[k].value, inline.fields[k].value_span, at, offset)
        },
        InstanceValue::Sequence(elems) => {
            lemma_text_elements(elems, offset, elems.len() as int, at);
            let k = choose|k: int|
                0 <= k < elems.len() && texts_at(
                    (#[trigger] elems[k]).value,
                    elems[k].span,
                    offset,
                ).contains(at);
            assert(decreases_to!(v => elems));
            assert(decreases_to!(elems => elems[k]));
            lemma_text_reached(elems[k].value, elems[k].span, at, offset)
        },
        _ => v,
    }
}

/// The texts at an offset are the text values there, at any depth, and nothing else.
pub proof fn every_text_at_an_offset_is_found(
    fields: Vec<InstanceField>,
    at: ByteRange,
    offset: int,
)
    ensures
        field_texts_at(fields, offset, fields.len() as int).contains(at) <==> exists|
            w: InstanceValue,
        | #[trigger]
            reached_among(fields, w, at, offset) && w is Text,
{
    let n = fields.len() as int;
    lemma_text_fields(fields, offset, n, at);
    if field_texts_at(fields, offset, n).contains(at) {
        let k = choose|k: int|
            0 <= k < fields.len() && texts_at(
                (#[trigger] fields[k]).value,
                fields[k].value_span,
                offset,
            ).contains(at);
        let w = lemma_text_reached(fields[k].value, fields[k].value_span, at, offset);
        assert(reached_among(fields, w, at, offset));
    }
    if exists|w: InstanceValue| #[trigger] reached_among(fields, w, at, offset) && w is Text {
        let w = choose|w: InstanceValue| #[trigger]
            reached_among(fields, w, at, offset) && w is Text;
        let k = choose|k: int|
            0 <= k < fields.len() && reached(
                (#[trigger] fields[k]).value,
                fields[k].value_span,
                w,
                at,
                offset,
            );
        lemma_text_found(fields[k].value, fields[k].value_span, w, at, offset);
    }
}

// Records round an offset.

proof fn lemma_hit_fields(
    fields: Vec<InstanceField>,
    offset: int,
    n: int,
    h: (ByteRange, Option<Seq<char>>),
)
    requires
        0 <= n <= fields.len(),
    ensures
        enclosing_fields(fields, offset, n).contains(h) <==> exists|k: int|
            0 <= k < n && enclosing((#[trigger] fields[k]).value, fields[k].value_span, offset).contains(
                h,
            ),
    decreases n,
{
    if n > 0 {
        lemma_hit_fields(fields, offset, n - 1, h);
        lemma_in_concat(
            enclosing_fields(fields, offset, n - 1),
            enclosing(fields[n - 1].value, fields[n - 1].value_span, offset),
            h,
        );
    }
}

proof fn lemma_hit_elements(
    elems: Vec<SequenceElement>,
    offset: int,
    n: int,
    h: (ByteRange, Option<Seq<char>>),
)
    requires
        0 <= n <= elems.len(),
    ensures
        enclosing_elements(elems, offset, n).contains(h) <==> exists|k: int|
            0 <= k < n && enclosing((#[trigger] elems[k]).value, elems[k].span, offset).contains(h),
    decreases n,
{
    if n > 0 {
        lemma_hit_elements(elems, offset, n - 1, h);
        lemma_in_concat(
            enclosing_elements(elems, offset, n - 1),
            enclosing(elems[n - 1].value, elems[n - 1].span, offset),
            h,
        );
    }
}

proof fn lemma_hit_found(
    v: InstanceValue,
    span: ByteRange,
    x: InlineValue,
    at: ByteRange,
    offset: int,
)
    requires
        reached(v, span, InstanceValue::Mapping(x), at, offset),
    ensures
        enclosing(v, span, offset).contains((at, opt_view(x.block_id))),
    decreases v,
{
    let h = (at, opt_view(x.block_id));
    let w = InstanceValue::Mapping(x);
    match v {
        InstanceValue::Mapping(inline) => {
            let own = seq![(span, opt_view(inline.block_id))];
            let rest = enclosing_fields(inline.fields, offset, inline.fields.len() as int);
            if v == w && span == at {
                assert(own[0] == h);
            } else {
                let k = choose|k: int|
                    0 <= k < inline.fields.len() && reached(
                        (#[trigger] inline.fields[k]).value,
                        inline.fields[k].value_span,
                        w,
                        at,
                        offset,
                    );
                assert(decreases_to!(v => inline.fields));
                assert(decreases_to!(inline.fields => inline.fields[k]));
                lemma_hit_found(inline.fields[k].value, inline.fields[k].value_span, x, at, offset);
                lemma_hit_fields(inline.fields, offset, inline.fields.len() as int, h);
            }
            lemma_in_concat(own, rest, h);
        },
        InstanceValue::Sequence(elems) => {
            let k = choose|k: int|
                0 <= k < elems.len() && reached(
                    (#[trigger] elems[k]).value,
                    elems[k].span,
                    w,
                    at,
                    offset,
                );
            assert(decreases_to!(v => elems));
            assert(decreases_to!(elems => elems[k]));
            lemma_hit_found(elems[k].value, elems[k].span, x, at, offset);
            lemma_hit_elements(elems, offset, elems.len() as int, h);
        },
        _ => {},
    }
}

/// The last of the records round an offset, and that none stands round it inside.
proof fn lemma_innermost(v: InstanceValue, span: ByteRange, offset: int) -> (x: InlineValue)
    requires
        enclosing(v, span, offset).len() > 0,
    ensures
        ({
            let h = enclosing(v, span, offset).last();
            &&& reached(v, span, InstanceValue::Mapping(x), h.0, offset)
            &&& h.1 == opt_view(x.block_id)
            &&& enclosing_fields(x.fields, offset, x.fields.len() as int).len() == 0
        }),
    decreases v,
{
    match v {
        InstanceValue::Mapping(inline) => {
            let rest = enclosing_fields(inline.fields, offset, inline.fields.len() as int);
            if rest.len() == 0 {
                inline
            } else {
                lemma_last_field(inline.fields, offset, inline.fields.len() as int);
                let k = choose|k: int|
                    0 <= k < inline.fields.len() && enclosing(
                        (#[trigger] inline.fields[k]).value,
                        inline.fields[k].value_span,
                        offset,
                    ).len() > 0 && enclosing(
                        inline.fields[k].value,
                        inline.fields[k].value_span,
                        offset,
                    ).last() == rest.last();
                assert(decreases_to!(v => inline.fields));
                assert(decreases_to!(inline.fields => inline.fields[k]));
                lemma_innermost(inline.fields[k].value, inline.fields[k].value_span, offset)
            }
        },
        InstanceValue::Sequence(elems) => {
            let rest = enclosing_elements(elems, offset, elems.len() as int);
            lemma_last_element(elems, offset, elems.len() as int);
            let k = choose|k: int|
                0 <= k < elems.len() && enclosing(
                    (#[trigger] elems[k]).value,
                    elems[k].span,
                    offset,
                ).len() > 0 && enclosing(elems[k].value, elems[k].span, offset).last()
                    == rest.last();
            assert(decreases_to!(v => elems));
            assert(decreases_to!(elems => elems[k]));
            lemma_innermost(elems[k].value, elems[k].span, offset)
        },
        _ => arbitrary(),
    }
}

proof fn lemma_last_field(fields: Vec<InstanceField>, offset: int, n: int)
    requires
        0 <= n <= fields.len(),
        enclosing_fields(fields, offset, n).len() > 0,
    ensures
        exists|k: int|
            0 <= k < n && enclosing(
                (#[trigger] fields[k]).value,
                fields[k].value_span,
                offset,
            ).len() > 0 && enclosing(fields[k].value, fields[k].value_span, offset).last()
                == enclosing_fields(fields, offset, n).last(),
    decreases n,
{
    let here = enclosing(fields[n - 1].value, fields[n - 1].value_span, offset);
    let before = enclosing_fields(fields, offset, n - 1);
    if here.len() == 0 {
        assert(before + here =~= before);
        lemma_last_field(fields, offset, n - 1);
    } else {
        assert((before + here).last() == here.last());
        assert(fields[n - 1].value_span == fields[n - 1].value_span);
    }
}

proof fn lemma_last_element(elems: Vec<SequenceElement>, offset: int, n: int)
    requires
        0 <= n <= elems.len(),
        enclosing_elements(elems, offset, n).len() > 0,
    ensures
        exists|k: int|
            0 <= k < n && enclosing((#[trigger] elems[k]).value, elems[k].span, offset).len() > 0
                && enclosing(elems[k].value, elems[k].span, offset).last() == enclosing_elements(
                elems,
                offset,
                n,
            ).last(),
    decreases n,
{
    let here = enclosing(elems[n - 1].value, elems[n - 1].span, offset);
    let before = enclosing_elements(elems, offset, n - 1);
    if here.len() == 0 {
        assert(before + here =~= before);
        lemma_last_element(elems, offset, n - 1);
    } else {
        assert((before + here).last() == here.last());
    }
}

/// The record found at an offset is one that the offset stands in, with its id, and no
/// record inside it holds the offset.
pub proof fn the_innermost_record_is_found(fields: Vec<InstanceField>, offset: int)
    requires
        enclosing_fields(fields, offset, fields.len() as int).len() > 0,
    ensures
        exists|x: InlineValue|
            #![trigger x.fields]
            ({
                let h = enclosing_fields(fields, offset, fields.len() as int).last();
                &&& reached_among(fields, InstanceValue::Mapping(x), h.0, offset)
                &&& h.1 == opt_view(x.block_id)
                &&& forall|y: InlineValue, at: ByteRange|
                    #![trigger reached_among(x.fields, InstanceValue::Mapping(y), at, offset)]
                    !reached_among(x.fields, InstanceValue::Mapping(y), at, offset)
            }),
{
    let n = fields.len() as int;
    lemma_last_field(fields, offset, n);
    let last = enclosing_fields(fields, offset, n).last();
    let k = choose|k: int|
        0 <= k < n && enclosing(
            (#[trigger] fields[k]).value,
            fields[k].value_span,
            offset,
        ).len() > 0 && enclosing(fields[k].value, fields[k].value_span, offset).last() == last;
    let x = lemma_innermost(fields[k].value, fields[k].value_span, offset);
    assert(reached_among(fields, InstanceValue::Mapping(x), last.0, offset));
    assert forall|y: InlineValue, at: ByteRange|
        #![trigger reached_among(x.fields, InstanceValue::Mapping(y), at, offset)]
        !reached_among(x.fields, InstanceValue::Mapping(y), at, offset) by {
        if reached_among(x.fields, InstanceValue::Mapping(y), at, offset) {
            a_record_round_an_offset_is_found(x.fields, y, at, offset);
        }
    }
    assert(x.fields == x.fields);
}

/// A record that an offset stands in, with every value on the way to it, is among those
/// found there.
pub proof fn a_record_round_an_offset_is_found(
    fields: Vec<InstanceField>,
    x: InlineValue,
    at: ByteRange,
    offset: int,
)
    requires
        reached_among(fields, InstanceValue::Mapping(x), at, offset),
    ensures
        enclosing_fields(fields, offset, fields.len() as int).contains((at, opt_view(x.block_id))),
{
    let k = choose|k: int|
        0 <= k < fields.len() && reached(
            (#[trigger] fields[k]).value,
            fields[k].value_span,
            InstanceValue::Mapping(x),
            at,
            offset,
        );
    lemma_hit_found(fields[k].value, fields[k].value_span, x, at, offset);
    lemma_hit_fields(fields, offset, fields.len() as int, (at, opt_view(x.block_id)));
}

// Links.

proof fn lemma_links(links: Seq<NavLink>, span: ByteRange, n: int, raw: Seq<char>)
    requires
        0 <= n <= links.len(),
    ensures
        links_at(links, span, n).contains(raw) <==> exists|k: int|
            0 <= k < n && (#[trigger] links[k]).span == span && links[k].raw@ == raw,
    decreases n,
{
    if n > 0 {
        lemma_links(links, span, n - 1, raw);
        let before = links_at(links, span, n - 1);
        if links[n - 1].span == span {
            assert(before.push(links[n - 1].raw@) =~= before + seq![links[n - 1].raw@]);
            lemma_in_concat(before, seq![links[n - 1].raw@], raw);
            assert(seq![links[n - 1].raw@][0] == links[n - 1].raw@);
        }
    }
}

proof fn lemma_link_fields(fields: Vec<InstanceField>, span: ByteRange, n: int, raw: Seq<char>)
    requires
        0 <= n <= fields.len(),
    ensures
        field_links(fields, span, n).contains(raw) <==> exists|k: int|
            0 <= k < n && value_links(
                (#[trigger] fields[k]).value,
                fields[k].nav_links@,
                span,
            ).contains(raw),
    decreases n,
{
    if n > 0 {
        lemma_link_fields(fields, span, n - 1, raw);
        lemma_in_concat(
            field_links(fields, span, n - 1),
            value_links(fields[n - 1].value, fields[n - 1].nav_links@, span),
            raw,
        );
    }
}

proof fn lemma_link_elements(elems: Vec<SequenceElement>, span: ByteRange, n: int, raw: Seq<char>)
    requires
        0 <= n <= elems.len(),
    ensures
        element_links(elems, span, n).contains(raw) <==> exists|k: int|
            0 <= k < n && value_links(
                (#[trigger] elems[k]).value,
                elems[k].nav_links@,
                span,
            ).contains(raw),
    decreases n,
{
    if n > 0 {
        lemma_link_elements(elems, span, n - 1, raw);
        lemma_in_concat(
            element_links(elems, span, n - 1),
            value_links(elems[n - 1].value, elems[n - 1].nav_links@, span),
            raw,
        );
    }
}

proof fn lemma_link_found(
    v: InstanceValue,
    vspan: ByteRange,
    own: Vec<NavLink>,
    w: InstanceValue,
    at: ByteRange,
    with: Vec<NavLink>,
    link: NavLink,
)
    requires
        stands_in(v, vspan, own, w, at, with),
        with@.contains(link),
    ensures
        value_links(v, own@, link.span).contains(link.raw@),
    decreases v,
{
    let mine = links_at(own@, link.span, own@.len() as int);
    lemma_links(own@, link.span, own@.len() as int, link.raw@);
    if v == w && vspan == at && own == with {
        let k = choose|k: int| 0 <= k < own@.len() && own@[k] == link;
        assert(own@[k].span == link.span);
        assert(mine.contains(link.raw@));
    }
    match v {
        InstanceValue::Mapping(inline) => {
            let rest = field_links(inline.fields, link.span, inline.fields.len() as int);
            if !(v == w && vspan == at && own == with) {
                let k = choose|k: int|
                    0 <= k < inline.fields.len() && stands_in(
                        (#[trigger] inline.fields[k]).value,
                        inline.fields[k].value_span,
                        inline.fields[k].nav_links,
                        w,
                        at,
                        with,
                    );
                assert(decreases_to!(v => inline.fields));
                assert(decreases_to!(inline.fields => inline.fields[k]));
                lemma_link_found(
                    inline.fields[k].value,
                    inline.fields[k].value_span,
                    inline.fields[k].nav_links,
                    w,
                    at,
                    with,
                    link,
                );
                lemma_link_fields(
                    inline.fields,
                    link.span,
                    inline.fields.len() as int,
                    link.raw@,
                );
            }
            lemma_in_concat(mine, rest, link.raw@);
        },
        InstanceValue::Sequence(elems) => {
            let rest = element_links(elems, link.span, elems.len() as int);
            if !(v == w && vspan == at && own == with) {
                let k = choose|k: int|
                    0 <= k < elems.len() && stands_in(
                        (#[trigger] elems[k]).value,
                        elems[k].span,
                        elems[k].nav_links,
                        w,
                        at,
                        with,
                    );
                assert(decreases_to!(v => elems));
                assert(decreases_to!(elems => elems[k]));
                lemma_link_found(
                    elems[k].value,
                    elems[k].span,
                    elems[k].nav_links,
                    w,
                    at,
                    with,
                    link,
                );
                lemma_link_elements(elems, link.span, elems.len() as int, link.raw@);
            }
            lemma_in_concat(mine, rest, link.raw@);
        },
        _ => {
            lemma_in_concat(mine, Seq::<Seq<char>>::empty(), link.raw@);
        },
    }
}

proof fn lemma_link_stands(
    v: InstanceValue,
    vspan: ByteRange,
    own: Vec<NavLink>,
    span: ByteRange,
    raw: Seq<char>,
) -> (r: (InstanceValue, ByteRange, Vec<NavLink>))
    requires
        value_links(v, own@, span).contains(raw),
    ensures
        stands_in(v, vspan, own, r.0, r.1, r.2),
        exists|k: int|
            0 <= k < r.2@.len() && (#[trigger] r.2@[k]).span == span && r.2@[k].raw@ == raw,
    decreases v,
{
    let mine = links_at(own@, span, own@.len() as int);
    lemma_links(own@, span, own@.len() as int, raw);
    if mine.contains(raw) {
        (v, vspan, own)
    } else {
        match v {
            InstanceValue::Mapping(inline) => {
                let rest = field_links(inline.fields, span, inline.fields.len() as int);
                lemma_in_concat(mine, rest, raw);
                lemma_link_fields(inline.fields, span, inline.fields.len() as int, raw);
                let k = choose|k: int|
                    0 <= k < inline.fields.len() && value_links(
                        (#[trigger] inline.fields[k]).value,
                        inline.fields[k].nav_links@,
                        span,
                    ).contains(raw);
                assert(decreases_to!(v => inline.fields));
                assert(decreases_to!(inline.fields => inline.fields[k]));
                lemma_link_stands(
                    inline.fields[k].value,
                    inline.fields[k].value_span,
                    inline.fields[k].nav_links,
                    span,
                    raw,
                )
            },
            InstanceValue::Sequence(elems) => {
                let rest = element_links(elems, span, elems.len() as int);
                lemma_in_concat(mine, rest, raw);
                lemma_link_elements(elems, span, elems.len() as int, raw);
                let k = choose|k: int|
                    0 <= k < elems.len() && value_links(
                        (#[trigger] elems[k]).value,
                        elems[k].nav_links@,
                        span,
                    ).contains(raw);
                assert(decreases_to!(v => elems));
                assert(decreases_to!(elems => elems[k]));
                lemma_link_stands(elems[k].value, elems[k].span, elems[k].nav_links, span, raw)
            },
            _ => {
                lemma_in_concat(mine, Seq::<Seq<char>>::empty(), raw);
                (v, vspan, own)
            },
        }
    }
}

/// A link written with a value among the fields, at any depth, is found by its range.
pub proof fn a_link_is_found_by_its_range(
    fields: Vec<InstanceField>,
    w: InstanceValue,
    at: ByteRange,
    with: Vec<NavLink>,
    link: NavLink,
)
    requires
        stands_among(fields, w, at, with),
        with@.contains(link),
    ensures
        field_links(fields, link.span, fields.len() as int).contains(link.raw@),
{
    let k = choose|k: int|
        0 <= k < fields.len() && stands_in(
            (#[trigger] fields[k]).value,
            fields[k].value_span,
            fields[k].nav_links,
            w,
            at,
            with,
        );
    lemma_link_found(
        fields[k].value,
        fields[k].value_span,
        fields[k].nav_links,
        w,
        at,
        with,
        link,
    );
    lemma_link_fields(fields, link.span, fields.len() as int, link.raw@);
}

/// What is found by a range is the text of a link with that range, written with a value
/// among the fields.
pub proof fn what_is_found_by_a_range_is_a_link(
    fields: Vec<InstanceField>,
    span: ByteRange,
    raw: Seq<char>,
)
    requires
        field_links(fields, span, fields.len() as int).contains(raw),
    ensures
        exists|w: InstanceValue, at: ByteRange, with: Vec<NavLink>, k: int|
            #![trigger stands_among(fields, w, at, with), with@[k]]
            stands_among(fields, w, at, with) && 0 <= k < with@.len() && with@[k].span == span
                && with@[k].raw@ == raw,
{
    lemma_link_fields(fields, span, fields.len() as int, raw);
    let i = choose|k: int|
        0 <= k < fields.len() && value_links(
            (#[trigger] fields[k]).value,
            fields[k].nav_links@,
            span,
        ).contains(raw);
    let (w, at, with) = lemma_link_stands(
        fields[i].value,
        fields[i].value_span,
        fields[i].nav_links,
        span,
        raw,
    );
    assert(stands_among(fields, w, at, with));
    let k = choose|k: int|
        0 <= k < with@.len() && (#[trigger] with@[k]).span == span && with@[k].raw@ == raw;
    assert(with@[k].span == span);
}

/// Of several records with an id the one in the first field is found.
pub proof fn the_first_record_with_an_id_is_found(
    fields: Vec<InstanceField>,
    id: Seq<char>,
    n: int,
    k: int,
)
    requires
        0 <= k < n <= fields.len(),
        with_id(fields[k].value, fields[k].value_span, id).len() > 0,
        forall|j: int|
            #![trigger fields[j]]
            0 <= j < k ==> with_id(fields[j].value, fields[j].value_span, id).len() == 0,
    ensures
        fields_with_id(fields, id, n).len() > 0,
        fields_with_id(fields, id, n)[0] == with_id(fields[k].value, fields[k].value_span, id)[0],
    decreases n,
{
    if k < n - 1 {
        the_first_record_with_an_id_is_found(fields, id, n - 1, k);
    } else {
        lemma_none_the_first_record_with_an_id_is_found(fields, id, n - 1);
    }
}

proof fn lemma_none_the_first_record_with_an_id_is_found(fields: Vec<InstanceField>, id: Seq<char>, n: int)
    requires
        0 <= n <= fields.len(),
        forall|j: int|
            #![trigger fields[j]]
            0 <= j < n ==> with_id(fields[j].value, fields[j].value_span, id).len() == 0,
    ensures
        fields_with_id(fields, id, n).len() == 0,
    decreases n,
{
    if n > 0 {
        let here = fields[n - 1];
        lemma_none_the_first_record_with_an_id_is_found(fields, id, n - 1);
    }
}

/// Of several texts at an offset the one in the first field is found.
pub proof fn the_first_text_at_an_offset_is_found(
    fields: Vec<InstanceField>,
    offset: int,
    n: int,
    k: int,
)
    requires
        0 <= k < n <= fields.len(),
        texts_at(fields[k].value, fields[k].value_span, offset).len() > 0,
        forall|j: int|
            #![trigger fields[j]]
            0 <= j < k ==> texts_at(fields[j].value, fields[j].value_span, offset).len() == 0,
    ensures
        field_texts_at(fields, offset, n).len() > 0,
        field_texts_at(fields, offset, n)[0] == texts_at(fields[k].value, fields[k].value_span, offset)[0],
    decreases n,
{
    if k < n - 1 {
        the_first_text_at_an_offset_is_found(fields, offset, n - 1, k);
    } else {
        lemma_none_the_first_text_at_an_offset_is_found(fields, offset, n - 1);
    }
}

proof fn lemma_none_the_first_text_at_an_offset_is_found(fields: Vec<InstanceField>, offset: int, n: int)
    requires
        0 <= n <= fields.len(),
        forall|j: int|
            #![trigger fields[j]]
            0 <= j < n ==> texts_at(fields[j].value, fields[j].value_span, offset).len() == 0,
    ensures
        field_texts_at(fields, offset, n).len() == 0,
    decreases n,
{
    if n > 0 {
        let here = fields[n - 1];
        lemma_none_the_first_text_at_an_offset_is_found(fields, offset, n - 1);
    }
}

/// Of several links at a range the one in the first field is found.
pub proof fn the_first_link_at_a_range_is_found(
    fields: Vec<InstanceField>,
    span: ByteRange,
    n: int,
    k: int,
)
    requires
        0 <= k < n <= fields.len(),
        value_links(fields[k].value, fields[k].nav_links@, span).len() > 0,
        forall|j: int|
            #![trigger fields[j]]
            0 <= j < k ==> value_links(fields[j].value, fields[j].nav_links@, span).len() == 0,
    ensures
        field_links(fields, span, n).len() > 0,
        field_links(fields, span, n)[0] == value_links(fields[k].value, fields[k].nav_links@, span)[0],
    decreases n,
{
    if k < n - 1 {
        the_first_link_at_a_range_is_found(fields, span, n - 1, k);
    } else {
        lemma_none_the_first_link_at_a_range_is_found(fields, span, n - 1);
    }
}

proof fn lemma_none_the_first_link_at_a_range_is_found(fields: Vec<InstanceField>, span: ByteRange, n: int)
    requires
        0 <= n <= fields.len(),
        forall|j: int|
            #![trigger fields[j]]
            0 <= j < n ==> value_links(fields[j].value, fields[j].nav_links@, span).len() == 0,
    ensures
        field_links(fields, span, n).len() == 0,
    decreases n,
{
    if n > 0 {
        let here = fields[n - 1];
        lemma_none_the_first_link_at_a_range_is_found(fields, span, n - 1);
    }
}

/// A record that carries an id is found before those that stand in it.
pub proof fn a_record_is_found_before_what_stands_in_it(
    inline: InlineValue,
    span: ByteRange,
    id: Seq<char>,
)
    requires
        opt_view(inline.block_id) == Some(id),
    ensures
        with_id(InstanceValue::Mapping(inline), span, id).len() > 0,
        with_id(InstanceValue::Mapping(inline), span, id)[0] == span,
{
}

} // verus!
