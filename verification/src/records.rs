//! Finding records and values inside the fields of a file.

use crate::ast::{ByteRange, InstanceField, InstanceValue, NavLink, SequenceElement};
use crate::text::{copy_opt, lemma_views_push, opt_view, same, views};
use vstd::prelude::*;

verus! {

/// Whether a range holds an offset.
pub open spec fn holds_offset(span: ByteRange, at: int) -> bool {
    span.start <= at < span.end
}

/// An inline record that was found: its whole range, and its id if it has one.
#[derive(Debug)]
pub struct RecordHit {
    pub span: ByteRange,
    pub existing: Option<String>,
}

/// The contents of a list of hits.
pub open spec fn hit_views(v: Seq<RecordHit>) -> Seq<(ByteRange, Option<Seq<char>>)> {
    v.map_values(|h: RecordHit| (h.span, opt_view(h.existing)))
}

/// The records at or below a value that hold an offset, outer ones before inner
/// ones. Nothing is found below a value that does not hold it.
pub open spec fn enclosing(v: InstanceValue, span: ByteRange, at: int) -> Seq<(
    ByteRange,
    Option<Seq<char>>,
)>
    decreases v, 0int,
{
    if !holds_offset(span, at) {
        Seq::empty()
    } else {
        match v {
            InstanceValue::Mapping(inline) => seq![(span, opt_view(inline.block_id))]
                + enclosing_fields(inline.fields, at, inline.fields.len() as int),
            InstanceValue::Sequence(elems) => enclosing_elements(elems, at, elems.len() as int),
            _ => Seq::empty(),
        }
    }
}

/// The records in the first `n` fields that hold an offset.
pub open spec fn enclosing_fields(fields: Vec<InstanceField>, at: int, n: int) -> Seq<(
    ByteRange,
    Option<Seq<char>>,
)>
    decreases fields, n,
{
    if n <= 0 || n > fields.len() {
        Seq::empty()
    } else {
        enclosing_fields(fields, at, n - 1) + enclosing(
            fields[n - 1].value,
            fields[n - 1].value_span,
            at,
        )
    }
}

/// The records in the first `n` elements that hold an offset.
pub open spec fn enclosing_elements(elems: Vec<SequenceElement>, at: int, n: int) -> Seq<(
    ByteRange,
    Option<Seq<char>>,
)>
    decreases elems, n,
{
    if n <= 0 || n > elems.len() {
        Seq::empty()
    } else {
        enclosing_elements(elems, at, n - 1) + enclosing(
            elems[n - 1].value,
            elems[n - 1].span,
            at,
        )
    }
}

fn push_enclosing(v: &InstanceValue, span: ByteRange, at: usize, out: &mut Vec<RecordHit>)
    ensures
        hit_views(final(out)@) == hit_views(old(out)@) + enclosing(*v, span, at as int),
    decreases *v, 0int,
{
    let ghost before = out@;
    assert(hit_views(before) + Seq::<(ByteRange, Option<Seq<char>>)>::empty() =~= hit_views(before));
    if at < span.start || at >= span.end {
        return;
    }
    match v {
        InstanceValue::Mapping(inline) => {
            let hit = RecordHit { span, existing: copy_opt(&inline.block_id) };
            out.push(hit);
            assert(hit_views(out@) =~= hit_views(before).push((span, opt_view(inline.block_id))));
            push_enclosing_fields(&inline.fields, at, out);
            assert(hit_views(out@) =~= hit_views(before) + enclosing(*v, span, at as int));
        },
        InstanceValue::Sequence(elems) => {
            for i in 0..elems.len()
                invariant
                    *v == InstanceValue::Sequence(*elems),
                    hit_views(out@) == hit_views(before) + enclosing_elements(
                        *elems,
                        at as int,
                        i as int,
                    ),
            {
                assert(v->Sequence_0 == *elems);
                assert(decreases_to!(*v => *elems));
                assert(decreases_to!(*elems => elems[i as int]));
                push_enclosing(&elems[i].value, elems[i].span, at, out);
                assert(hit_views(out@) =~= hit_views(before) + enclosing_elements(
                    *elems,
                    at as int,
                    i + 1,
                ));
            }
        },
        _ => {},
    }
}

fn push_enclosing_fields(fields: &Vec<InstanceField>, at: usize, out: &mut Vec<RecordHit>)
    ensures
        hit_views(final(out)@) == hit_views(old(out)@) + enclosing_fields(
            *fields,
            at as int,
            fields.len() as int,
        ),
    decreases *fields, 0int,
{
    let ghost before = out@;
    assert(hit_views(before) + Seq::<(ByteRange, Option<Seq<char>>)>::empty() =~= hit_views(before));
    for i in 0..fields.len()
        invariant
            hit_views(out@) == hit_views(before) + enclosing_fields(*fields, at as int, i as int),
    {
        assert(decreases_to!(*fields => fields[i as int]));
        push_enclosing(&fields[i].value, fields[i].value_span, at, out);
        assert(hit_views(out@) =~= hit_views(before) + enclosing_fields(*fields, at as int, i + 1));
    }
}

/// The last of a list, if there is one.
pub open spec fn last_of<T>(s: Seq<T>) -> Option<T> {
    if s.len() == 0 {
        None
    } else {
        Some(s.last())
    }
}

/// The first of a list, if there is one.
pub open spec fn first_in<T>(s: Seq<T>) -> Option<T> {
    if s.len() == 0 {
        None
    } else {
        Some(s[0])
    }
}

pub open spec fn hit_view(h: Option<RecordHit>) -> Option<(ByteRange, Option<Seq<char>>)> {
    match h {
        Some(x) => Some((x.span, opt_view(x.existing))),
        None => None,
    }
}

/// The innermost inline record that holds an offset.
pub fn record_at(fields: &Vec<InstanceField>, at: usize) -> (r: Option<RecordHit>)
    ensures
        hit_view(r) == last_of(enclosing_fields(*fields, at as int, fields.len() as int)),
{
    let mut hits: Vec<RecordHit> = Vec::new();
    push_enclosing_fields(fields, at, &mut hits);
    proof {
        let none: Seq<RecordHit> = Seq::empty();
        assert(hit_views(none) =~= Seq::empty());
        assert(hit_views(hits@) =~= enclosing_fields(*fields, at as int, fields.len() as int));
        assert(hit_views(hits@).len() == hits@.len());
        if hits@.len() > 0 {
            assert(hit_views(hits@).last() == (hits@.last().span, opt_view(hits@.last().existing)));
        }
    }
    hits.pop()
}

/// The records at or below a value with this id, outer ones first.
pub open spec fn with_id(v: InstanceValue, span: ByteRange, id: Seq<char>) -> Seq<ByteRange>
    decreases v, 0int,
{
    match v {
        InstanceValue::Mapping(inline) => (if opt_view(inline.block_id) == Some(id) {
            seq![span]
        } else {
            Seq::empty()
        }) + fields_with_id(inline.fields, id, inline.fields.len() as int),
        InstanceValue::Sequence(elems) => elements_with_id(elems, id, elems.len() as int),
        _ => Seq::empty(),
    }
}

/// The records in the first `n` fields with this id.
pub open spec fn fields_with_id(fields: Vec<InstanceField>, id: Seq<char>, n: int) -> Seq<ByteRange>
    decreases fields, n,
{
    if n <= 0 || n > fields.len() {
        Seq::empty()
    } else {
        fields_with_id(fields, id, n - 1) + with_id(
            fields[n - 1].value,
            fields[n - 1].value_span,
            id,
        )
    }
}

pub open spec fn elements_with_id(elems: Vec<SequenceElement>, id: Seq<char>, n: int) -> Seq<
    ByteRange,
>
    decreases elems, n,
{
    if n <= 0 || n > elems.len() {
        Seq::empty()
    } else {
        elements_with_id(elems, id, n - 1) + with_id(elems[n - 1].value, elems[n - 1].span, id)
    }
}

fn find_with_id(v: &InstanceValue, span: ByteRange, id: &str) -> (r: Option<ByteRange>)
    ensures
        r == first_in(with_id(*v, span, id@)),
    decreases *v, 0int,
{
    match v {
        InstanceValue::Mapping(inline) => {
            let own = match &inline.block_id {
                Some(b) => same(b.as_str(), id),
                None => false,
            };
            if own {
                return Some(span);
            }
            let r = find_field_with_id(&inline.fields, id);
            assert(with_id(*v, span, id@) =~= fields_with_id(
                inline.fields,
                id@,
                inline.fields.len() as int,
            ));
            r
        },
        InstanceValue::Sequence(elems) => {
            for i in 0..elems.len()
                invariant
                    *v == InstanceValue::Sequence(*elems),
                    elements_with_id(*elems, id@, i as int).len() == 0,
            {
                assert(v->Sequence_0 == *elems);
                assert(decreases_to!(*v => *elems));
                assert(decreases_to!(*elems => elems[i as int]));
                let hit = find_with_id(&elems[i].value, elems[i].span, id);
                if hit.is_some() {
                    proof {
                        lemma_elements_prefix(*elems, id@, i + 1, elems.len() as int);
                        assert(elements_with_id(*elems, id@, i + 1) =~= with_id(
                            elems[i as int].value,
                            elems[i as int].span,
                            id@,
                        ));
                    }
                    return hit;
                }
            }
            None
        },
        _ => None,
    }
}

proof fn lemma_elements_prefix(elems: Vec<SequenceElement>, id: Seq<char>, i: int, n: int)
    requires
        0 <= i <= n <= elems.len(),
        elements_with_id(elems, id, i).len() > 0,
    ensures
        elements_with_id(elems, id, n).len() > 0,
        elements_with_id(elems, id, n)[0] == elements_with_id(elems, id, i)[0],
    decreases n,
{
    if i < n {
        lemma_elements_prefix(elems, id, i, n - 1);
    }
}

proof fn lemma_fields_prefix(fields: Vec<InstanceField>, id: Seq<char>, i: int, n: int)
    requires
        0 <= i <= n <= fields.len(),
        fields_with_id(fields, id, i).len() > 0,
    ensures
        fields_with_id(fields, id, n).len() > 0,
        fields_with_id(fields, id, n)[0] == fields_with_id(fields, id, i)[0],
    decreases n,
{
    if i < n {
        lemma_fields_prefix(fields, id, i, n - 1);
    }
}

fn find_field_with_id(fields: &Vec<InstanceField>, id: &str) -> (r: Option<ByteRange>)
    ensures
        r == first_in(fields_with_id(*fields, id@, fields.len() as int)),
    decreases *fields, 0int,
{
    for i in 0..fields.len()
        invariant
            fields_with_id(*fields, id@, i as int).len() == 0,
    {
        assert(decreases_to!(*fields => fields[i as int]));
        let hit = find_with_id(&fields[i].value, fields[i].value_span, id);
        if hit.is_some() {
            proof {
                lemma_fields_prefix(*fields, id@, i + 1, fields.len() as int);
                assert(fields_with_id(*fields, id@, i + 1) =~= with_id(
                    fields[i as int].value,
                    fields[i as int].value_span,
                    id@,
                ));
            }
            return hit;
        }
    }
    None
}

/// The inline record with this id; the first, where the file repeats it.
pub fn record_by_block_id(fields: &Vec<InstanceField>, id: &str) -> (r: Option<RecordHit>)
    ensures
        match first_in(fields_with_id(*fields, id@, fields.len() as int)) {
            Some(span) => hit_view(r) == Some((span, Some(id@))),
            None => r is None,
        },
{
    match find_field_with_id(fields, id) {
        Some(span) => Some(RecordHit { span, existing: Some(id.to_owned()) }),
        None => None,
    }
}

/// The texts at or below a value that hold an offset. Nothing is found below a
/// value that does not hold it.
pub open spec fn texts_at(v: InstanceValue, span: ByteRange, at: int) -> Seq<ByteRange>
    decreases v, 0int,
{
    if !holds_offset(span, at) {
        Seq::empty()
    } else {
        match v {
            InstanceValue::Text(_) => seq![span],
            InstanceValue::Mapping(inline) => field_texts_at(
                inline.fields,
                at,
                inline.fields.len() as int,
            ),
            InstanceValue::Sequence(elems) => element_texts_at(elems, at, elems.len() as int),
            _ => Seq::empty(),
        }
    }
}

pub open spec fn field_texts_at(fields: Vec<InstanceField>, at: int, n: int) -> Seq<ByteRange>
    decreases fields, n,
{
    if n <= 0 || n > fields.len() {
        Seq::empty()
    } else {
        field_texts_at(fields, at, n - 1) + texts_at(
            fields[n - 1].value,
            fields[n - 1].value_span,
            at,
        )
    }
}

pub open spec fn element_texts_at(elems: Vec<SequenceElement>, at: int, n: int) -> Seq<ByteRange>
    decreases elems, n,
{
    if n <= 0 || n > elems.len() {
        Seq::empty()
    } else {
        element_texts_at(elems, at, n - 1) + texts_at(elems[n - 1].value, elems[n - 1].span, at)
    }
}

proof fn lemma_element_texts(elems: Vec<SequenceElement>, at: int, i: int, n: int)
    requires
        0 <= i <= n <= elems.len(),
        element_texts_at(elems, at, i).len() > 0,
    ensures
        element_texts_at(elems, at, n).len() > 0,
        element_texts_at(elems, at, n)[0] == element_texts_at(elems, at, i)[0],
    decreases n,
{
    if i < n {
        lemma_element_texts(elems, at, i, n - 1);
    }
}

proof fn lemma_field_texts(fields: Vec<InstanceField>, at: int, i: int, n: int)
    requires
        0 <= i <= n <= fields.len(),
        field_texts_at(fields, at, i).len() > 0,
    ensures
        field_texts_at(fields, at, n).len() > 0,
        field_texts_at(fields, at, n)[0] == field_texts_at(fields, at, i)[0],
    decreases n,
{
    if i < n {
        lemma_field_texts(fields, at, i, n - 1);
    }
}

fn find_text_at(v: &InstanceValue, span: ByteRange, at: usize) -> (r: Option<ByteRange>)
    ensures
        r == first_in(texts_at(*v, span, at as int)),
    decreases *v, 0int,
{
    if at < span.start || at >= span.end {
        return None;
    }
    match v {
        InstanceValue::Text(_) => Some(span),
        InstanceValue::Mapping(inline) => value_span_at(&inline.fields, at),
        InstanceValue::Sequence(elems) => {
            for i in 0..elems.len()
                invariant
                    *v == InstanceValue::Sequence(*elems),
                    holds_offset(span, at as int),
                    element_texts_at(*elems, at as int, i as int).len() == 0,
            {
                assert(v->Sequence_0 == *elems);
                assert(decreases_to!(*v => *elems));
                assert(decreases_to!(*elems => elems[i as int]));
                let hit = find_text_at(&elems[i].value, elems[i].span, at);
                if hit.is_some() {
                    proof {
                        lemma_element_texts(*elems, at as int, i + 1, elems.len() as int);
                        assert(element_texts_at(*elems, at as int, i + 1) =~= texts_at(
                            elems[i as int].value,
                            elems[i as int].span,
                            at as int,
                        ));
                    }
                    return hit;
                }
            }
            None
        },
        _ => None,
    }
}

/// The range of the text value that holds an offset.
pub fn value_span_at(fields: &Vec<InstanceField>, at: usize) -> (r: Option<ByteRange>)
    ensures
        r == first_in(field_texts_at(*fields, at as int, fields.len() as int)),
    decreases *fields, 0int,
{
    for i in 0..fields.len()
        invariant
            field_texts_at(*fields, at as int, i as int).len() == 0,
    {
        assert(decreases_to!(*fields => fields[i as int]));
        let hit = find_text_at(&fields[i].value, fields[i].value_span, at);
        if hit.is_some() {
            proof {
                lemma_field_texts(*fields, at as int, i + 1, fields.len() as int);
                assert(field_texts_at(*fields, at as int, i + 1) =~= texts_at(
                    fields[i as int].value,
                    fields[i as int].value_span,
                    at as int,
                ));
            }
            return hit;
        }
    }
    None
}

/// The links of a list at exactly this range.
pub open spec fn links_at(links: Seq<NavLink>, span: ByteRange, n: int) -> Seq<Seq<char>>
    decreases n,
{
    if n <= 0 || n > links.len() {
        Seq::empty()
    } else if links[n - 1].span == span {
        links_at(links, span, n - 1).push(links[n - 1].raw@)
    } else {
        links_at(links, span, n - 1)
    }
}

/// The links at or below a value at exactly this range: its own first.
pub open spec fn value_links(v: InstanceValue, own: Seq<NavLink>, span: ByteRange) -> Seq<Seq<char>>
    decreases v, 0int,
{
    links_at(own, span, own.len() as int) + (match v {
        InstanceValue::Mapping(inline) => field_links(
            inline.fields,
            span,
            inline.fields.len() as int,
        ),
        InstanceValue::Sequence(elems) => element_links(elems, span, elems.len() as int),
        _ => Seq::empty(),
    })
}

pub open spec fn field_links(fields: Vec<InstanceField>, span: ByteRange, n: int) -> Seq<Seq<char>>
    decreases fields, n,
{
    if n <= 0 || n > fields.len() {
        Seq::empty()
    } else {
        field_links(fields, span, n - 1) + value_links(
            fields[n - 1].value,
            fields[n - 1].nav_links@,
            span,
        )
    }
}

pub open spec fn element_links(elems: Vec<SequenceElement>, span: ByteRange, n: int) -> Seq<
    Seq<char>,
>
    decreases elems, n,
{
    if n <= 0 || n > elems.len() {
        Seq::empty()
    } else {
        element_links(elems, span, n - 1) + value_links(
            elems[n - 1].value,
            elems[n - 1].nav_links@,
            span,
        )
    }
}

fn push_links_at(links: &Vec<NavLink>, span: ByteRange, out: &mut Vec<String>)
    ensures
        views(final(out)@) == views(old(out)@) + links_at(
            links@,
            span,
            links@.len() as int,
        ),
{
    let ghost before = out@;
    assert(views(before) + Seq::<Seq<char>>::empty() =~= views(before));
    for i in 0..links.len()
        invariant
            views(out@) == views(before) + links_at(
                links@,
                span,
                i as int,
            ),
    {
        if links[i].span == span {
            let ghost sofar = out@;
            out.push(links[i].raw.clone());
            proof {
                lemma_views_push(sofar, links@[i as int].raw);
                assert(views(out@) =~= views(before) + links_at(
                    links@,
                    span,
                    i + 1,
                ));
            }
        }
    }
}

fn push_value_links(v: &InstanceValue, own: &Vec<NavLink>, span: ByteRange, out: &mut Vec<String>)
    ensures
        views(final(out)@) == views(old(out)@) + value_links(
            *v,
            own@,
            span,
        ),
    decreases *v, 0int,
{
    let ghost start = out@;
    push_links_at(own, span, out);
    let ghost before = out@;
    assert(views(before) + Seq::<Seq<char>>::empty() =~= views(before));
    match v {
        InstanceValue::Mapping(inline) => push_field_links(&inline.fields, span, out),
        InstanceValue::Sequence(elems) => {
            for i in 0..elems.len()
                invariant
                    *v == InstanceValue::Sequence(*elems),
                    views(out@) == views(before) + element_links(
                        *elems,
                        span,
                        i as int,
                    ),
            {
                assert(v->Sequence_0 == *elems);
                assert(decreases_to!(*v => *elems));
                assert(decreases_to!(*elems => elems[i as int]));
                push_value_links(&elems[i].value, &elems[i].nav_links, span, out);
                assert(views(out@) =~= views(before) + element_links(
                    *elems,
                    span,
                    i + 1,
                ));
            }
        },
        _ => {},
    }
    assert(views(out@) =~= views(start) + value_links(*v, own@, span));
}

fn push_field_links(fields: &Vec<InstanceField>, span: ByteRange, out: &mut Vec<String>)
    ensures
        views(final(out)@) == views(old(out)@) + field_links(
            *fields,
            span,
            fields.len() as int,
        ),
    decreases *fields, 0int,
{
    let ghost before = out@;
    assert(views(before) + Seq::<Seq<char>>::empty() =~= views(before));
    for i in 0..fields.len()
        invariant
            views(out@) == views(before) + field_links(
                *fields,
                span,
                i as int,
            ),
    {
        assert(decreases_to!(*fields => fields[i as int]));
        push_value_links(&fields[i].value, &fields[i].nav_links, span, out);
        assert(views(out@) =~= views(before) + field_links(
            *fields,
            span,
            i + 1,
        ));
    }
}

/// The text of the link that the fields hold at exactly this range.
pub fn link_in_fields(fields: &Vec<InstanceField>, span: ByteRange) -> (r: Option<String>)
    ensures
        opt_view(r) == first_in(field_links(*fields, span, fields.len() as int)),
{
    let mut out: Vec<String> = Vec::new();
    push_field_links(fields, span, &mut out);
    proof {
        assert(views(Seq::<String>::empty()) =~= Seq::empty());
        assert(views(out@) =~= field_links(*fields, span, fields.len() as int));
        assert(views(out@).len() == out@.len());
        if out@.len() > 0 {
            assert(views(out@)[0] == out@[0]@);
        }
    }
    if out.len() == 0 {
        None
    } else {
        Some(out[0].clone())
    }
}

} // verus!
