//! What travels when a record is promoted, a file is inlined or an id is given.

use crate::ast::{ByteRange, FileParse, Instance};
use crate::diagnostics::{Diagnostic, Severity};
use crate::laws::refactors::lemma_chosen_iff;
use crate::model::{entry_of, owner, Backlink, BodyEvent, CatalogEntry, KnowledgeBase, MarkdownBody};
use crate::mutation::assign::{
    assign_plan, assigned, block_link, AssignEdit, AssignPlan, AssignView,
};
use crate::mutation::blocks::{
    block_id_refusal, body_links_at, declares, event_has_id, naming, target_has_id, target_span,
};
use crate::mutation::inline::{
    chosen_reference, from_elsewhere, from_file, from_host, has_body, inline_spot, offence,
    offences_across, offences_in, others, probe_of, slot_refusal, span_holding, HostSlot, LinkProbe,
};
use crate::mutation::nested::error_codes;
use crate::mutation::promote::{
    ambiguous, first_ambiguous, inner_links, instance_extension, outer_links, promotable,
    promote_refusal, promoted_content, trimmed_end, Locator, RecordTarget,
};
use crate::mutation::referrers::Referrer;
use crate::paths::{below_or_self, file_stem_of, path_extension, same_path_spec};
use crate::records::{enclosing_fields, fields_with_id};
use crate::text::opt_view;
use vstd::prelude::*;

verus! {

/// A record is promoted where one stands at the offset or carries the id, in a typed
/// instance of the repo that the new file goes to.
pub proof fn a_record_is_promoted_where_it_is_found(
    kb: KnowledgeBase,
    from: Seq<char>,
    to: Seq<char>,
    locator: Locator,
    i: int,
    inst: Instance,
)
    requires
        owner(kb.repos@, from) is Some,
        owner(kb.repos@, from) == owner(kb.repos@, to),
        entry_of(kb.catalog@, from) == Some(i),
        kb.catalog@[i].parse == FileParse::Instance(Some(inst)),
    ensures
        locator matches Locator::At(at) ==> ({
            let hits = enclosing_fields(inst.fields, at as int, inst.fields.len() as int);
            if hits.len() > 0 {
                promotable(kb, from, to, locator) == Ok::<
                    (ByteRange, Option<Seq<char>>),
                    Seq<char>,
                >(hits.last())
            } else {
                promotable(kb, from, to, locator) is Err
            }
        }),
        locator matches Locator::Block(id) ==> ({
            let hits = fields_with_id(inst.fields, id@, inst.fields.len() as int);
            if hits.len() > 0 {
                promotable(kb, from, to, locator) == Ok::<
                    (ByteRange, Option<Seq<char>>),
                    Seq<char>,
                >((hits[0], Some(id@)))
            } else {
                promotable(kb, from, to, locator) is Err
            }
        }),
{
}

/// A reference follows a promoted record when it names an id declared inside the record.
pub open spec fn names_what_travels(
    link: Backlink,
    targets: Seq<RecordTarget>,
    record: ByteRange,
) -> bool {
    exists|k: int|
        0 <= k < targets.len() && opt_view_id(link) == Some((#[trigger] targets[k]).id@)
            && record.start <= targets[k].span.start && targets[k].span.end <= record.end
}

/// The id that a reference names.
pub open spec fn opt_view_id(link: Backlink) -> Option<Seq<char>> {
    match link.block_id {
        Some(b) => Some(b.id@),
        None => None,
    }
}

/// Whether a reference stands inside a record of a file.
pub open spec fn stands_inside(link: Backlink, file: Seq<char>, record: ByteRange) -> bool {
    same_path_spec(link.source@, file) && record.start <= link.span.start && link.span.end
        <= record.end
}

/// The references that name what travels are rewritten: those outside the record in the
/// files that hold them, those inside it in the record.
pub proof fn what_names_the_record_follows_it(
    links: Seq<Backlink>,
    targets: Seq<RecordTarget>,
    from: Seq<char>,
    record: ByteRange,
    j: int,
)
    requires
        0 <= j < links.len(),
    ensures
        outer_links(links, targets, from, record).contains(j) <==> names_what_travels(
            links[j],
            targets,
            record,
        ) && !stands_inside(links[j], from, record),
        inner_links(links, targets, from, record).contains(j) <==> names_what_travels(
            links[j],
            targets,
            record,
        ) && stands_inside(links[j], from, record),
{
    let n = links.len() as int;
    let follows = crate::mutation::promote::follows(links[j], targets, record);
    if names_what_travels(links[j], targets, record) {
        let k = choose|k: int|
            0 <= k < targets.len() && opt_view_id(links[j]) == Some((#[trigger] targets[k]).id@)
                && record.start <= targets[k].span.start && targets[k].span.end <= record.end;
        assert(crate::mutation::promote::lies_in(targets[k].span, record));
        assert(follows);
    }
    if follows {
        let k = choose|k: int|
            #![trigger targets[k]]
            0 <= k < targets.len() && targets[k].id@ == links[j].block_id->0.id@
                && crate::mutation::promote::lies_in(targets[k].span, record);
        assert(opt_view_id(links[j]) == Some(targets[k].id@));
    }
    assert(follows == names_what_travels(links[j], targets, record));
    assert(crate::mutation::promote::inside(links[j], from, record) == stands_inside(
        links[j],
        from,
        record,
    ));
    lemma_chosen_iff(
        |j: int|
            crate::mutation::promote::follows(links[j], targets, record)
                && !crate::mutation::promote::inside(links[j], from, record),
        n,
        j,
    );
    lemma_chosen_iff(
        |j: int|
            crate::mutation::promote::follows(links[j], targets, record)
                && crate::mutation::promote::inside(links[j], from, record),
        n,
        j,
    );
}

proof fn lemma_first_ambiguous(links: Seq<Backlink>, at: Seq<int>, k: int)
    requires
        0 <= k,
    ensures
        first_ambiguous(links, at, k) is None <==> forall|m: int|
            #![trigger at[m]]
            k <= m < at.len() ==> !(links[at[m]].slot is Some && links[at[m]].block_id is Some
                && !links[at[m]].block_id->0.referent),
    decreases at.len() - k,
{
    if k < at.len() {
        lemma_first_ambiguous(links, at, k + 1);
        if ambiguous(links[at[k]]) {
            assert(links[at[k]].slot is Some);
        } else {
            assert(first_ambiguous(links, at, k) == first_ambiguous(links, at, k + 1));
        }
    }
}

/// A promote is refused where the slot cannot hold a reference, and where a file fills a
/// slot with a bare jump to what travels; nowhere else.
pub proof fn a_promote_is_refused_where_a_value_would_change(
    links: Seq<Backlink>,
    targets: Seq<RecordTarget>,
    from: Seq<char>,
    record: ByteRange,
    admits: Option<bool>,
)
    ensures
        promote_refusal(links, targets, from, record, admits) is None <==> admits != Some(false)
            && forall|j: int|
            #![trigger links[j]]
            0 <= j < links.len() && names_what_travels(links[j], targets, record)
                && !stands_inside(links[j], from, record) && links[j].slot is Some
                ==> links[j].block_id->0.referent,
{
    let at = outer_links(links, targets, from, record);
    lemma_first_ambiguous(links, at, 0);
    assert forall|j: int| 0 <= j < links.len() implies (#[trigger] at.contains(j)
        <==> names_what_travels(links[j], targets, record) && !stands_inside(
        links[j],
        from,
        record,
    )) by {
        what_names_the_record_follows_it(links, targets, from, record, j);
    }
    assert forall|m: int| #![trigger at[m]] 0 <= m < at.len() implies 0 <= at[m] < links.len() by {
        crate::graph::nodes::lemma_chosen(
            |j: int|
                crate::mutation::promote::follows(links[j], targets, record)
                    && !crate::mutation::promote::inside(links[j], from, record),
            links.len() as int,
        );
    }
    let none = first_ambiguous(links, at, 0) is None;
    let fine = forall|j: int|
        #![trigger links[j]]
        0 <= j < links.len() && names_what_travels(links[j], targets, record) && !stands_inside(
            links[j],
            from,
            record,
        ) && links[j].slot is Some ==> links[j].block_id->0.referent;
    if none {
        assert forall|j: int|
            #![trigger links[j]]
            0 <= j < links.len() && names_what_travels(links[j], targets, record)
                && !stands_inside(links[j], from, record) && links[j].slot is Some implies links[j].block_id->0.referent by {
            assert(at.contains(j));
            let m = choose|m: int| 0 <= m < at.len() && at[m] == j;
            assert(links[at[m]] == links[j]);
            let k = choose|k: int|
                0 <= k < targets.len() && opt_view_id(links[j]) == Some(
                    (#[trigger] targets[k]).id@,
                ) && record.start <= targets[k].span.start && targets[k].span.end <= record.end;
            assert(links[j].block_id is Some);
        }
    }
    if fine {
        assert forall|m: int| #![trigger at[m]] 0 <= m < at.len() implies !(links[at[m]].slot is Some
            && links[at[m]].block_id is Some && !links[at[m]].block_id->0.referent) by {
            assert(at.contains(at[m]));
            let j = at[m];
            assert(links[j] == links[at[m]]);
        }
    }
}

/// The reference that replaces a record ends before the line ends that close it: all that
/// it leaves out are line ends, and no line end is left before it.
pub proof fn a_reference_stops_before_the_line_ends(bytes: Seq<u8>, start: int, end: int)
    requires
        0 <= start <= end <= bytes.len(),
    ensures
        ({
            let e = trimmed_end(bytes, start, end);
            &&& start <= e <= end
            &&& forall|k: int|
                #![trigger bytes[k]]
                e <= k < end ==> bytes[k] == 10 || bytes[k] == 13
            &&& e > start ==> bytes[e - 1] != 10 && bytes[e - 1] != 13
        }),
    decreases end,
{
    if end > start && (bytes[end - 1] == 10 || bytes[end - 1] == 13) {
        a_reference_stops_before_the_line_ends(bytes, start, end - 1);
    }
}

/// A record becomes the frontmatter of a markdown file, and the whole of any other.
pub proof fn a_record_becomes_frontmatter_in_markdown(raw: Seq<char>, to: Seq<char>)
    ensures
        path_extension(to) == Some("md"@) || path_extension(to) == Some("markdown"@)
            ==> promoted_content(raw, to) == "---\n"@ + raw + "---\n"@,
        path_extension(to) != Some("md"@) && path_extension(to) != Some("markdown"@)
            ==> promoted_content(raw, to) == raw,
        instance_extension("md"@) && instance_extension("markdown"@) && instance_extension("yaml"@)
            && instance_extension("yml"@),
{
}

/// The references to an inlined file are its own, the host's and those of other files, each
/// of them in one place.
pub proof fn a_reference_is_of_the_file_of_the_host_or_of_another(
    links: Seq<Backlink>,
    file: Seq<char>,
    into: Seq<char>,
    j: int,
)
    requires
        0 <= j < links.len(),
    ensures
        from_file(links, file).contains(j) <==> same_path_spec(links[j].source@, file),
        from_host(links, file, into).contains(j) <==> same_path_spec(links[j].source@, into)
            && !same_path_spec(links[j].source@, file),
        from_elsewhere(links, file, into).contains(j) <==> !same_path_spec(links[j].source@, file)
            && !same_path_spec(links[j].source@, into),
{
    let n = links.len() as int;
    lemma_chosen_iff(|j: int| same_path_spec(links[j].source@, file), n, j);
    lemma_chosen_iff(
        |j: int|
            !same_path_spec(links[j].source@, file) && !same_path_spec(links[j].source@, into),
        n,
        j,
    );
    lemma_chosen_iff(
        |j: int|
            !same_path_spec(links[j].source@, file) && same_path_spec(links[j].source@, into),
        n,
        j,
    );
}

proof fn lemma_holding(spans: Seq<ByteRange>, at: int, i: int)
    requires
        0 <= i,
    ensures
        match span_holding(spans, at, i) {
            Some(s) => spans.contains(s) && s.start <= at && at < s.end,
            None => forall|k: int|
                #![trigger spans[k]]
                i <= k < spans.len() ==> !(spans[k].start <= at && at < spans[k].end),
        },
    decreases spans.len() - i,
{
    if i < spans.len() && !(spans[i].start <= at < spans[i].end) {
        lemma_holding(spans, at, i + 1);
    }
}

/// The reference that an inlined file replaces is the only one, or the one at the offset.
pub proof fn the_reference_is_the_one_at_the_offset(spans: Seq<ByteRange>, at: Option<usize>)
    ensures
        spans.len() == 0 ==> chosen_reference(spans, at) is Err,
        spans.len() == 1 && at is None ==> chosen_reference(spans, at) == Ok::<
            ByteRange,
            Seq<char>,
        >(spans[0]),
        spans.len() > 1 && at is None ==> chosen_reference(spans, at) is Err,
        at matches Some(a) ==> match chosen_reference(spans, at) {
            Ok(s) => spans.contains(s) && s.start <= a && a < s.end,
            Err(_) => forall|k: int|
                #![trigger spans[k]]
                0 <= k < spans.len() ==> !(spans[k].start <= a && a < spans[k].end),
        },
{
    if let Some(a) = at {
        lemma_holding(spans, a as int, 0);
    }
}

/// The host's other references are all but the chosen one.
pub proof fn the_other_references_are_all_but_the_chosen(
    spans: Seq<ByteRange>,
    one: ByteRange,
    s: ByteRange,
)
    ensures
        others(spans, one).contains(s) <==> spans.contains(s) && s != one,
{
    let p = crate::mutation::inline::not_span(one);
    assert(p(s) == (s != one));
    if spans.contains(s) && s != one {
        let k = choose|k: int| 0 <= k < spans.len() && spans[k] == s;
        lemma_filter_keeps(spans, p, k);
    }
    if others(spans, one).contains(s) {
        lemma_filter_of(spans, p, s);
    }
}

proof fn lemma_filter_keeps<A>(s: Seq<A>, p: spec_fn(A) -> bool, k: int)
    requires
        0 <= k < s.len(),
        p(s[k]),
    ensures
        s.filter(p).contains(s[k]),
    decreases s.len(),
{
    reveal(Seq::filter);
    let before = s.drop_last().filter(p);
    if k < s.len() - 1 {
        lemma_filter_keeps(s.drop_last(), p, k);
        let j = choose|j: int| 0 <= j < before.len() && before[j] == s[k];
        assert(s.filter(p)[j] == s[k]);
    } else {
        assert(s.filter(p)[before.len() as int] == s[k]);
    }
}

proof fn lemma_filter_of<A>(s: Seq<A>, p: spec_fn(A) -> bool, x: A)
    requires
        s.filter(p).contains(x),
    ensures
        s.contains(x),
        p(x),
    decreases s.len(),
{
    reveal(Seq::filter);
    if s.len() > 0 {
        let before = s.drop_last().filter(p);
        let j = choose|j: int| 0 <= j < s.filter(p).len() && s.filter(p)[j] == x;
        if j < before.len() {
            assert(before[j] == x);
            lemma_filter_of(s.drop_last(), p, x);
            let i = choose|i: int| 0 <= i < s.drop_last().len() && s.drop_last()[i] == x;
            assert(s[i] == x);
        } else {
            assert(s[s.len() - 1] == x);
        }
    }
}

proof fn lemma_probe(probes: Seq<LinkProbe>, source: Seq<char>, span: ByteRange, i: int)
    requires
        0 <= i,
    ensures
        match probe_of(probes, source, span, i) {
            Some(k) => i <= k < probes.len() && same_path_spec(probes[k].source@, source)
                && probes[k].span == span,
            None => forall|k: int|
                #![trigger probes[k]]
                i <= k < probes.len() ==> !(same_path_spec(probes[k].source@, source)
                    && probes[k].span == span),
        },
    decreases probes.len() - i,
{
    if i < probes.len() && !(same_path_spec(probes[i].source@, source) && probes[i].span == span) {
        lemma_probe(probes, source, span, i + 1);
    }
}

/// Whether a reference needs the whole file: it fills a slot that takes a file, or leads to
/// a heading.
pub open spec fn needs_the_file(probe: LinkProbe) -> bool {
    probe.file_slot || probe.anchored
}

proof fn lemma_offence(
    probes: Seq<LinkProbe>,
    source: Seq<char>,
    spans: Seq<ByteRange>,
    n: int,
)
    requires
        0 <= n <= spans.len(),
    ensures
        offences_in(probes, source, spans, n).len() == 0 <==> forall|k: int|
            #![trigger spans[k]]
            0 <= k < n ==> (probe_of(probes, source, spans[k], 0) matches Some(i)
                ==> !needs_the_file(probes[i])),
    decreases n,
{
    if n > 0 {
        lemma_offence(probes, source, spans, n - 1);
        let here = probe_of(probes, source, spans[n - 1], 0);
        assert((here matches Some(i) && offence(source, probes[i]) is Some) == (here matches Some(i)
            && needs_the_file(probes[i])));
    }
}

/// A reference that needs the whole file keeps it from being inlined; any other does not.
pub proof fn a_reference_that_needs_the_file_keeps_it(
    probes: Seq<LinkProbe>,
    source: Seq<char>,
    spans: Seq<ByteRange>,
)
    requires
        forall|a: int, b: int|
            #![trigger probes[a], probes[b]]
            0 <= a < probes.len() && 0 <= b < probes.len() && probes[a].span == probes[b].span
                && same_path_spec(probes[a].source@, source) && same_path_spec(
                probes[b].source@,
                source,
            ) ==> a == b,
    ensures
        offences_in(probes, source, spans, spans.len() as int).len() > 0 <==> exists|k: int, i: int|
            #![trigger spans[k], probes[i]]
            0 <= k < spans.len() && 0 <= i < probes.len() && same_path_spec(
                probes[i].source@,
                source,
            ) && probes[i].span == spans[k] && (probes[i].file_slot || probes[i].anchored),
{
    lemma_offence(probes, source, spans, spans.len() as int);
    assert forall|k: int| #![trigger spans[k]] 0 <= k < spans.len() implies match probe_of(
        probes,
        source,
        spans[k],
        0,
    ) {
        Some(i) => 0 <= i < probes.len() && same_path_spec(probes[i].source@, source)
            && probes[i].span == spans[k],
        None => forall|i: int|
            #![trigger probes[i]]
            0 <= i < probes.len() ==> !(same_path_spec(probes[i].source@, source)
                && probes[i].span == spans[k]),
    } by {
        lemma_probe(probes, source, spans[k], 0);
    }
}

proof fn lemma_across(probes: Seq<LinkProbe>, rs: Seq<Referrer>, n: int)
    requires
        0 <= n <= rs.len(),
    ensures
        offences_across(probes, rs, n).len() == 0 <==> forall|r: int|
            #![trigger rs[r]]
            0 <= r < n ==> offences_in(
                probes,
                rs[r].path@,
                rs[r].spans@,
                rs[r].spans@.len() as int,
            ).len() == 0,
    decreases n,
{
    if n > 0 {
        lemma_across(probes, rs, n - 1);
        let here = offences_in(
            probes,
            rs[n - 1].path@,
            rs[n - 1].spans@,
            rs[n - 1].spans@.len() as int,
        );
        if offences_across(probes, rs, n).len() == 0 {
            assert(here.len() == 0);
        }
    }
}

/// Every referrer counts: an inline goes ahead where none of them needs the file.
pub proof fn every_referrer_counts(probes: Seq<LinkProbe>, rs: Seq<Referrer>, r: int)
    requires
        0 <= r < rs.len(),
        offences_in(probes, rs[r].path@, rs[r].spans@, rs[r].spans@.len() as int).len() > 0,
    ensures
        offences_across(probes, rs, rs.len() as int).len() > 0,
{
    lemma_across(probes, rs, rs.len() as int);
    let here = rs[r];
}

/// A slot that takes a reference only cannot take the record; a slot that takes either can,
/// and where there is no slot nothing stands in the way.
pub proof fn a_slot_takes_the_record_or_refuses_it(slot: Option<HostSlot>)
    ensures
        slot_refusal(slot) is Some <==> slot is Some && !slot->0.inline_or_reference,
{
}

/// A file with a body that says something cannot become a record.
pub proof fn a_file_with_a_body_is_not_inlined(
    kb: KnowledgeBase,
    file: Seq<char>,
    into: Seq<char>,
    at: Option<usize>,
    i: int,
    body: MarkdownBody,
)
    requires
        entry_of(kb.catalog@, file) == Some(i),
        kb.catalog@[i].body == Some(body),
        !body.blank,
    ensures
        inline_spot(kb, file, into, at) is Err,
        has_body(kb.catalog@[i]),
{
}

/// What an offset gets an id for: the innermost record there, which keeps the id that it
/// has; else the block of the body.
pub proof fn an_id_is_given_to_what_stands_at_the_offset(
    entry: CatalogEntry,
    at: usize,
    marker: Option<Seq<char>>,
    inst: Instance,
    body: MarkdownBody,
)
    requires
        entry.parse == FileParse::Instance(Some(inst)),
        entry.body == Some(body),
    ensures
        ({
            let hits = enclosing_fields(inst.fields, at as int, inst.fields.len() as int);
            &&& hits.len() > 0 && hits.last().1 is Some ==> assign_plan(entry, at, marker) == Some(
                AssignView::Existing(hits.last().1->0),
            )
            &&& hits.len() > 0 && hits.last().1 is None ==> assign_plan(entry, at, marker) == Some(
                AssignView::InsertRecord(hits.last().0.start),
            )
            &&& hits.len() == 0 && at < body.offset ==> assign_plan(entry, at, marker) is None
            &&& hits.len() == 0 && at >= body.offset && marker is Some ==> assign_plan(
                entry,
                at,
                marker,
            ) == Some(AssignView::Existing(marker->0))
            &&& hits.len() == 0 && at >= body.offset && marker is None ==> assign_plan(
                entry,
                at,
                marker,
            ) == Some(AssignView::MarkdownMarker)
        }),
{
}

/// A note has no record: its block keeps its marker or gets one.
pub proof fn a_note_gets_a_marker(entry: CatalogEntry, at: usize, marker: Option<Seq<char>>)
    requires
        entry.parse is Note,
    ensures
        entry.body is None ==> assign_plan(entry, at, marker) == Some(AssignView::MarkdownMarker),
        entry.body matches Some(b) && at < b.offset ==> assign_plan(entry, at, marker) == Some(
            AssignView::MarkdownMarker,
        ),
        marker is None ==> assign_plan(entry, at, marker) == Some(AssignView::MarkdownMarker),
        (entry.body matches Some(b) && at >= b.offset) && marker is Some ==> assign_plan(
            entry,
            at,
            marker,
        ) == Some(AssignView::Existing(marker->0)),
{
}

/// An id that is there is kept, and only a new one is written.
pub proof fn an_id_that_is_there_is_kept(plan: AssignPlan, at: usize, fresh: Seq<char>)
    ensures
        plan matches AssignPlan::Existing(id) ==> assigned(plan, at, fresh) == (
            id@,
            AssignEdit::Keep,
        ),
        plan matches AssignPlan::InsertRecord(start) ==> assigned(plan, at, fresh) == (
            fresh,
            AssignEdit::Record(start),
        ),
        plan is MarkdownMarker ==> assigned(plan, at, fresh) == (fresh, AssignEdit::Marker(at)),
{
}

/// A link to a block names the file by its stem where that is enough, else by its path
/// below the root.
pub proof fn a_block_is_linked_by_the_name_of_its_file(
    target: Seq<char>,
    root: Seq<char>,
    id: Seq<char>,
)
    ensures
        block_link(true, target, root, id) == "[["@ + file_stem_of(target) + "^"@ + id + "]]"@,
        block_link(false, target, root, id) == "[["@ + below_or_self(target, root) + "^"@ + id
            + "]]"@,
{
}

proof fn lemma_span(targets: Seq<RecordTarget>, id: Seq<char>, i: int)
    requires
        0 <= i,
    ensures
        match target_span(targets, id, i) {
            Some(s) => exists|k: int|
                i <= k < targets.len() && (#[trigger] targets[k]).id@ == id && targets[k].span == s
                    && forall|j: int|
                    #![trigger targets[j]]
                    i <= j < k ==> targets[j].id@ != id,
            None => forall|k: int|
                #![trigger targets[k]]
                i <= k < targets.len() ==> targets[k].id@ != id,
        },
    decreases targets.len() - i,
{
    if i < targets.len() {
        if targets[i].id@ == id {
            assert(targets[i].span == target_span(targets, id, i)->0);
        } else {
            lemma_span(targets, id, i + 1);
        }
    }
}

/// The declaration of an id is the first that carries it.
pub proof fn an_id_is_declared_where_it_first_stands(targets: Seq<RecordTarget>, id: Seq<char>)
    ensures
        match target_span(targets, id, 0) {
            Some(s) => exists|k: int|
                0 <= k < targets.len() && (#[trigger] targets[k]).id@ == id && targets[k].span == s
                    && forall|j: int|
                    #![trigger targets[j]]
                    0 <= j < k ==> targets[j].id@ != id,
            None => forall|k: int|
                #![trigger targets[k]]
                0 <= k < targets.len() ==> targets[k].id@ != id,
        },
{
    lemma_span(targets, id, 0);
}

/// A file declares the ids of its records, of the markers in its body, and of the fenced
/// blocks there, and no others.
pub proof fn a_file_declares_the_ids_that_stand_in_it(
    targets: Seq<RecordTarget>,
    body: MarkdownBody,
    q: Seq<char>,
    k: int,
)
    ensures
        0 <= k < targets.len() && targets[k].id@ == q ==> declares(targets, Some(body), q)
            && declares(targets, None, q),
        0 <= k < body.events@.len() && (body.events@[k] matches BodyEvent::BlockIdMarker { id, .. }
            && id@ == q) ==> declares(targets, Some(body), q),
        0 <= k < body.events@.len() && (body.events@[k] matches BodyEvent::FencedBlock { block }
            && opt_view(block.trailing_block_id) == Some(q)) ==> declares(targets, Some(body), q),
        declares(targets, Some(body), q) ==> (exists|i: int|
            #![trigger targets[i]]
            0 <= i < targets.len() && targets[i].id@ == q) || (exists|i: int|
            #![trigger body.events@[i]]
            0 <= i < body.events@.len() && match body.events@[i] {
                BodyEvent::BlockIdMarker { id, .. } => id@ == q,
                BodyEvent::FencedBlock { block } => opt_view(block.trailing_block_id) == Some(q),
                _ => false,
            }),
{
    if 0 <= k < targets.len() && targets[k].id@ == q {
        assert(target_has_id(targets, q, targets.len() as int));
    }
    if 0 <= k < body.events@.len() && event_has_id(body.events@[k], q) {
        assert(crate::mutation::blocks::body_has_id(body.events@, q, body.events@.len() as int));
    }
    if declares(targets, Some(body), q) && !target_has_id(targets, q, targets.len() as int) {
        let i = choose|i: int|
            #![trigger body.events@[i]]
            0 <= i < body.events@.len() && event_has_id(body.events@[i], q);
        let e = body.events@[i];
    }
}

/// The links that a renamed id rewrites are those that name it.
pub proof fn the_links_that_name_an_id_are_rewritten(links: Seq<Backlink>, id: Seq<char>, j: int)
    requires
        0 <= j < links.len(),
    ensures
        naming(links, id).contains(j) <==> opt_view_id(links[j]) == Some(id),
{
    lemma_chosen_iff(
        |j: int| crate::mutation::blocks::names_block(links[j], id),
        links.len() as int,
        j,
    );
}

/// An id is renamed in a typed instance that declares it in a record and does not declare
/// the new one.
pub proof fn an_id_is_renamed_where_the_new_one_is_free(
    kb: KnowledgeBase,
    host: Seq<char>,
    targets: Seq<RecordTarget>,
    id: Seq<char>,
    to: Seq<char>,
)
    ensures
        block_id_refusal(kb, host, targets, id, to) is None <==> {
            &&& owner(kb.repos@, host) is Some
            &&& entry_of(kb.catalog@, host) matches Some(i) && (kb.catalog@[i].parse matches FileParse::Instance(
                Some(_),
            )) && !declares(targets, kb.catalog@[i].body, to)
            &&& exists|k: int| #![trigger targets[k]] 0 <= k < targets.len() && targets[k].id@ == id
        },
{
    lemma_span(targets, id, 0);
}

proof fn lemma_body_links(body: MarkdownBody, span: ByteRange, n: int, raw: Seq<char>)
    requires
        0 <= n <= body.events@.len(),
    ensures
        body_links_at(body, span, n).contains(raw) <==> exists|k: int|
            #![trigger body.events@[k]]
            0 <= k < n && match body.events@[k] {
                BodyEvent::Wikilink { raw: r, span: s } => r@ == raw && s.start + body.offset
                    == span.start && s.end + body.offset == span.end,
                _ => false,
            },
    decreases n,
{
    if n > 0 {
        lemma_body_links(body, span, n - 1, raw);
        let before = body_links_at(body, span, n - 1);
        let now = body_links_at(body, span, n);
        let e = body.events@[n - 1];
        if before.contains(raw) {
            let j = choose|j: int| 0 <= j < before.len() && before[j] == raw;
            assert(now[j] == raw);
        }
        if now.contains(raw) && !before.contains(raw) {
            let j = choose|j: int| 0 <= j < now.len() && now[j] == raw;
            if j < before.len() {
                assert(before[j] == raw);
            }
        }
        match e {
            BodyEvent::Wikilink { raw: r, span: s } => {
                if s.start + body.offset == span.start && s.end + body.offset == span.end {
                    assert(now[before.len() as int] == r@);
                }
            },
            _ => {},
        }
    }
}

/// A link of a body stands where its range says, counted from the start of the body.
pub proof fn a_body_link_is_found_by_its_range(
    body: MarkdownBody,
    span: ByteRange,
    raw: Seq<char>,
)
    ensures
        body_links_at(body, span, body.events@.len() as int).contains(raw) <==> exists|k: int|
            #![trigger body.events@[k]]
            0 <= k < body.events@.len() && match body.events@[k] {
                BodyEvent::Wikilink { raw: r, span: s } => r@ == raw && s.start + body.offset
                    == span.start && s.end + body.offset == span.end,
                _ => false,
            },
{
    lemma_body_links(body, span, body.events@.len() as int, raw);
}

/// The errors of a file are its diagnostics of that severity.
pub proof fn the_errors_are_those_of_that_severity(ds: Seq<Diagnostic>, n: int, code: Seq<char>)
    requires
        0 <= n <= ds.len(),
    ensures
        error_codes(ds, n).contains(code) <==> exists|k: int|
            0 <= k < n && (#[trigger] ds[k]).severity == Severity::Error && ds[k].code@ == code,
    decreases n,
{
    if n > 0 {
        the_errors_are_those_of_that_severity(ds, n - 1, code);
        let before = error_codes(ds, n - 1);
        let now = error_codes(ds, n);
        if before.contains(code) {
            let j = choose|j: int| 0 <= j < before.len() && before[j] == code;
            assert(now[j] == code);
        }
        if now.contains(code) && !before.contains(code) {
            let j = choose|j: int| 0 <= j < now.len() && now[j] == code;
            if j < before.len() {
                assert(before[j] == code);
            }
            assert(ds[n - 1].code@ == code);
        }
        if ds[n - 1].severity == Severity::Error && ds[n - 1].code@ == code {
            assert(now[before.len() as int] == code);
        }
    }
}

} // verus!
