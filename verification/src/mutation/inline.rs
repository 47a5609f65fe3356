//! Folding a file into the file that references it, as an inline record.

use crate::ast::{ByteRange, FileParse};
use crate::graph::nodes::{chosen, ints};
use crate::json::{json_texts, jv, text_list, JsonView, ObjectBuilder};
use crate::model::{
    entry_of, find_entry, hash_of, held_hash, inbound, Backlink, CatalogEntry, KnowledgeBase,
};
use crate::mutation::blocks::{declares, find_target, host_block_ids, target_span};
use crate::mutation::links::IdChange;
use crate::mutation::promote::RecordTarget;
use crate::mutation::refactor::{links_to, same_repo, shared_repo};
use crate::mutation::referrers::{collect_referrers, is_referrers, Referrer};
use crate::paths::{file_stem, file_stem_of, same_path, same_path_spec};
use crate::records::{field_texts_at, first_in, value_span_at};
use crate::saga::plan::Reject;
use crate::saga::trees::{add_text, texts_ascend};
use crate::sorting::{in_rank, sort, Ranked};
use crate::text::{contains, holds, joined, joined3, lemma_views_push, views};
use vstd::prelude::*;

verus! {

impl Ranked for ByteRange {
    open spec fn rank_le(&self, other: &Self) -> bool {
        self.start <= other.start
    }

    fn at_most(&self, other: &Self) -> (r: bool) {
        self.start <= other.start
    }

    proof fn rank_total(a: &Self, b: &Self) {
    }

    proof fn rank_transitive(a: &Self, b: &Self, c: &Self) {
    }
}

/// A file cannot be folded into itself.
pub fn inline_same_file_reject(file: &str, into: &str) -> (r: Option<Reject>)
    ensures
        r is Some == same_path_spec(file@, into@),
        r matches Some(e) ==> e.detail is None && e.message@
            == "inline needs a file and a distinct host — `path` and `into` are the same file"@,
{
    if same_path(file, into) {
        Some(
            Reject::new(
                "inline needs a file and a distinct host — `path` and `into` are the same file".to_owned(),
            ),
        )
    } else {
        None
    }
}

/// The references that stand in `path`, by position.
pub open spec fn from_file(links: Seq<Backlink>, path: Seq<char>) -> Seq<int> {
    chosen(|j: int| same_path_spec(links[j].source@, path), links.len() as int)
}

/// The references that stand neither in the file itself nor in the host.
pub open spec fn from_elsewhere(links: Seq<Backlink>, file: Seq<char>, into: Seq<char>) -> Seq<int> {
    chosen(
        |j: int|
            !same_path_spec(links[j].source@, file) && !same_path_spec(links[j].source@, into),
        links.len() as int,
    )
}

/// The references in the host, by position; a host that is the file has none.
pub open spec fn from_host(links: Seq<Backlink>, file: Seq<char>, into: Seq<char>) -> Seq<int> {
    chosen(
        |j: int|
            !same_path_spec(links[j].source@, file) && same_path_spec(links[j].source@, into),
        links.len() as int,
    )
}

/// Where the references in the host stand, in order.
pub open spec fn host_spans(links: Seq<Backlink>, file: Seq<char>, into: Seq<char>) -> Seq<ByteRange> {
    in_rank(from_host(links, file, into).map_values(|j: int| links[j].span))
}

/// The first of the ranges from `i` on that holds the offset.
pub open spec fn span_holding(spans: Seq<ByteRange>, at: int, i: int) -> Option<ByteRange>
    decreases spans.len() - i,
{
    if i < 0 || i >= spans.len() {
        None
    } else if spans[i].start <= at < spans[i].end {
        Some(spans[i])
    } else {
        span_holding(spans, at, i + 1)
    }
}

/// The reference that the record takes the place of: the one at the offset, or
/// the only one.
pub open spec fn chosen_reference(spans: Seq<ByteRange>, at: Option<usize>) -> Result<
    ByteRange,
    Seq<char>,
> {
    if spans.len() == 0 {
        Err("`into` does not reference `path` — it is not a referrer"@)
    } else {
        match at {
            Some(a) => match span_holding(spans, a as int, 0) {
                Some(s) => Ok(s),
                None => Err("`at` does not land on a reference to `path`"@),
            },
            None => if spans.len() > 1 {
                Err(
                    "`into` references `path` more than once — pass `at` to choose which reference hosts the record"@,
                )
            } else {
                Ok(spans[0])
            },
        }
    }
}

/// Where the record goes: the chosen reference and the value that holds it.
#[derive(Debug)]
pub struct InlineSpot {
    pub chosen: ByteRange,
    pub value_span: ByteRange,
}

/// Where the record goes, or why the file cannot be folded.
pub open spec fn inline_spot(
    kb: KnowledgeBase,
    file: Seq<char>,
    into: Seq<char>,
    at: Option<usize>,
) -> Result<(ByteRange, ByteRange), Seq<char>> {
    match shared_repo(
        kb.repos@,
        file,
        into,
        "path or into escapes the workspace"@,
        "inline across repos is not supported — path and into must be in the same repo"@,
    ) {
        Err(m) => Err(m),
        Ok(_) => match entry_of(kb.catalog@, file) {
            None => Err("the file to inline is not in the knowledge base"@),
            Some(f) => if !(kb.catalog@[f].parse matches FileParse::Instance(Some(_))) {
                Err("the file to inline is not a typed instance"@)
            } else if has_body(kb.catalog@[f]) {
                Err(
                    "the file to inline has a non-empty body — a record has no body; strip the body first, or keep it as its own file"@,
                )
            } else {
                match entry_of(kb.catalog@, into) {
                    None => Err("the host `into` is not in the knowledge base"@),
                    Some(h) => match kb.catalog@[h].parse {
                        FileParse::Instance(Some(inst)) => match chosen_reference(
                            host_spans(inbound(kb.backlinks@, file), file, into),
                            at,
                        ) {
                            Err(m) => Err(m),
                            Ok(s) => match first_in(
                                field_texts_at(
                                    inst.fields,
                                    s.start as int,
                                    inst.fields.len() as int,
                                ),
                            ) {
                                Some(v) => Ok((s, v)),
                                None => Err("could not locate the reference value to fold into"@),
                            },
                        },
                        _ => Err("the host `into` is not a typed instance"@),
                    },
                }
            },
        },
    }
}

/// Whether a file has anything in its body.
pub open spec fn has_body(entry: CatalogEntry) -> bool {
    entry.body matches Some(b) && !b.blank
}

fn pick_host(links: &Vec<Backlink>, file: &str, into: &str) -> (r: Vec<ByteRange>)
    ensures
        r@ == from_host(links@, file@, into@).map_values(|j: int| links@[j].span),
{
    let mut r: Vec<ByteRange> = Vec::new();
    let ghost p = |j: int|
        !same_path_spec(links@[j].source@, file@) && same_path_spec(links@[j].source@, into@);
    let ghost f = |j: int| links@[j].span;
    assert(r@ =~= chosen(p, 0).map_values(f));
    for j in 0..links.len()
        invariant
            p == (|j: int|
                !same_path_spec(links@[j].source@, file@) && same_path_spec(
                    links@[j].source@,
                    into@,
                )),
            f == (|j: int| links@[j].span),
            r@ == chosen(p, j as int).map_values(f),
    {
        let source = links[j].source.as_str();
        let hit = !same_path(source, file) && same_path(source, into);
        assert(hit == p(j as int));
        if hit {
            r.push(links[j].span);
            assert(r@ =~= chosen(p, j + 1).map_values(f));
        }
    }
    r
}

fn find_holding(spans: &Vec<ByteRange>, at: usize) -> (r: Option<ByteRange>)
    ensures
        r == span_holding(spans@, at as int, 0),
{
    for i in 0..spans.len()
        invariant
            span_holding(spans@, at as int, 0) == span_holding(spans@, at as int, i as int),
    {
        if at >= spans[i].start && at < spans[i].end {
            return Some(spans[i]);
        }
    }
    None
}

fn choose_reference(spans: &Vec<ByteRange>, at: Option<usize>) -> (r: Result<ByteRange, String>)
    ensures
        match chosen_reference(spans@, at) {
            Ok(s) => r == Ok::<ByteRange, String>(s),
            Err(m) => r matches Err(e) && e@ == m,
        },
{
    if spans.len() == 0 {
        return Err("`into` does not reference `path` — it is not a referrer".to_owned());
    }
    match at {
        Some(a) => match find_holding(spans, a) {
            Some(s) => Ok(s),
            None => Err("`at` does not land on a reference to `path`".to_owned()),
        },
        None => if spans.len() > 1 {
            Err(
                "`into` references `path` more than once — pass `at` to choose which reference hosts the record".to_owned(),
            )
        } else {
            Ok(spans[0])
        },
    }
}

/// Finds where the record goes.
pub fn locate_inline(kb: &KnowledgeBase, file: &str, into: &str, at: Option<usize>) -> (r: Result<
    InlineSpot,
    String,
>)
    ensures
        match inline_spot(*kb, file@, into@, at) {
            Ok((s, v)) => r matches Ok(spot) && spot.chosen == s && spot.value_span == v,
            Err(m) => r matches Err(e) && e@ == m,
        },
{
    if let Err(m) = same_repo(
        &kb.repos,
        file,
        into,
        "path or into escapes the workspace",
        "inline across repos is not supported — path and into must be in the same repo",
    ) {
        return Err(m);
    }
    let f: usize = match find_entry(&kb.catalog, file) {
        Some(i) => i,
        None => return Err("the file to inline is not in the knowledge base".to_owned()),
    };
    match &kb.catalog[f].parse {
        FileParse::Instance(Some(_)) => {},
        _ => return Err("the file to inline is not a typed instance".to_owned()),
    }
    if let Some(b) = &kb.catalog[f].body {
        if !b.blank {
            return Err(
                "the file to inline has a non-empty body — a record has no body; strip the body first, or keep it as its own file".to_owned(),
            );
        }
    }
    let h: usize = match find_entry(&kb.catalog, into) {
        Some(i) => i,
        None => return Err("the host `into` is not in the knowledge base".to_owned()),
    };
    let inst = match &kb.catalog[h].parse {
        FileParse::Instance(Some(inst)) => inst,
        _ => return Err("the host `into` is not a typed instance".to_owned()),
    };
    let none: Vec<Backlink> = Vec::new();
    assert(none@ =~= Seq::empty());
    let links = match links_to(kb, file) {
        Some(l) => l,
        None => &none,
    };
    let spans = sort(pick_host(links, file, into));
    let chosen_span = match choose_reference(&spans, at) {
        Ok(s) => s,
        Err(m) => return Err(m),
    };
    match value_span_at(&inst.fields, chosen_span.start) {
        Some(value_span) => Ok(InlineSpot { chosen: chosen_span, value_span }),
        None => Err("could not locate the reference value to fold into".to_owned()),
    }
}

/// The declared slot of the host's value: its shape as text, and whether it can
/// hold an inline record as well as a reference.
pub struct HostSlot {
    pub shape: String,
    pub inline_or_reference: bool,
}

/// What is known of a reference: whether it fills a slot for whole files, and
/// whether it names a heading.
#[derive(Debug)]
pub struct LinkProbe {
    pub source: String,
    pub span: ByteRange,
    pub file_slot: bool,
    pub anchored: bool,
}

/// Why a reference cannot name a block instead of the file, if it cannot.
pub open spec fn offence(source: Seq<char>, probe: LinkProbe) -> Option<Seq<char>> {
    if probe.file_slot {
        Some(
            source + ": a `file*` slot references a whole file and cannot hold a block-id"@,
        )
    } else if probe.anchored {
        Some(source + ": a `[[…#head]]` anchor targets a heading in the deleted file"@)
    } else {
        None
    }
}

/// What is known of the reference at `span` in `source`, searching from `i` on.
pub open spec fn probe_of(
    probes: Seq<LinkProbe>,
    source: Seq<char>,
    span: ByteRange,
    i: int,
) -> Option<int>
    decreases probes.len() - i,
{
    if i < 0 || i >= probes.len() {
        None
    } else if same_path_spec(probes[i].source@, source) && probes[i].span == span {
        Some(i)
    } else {
        probe_of(probes, source, span, i + 1)
    }
}

/// The offences of the first `n` references in `source`.
pub open spec fn offences_in(
    probes: Seq<LinkProbe>,
    source: Seq<char>,
    spans: Seq<ByteRange>,
    n: int,
) -> Seq<Seq<char>>
    decreases n,
{
    if n <= 0 {
        Seq::empty()
    } else {
        let before = offences_in(probes, source, spans, n - 1);
        match probe_of(probes, source, spans[n - 1], 0) {
            None => before,
            Some(i) => match offence(source, probes[i]) {
                Some(m) => before.push(m),
                None => before,
            },
        }
    }
}

/// The offences of the first `n` referring files.
pub open spec fn offences_across(probes: Seq<LinkProbe>, rs: Seq<Referrer>, n: int) -> Seq<Seq<char>>
    decreases n,
{
    if n <= 0 {
        Seq::empty()
    } else {
        offences_across(probes, rs, n - 1) + offences_in(
            probes,
            rs[n - 1].path@,
            rs[n - 1].spans@,
            rs[n - 1].spans@.len() as int,
        )
    }
}

fn find_probe(probes: &Vec<LinkProbe>, source: &str, span: ByteRange) -> (r: Option<usize>)
    ensures
        match r {
            Some(i) => i < probes@.len() && probe_of(probes@, source@, span, 0) == Some(i as int),
            None => probe_of(probes@, source@, span, 0) is None,
        },
{
    for i in 0..probes.len()
        invariant
            probe_of(probes@, source@, span, 0) == probe_of(probes@, source@, span, i as int),
    {
        if same_path(probes[i].source.as_str(), source) && probes[i].span == span {
            return Some(i);
        }
    }
    None
}

fn push_offences(probes: &Vec<LinkProbe>, source: &str, spans: &Vec<ByteRange>, out: &mut Vec<String>)
    ensures
        views(final(out)@) == views(old(out)@) + offences_in(
            probes@,
            source@,
            spans@,
            spans@.len() as int,
        ),
{
    let ghost before = out@;
    assert(views(before) + Seq::<Seq<char>>::empty() =~= views(before));
    for k in 0..spans.len()
        invariant
            views(out@) == views(before) + offences_in(probes@, source@, spans@, k as int),
    {
        if let Some(i) = find_probe(probes, source, spans[k]) {
            let probe = &probes[i];
            let message: Option<String> = if probe.file_slot {
                Some(
                    joined(
                        source,
                        ": a `file*` slot references a whole file and cannot hold a block-id",
                    ),
                )
            } else if probe.anchored {
                Some(
                    joined(source, ": a `[[…#head]]` anchor targets a heading in the deleted file"),
                )
            } else {
                None
            };
            if let Some(m) = message {
                let ghost sofar = out@;
                out.push(m);
                proof {
                    lemma_views_push(sofar, m);
                    assert(views(out@) =~= views(before) + offences_in(
                        probes@,
                        source@,
                        spans@,
                        k + 1,
                    ));
                }
            }
        }
    }
}

/// What folding a file needs to know.
#[derive(Debug)]
pub struct InlineGather {
    pub value_span: ByteRange,
    /// The host's other references to the file.
    pub into_other: Vec<ByteRange>,
    /// The other files that reference the file.
    pub cross: Vec<Referrer>,
    pub into_hash: Option<String>,
    pub file_hash: Option<String>,
    pub into_stem: String,
    /// Every id that either file declares, which fresh ids must avoid.
    pub namespace: Vec<String>,
    /// The ids of the file that the host has too, with their declarations.
    pub colliding: Vec<RecordTarget>,
    /// The file's references to itself, which travel with it.
    pub file_self: Vec<ByteRange>,
}

/// The ranges that are not `chosen`.
pub open spec fn others(spans: Seq<ByteRange>, chosen_span: ByteRange) -> Seq<ByteRange> {
    spans.filter(not_span(chosen_span))
}

/// Whether a range is another than `span`.
pub open spec fn not_span(span: ByteRange) -> spec_fn(ByteRange) -> bool {
    |s: ByteRange| s != span
}

fn drop_span(spans: &Vec<ByteRange>, chosen_span: ByteRange) -> (r: Vec<ByteRange>)
    ensures
        r@ == others(spans@, chosen_span),
{
    let mut r: Vec<ByteRange> = Vec::new();
    let ghost p = not_span(chosen_span);
    proof {
        reveal(Seq::filter);
        assert(spans@.take(0) =~= Seq::empty());
    }
    for i in 0..spans.len()
        invariant
            p == not_span(chosen_span),
            r@ == spans@.take(i as int).filter(p),
    {
        proof {
            reveal(Seq::filter);
            assert(spans@.take(i + 1).drop_last() =~= spans@.take(i as int));
            assert(spans@.take(i + 1).last() == spans@[i as int]);
        }
        if spans[i] != chosen_span {
            r.push(spans[i]);
        }
    }
    assert(spans@.take(spans@.len() as int) =~= spans@);
    r
}

/// Whether these are the ids that both files declare, each once and in order,
/// with where the file declares them.
pub open spec fn is_colliding(
    c: Seq<RecordTarget>,
    file_targets: Seq<RecordTarget>,
    file: CatalogEntry,
    into_targets: Seq<RecordTarget>,
    into: CatalogEntry,
) -> bool {
    &&& forall|k: int|
        #![trigger c[k]]
        0 <= k < c.len() ==> {
            &&& declares(file_targets, file.body, c[k].id@)
            &&& declares(into_targets, into.body, c[k].id@)
            &&& target_span(file_targets, c[k].id@, 0) == Some(c[k].span)
        }
    &&& forall|a: int, b: int|
        #![trigger c[a], c[b]]
        0 <= a < b < c.len() ==> crate::text::text_lt(c[a].id@, c[b].id@)
    &&& forall|q: Seq<char>|
        #![trigger collides_at(c, q)]
        declares(file_targets, file.body, q) && declares(into_targets, into.body, q)
            && target_span(file_targets, q, 0) is Some ==> collides_at(c, q)
}

/// Whether the id `q` is among those that collide.
pub open spec fn collides_at(c: Seq<RecordTarget>, q: Seq<char>) -> bool {
    exists|k: int| #![trigger c[k]] 0 <= k < c.len() && c[k].id@ == q
}

fn find_colliding(
    file_ids: &Vec<String>,
    into_ids: &Vec<String>,
    file_targets: &Vec<RecordTarget>,
    Ghost(file): Ghost<CatalogEntry>,
    Ghost(into): Ghost<CatalogEntry>,
    Ghost(into_targets): Ghost<Seq<RecordTarget>>,
) -> (r: Vec<RecordTarget>)
    requires
        texts_ascend(file_ids@),
        forall|q: Seq<char>| #[trigger] holds(file_ids@, q) == declares(file_targets@, file.body, q),
        forall|q: Seq<char>| #[trigger] holds(into_ids@, q) == declares(into_targets, into.body, q),
    ensures
        is_colliding(r@, file_targets@, file, into_targets, into),
{
    let mut r: Vec<RecordTarget> = Vec::new();
    for i in 0..file_ids.len()
        invariant
            texts_ascend(file_ids@),
            forall|q: Seq<char>|
                #[trigger] holds(file_ids@, q) == declares(file_targets@, file.body, q),
            forall|q: Seq<char>|
                #[trigger] holds(into_ids@, q) == declares(into_targets, into.body, q),
            forall|k: int|
                #![trigger r@[k]]
                0 <= k < r@.len() ==> {
                    &&& declares(file_targets@, file.body, r@[k].id@)
                    &&& declares(into_targets, into.body, r@[k].id@)
                    &&& target_span(file_targets@, r@[k].id@, 0) == Some(r@[k].span)
                    &&& i < file_ids@.len() ==> crate::text::text_lt(
                        r@[k].id@,
                        file_ids@[i as int]@,
                    )
                },
            forall|a: int, b: int|
                #![trigger r@[a], r@[b]]
                0 <= a < b < r@.len() ==> crate::text::text_lt(r@[a].id@, r@[b].id@),
            forall|j: int|
                #![trigger file_ids@[j]]
                0 <= j < i && declares(into_targets, into.body, file_ids@[j]@) && target_span(
                    file_targets@,
                    file_ids@[j]@,
                    0,
                ) is Some ==> collides_at(r@, file_ids@[j]@),
    {
        let ghost had = r@;
        let id = &file_ids[i];
        assert(holds(file_ids@, id@));
        if contains(into_ids, id.as_str()) {
            if let Some(span) = find_target(file_targets, id.as_str()) {
                r.push(RecordTarget { id: id.clone(), span });
            }
        }
        proof {
            assert forall|k: int| #![trigger r@[k]] 0 <= k < r@.len() implies {
                &&& declares(file_targets@, file.body, r@[k].id@)
                &&& declares(into_targets, into.body, r@[k].id@)
                &&& target_span(file_targets@, r@[k].id@, 0) == Some(r@[k].span)
                &&& i + 1 < file_ids@.len() ==> crate::text::text_lt(
                    r@[k].id@,
                    file_ids@[i + 1]@,
                )
            } by {
                if k < had.len() {
                    assert(r@[k] == had[k]);
                    if i + 1 < file_ids@.len() {
                        assert(crate::text::text_lt(file_ids@[i as int]@, file_ids@[i + 1]@));
                        crate::text::lemma_text_lt_transitive(
                            had[k].id@,
                            file_ids@[i as int]@,
                            file_ids@[i + 1]@,
                        );
                    }
                } else {
                    assert(holds(into_ids@, id@));
                    if i + 1 < file_ids@.len() {
                        assert(crate::text::text_lt(file_ids@[i as int]@, file_ids@[i + 1]@));
                    }
                }
            }
            assert forall|a: int, b: int|
                #![trigger r@[a], r@[b]]
                0 <= a < b < r@.len() implies crate::text::text_lt(r@[a].id@, r@[b].id@) by {
                if b < had.len() {
                    assert(r@[a] == had[a] && r@[b] == had[b]);
                } else {
                    assert(r@[a] == had[a]);
                }
            }
            assert forall|j: int|
                #![trigger file_ids@[j]]
                0 <= j < i + 1 && declares(into_targets, into.body, file_ids@[j]@) && target_span(
                    file_targets@,
                    file_ids@[j]@,
                    0,
                ) is Some implies collides_at(r@, file_ids@[j]@) by {
                if j < i {
                    let k = choose|k: int|
                        #![trigger had[k]]
                        0 <= k < had.len() && had[k].id@ == file_ids@[j]@;
                    assert(r@[k] == had[k]);
                } else {
                    assert(holds(into_ids@, file_ids@[j]@));
                    assert(r@[had.len() as int].id@ == file_ids@[j]@);
                }
            }
        }
    }
    proof {
        assert forall|q: Seq<char>|
            #![trigger collides_at(r@, q)]
            declares(file_targets@, file.body, q) && declares(into_targets, into.body, q)
                && target_span(file_targets@, q, 0) is Some implies collides_at(r@, q) by {
            assert(holds(file_ids@, q));
            let j = choose|j: int| 0 <= j < file_ids@.len() && #[trigger] file_ids@[j]@ == q;
            assert(file_ids@[j]@ == q);
        }
    }
    r
}

fn merge_ids(a: &Vec<String>, b: &Vec<String>) -> (r: Vec<String>)
    requires
        texts_ascend(a@),
    ensures
        texts_ascend(r@),
        forall|q: Seq<char>| #[trigger] holds(r@, q) == (holds(a@, q) || holds(b@, q)),
{
    let mut r = crate::text::copy_all(a);
    for i in 0..b.len()
        invariant
            texts_ascend(r@),
            forall|q: Seq<char>|
                #[trigger] holds(r@, q) == (holds(a@, q) || holds(b@.take(i as int), q)),
    {
        let ghost had = r@;
        add_text(&mut r, b[i].clone());
        assert forall|q: Seq<char>| #[trigger] holds(r@, q) == (holds(a@, q) || holds(
            b@.take(i + 1),
            q,
        )) by {
            let before = b@.take(i as int);
            let now = b@.take(i + 1);
            assert(holds(had, q) == (holds(a@, q) || holds(before, q)));
            assert(now[i as int] == b@[i as int]);
            if holds(before, q) {
                let k = choose|k: int| 0 <= k < before.len() && #[trigger] before[k]@ == q;
                assert(now[k]@ == q);
            }
            if holds(now, q) {
                let k = choose|k: int| 0 <= k < now.len() && #[trigger] now[k]@ == q;
                if k < i {
                    assert(before[k]@ == q);
                }
            }
        }
    }
    assert(b@.take(b@.len() as int) =~= b@);
    r
}

fn pick_cross(links: &Vec<Backlink>, file: &str, into: &str) -> (r: Vec<usize>)
    ensures
        ints(r@) == from_elsewhere(links@, file@, into@),
        forall|k: int| #![trigger r@[k]] 0 <= k < r@.len() ==> r@[k] < links@.len(),
{
    let mut r: Vec<usize> = Vec::new();
    let ghost p = |j: int|
        !same_path_spec(links@[j].source@, file@) && !same_path_spec(links@[j].source@, into@);
    assert(ints(r@) =~= chosen(p, 0));
    for j in 0..links.len()
        invariant
            p == (|j: int|
                !same_path_spec(links@[j].source@, file@) && !same_path_spec(
                    links@[j].source@,
                    into@,
                )),
            ints(r@) == chosen(p, j as int),
            forall|k: int| #![trigger r@[k]] 0 <= k < r@.len() ==> r@[k] < links@.len(),
    {
        let source = links[j].source.as_str();
        let hit = !same_path(source, file) && !same_path(source, into);
        assert(hit == p(j as int));
        if hit {
            let ghost before = r@;
            r.push(j);
            assert(ints(r@) =~= ints(before).push(j as int));
        }
    }
    r
}

fn pick_self(links: &Vec<Backlink>, file: &str) -> (r: Vec<ByteRange>)
    ensures
        r@ == from_file(links@, file@).map_values(|j: int| links@[j].span),
{
    let mut r: Vec<ByteRange> = Vec::new();
    let ghost p = |j: int| same_path_spec(links@[j].source@, file@);
    let ghost f = |j: int| links@[j].span;
    assert(r@ =~= chosen(p, 0).map_values(f));
    for j in 0..links.len()
        invariant
            p == (|j: int| same_path_spec(links@[j].source@, file@)),
            f == (|j: int| links@[j].span),
            r@ == chosen(p, j as int).map_values(f),
    {
        let hit = same_path(links[j].source.as_str(), file);
        assert(hit == p(j as int));
        if hit {
            r.push(links[j].span);
            assert(r@ =~= chosen(p, j + 1).map_values(f));
        }
    }
    r
}

/// The detail of a refusal that names the offending references.
pub open spec fn offenders_json(offences: Seq<Seq<char>>) -> JsonView {
    JsonView::Object(seq![("offenders"@, text_list(offences))])
}

/// Why a located file cannot be folded, if it cannot: the host's slot cannot hold
/// a record.
pub open spec fn slot_refusal(slot: Option<HostSlot>) -> Option<Seq<char>> {
    match slot {
        Some(s) => if s.inline_or_reference {
            None
        } else {
            Some(
                "inline into a reference-only slot (`"@ + s.shape@
                    + "`): it holds the `[[…]]` reference but cannot hold the inlined record — only an inline-or-reference (`&`) slot can be inlined into"@,
            )
        },
        None => None,
    }
}

pub open spec fn offenders_message() -> Seq<char> {
    "inline cannot re-point every referrer to the inlined block — some referrers reference the whole file or a heading inside it; resolve them first, or keep the file as its own node"@
}

/// Every offence of the references that would have to name the folded block: the
/// host's others first, then those of the other files.
pub open spec fn all_offences(
    probes: Seq<LinkProbe>,
    into: Seq<char>,
    into_other: Seq<ByteRange>,
    cross: Seq<Referrer>,
) -> Seq<Seq<char>> {
    offences_in(probes, into, into_other, into_other.len() as int) + offences_across(
        probes,
        cross,
        cross.len() as int,
    )
}

/// Whether this is what folding the file needs to know.
pub open spec fn is_inline_gather(
    g: InlineGather,
    kb: KnowledgeBase,
    file: Seq<char>,
    into: Seq<char>,
    spot: InlineSpot,
    file_targets: Seq<RecordTarget>,
    into_targets: Seq<RecordTarget>,
) -> bool {
    let links = inbound(kb.backlinks@, file);
    let fe = kb.catalog@[entry_of(kb.catalog@, file)->0];
    let ie = kb.catalog@[entry_of(kb.catalog@, into)->0];
    &&& g.value_span == spot.value_span
    &&& g.into_other@ == others(host_spans(links, file, into), spot.chosen)
    &&& is_referrers(g.cross@, kb.catalog@, links, from_elsewhere(links, file, into))
    &&& g.into_hash == held_hash(kb.catalog@, into)
    &&& g.file_hash == held_hash(kb.catalog@, file)
    &&& g.into_stem@ == file_stem_of(into)
    &&& texts_ascend(g.namespace@)
    &&& forall|q: Seq<char>|
        #[trigger] holds(g.namespace@, q) == (declares(file_targets, fe.body, q) || declares(
            into_targets,
            ie.body,
            q,
        ))
    &&& is_colliding(g.colliding@, file_targets, fe, into_targets, ie)
    &&& g.file_self@ == from_file(links, file).map_values(|j: int| links[j].span)
}

/// Gathers what folding a located file needs to know. `slot` is the declared slot
/// of the host's value, `file_targets` and `into_targets` are the records with
/// ids of the two files, `probes` is what is known of the references.
pub fn gather_inline(
    kb: &KnowledgeBase,
    file: &str,
    into: &str,
    spot: InlineSpot,
    slot: &Option<HostSlot>,
    file_targets: &Vec<RecordTarget>,
    into_targets: &Vec<RecordTarget>,
    probes: &Vec<LinkProbe>,
) -> (r: Result<InlineGather, Reject>)
    requires
        entry_of(kb.catalog@, file@) is Some,
        entry_of(kb.catalog@, into@) is Some,
    ensures
        match slot_refusal(*slot) {
            Some(m) => r matches Err(e) && e.message@ == m && e.detail is None,
            None => exists|g: InlineGather|
                #[trigger] is_inline_gather(
                    g,
                    *kb,
                    file@,
                    into@,
                    spot,
                    file_targets@,
                    into_targets@,
                ) && ({
                    let offences = all_offences(probes@, into@, g.into_other@, g.cross@);
                    if offences.len() > 0 {
                        r matches Err(e) && e.message@ == offenders_message() && (e.detail matches Some(
                            d,
                        ) && jv(d) == offenders_json(offences))
                    } else {
                        r == Ok::<InlineGather, Reject>(g)
                    }
                }),
        },
{
    if let Some(s) = slot {
        if !s.inline_or_reference {
            return Err(
                Reject::new(
                    joined3(
                        "inline into a reference-only slot (`",
                        s.shape.as_str(),
                        "`): it holds the `[[…]]` reference but cannot hold the inlined record — only an inline-or-reference (`&`) slot can be inlined into",
                    ),
                ),
            );
        }
    }
    let none: Vec<Backlink> = Vec::new();
    assert(none@ =~= Seq::empty());
    let links = match links_to(kb, file) {
        Some(l) => l,
        None => &none,
    };
    let f: usize = match find_entry(&kb.catalog, file) {
        Some(i) => i,
        None => 0,
    };
    let h: usize = match find_entry(&kb.catalog, into) {
        Some(i) => i,
        None => 0,
    };
    let file_ids = host_block_ids(file_targets, &kb.catalog[f].body);
    let into_ids = host_block_ids(into_targets, &kb.catalog[h].body);
    let colliding = find_colliding(
        &file_ids,
        &into_ids,
        file_targets,
        Ghost(kb.catalog@[f as int]),
        Ghost(kb.catalog@[h as int]),
        Ghost(into_targets@),
    );
    let namespace = merge_ids(&file_ids, &into_ids);
    let spans = sort(pick_host(links, file, into));
    let into_other = drop_span(&spans, spot.chosen);
    let picked = pick_cross(links, file, into);
    let cross = collect_referrers(&kb.catalog, links, &picked);
    let mut offences: Vec<String> = Vec::new();
    push_offences(probes, into, &into_other, &mut offences);
    let ghost head = views(offences@);
    assert(head =~= offences_in(probes@, into@, into_other@, into_other@.len() as int));
    assert(head + offences_across(probes@, cross@, 0) =~= head);
    for k in 0..cross.len()
        invariant
            views(offences@) == head + offences_across(probes@, cross@, k as int),
    {
        push_offences(probes, cross[k].path.as_str(), &cross[k].spans, &mut offences);
        assert(views(offences@) =~= head + offences_across(probes@, cross@, k + 1));
    }
    let g = InlineGather {
        value_span: spot.value_span,
        into_other,
        cross,
        into_hash: hash_of(&kb.catalog, into),
        file_hash: hash_of(&kb.catalog, file),
        into_stem: file_stem(into),
        namespace,
        colliding,
        file_self: pick_self(links, file),
    };
    assert(is_inline_gather(g, *kb, file@, into@, spot, file_targets@, into_targets@));
    assert(views(offences@).len() == offences@.len());
    if offences.len() > 0 {
        let mut b = ObjectBuilder::new();
        b.put("offenders", json_texts(&offences));
        assert(b@ =~= seq![("offenders"@, text_list(views(offences@)))]);
        return Err(
            Reject {
                message: "inline cannot re-point every referrer to the inlined block — some referrers reference the whole file or a heading inside it; resolve them first, or keep the file as its own node".to_owned(),
                detail: Some(b.done()),
            },
        );
    }
    Ok(g)
}

/// The fresh id for each colliding one, and the edit of its declaration.
pub open spec fn is_renaming(
    changes: Seq<IdChange>,
    edits: Seq<(ByteRange, String)>,
    colliding: Seq<RecordTarget>,
    fresh: Seq<String>,
) -> bool {
    &&& changes.len() == colliding.len()
    &&& edits.len() == colliding.len()
    &&& forall|k: int|
        #![trigger changes[k]]
        0 <= k < colliding.len() ==> changes[k].from == colliding[k].id && changes[k].to
            == fresh[k]
    &&& forall|k: int|
        #![trigger edits[k]]
        0 <= k < colliding.len() ==> edits[k] == (colliding[k].span, fresh[k])
}

/// Gives each colliding id its fresh one.
pub fn rename_colliding(colliding: &Vec<RecordTarget>, fresh: &Vec<String>) -> (r: (
    Vec<IdChange>,
    Vec<(ByteRange, String)>,
))
    requires
        fresh@.len() >= colliding@.len(),
    ensures
        is_renaming(r.0@, r.1@, colliding@, fresh@),
{
    let mut changes: Vec<IdChange> = Vec::new();
    let mut edits: Vec<(ByteRange, String)> = Vec::new();
    for k in 0..colliding.len()
        invariant
            fresh@.len() >= colliding@.len(),
            changes@.len() == k,
            edits@.len() == k,
            forall|j: int|
                #![trigger changes@[j]]
                0 <= j < k ==> changes@[j].from == colliding@[j].id && changes@[j].to == fresh@[j],
            forall|j: int|
                #![trigger edits@[j]]
                0 <= j < k ==> edits@[j] == (colliding@[j].span, fresh@[j]),
    {
        changes.push(IdChange { from: colliding[k].id.clone(), to: fresh[k].clone() });
        edits.push((colliding[k].span, fresh[k].clone()));
    }
    (changes, edits)
}

/// Every reference to the file stands in the file, in the host or elsewhere, so
/// each is rewritten in exactly one way.
pub proof fn references_are_rewritten_once(
    links: Seq<Backlink>,
    file: Seq<char>,
    into: Seq<char>,
    n: int,
)
    requires
        0 <= n,
    ensures
        chosen(|j: int| same_path_spec(links[j].source@, file), n).len() + chosen(
            |j: int|
                !same_path_spec(links[j].source@, file) && same_path_spec(links[j].source@, into),
            n,
        ).len() + chosen(
            |j: int|
                !same_path_spec(links[j].source@, file) && !same_path_spec(
                    links[j].source@,
                    into,
                ),
            n,
        ).len() == n,
    decreases n,
{
    if n > 0 {
        references_are_rewritten_once(links, file, into, n - 1);
    }
}

} // verus!
