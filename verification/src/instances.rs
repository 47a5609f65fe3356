//! The instances of a type, and the resolved view of one instance.

use crate::ast::{claim_items, ClaimedName, FileParse, TypeClaim};
use crate::diagnostics::{serve_diagnostics, served_at, Diagnostic};
use crate::frames::{make_ready_frame, ready_frame};
use crate::graph::nodes::{chosen, ints};
use crate::json::{
    copy_json, json_opt_text, json_texts, jv, set_member, text_list, text_or_null, with_member, with_opt,
    Json, JsonView, ListBuilder, ObjectBuilder,
};
use crate::model::{entry_of, find_entry, CatalogEntry};
use crate::neighborhood::{file_body, find_read, read_body_at, read_from, FileRead};
use crate::paths::{same_path, same_path_spec};
use crate::text::{contains, holds, joined3, same, views};
use vstd::prelude::*;

verus! {

/// A record that claims a type, as the index lists it.
#[derive(Debug)]
pub struct MatchRecord {
    /// The file that holds the record.
    pub path: String,
    pub record: Json,
}

/// The resolved view of one file.
#[derive(Debug)]
pub struct InstanceFact {
    pub path: String,
    pub view: Json,
}

/// The view of a file, searching from `i` on.
pub open spec fn fact_from(facts: Seq<InstanceFact>, path: Seq<char>, i: int) -> JsonView
    decreases facts.len() - i,
{
    if i < 0 || i >= facts.len() {
        JsonView::Null
    } else if facts[i].path@ == path {
        jv(facts[i].view)
    } else {
        fact_from(facts, path, i + 1)
    }
}

fn fact_of(facts: &Vec<InstanceFact>, path: &str) -> (r: Json)
    ensures
        jv(r) == fact_from(facts@, path@, 0),
{
    for i in 0..facts.len()
        invariant
            fact_from(facts@, path@, 0) == fact_from(facts@, path@, i as int),
    {
        if same(facts[i].path.as_str(), path) {
            return copy_json(&facts[i].view);
        }
    }
    Json::Null
}

/// The prose of a file among those that were read; `null` where there is none.
pub open spec fn body_fact(files: Seq<FileRead>, path: Seq<char>) -> JsonView {
    match read_from(files, path, 0) {
        Some(i) => text_or_null(file_body(files[i])),
        None => JsonView::Null,
    }
}

fn body_json(files: &Vec<FileRead>, path: &str) -> (r: Json)
    ensures
        jv(r) == body_fact(files@, path@),
{
    match find_read(files, path) {
        Some(i) => json_opt_text(&read_body_at(&files[i])),
        None => Json::Null,
    }
}

/// A record with the facts that were asked for.
pub open spec fn full_record(
    m: MatchRecord,
    want_instance: bool,
    want_body: bool,
    facts: Seq<InstanceFact>,
    files: Seq<FileRead>,
) -> JsonView {
    let base = jv(m.record);
    let with_instance = if want_instance {
        with_member(base, "instance"@, fact_from(facts, m.path@, 0))
    } else {
        base
    };
    if want_body {
        with_member(with_instance, "body"@, body_fact(files, m.path@))
    } else {
        with_instance
    }
}

pub open spec fn full_records(
    records: Seq<MatchRecord>,
    want_instance: bool,
    want_body: bool,
    facts: Seq<InstanceFact>,
    files: Seq<FileRead>,
) -> Seq<JsonView> {
    Seq::new(
        records.len(),
        |i: int| full_record(records[i], want_instance, want_body, facts, files),
    )
}

/// The reply to an `instances_of` read: the records in the order of the index,
/// each with the facts of its file.
pub fn instances_of_response(
    version: u64,
    records: &Vec<MatchRecord>,
    want_instance: bool,
    want_body: bool,
    facts: &Vec<InstanceFact>,
    files: &Vec<FileRead>,
) -> (r: Json)
    ensures
        jv(r) == ready_frame(
            version as nat,
            JsonView::Object(
                seq![
                    (
                        "instances_of"@,
                        JsonView::List(
                            full_records(records@, want_instance, want_body, facts@, files@),
                        ),
                    ),
                ],
            ),
        ),
{
    let mut list = ListBuilder::new();
    let ghost all = full_records(records@, want_instance, want_body, facts@, files@);
    assert(list@ =~= all.take(0));
    for i in 0..records.len()
        invariant
            all == full_records(records@, want_instance, want_body, facts@, files@),
            list@ == all.take(i as int),
    {
        let mut rec = copy_json(&records[i].record);
        if want_instance {
            let view = fact_of(facts, records[i].path.as_str());
            rec = set_member(rec, "instance", view);
        }
        if want_body {
            let body = body_json(files, records[i].path.as_str());
            rec = set_member(rec, "body", body);
        }
        list.put(rec);
        assert(list@ =~= all.take(i + 1));
    }
    assert(all.take(all.len() as int) =~= all);
    let mut b = ObjectBuilder::new();
    b.put("instances_of", list.done());
    assert(b@ =~= seq![("instances_of"@, JsonView::List(all))]);
    make_ready_frame(version, b.done())
}

/// The files of the first `n` records, each where it comes first.
pub open spec fn first_records(records: Seq<MatchRecord>, n: int) -> Seq<Seq<char>>
    decreases n,
{
    if n <= 0 {
        Seq::empty()
    } else {
        let before = first_records(records, n - 1);
        if before.contains(records[n - 1].path@) {
            before
        } else {
            before.push(records[n - 1].path@)
        }
    }
}

/// The files of the records, each once, in the order of the records: what is
/// resolved and read for the facts.
pub fn record_paths(records: &Vec<MatchRecord>) -> (r: Vec<String>)
    ensures
        views(r@) == first_records(records@, records@.len() as int),
{
    let mut out: Vec<String> = Vec::new();
    assert(views(out@) =~= Seq::empty());
    for i in 0..records.len()
        invariant
            views(out@) == first_records(records@, i as int),
    {
        let ghost path = records@[i as int].path@;
        proof {
            assert(holds(out@, path) == views(out@).contains(path)) by {
                if holds(out@, path) {
                    let k = choose|k: int| 0 <= k < out@.len() && #[trigger] out@[k]@ == path;
                    assert(views(out@)[k] == path);
                }
                if views(out@).contains(path) {
                    let k = views(out@).index_of(path);
                    assert(out@[k]@ == path);
                }
            }
        }
        if !contains(&out, records[i].path.as_str()) {
            let p = records[i].path.clone();
            proof {
                crate::text::lemma_views_push(out@, p);
            }
            out.push(p);
        }
    }
    out
}

/// The facts of a file are brought once, and every record has them.
pub proof fn facts_are_brought_once(records: Seq<MatchRecord>, n: int)
    requires
        0 <= n <= records.len(),
    ensures
        first_records(records, n).no_duplicates(),
        forall|i: int| 0 <= i < n ==> first_records(records, n).contains(#[trigger] records[i].path@),
    decreases n,
{
    if n > 0 {
        facts_are_brought_once(records, n - 1);
        let before = first_records(records, n - 1);
        let now = first_records(records, n);
        assert forall|i: int| 0 <= i < n implies now.contains(#[trigger] records[i].path@) by {
            if i < n - 1 {
                let k = before.index_of(records[i].path@);
                assert(now[k] == records[i].path@);
            } else if !before.contains(records[n - 1].path@) {
                assert(now[before.len() as int] == records[n - 1].path@);
            }
        }
    }
}

/// A name as it is written: with its repo behind two colons where it has one.
pub open spec fn authored(c: ClaimedName) -> Seq<char> {
    match c.repo {
        Some(r) => c.name@ + "::"@ + r@,
        None => c.name@,
    }
}

pub fn authored_name(c: &ClaimedName) -> (r: String)
    ensures
        r@ == authored(*c),
{
    match &c.repo {
        Some(r) => joined3(c.name.as_str(), "::", r.as_str()),
        None => c.name.clone(),
    }
}

/// The names as they are written.
pub open spec fn authored_names(items: Seq<ClaimedName>) -> Seq<Seq<char>> {
    Seq::new(items.len(), |i: int| authored(items[i]))
}

/// The names of a claim as they are written.
pub fn authored_claim(claim: &TypeClaim) -> (r: Vec<String>)
    ensures
        views(r@) == authored_names(claim_items(*claim)),
{
    let ghost all = authored_names(claim_items(*claim));
    let mut out: Vec<String> = Vec::new();
    match claim {
        TypeClaim::Bare(c) => {
            out.push(authored_name(c));
        },
        TypeClaim::List(items) => {
            for i in 0..items.len()
                invariant
                    all == authored_names(items@),
                    views(out@) == all.take(i as int),
            {
                let name = authored_name(&items[i]);
                proof {
                    crate::text::lemma_views_push(out@, name);
                }
                out.push(name);
                assert(views(out@) =~= all.take(i + 1));
            }
            assert(all.take(all.len() as int) =~= all);
        },
    }
    assert(views(out@) =~= all);
    out
}

/// The values of an instance, as the value layer serves them.
#[derive(Debug)]
pub struct ValueLayer {
    pub effective_values: Json,
    pub section_presence: Option<Json>,
    pub body_events: Option<Json>,
}

/// What the engine resolved of an instance.
#[derive(Debug)]
pub struct HeldInstance {
    /// The closure of the claim; absent when the claim did not resolve.
    pub closure: Option<Vec<String>>,
    pub candidates: Json,
    pub layer: Option<ValueLayer>,
    /// The addressable records; empty when there are none.
    pub record_block_ids: Vec<Json>,
}

fn opt_json(j: &Option<Json>) -> (r: Json)
    ensures
        jv(r) == value_or_null(*j),
{
    match j {
        Some(x) => copy_json(x),
        None => Json::Null,
    }
}

pub open spec fn value_or_null(j: Option<Json>) -> JsonView {
    match j {
        Some(x) => jv(x),
        None => JsonView::Null,
    }
}

/// The diagnostics of one file.
pub open spec fn file_diagnostics(all: Seq<Diagnostic>, path: Seq<char>) -> Seq<int> {
    chosen(|i: int| same_path_spec(all[i].file@, path), all.len() as int)
}

pub open spec fn closure_view(closure: Option<Vec<String>>) -> Seq<Seq<char>> {
    match closure {
        Some(c) => views(c@),
        None => Seq::empty(),
    }
}

/// The values, the sections and the body events of an instance.
pub open spec fn layer_view(layer: Option<ValueLayer>) -> (JsonView, JsonView, JsonView) {
    match layer {
        Some(l) => (
            jv(l.effective_values),
            value_or_null(l.section_presence),
            value_or_null(l.body_events),
        ),
        None => (JsonView::List(Seq::empty()), JsonView::Null, JsonView::Null),
    }
}

/// The resolved view of an instance. A claim that did not resolve has an empty
/// closure; without a value layer there are no values.
pub open spec fn resolved_members(
    claim: TypeClaim,
    held: HeldInstance,
    all: Seq<Diagnostic>,
    path: Seq<char>,
) -> Seq<(Seq<char>, JsonView)> {
    let (values, sections, events) = layer_view(held.layer);
    let head = seq![
        ("resolved"@, JsonView::Bool(held.closure is Some)),
        ("claim"@, text_list(authored_names(claim_items(claim)))),
        ("closure"@, text_list(closure_view(held.closure))),
        ("candidates"@, jv(held.candidates)),
        ("effective_values"@, values),
        ("section_presence"@, sections),
        ("body_events"@, events),
    ];
    let records = Seq::new(held.record_block_ids@.len(), |i: int| jv(held.record_block_ids@[i]));
    with_opt(
        head,
        "record_block_ids"@,
        if records.len() > 0 {
            Some(JsonView::List(records))
        } else {
            None
        },
    ).push(("diagnostics"@, served_at(all, file_diagnostics(all, path))))
}

/// The resolved view of a file; `null` for one that is no parsed instance or that
/// the engine did not resolve.
pub open spec fn resolved_json(
    catalog: Seq<CatalogEntry>,
    all: Seq<Diagnostic>,
    path: Seq<char>,
    held: Option<HeldInstance>,
) -> JsonView {
    match (entry_of(catalog, path), held) {
        (Some(i), Some(h)) => match catalog[i].parse {
            FileParse::Instance(Some(inst)) => JsonView::Object(
                resolved_members(inst.type_claim, h, all, path),
            ),
            _ => JsonView::Null,
        },
        _ => JsonView::Null,
    }
}

fn diagnostics_of(all: &Vec<Diagnostic>, path: &str) -> (r: Vec<usize>)
    ensures
        ints(r@) == file_diagnostics(all@, path@),
        forall|k: int| #![trigger r@[k]] 0 <= k < r@.len() ==> r@[k] < all@.len(),
{
    let mut out: Vec<usize> = Vec::new();
    let ghost keep = |i: int| same_path_spec(all@[i].file@, path@);
    assert(ints(out@) =~= chosen(keep, 0));
    for i in 0..all.len()
        invariant
            keep == (|i: int| same_path_spec(all@[i].file@, path@)),
            ints(out@) == chosen(keep, i as int),
            forall|k: int| #![trigger out@[k]] 0 <= k < out@.len() ==> out@[k] < all@.len(),
    {
        if same_path(all[i].file.as_str(), path) {
            let ghost before = out@;
            out.push(i);
            assert(ints(out@) =~= ints(before).push(i as int));
        }
    }
    out
}

/// The resolved view of a file.
pub fn resolved_view(
    catalog: &Vec<CatalogEntry>,
    all: &Vec<Diagnostic>,
    path: &str,
    held: &Option<HeldInstance>,
) -> (r: Json)
    ensures
        jv(r) == resolved_json(catalog@, all@, path@, *held),
{
    let at = find_entry(catalog, path);
    let (i, h) = match (at, held) {
        (Some(i), Some(h)) => (i, h),
        _ => {
            return Json::Null;
        },
    };
    let inst = match &catalog[i].parse {
        FileParse::Instance(Some(inst)) => inst,
        _ => {
            return Json::Null;
        },
    };
    let mut b = ObjectBuilder::new();
    let claim = authored_claim(&inst.type_claim);
    b.put("resolved", Json::Bool(h.closure.is_some()));
    b.put("claim", json_texts(&claim));
    match &h.closure {
        Some(c) => b.put("closure", json_texts(c)),
        None => {
            let none: Vec<String> = Vec::new();
            assert(views(none@) =~= Seq::empty());
            b.put("closure", json_texts(&none));
        },
    }
    b.put("candidates", copy_json(&h.candidates));
    match &h.layer {
        Some(l) => {
            b.put("effective_values", copy_json(&l.effective_values));
            b.put("section_presence", opt_json(&l.section_presence));
            b.put("body_events", opt_json(&l.body_events));
        },
        None => {
            b.put("effective_values", ListBuilder::new().done());
            b.put("section_presence", Json::Null);
            b.put("body_events", Json::Null);
        },
    }
    proof {
        let (values, sections, events) = layer_view(h.layer);
        assert(b@ =~= seq![
            ("resolved"@, JsonView::Bool(h.closure is Some)),
            (
                "claim"@,
                text_list(authored_names(claim_items(inst.type_claim))),
            ),
            ("closure"@, text_list(closure_view(h.closure))),
            ("candidates"@, jv(h.candidates)),
            ("effective_values"@, values),
            ("section_presence"@, sections),
            ("body_events"@, events),
        ]);
    }
    let ghost records = Seq::new(h.record_block_ids@.len(), |i: int| jv(h.record_block_ids@[i]));
    if h.record_block_ids.len() > 0 {
        let mut list = ListBuilder::new();
        assert(list@ =~= records.take(0));
        for k in 0..h.record_block_ids.len()
            invariant
                records == Seq::new(
                    h.record_block_ids@.len(),
                    |i: int| jv(h.record_block_ids@[i]),
                ),
                list@ == records.take(k as int),
        {
            list.put(copy_json(&h.record_block_ids[k]));
            assert(list@ =~= records.take(k + 1));
        }
        assert(records.take(records.len() as int) =~= records);
        b.put("record_block_ids", list.done());
    }
    let mine = diagnostics_of(all, path);
    b.put("diagnostics", serve_diagnostics(all, &mine));
    b.done()
}

} // verus!
