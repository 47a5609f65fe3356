//! What is served of an instance.

use crate::ast::{ClaimedName, FileParse, Instance, TypeClaim};
use crate::diagnostics::{served_at, Diagnostic};
use crate::graph::nodes::{chosen, lemma_chosen};
use crate::instances::{
    authored, authored_names, fact_from, file_diagnostics, full_records, resolved_json,
    resolved_members, HeldInstance, InstanceFact, MatchRecord,
};
use crate::json::{jv, text_list, with_member, JsonView};
use crate::model::{entry_of, CatalogEntry};
use crate::neighborhood::FileRead;
use crate::paths::same_path_spec;
use crate::text::views;
use vstd::prelude::*;

verus! {

/// The members of the resolved view of a parsed instance.
pub open spec fn view_members(
    catalog: Seq<CatalogEntry>,
    all: Seq<Diagnostic>,
    path: Seq<char>,
    held: HeldInstance,
) -> Seq<(Seq<char>, JsonView)> {
    match resolved_json(catalog, all, path, Some(held)) {
        JsonView::Object(m) => m,
        _ => Seq::empty(),
    }
}

/// Whether the catalogued file at `i` is an instance that parsed.
pub open spec fn is_instance_at(catalog: Seq<CatalogEntry>, path: Seq<char>, i: int, inst: Instance) -> bool {
    entry_of(catalog, path) == Some(i) && catalog[i].parse == FileParse::Instance(Some(inst))
}

/// Nothing but a parsed instance that the engine resolved has a resolved view.
pub proof fn only_instances_are_resolved(
    catalog: Seq<CatalogEntry>,
    all: Seq<Diagnostic>,
    path: Seq<char>,
    held: Option<HeldInstance>,
)
    ensures
        resolved_json(catalog, all, path, held) is Object == (held is Some && exists|
            i: int,
            inst: Instance,
        | #[trigger] is_instance_at(catalog, path, i, inst)),
        !(resolved_json(catalog, all, path, held) is Object) ==> resolved_json(
            catalog,
            all,
            path,
            held,
        ) is Null,
{
    if let (Some(i), Some(h)) = (entry_of(catalog, path), held) {
        if let FileParse::Instance(Some(inst)) = catalog[i].parse {
            assert(is_instance_at(catalog, path, i, inst));
        }
    }
}

/// The values of a held instance are served as its value layer has them; without a layer
/// there are none.
pub proof fn the_values_are_those_of_the_layer(
    catalog: Seq<CatalogEntry>,
    all: Seq<Diagnostic>,
    path: Seq<char>,
    held: HeldInstance,
    i: int,
    inst: Instance,
)
    requires
        is_instance_at(catalog, path, i, inst),
    ensures
        ({
            let m = view_members(catalog, all, path, held);
            match held.layer {
                Some(l) => {
                    &&& m.contains(("effective_values"@, jv(l.effective_values)))
                    &&& match l.section_presence {
                        Some(s) => m.contains(("section_presence"@, jv(s))),
                        None => m.contains(("section_presence"@, JsonView::Null)),
                    }
                    &&& match l.body_events {
                        Some(b) => m.contains(("body_events"@, jv(b))),
                        None => m.contains(("body_events"@, JsonView::Null)),
                    }
                },
                None => {
                    &&& m.contains(("effective_values"@, JsonView::List(Seq::empty())))
                    &&& m.contains(("section_presence"@, JsonView::Null))
                    &&& m.contains(("body_events"@, JsonView::Null))
                },
            }
        }),
{
    let m = view_members(catalog, all, path, held);
    let r = resolved_members(inst.type_claim, held, all, path);
    assert(m == r);
    assert(m[4] == r[4] && m[5] == r[5] && m[6] == r[6]);
}

/// Whether the claim of an instance is served as it is written: a name with its repo behind
/// two colons, in the order of the claim.
pub open spec fn writes_claim(claim: TypeClaim, served: Seq<Seq<char>>) -> bool {
    match claim {
        TypeClaim::Bare(c) => served.len() == 1 && writes_name(c, served[0]),
        TypeClaim::List(items) => served.len() == items@.len() && forall|k: int|
            #![trigger items@[k]]
            0 <= k < items@.len() ==> writes_name(items@[k], served[k]),
    }
}

/// Whether a text is how a name is written: bare, or with the repo that it is qualified by.
pub open spec fn writes_name(c: ClaimedName, s: Seq<char>) -> bool {
    match c.repo {
        Some(r) => s == c.name@ + "::"@ + r@,
        None => s == c.name@,
    }
}

/// The claim is served as it is written, whether it resolved, to which closure, with which
/// candidates, and with the diagnostics of the file.
pub proof fn the_claim_is_served_with_what_it_resolved_to(
    catalog: Seq<CatalogEntry>,
    all: Seq<Diagnostic>,
    path: Seq<char>,
    held: HeldInstance,
    i: int,
    inst: Instance,
)
    requires
        is_instance_at(catalog, path, i, inst),
    ensures
        ({
            let m = view_members(catalog, all, path, held);
            &&& m.contains(("resolved"@, JsonView::Bool(held.closure is Some)))
            &&& exists|names: Seq<Seq<char>>| #[trigger]
                writes_claim(inst.type_claim, names) && m.contains(("claim"@, text_list(names)))
            &&& match held.closure {
                Some(c) => m.contains(("closure"@, text_list(views(c@)))),
                None => m.contains(("closure"@, text_list(Seq::empty()))),
            }
            &&& m.contains(("candidates"@, jv(held.candidates)))
            &&& m.contains(("diagnostics"@, served_at(all, file_diagnostics(all, path))))
        }),
{
    let m = view_members(catalog, all, path, held);
    let r = resolved_members(inst.type_claim, held, all, path);
    assert(m == r);
    let names = authored_names(crate::ast::claim_items(inst.type_claim));
    match inst.type_claim {
        TypeClaim::Bare(c) => {
            assert(names[0] == authored(c));
        },
        TypeClaim::List(items) => {
            assert forall|k: int| #![trigger items@[k]] 0 <= k < items@.len() implies writes_name(
                items@[k],
                names[k],
            ) by {
                assert(names[k] == authored(items@[k]));
            }
        },
    }
    assert(writes_claim(inst.type_claim, names));
    assert(m[0] == r[0] && m[1] == r[1] && m[2] == r[2] && m[3] == r[3]);
    assert(m[m.len() - 1] == ("diagnostics"@, served_at(all, file_diagnostics(all, path))));
}

/// The records of an instance are served where it has any.
pub proof fn the_records_are_served_where_there_are_any(
    catalog: Seq<CatalogEntry>,
    all: Seq<Diagnostic>,
    path: Seq<char>,
    held: HeldInstance,
    i: int,
    inst: Instance,
)
    requires
        is_instance_at(catalog, path, i, inst),
        held.record_block_ids@.len() > 0,
    ensures
        exists|records: Seq<JsonView>|
            #![trigger records.len()]
            records.len() == held.record_block_ids@.len() && (forall|k: int|
                0 <= k < records.len() ==> records[k] == jv(
                    #[trigger] held.record_block_ids@[k],
                )) && view_members(catalog, all, path, held).contains(
                ("record_block_ids"@, JsonView::List(records)),
            ),
{
    let m = view_members(catalog, all, path, held);
    let r = resolved_members(inst.type_claim, held, all, path);
    assert(m == r);
    let records = Seq::new(held.record_block_ids@.len(), |i: int| jv(held.record_block_ids@[i]));
    assert(m[7] == ("record_block_ids"@, JsonView::List(records)));
    assert(records.len() == held.record_block_ids@.len());
}

/// The diagnostics of a file are those that name it, and no others.
pub proof fn the_diagnostics_are_those_of_the_file(all: Seq<Diagnostic>, path: Seq<char>, k: int)
    requires
        0 <= k < all.len(),
    ensures
        file_diagnostics(all, path).contains(k) == same_path_spec(all[k].file@, path),
{
    let p = |i: int| same_path_spec(all[i].file@, path);
    lemma_chosen(p, all.len() as int);
    let s = chosen(p, all.len() as int);
    if s.contains(k) {
        let j = choose|j: int| 0 <= j < s.len() && s[j] == k;
        assert(p(s[j]));
    }
    if same_path_spec(all[k].file@, path) {
        assert(p(k));
    }
}

proof fn lemma_fact(facts: Seq<InstanceFact>, path: Seq<char>, i: int, k: int)
    requires
        0 <= i <= k < facts.len(),
        facts[k].path@ == path,
        forall|j: int| #![trigger facts[j]] i <= j < k ==> facts[j].path@ != path,
    ensures
        fact_from(facts, path, i) == jv(facts[k].view),
    decreases k - i,
{
    if i < k {
        assert(facts[i].path@ != path);
        lemma_fact(facts, path, i + 1, k);
    }
}

/// A record of an `instances_of` read is the record of the index at its place, with the
/// resolved view of its own file where that is asked for.
pub proof fn a_record_has_the_view_of_its_file(
    records: Seq<MatchRecord>,
    want_body: bool,
    facts: Seq<InstanceFact>,
    files: Seq<FileRead>,
    i: int,
    k: int,
)
    requires
        0 <= i < records.len(),
        0 <= k < facts.len(),
        facts[k].path@ == records[i].path@,
        forall|j: int| #![trigger facts[j]] 0 <= j < k ==> facts[j].path@ != records[i].path@,
    ensures
        full_records(records, true, false, facts, files)[i] == with_member(
            jv(records[i].record),
            "instance"@,
            jv(facts[k].view),
        ),
        full_records(records, false, false, facts, files)[i] == jv(records[i].record),
        full_records(records, true, want_body, facts, files).len() == records.len(),
{
    lemma_fact(facts, records[i].path@, 0, k);
}

} // verus!
