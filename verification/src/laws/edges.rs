//! What a reference is told as.

use crate::ast::FileParse;
use crate::edges::{
    all_pins, backlink_list, edge_kind, gate_of, outgoing_list, pin_members, pins_in, slot_admits,
    EdgeKind, Slot, SlotGate, SourceEdge, SourceFile,
};
use crate::graph::links::surface_label;
use crate::json::{jv, text_or_null, JsonView};
use crate::laws::json::{lemma_opt, lemma_opt_text, lemma_push, tells};
use crate::model::{owner_name, Backlink, RefSurface, Repo};
use crate::mutation::links::block_view;
use crate::neighborhood::block_json;
use crate::text::opt_view;
use vstd::prelude::*;

verus! {

/// A reference in a body contributes to a field when it names one, and is navigation
/// otherwise.
pub proof fn a_link_in_a_body_is_told_by_its_form(edge: SourceEdge, gate: SlotGate)
    requires
        edge.surface == RefSurface::Body,
        edge.link.commit is None,
    ensures
        edge_kind(edge, gate) == (if edge.link.field is Some {
            EdgeKind::Contributing
        } else {
            EdgeKind::Navigational
        }),
{
}

/// A link that names a commit and no file refers to the commit, wherever it stands.
pub proof fn a_link_to_a_commit_refers_to_it(edge: SourceEdge, gate: SlotGate)
    ensures
        (edge_kind(edge, gate) == EdgeKind::CommitReferent) == (edge.link.commit is Some
            && edge.link.target@.len() == 0),
{
}

/// Whether the first slot with this name takes references.
pub open spec fn admitted(slots: Seq<Slot>, name: Seq<char>) -> bool {
    exists|k: int|
        0 <= k < slots.len() && (#[trigger] slots[k]).name@ == name && slots[k].admits_reference
            && forall|j: int| #![trigger slots[j]] 0 <= j < k ==> slots[j].name@ != name
}

proof fn lemma_admits(slots: Seq<Slot>, name: Seq<char>, i: int)
    requires
        0 <= i,
        forall|j: int| #![trigger slots[j]] 0 <= j < i && j < slots.len() ==> slots[j].name@ != name,
    ensures
        slot_admits(slots, name, i) == admitted(slots, name),
    decreases slots.len() - i,
{
    if i < slots.len() {
        if slots[i].name@ == name {
            if admitted(slots, name) {
                let k = choose|k: int|
                    0 <= k < slots.len() && (#[trigger] slots[k]).name@ == name
                        && slots[k].admits_reference && forall|j: int|
                        #![trigger slots[j]]
                        0 <= j < k ==> slots[j].name@ != name;
                assert(k == i) by {
                    if i < k {
                        assert(slots[i].name@ != name);
                    }
                }
            }
        } else {
            lemma_admits(slots, name, i + 1);
        }
    } else if admitted(slots, name) {
        let k = choose|k: int|
            0 <= k < slots.len() && (#[trigger] slots[k]).name@ == name && slots[k].admits_reference
                && forall|j: int| #![trigger slots[j]] 0 <= j < k ==> slots[j].name@ != name;
        assert(slots[k].name@ != name);
    }
}

/// A link that is the whole value of a field is a reference exactly where the field of the
/// resolved shape takes references; elsewhere in the frontmatter of a note, or inside a
/// longer text, it is a string.
pub proof fn a_field_reference_fills_a_field_that_takes_one(
    edge: SourceEdge,
    parse: FileParse,
    slots: Vec<Slot>,
    name: String,
)
    requires
        edge.surface != RefSurface::Body,
        edge.link.commit is None,
        edge.slot == Some(name),
    ensures
        ({
            let kind = edge_kind(edge, gate_of(parse, Some(slots)));
            kind == (if !(parse is Note) && edge.whole_value && admitted(slots@, name@) {
                EdgeKind::FieldReference
            } else {
                EdgeKind::FieldStringWikilink
            })
        }),
{
    lemma_admits(slots@, name@, 0);
}

/// A reference that leaves a file is told at its place in the file's order, with what it
/// names, where it leads, where it stands and what it is.
pub proof fn an_outgoing_reference_is_told_whole(
    edges: Seq<SourceEdge>,
    gate: SlotGate,
    i: int,
)
    requires
        0 <= i < edges.len(),
    ensures
        outgoing_list(edges, gate).len() == edges.len(),
        outgoing_list(edges, gate)[i] matches JsonView::Object(m) && {
            let e = edges[i];
            &&& tells(m, "target"@, JsonView::Text(e.link.target@))
            &&& tells(m, "resolved"@, text_or_null(opt_view(e.resolved)))
            &&& tells(m, "span"@, jv(e.span))
            &&& e.link.repo matches Some(r) ==> tells(m, "repo"@, JsonView::Text(r@))
            &&& e.link.commit matches Some(c) ==> tells(m, "commit"@, JsonView::Text(c@))
            &&& e.link.anchor matches Some(a) ==> tells(m, "anchor"@, JsonView::Text(a@))
            &&& e.slot matches Some(f) ==> tells(m, "field"@, JsonView::Text(f@))
            &&& e.source_block_id matches Some(b) ==> tells(
                m,
                "source_block_id"@,
                JsonView::Text(b@),
            )
            &&& block_json(block_view(e.link.block_id)) matches Some(b) ==> tells(m, "block_id"@, b)
            &&& tells(m, "surface"@, JsonView::Text(surface_label(e.surface)))
            &&& tells(m, "kind"@, JsonView::Text(edge_kind(e, gate).label_spec()))
        },
{
    let e = edges[i];
    let head = seq![
        ("target"@, JsonView::Text(e.link.target@)),
        ("resolved"@, text_or_null(opt_view(e.resolved))),
        ("span"@, jv(e.span)),
    ];
    assert(head[0] == ("target"@, JsonView::Text(e.link.target@)));
    assert(head[1] == ("resolved"@, text_or_null(opt_view(e.resolved))));
    assert(head[2] == ("span"@, jv(e.span)));
    assert(tells(head, "target"@, JsonView::Text(e.link.target@)));
    assert(tells(head, "resolved"@, text_or_null(opt_view(e.resolved))));
    assert(tells(head, "span"@, jv(e.span)));
    let a = crate::json::with_opt_text(head, "repo"@, opt_view(e.link.repo));
    lemma_opt_text(head, "repo"@, opt_view(e.link.repo));
    let b = crate::json::with_opt_text(a, "commit"@, opt_view(e.link.commit));
    lemma_opt_text(a, "commit"@, opt_view(e.link.commit));
    let c = crate::json::with_opt_text(b, "anchor"@, opt_view(e.link.anchor));
    lemma_opt_text(b, "anchor"@, opt_view(e.link.anchor));
    let d = crate::json::with_opt(c, "block_id"@, block_json(block_view(e.link.block_id)));
    lemma_opt(c, "block_id"@, block_json(block_view(e.link.block_id)));
    let f = crate::json::with_opt_text(d, "field"@, opt_view(e.slot));
    lemma_opt_text(d, "field"@, opt_view(e.slot));
    let g = crate::json::with_opt_text(f, "source_block_id"@, opt_view(e.source_block_id));
    lemma_opt_text(f, "source_block_id"@, opt_view(e.source_block_id));
    let surface = JsonView::Text(surface_label(e.surface));
    let kind = JsonView::Text(edge_kind(e, gate).label_spec());
    lemma_push(g, "surface"@, surface);
    lemma_push(g.push(("surface"@, surface)), "kind"@, kind);
}

/// Every reference that reaches a file is told with the file that it stands in, its slot,
/// its place and what it is; the repo of its source where that is not the target's.
pub proof fn a_backlink_is_told_whole(
    repos: Seq<Repo>,
    target: Seq<char>,
    edges: Seq<Backlink>,
    i: int,
)
    requires
        0 <= i < edges.len(),
    ensures
        backlink_list(repos, target, edges).len() == edges.len(),
        backlink_list(repos, target, edges)[i] matches JsonView::Object(m) && {
            let b = edges[i];
            &&& tells(m, "source"@, JsonView::Text(b.source@))
            &&& tells(m, "slot"@, text_or_null(opt_view(b.slot)))
            &&& tells(m, "surface"@, JsonView::Text(surface_label(b.surface)))
            &&& tells(m, "kind"@, JsonView::Text(b.kind@))
            &&& tells(m, "span_start"@, JsonView::Int(b.span.start as nat))
            &&& tells(m, "span_end"@, JsonView::Int(b.span.end as nat))
            &&& b.line_col matches Some(l) ==> tells(m, "line_col"@, jv(l))
            &&& b.source_block_id matches Some(s) ==> tells(
                m,
                "source_block_id"@,
                JsonView::Text(s@),
            )
            &&& owner_name(repos, b.source@) != owner_name(repos, target) ==> (owner_name(
                repos,
                b.source@,
            ) matches Some(r) ==> tells(m, "repo"@, JsonView::Text(r)))
            &&& match block_json(block_view(b.block_id)) {
                Some(j) => tells(m, "block_id"@, j),
                None => tells(m, "block_id"@, JsonView::Null),
            }
        },
{
    let b = edges[i];
    let head = seq![("source"@, JsonView::Text(b.source@))];
    assert(head[0] == ("source"@, JsonView::Text(b.source@)));
    assert(tells(head, "source"@, JsonView::Text(b.source@)));
    let cross = crate::edges::crossing(repos, b.source@, target);
    let m1 = crate::json::with_opt_text(head, "repo"@, cross);
    lemma_opt_text(head, "repo"@, cross);
    let m2 = m1.push(("slot"@, text_or_null(opt_view(b.slot))));
    lemma_push(m1, "slot"@, text_or_null(opt_view(b.slot)));
    let m3 = m2.push(("surface"@, JsonView::Text(surface_label(b.surface))));
    lemma_push(m2, "surface"@, JsonView::Text(surface_label(b.surface)));
    let m4 = m3.push(("kind"@, JsonView::Text(b.kind@)));
    lemma_push(m3, "kind"@, JsonView::Text(b.kind@));
    let m5 = m4.push(("span_start"@, JsonView::Int(b.span.start as nat)));
    lemma_push(m4, "span_start"@, JsonView::Int(b.span.start as nat));
    let m6 = m5.push(("span_end"@, JsonView::Int(b.span.end as nat)));
    lemma_push(m5, "span_end"@, JsonView::Int(b.span.end as nat));
    let m7 = crate::json::with_opt(m6, "line_col"@, crate::json::opt_jv(b.line_col));
    lemma_opt(m6, "line_col"@, crate::json::opt_jv(b.line_col));
    let block = crate::edges::block_or_null(block_view(b.block_id));
    let m8 = m7.push(("block_id"@, block));
    lemma_push(m7, "block_id"@, block);
    lemma_opt_text(m8, "source_block_id"@, opt_view(b.source_block_id));
}

proof fn lemma_pin_in(file: SourceFile, target: Seq<char>, n: int, k: int)
    requires
        0 <= k < n <= file.edges@.len(),
        file.edges@[k].link.commit is Some,
        file.edges@[k].link.target@ == target,
    ensures
        pins_in(file, target, n).contains(
            JsonView::Object(pin_members(file.path@, file.edges@[k])),
        ),
    decreases n,
{
    let x = JsonView::Object(pin_members(file.path@, file.edges@[k]));
    let before = pins_in(file, target, n - 1);
    let now = pins_in(file, target, n);
    if k < n - 1 {
        lemma_pin_in(file, target, n - 1, k);
        let j = choose|j: int| 0 <= j < before.len() && before[j] == x;
        assert(now[j] == x);
    } else {
        assert(now[before.len() as int] == x);
    }
}

/// Every pin that names the target is told, in whichever of the files it stands.
pub proof fn every_pin_of_the_target_is_told(
    files: Seq<SourceFile>,
    target: Seq<char>,
    n: int,
    f: int,
    k: int,
)
    requires
        0 <= f < n <= files.len(),
        0 <= k < files[f].edges@.len(),
        files[f].edges@[k].link.commit is Some,
        files[f].edges@[k].link.target@ == target,
    ensures
        all_pins(files, target, n).contains(
            JsonView::Object(pin_members(files[f].path@, files[f].edges@[k])),
        ),
    decreases n,
{
    let x = JsonView::Object(pin_members(files[f].path@, files[f].edges@[k]));
    let before = all_pins(files, target, n - 1);
    let here = pins_in(files[n - 1], target, files[n - 1].edges@.len() as int);
    if f < n - 1 {
        every_pin_of_the_target_is_told(files, target, n - 1, f, k);
        let j = choose|j: int| 0 <= j < before.len() && before[j] == x;
        assert((before + here)[j] == x);
    } else {
        lemma_pin_in(files[f], target, files[f].edges@.len() as int, k);
        let j = choose|j: int| 0 <= j < here.len() && here[j] == x;
        assert((before + here)[before.len() + j] == x);
    }
}

/// A pin is told with the file that it stands in, the name and the commit that it
/// recorded, and its place.
pub proof fn a_pin_is_told_whole(source: Seq<char>, e: SourceEdge, commit: String)
    requires
        e.link.commit == Some(commit),
    ensures
        ({
            let m = pin_members(source, e);
            &&& tells(m, "source"@, JsonView::Text(source))
            &&& tells(m, "span"@, jv(e.span))
            &&& tells(m, "surface"@, JsonView::Text(surface_label(e.surface)))
            &&& tells(m, "target"@, JsonView::Text(e.link.target@))
            &&& tells(m, "commit"@, JsonView::Text(commit@))
            &&& e.slot matches Some(s) ==> tells(m, "slot"@, JsonView::Text(s@))
            &&& e.link.repo matches Some(r) ==> tells(m, "repo"@, JsonView::Text(r@))
            &&& e.source_block_id matches Some(b) ==> tells(
                m,
                "source_block_id"@,
                JsonView::Text(b@),
            )
            &&& block_json(block_view(e.link.block_id)) matches Some(b) ==> tells(m, "block_id"@, b)
        }),
{
    let head = seq![("source"@, JsonView::Text(source))];
    assert(head[0] == ("source"@, JsonView::Text(source)));
    assert(tells(head, "source"@, JsonView::Text(source)));
    let a = crate::json::with_opt_text(head, "source_block_id"@, opt_view(e.source_block_id));
    lemma_opt_text(head, "source_block_id"@, opt_view(e.source_block_id));
    let b = a.push(("span"@, jv(e.span)));
    lemma_push(a, "span"@, jv(e.span));
    let c = crate::json::with_opt_text(b, "slot"@, opt_view(e.slot));
    lemma_opt_text(b, "slot"@, opt_view(e.slot));
    let d = c.push(("surface"@, JsonView::Text(surface_label(e.surface))));
    lemma_push(c, "surface"@, JsonView::Text(surface_label(e.surface)));
    let f = d.push(("target"@, JsonView::Text(e.link.target@)));
    lemma_push(d, "target"@, JsonView::Text(e.link.target@));
    let g = crate::json::with_opt_text(f, "repo"@, opt_view(e.link.repo));
    lemma_opt_text(f, "repo"@, opt_view(e.link.repo));
    let h = g.push(("commit"@, JsonView::Text(commit@)));
    lemma_push(g, "commit"@, JsonView::Text(commit@));
    lemma_opt(h, "block_id"@, block_json(block_view(e.link.block_id)));
}

/// A referent reference is told apart from one that only jumps to its block.
pub proof fn a_block_is_told_with_its_mode(id: Seq<char>, referent: bool)
    ensures
        block_json(Some((id, referent))) matches Some(JsonView::Object(m)) && m.contains(
            ("id"@, JsonView::Text(id)),
        ) && m.contains(("referent"@, JsonView::Bool(referent))),
        block_json(None) is None,
{
    let m = block_json(Some((id, referent)))->0->Object_0;
    assert(m[0] == ("id"@, JsonView::Text(id)));
    assert(m[1] == ("referent"@, JsonView::Bool(referent)));
}

} // verus!
