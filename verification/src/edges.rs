//! The references that leave a file, those that reach it, and the pins that name
//! it.

use crate::ast::FileParse;
use crate::graph::links::{surface_label, surface_str};
use crate::json::{
    copy_json, json_opt_text, jv, opt_jv, text_or_null, with_opt, with_opt_text, Json, JsonView,
    ListBuilder, ObjectBuilder,
};
use crate::model::{
    find_inbound, inbound, owner_name, repo_name_of, Backlink, Inbound, RefSurface, Repo,
};
use crate::mutation::links::{block_view, WikilinkRef};
use crate::navigation::{commit_referent, inert_pin};
use crate::neighborhood::{block_json, block_to_json};
use crate::text::{opt_view, same, same_opt};
use vstd::prelude::*;

verus! {

/// A reference as the walk of a file finds it.
#[derive(Debug)]
pub struct SourceEdge {
    pub link: WikilinkRef,
    /// The field that the reference fills.
    pub slot: Option<String>,
    pub surface: RefSurface,
    /// Whether the reference is the whole value, and no part of a longer text.
    pub whole_value: bool,
    /// The file that the reference leads to.
    pub resolved: Option<String>,
    pub source_block_id: Option<String>,
    /// The place of the reference as it is served.
    pub span: Json,
}

/// What a reference is to the file that holds it.
#[derive(Debug, Clone, Copy, PartialEq, Eq, Structural)]
pub enum EdgeKind {
    /// It names a commit and no file.
    CommitReferent,
    /// A link in the body that also contributes to a field.
    Contributing,
    /// A link in the body.
    Navigational,
    /// The value of a field that takes references.
    FieldReference,
    /// A link in a field that takes none.
    FieldStringWikilink,
    /// The value of a field of which nothing is known.
    Unknown,
}

impl EdgeKind {
    pub open spec fn label_spec(self) -> Seq<char> {
        match self {
            EdgeKind::CommitReferent => "commit-referent"@,
            EdgeKind::Contributing => "contributing"@,
            EdgeKind::Navigational => "navigational"@,
            EdgeKind::FieldReference => "field-reference"@,
            EdgeKind::FieldStringWikilink => "field-string-wikilink"@,
            EdgeKind::Unknown => "unknown"@,
        }
    }

    /// The wire name.
    pub fn label(self) -> (r: &'static str)
        ensures
            r@ == self.label_spec(),
    {
        match self {
            EdgeKind::CommitReferent => "commit-referent",
            EdgeKind::Contributing => "contributing",
            EdgeKind::Navigational => "navigational",
            EdgeKind::FieldReference => "field-reference",
            EdgeKind::FieldStringWikilink => "field-string-wikilink",
            EdgeKind::Unknown => "unknown",
        }
    }
}

/// A field of an effective shape, and whether it takes references.
#[derive(Debug)]
pub struct Slot {
    pub name: String,
    pub admits_reference: bool,
}

/// What is known of the fields of a file.
#[derive(Debug)]
pub enum SlotGate {
    /// The effective shape of a typed instance.
    Shape(Vec<Slot>),
    /// A note claims no type, so none of its fields takes a reference.
    Untyped,
    /// The claim did not resolve.
    Unknown,
}

/// Whether the field with this name takes references, searching from `i` on; a
/// field that the shape does not have takes none.
pub open spec fn slot_admits(slots: Seq<Slot>, name: Seq<char>, i: int) -> bool
    decreases slots.len() - i,
{
    if i < 0 || i >= slots.len() {
        false
    } else if slots[i].name@ == name {
        slots[i].admits_reference
    } else {
        slot_admits(slots, name, i + 1)
    }
}

fn admits(slots: &Vec<Slot>, name: &str) -> (r: bool)
    ensures
        r == slot_admits(slots@, name@, 0),
{
    for i in 0..slots.len()
        invariant
            slot_admits(slots@, name@, 0) == slot_admits(slots@, name@, i as int),
    {
        if same(slots[i].name.as_str(), name) {
            return slots[i].admits_reference;
        }
    }
    false
}

/// What is known of the fields of a file: nothing is to be known of a note, and
/// everything of an instance whose claim resolved.
pub open spec fn gate_of(parse: FileParse, shape: Option<Vec<Slot>>) -> SlotGate {
    match parse {
        FileParse::Note(_) => SlotGate::Untyped,
        _ => match shape {
            Some(s) => SlotGate::Shape(s),
            None => SlotGate::Unknown,
        },
    }
}

/// What a reference is. The body settles it by the link's own form; in the
/// frontmatter a link inside a longer text is never a reference, and one that is
/// the whole value is what its field makes of it.
pub open spec fn edge_kind(edge: SourceEdge, gate: SlotGate) -> EdgeKind {
    if commit_referent(edge.link@) {
        EdgeKind::CommitReferent
    } else if edge.surface == RefSurface::Body {
        if edge.link.field is Some {
            EdgeKind::Contributing
        } else {
            EdgeKind::Navigational
        }
    } else if !edge.whole_value {
        EdgeKind::FieldStringWikilink
    } else {
        match gate {
            SlotGate::Untyped => EdgeKind::FieldStringWikilink,
            SlotGate::Unknown => EdgeKind::Unknown,
            SlotGate::Shape(slots) => match edge.slot {
                None => EdgeKind::Unknown,
                Some(name) => if slot_admits(slots@, name@, 0) {
                    EdgeKind::FieldReference
                } else {
                    EdgeKind::FieldStringWikilink
                },
            },
        }
    }
}

/// Decides what a reference is.
pub fn classify_edge(edge: &SourceEdge, gate: &SlotGate) -> (r: EdgeKind)
    ensures
        r == edge_kind(*edge, *gate),
{
    if edge.link.is_commit_referent() {
        return EdgeKind::CommitReferent;
    }
    if matches!(edge.surface, RefSurface::Body) {
        return if edge.link.field.is_some() {
            EdgeKind::Contributing
        } else {
            EdgeKind::Navigational
        };
    }
    if !edge.whole_value {
        return EdgeKind::FieldStringWikilink;
    }
    match gate {
        SlotGate::Untyped => EdgeKind::FieldStringWikilink,
        SlotGate::Unknown => EdgeKind::Unknown,
        SlotGate::Shape(slots) => match &edge.slot {
            None => EdgeKind::Unknown,
            Some(name) => if admits(slots, name.as_str()) {
                EdgeKind::FieldReference
            } else {
                EdgeKind::FieldStringWikilink
            },
        },
    }
}

/// Doubt is narrow: no reference of a note is of an unknown kind, nor one in a body,
/// nor one inside a longer text, nor one that fills a field of a resolved shape.
pub proof fn doubt_is_narrow(edge: SourceEdge, parse: FileParse, shape: Option<Vec<Slot>>)
    requires
        edge_kind(edge, gate_of(parse, shape)) == EdgeKind::Unknown,
    ensures
        !(parse matches FileParse::Note(_)),
        edge.surface != RefSurface::Body,
        edge.whole_value,
        shape is None || edge.slot is None,
{
}

/// A reference on the wire. One that is pinned or broken leads nowhere.
pub open spec fn outgoing_members(e: SourceEdge, kind: EdgeKind) -> Seq<(Seq<char>, JsonView)> {
    let head = seq![
        ("target"@, JsonView::Text(e.link.target@)),
        ("resolved"@, text_or_null(opt_view(e.resolved))),
        ("span"@, jv(e.span)),
    ];
    let linked = with_opt_text(
        with_opt_text(
            with_opt_text(head, "repo"@, opt_view(e.link.repo)),
            "commit"@,
            opt_view(e.link.commit),
        ),
        "anchor"@,
        opt_view(e.link.anchor),
    );
    let placed = with_opt_text(
        with_opt_text(
            with_opt(linked, "block_id"@, block_json(block_view(e.link.block_id))),
            "field"@,
            opt_view(e.slot),
        ),
        "source_block_id"@,
        opt_view(e.source_block_id),
    );
    placed.push(("surface"@, JsonView::Text(surface_label(e.surface)))).push(
        ("kind"@, JsonView::Text(kind.label_spec())),
    )
}

fn outgoing_json(e: &SourceEdge, kind: EdgeKind) -> (r: Json)
    ensures
        jv(r) == JsonView::Object(outgoing_members(*e, kind)),
{
    let mut b = ObjectBuilder::new();
    b.put_text("target", e.link.target.as_str());
    b.put("resolved", json_opt_text(&e.resolved));
    b.put("span", copy_json(&e.span));
    assert(b@ =~= seq![
        ("target"@, JsonView::Text(e.link.target@)),
        ("resolved"@, text_or_null(opt_view(e.resolved))),
        ("span"@, jv(e.span)),
    ]);
    b.put_opt_text("repo", &e.link.repo);
    b.put_opt_text("commit", &e.link.commit);
    b.put_opt_text("anchor", &e.link.anchor);
    b.put_opt("block_id", block_to_json(&e.link.block_id));
    b.put_opt_text("field", &e.slot);
    b.put_opt_text("source_block_id", &e.source_block_id);
    b.put_text("surface", surface_str(e.surface));
    b.put_text("kind", kind.label());
    b.done()
}

/// The references that leave a file, on the wire.
pub open spec fn outgoing_list(edges: Seq<SourceEdge>, gate: SlotGate) -> Seq<JsonView> {
    Seq::new(
        edges.len(),
        |i: int| JsonView::Object(outgoing_members(edges[i], edge_kind(edges[i], gate))),
    )
}

/// The references that leave a file, in the order in which they stand in it. `shape`
/// is the effective shape of the instance in the file.
pub fn outgoing_view(parse: &FileParse, shape: Option<Vec<Slot>>, edges: &Vec<SourceEdge>) -> (r:
    Json)
    ensures
        jv(r) == JsonView::List(outgoing_list(edges@, gate_of(*parse, shape))),
{
    let gate = match parse {
        FileParse::Note(_) => SlotGate::Untyped,
        _ => match shape {
            Some(s) => SlotGate::Shape(s),
            None => SlotGate::Unknown,
        },
    };
    let mut list = ListBuilder::new();
    let ghost all = outgoing_list(edges@, gate);
    assert(list@ =~= all.take(0));
    for i in 0..edges.len()
        invariant
            all == outgoing_list(edges@, gate),
            list@ == all.take(i as int),
    {
        let kind = classify_edge(&edges[i], &gate);
        list.put(outgoing_json(&edges[i], kind));
        assert(list@ =~= all.take(i + 1));
    }
    assert(all.take(all.len() as int) =~= all);
    list.done()
}

/// The references of one file.
#[derive(Debug)]
pub struct SourceFile {
    pub path: String,
    pub edges: Vec<SourceEdge>,
}

/// Whether a reference is a pin of this target, by the name that it recorded.
pub open spec fn pins(e: SourceEdge, target: Seq<char>) -> bool {
    inert_pin(e.link@) && e.link.target@ == target
}

/// A pin on the wire.
pub open spec fn pin_members(source: Seq<char>, e: SourceEdge) -> Seq<(Seq<char>, JsonView)> {
    let head = with_opt_text(
        seq![("source"@, JsonView::Text(source))],
        "source_block_id"@,
        opt_view(e.source_block_id),
    ).push(("span"@, jv(e.span)));
    let placed = with_opt_text(head, "slot"@, opt_view(e.slot)).push(
        ("surface"@, JsonView::Text(surface_label(e.surface))),
    ).push(("target"@, JsonView::Text(e.link.target@)));
    let dated = with_opt_text(placed, "repo"@, opt_view(e.link.repo)).push(
        ("commit"@, JsonView::Text(opt_view(e.link.commit).unwrap_or(Seq::empty()))),
    );
    with_opt(dated, "block_id"@, block_json(block_view(e.link.block_id)))
}

fn pin_json(source: &str, e: &SourceEdge) -> (r: Json)
    requires
        inert_pin(e.link@),
    ensures
        jv(r) == JsonView::Object(pin_members(source@, *e)),
{
    let mut b = ObjectBuilder::new();
    b.put_text("source", source);
    assert(b@ =~= seq![("source"@, JsonView::Text(source@))]);
    b.put_opt_text("source_block_id", &e.source_block_id);
    b.put("span", copy_json(&e.span));
    b.put_opt_text("slot", &e.slot);
    b.put_text("surface", surface_str(e.surface));
    b.put_text("target", e.link.target.as_str());
    b.put_opt_text("repo", &e.link.repo);
    if let Some(c) = &e.link.commit {
        b.put_text("commit", c.as_str());
    }
    b.put_opt("block_id", block_to_json(&e.link.block_id));
    b.done()
}

/// The pins of a target among the first `n` references of a file.
pub open spec fn pins_in(file: SourceFile, target: Seq<char>, n: int) -> Seq<JsonView>
    decreases n,
{
    if n <= 0 {
        Seq::empty()
    } else if pins(file.edges@[n - 1], target) {
        pins_in(file, target, n - 1).push(
            JsonView::Object(pin_members(file.path@, file.edges@[n - 1])),
        )
    } else {
        pins_in(file, target, n - 1)
    }
}

/// The pins of a target in the first `n` files.
pub open spec fn all_pins(files: Seq<SourceFile>, target: Seq<char>, n: int) -> Seq<JsonView>
    decreases n,
{
    if n <= 0 {
        Seq::empty()
    } else {
        all_pins(files, target, n - 1) + pins_in(
            files[n - 1],
            target,
            files[n - 1].edges@.len() as int,
        )
    }
}

/// The pins that name a target, in the files that were chosen by their type.
pub fn pins_view(target: &str, files: &Vec<SourceFile>) -> (r: Json)
    ensures
        jv(r) == JsonView::List(all_pins(files@, target@, files@.len() as int)),
{
    let mut list = ListBuilder::new();
    for f in 0..files.len()
        invariant
            list@ == all_pins(files@, target@, f as int),
    {
        let ghost before = list@;
        let file = &files[f];
        assert(list@ =~= before + pins_in(*file, target@, 0));
        for i in 0..file.edges.len()
            invariant
                list@ == before + pins_in(*file, target@, i as int),
        {
            let e = &file.edges[i];
            if e.link.is_inert_pin() && same(e.link.target.as_str(), target) {
                list.put(pin_json(file.path.as_str(), e));
                assert(list@ =~= before + pins_in(*file, target@, i + 1));
            }
        }
    }
    list.done()
}

/// Only pins of the target are told: a reference without a commit is not, nor one
/// that names another file, nor one that names none.
pub proof fn a_live_link_is_no_pin(file: SourceFile, target: Seq<char>, n: int)
    requires
        0 <= n <= file.edges@.len(),
        forall|i: int|
            #![trigger file.edges@[i]]
            0 <= i < n ==> file.edges@[i].link.commit is None || file.edges@[i].link.target@ != target,
    ensures
        pins_in(file, target, n).len() == 0,
    decreases n,
{
    if n > 0 {
        a_live_link_is_no_pin(file, target, n - 1);
        assert(file.edges@[n - 1].link.commit is None || file.edges@[n - 1].link.target@ != target);
    }
}

/// The repo of a reference's source, told only where it is not that of the target.
pub open spec fn crossing(repos: Seq<Repo>, source: Seq<char>, target: Seq<char>) -> Option<
    Seq<char>,
> {
    let from = owner_name(repos, source);
    if from == owner_name(repos, target) {
        None
    } else {
        from
    }
}

pub open spec fn block_or_null(b: Option<(Seq<char>, bool)>) -> JsonView {
    match block_json(b) {
        Some(j) => j,
        None => JsonView::Null,
    }
}

/// A reference that reaches a file, on the wire.
pub open spec fn backlink_members(repos: Seq<Repo>, target: Seq<char>, b: Backlink) -> Seq<
    (Seq<char>, JsonView),
> {
    let head = with_opt_text(
        seq![("source"@, JsonView::Text(b.source@))],
        "repo"@,
        crossing(repos, b.source@, target),
    ).push(("slot"@, text_or_null(opt_view(b.slot)))).push(
        ("surface"@, JsonView::Text(surface_label(b.surface))),
    ).push(("kind"@, JsonView::Text(b.kind@))).push(
        ("span_start"@, JsonView::Int(b.span.start as nat)),
    ).push(("span_end"@, JsonView::Int(b.span.end as nat)));
    with_opt_text(
        with_opt(head, "line_col"@, opt_jv(b.line_col)).push(
            ("block_id"@, block_or_null(block_view(b.block_id))),
        ),
        "source_block_id"@,
        opt_view(b.source_block_id),
    )
}

fn backlink_json(repos: &Vec<Repo>, target_repo: &Option<String>, target: &str, b: &Backlink) -> (r:
    Json)
    requires
        opt_view(*target_repo) == owner_name(repos@, target@),
    ensures
        jv(r) == JsonView::Object(backlink_members(repos@, target@, *b)),
{
    let mut o = ObjectBuilder::new();
    o.put_text("source", b.source.as_str());
    assert(o@ =~= seq![("source"@, JsonView::Text(b.source@))]);
    let from = repo_name_of(repos, b.source.as_str());
    if !same_opt(&from, target_repo) {
        o.put_opt_text("repo", &from);
    }
    o.put("slot", json_opt_text(&b.slot));
    o.put_text("surface", surface_str(b.surface));
    o.put_text("kind", b.kind);
    o.put("span_start", Json::Int(b.span.start as u64));
    o.put("span_end", Json::Int(b.span.end as u64));
    if let Some(lc) = &b.line_col {
        o.put("line_col", copy_json(lc));
    }
    match block_to_json(&b.block_id) {
        Some(j) => o.put("block_id", j),
        None => o.put("block_id", Json::Null),
    }
    o.put_opt_text("source_block_id", &b.source_block_id);
    o.done()
}

pub open spec fn backlink_list(repos: Seq<Repo>, target: Seq<char>, edges: Seq<Backlink>) -> Seq<
    JsonView,
> {
    Seq::new(edges.len(), |i: int| JsonView::Object(backlink_members(repos, target, edges[i])))
}

/// The references that reach a file.
pub fn backlinks_view(repos: &Vec<Repo>, backlinks: &Vec<Inbound>, target: &str) -> (r: Json)
    ensures
        jv(r) == JsonView::List(backlink_list(repos@, target@, inbound(backlinks@, target@))),
{
    let target_repo = repo_name_of(repos, target);
    let mut list = ListBuilder::new();
    let ghost edges = inbound(backlinks@, target@);
    let ghost all = backlink_list(repos@, target@, edges);
    assert(list@ =~= all.take(0));
    if let Some(at) = find_inbound(backlinks, target) {
        let found = &backlinks[at].edges;
        for i in 0..found.len()
            invariant
                found@ == edges,
                opt_view(target_repo) == owner_name(repos@, target@),
                all == backlink_list(repos@, target@, edges),
                list@ == all.take(i as int),
        {
            list.put(backlink_json(repos, &target_repo, target, &found[i]));
            assert(list@ =~= all.take(i + 1));
        }
    }
    assert(all.take(all.len() as int) =~= all);
    list.done()
}

} // verus!
