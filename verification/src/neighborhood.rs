//! The part of the link graph around one file: what the arguments may be, which
//! files are read for it, and the reply.

use crate::ast::ByteRange;
use crate::frames::{make_ready_frame, ready_frame};
use crate::graph::links::{surface_label, surface_str};
use crate::json::{
    copy_json, count_or_null, json_opt_count, json_opt_text, jv, opt_jv, text_or_null, with_opt,
    with_opt_text, Json, JsonView, ListBuilder, ObjectBuilder,
};
use crate::model::{BlockRef, RefSurface, Scope};
use crate::mutation::links::{block_view, WikilinkRef};
use crate::paths::{same_path, same_path_spec};
use crate::socket::{content_hash, fnv1a};
use crate::text::{
    contains, hex_of, hex_text, holds, join_texts, joined, joined3, joined_by, opt_view,
    utf8_text, views,
};
use vstd::prelude::*;

verus! {

/// The most nodes that a walk reaches when the caller names no bound.
pub const NEIGHBORHOOD_MAX_NODES: usize = 2000;

/// The way a walk follows the edges.
#[derive(Debug, Clone, Copy, PartialEq, Eq, Structural)]
pub enum Direction {
    Out,
    In,
    Both,
}

/// The arguments of the `neighborhood` read.
#[derive(Debug)]
pub struct NeighborhoodArgs {
    pub path: String,
    pub direction: Direction,
    pub depth: usize,
    /// The kinds of edges to follow; every kind when absent.
    pub kinds: Option<Vec<String>>,
    pub scope: Scope,
    pub max_nodes: Option<usize>,
    pub content: bool,
    pub body: bool,
    pub instance: bool,
}

/// The first kind that the walk does not know, searching from `i` on.
pub open spec fn unknown_kind_from(kinds: Seq<String>, known: Seq<String>, i: int) -> Option<
    Seq<char>,
>
    decreases kinds.len() - i,
{
    if i < 0 || i >= kinds.len() {
        None
    } else if !holds(known, kinds[i]@) {
        Some(kinds[i]@)
    } else {
        unknown_kind_from(kinds, known, i + 1)
    }
}

/// Why the arguments are refused: an unknown kind, a walk past one step with no
/// kinds named, or a bound that leaves no room for the seed.
pub open spec fn neighborhood_error(args: NeighborhoodArgs, known: Seq<String>) -> Option<
    Seq<char>,
> {
    let unknown = match args.kinds {
        Some(ks) => unknown_kind_from(ks@, known, 0),
        None => None,
    };
    if unknown is Some {
        Some(
            "unknown edge kind '"@ + unknown->0 + "'; expected one of "@ + joined_by(
                views(known),
                " / "@,
            ),
        )
    } else if args.depth > 1 && args.kinds is None {
        Some(
            "`kinds` is required past depth 1 (an unfiltered deep walk explodes through navigational fan-out); name one or more of "@
                + joined_by(views(known), " / "@),
        )
    } else if args.max_nodes == Some(0usize) {
        Some("`max_nodes` must be at least 1; the seed always counts"@)
    } else {
        None
    }
}

/// Checks the arguments against each other and against the kinds that the walk
/// knows.
pub fn check_neighborhood(args: &NeighborhoodArgs, known: &Vec<String>) -> (r: Option<String>)
    ensures
        opt_view(r) == neighborhood_error(*args, known@),
{
    if let Some(ks) = &args.kinds {
        for i in 0..ks.len()
            invariant
                args.kinds == Some(*ks),
                unknown_kind_from(ks@, known@, 0) == unknown_kind_from(ks@, known@, i as int),
        {
            if !contains(known, ks[i].as_str()) {
                let head = joined3("unknown edge kind '", ks[i].as_str(), "'; expected one of ");
                let list = join_texts(known, " / ");
                return Some(joined(head.as_str(), list.as_str()));
            }
        }
    }
    if args.depth > 1 && args.kinds.is_none() {
        let list = join_texts(known, " / ");
        return Some(
            joined(
                "`kinds` is required past depth 1 (an unfiltered deep walk explodes through navigational fan-out); name one or more of ",
                list.as_str(),
            ),
        );
    }
    if let Some(n) = args.max_nodes {
        if n == 0 {
            return Some("`max_nodes` must be at least 1; the seed always counts".to_owned());
        }
    }
    None
}

/// The bound on the nodes of a walk.
pub fn node_bound(args: &NeighborhoodArgs) -> (r: usize)
    ensures
        r == (match args.max_nodes {
            Some(n) => n,
            None => NEIGHBORHOOD_MAX_NODES,
        }),
{
    match args.max_nodes {
        Some(n) => n,
        None => NEIGHBORHOOD_MAX_NODES,
    }
}

/// A node of the link graph: a file, or a block in it.
#[derive(Debug)]
pub struct NodeId {
    pub path: String,
    pub block_id: Option<String>,
}

/// A node that a walk reached.
#[derive(Debug)]
pub struct WalkedNode {
    pub id: NodeId,
    pub depth: usize,
    pub repo: Option<String>,
    pub file_kind: &'static str,
    /// The length of what a `content` read would give.
    pub bytes: Option<usize>,
    /// The length of what a `body` read would give.
    pub body_bytes: Option<usize>,
    /// Where the block of a block node stands in its file, when it was found.
    pub block_span: Option<ByteRange>,
}

/// An edge that a walk followed.
#[derive(Debug)]
pub struct WalkedEdge {
    pub from: NodeId,
    pub to: Option<NodeId>,
    pub kind: &'static str,
    pub surface: RefSurface,
    pub span: ByteRange,
    /// The lines and columns of the span, when the file's lines are known.
    pub line_col: Option<Json>,
    pub field: Option<String>,
    pub source_block_id: Option<String>,
    pub target_block_id: Option<BlockRef>,
    /// The link itself, when the edge was found from the file that holds it.
    pub link: Option<WikilinkRef>,
}

/// A node that the bound cut off.
#[derive(Debug)]
pub struct DroppedNode {
    pub id: NodeId,
    pub depth: usize,
    pub repo: Option<String>,
}

/// What a walk found.
#[derive(Debug)]
pub struct Neighborhood {
    pub nodes: Vec<WalkedNode>,
    pub edges: Vec<WalkedEdge>,
    pub truncated: bool,
    pub truncated_at_depth: Option<usize>,
    pub dropped: Vec<DroppedNode>,
}

pub open spec fn block_json(b: Option<(Seq<char>, bool)>) -> Option<JsonView> {
    match b {
        Some((id, referent)) => Some(
            JsonView::Object(
                seq![("id"@, JsonView::Text(id)), ("referent"@, JsonView::Bool(referent))],
            ),
        ),
        None => None,
    }
}

/// A block reference on the wire.
pub fn block_to_json(b: &Option<BlockRef>) -> (r: Option<Json>)
    ensures
        opt_jv(r) == block_json(block_view(*b)),
{
    match b {
        Some(x) => {
            let mut o = ObjectBuilder::new();
            o.put_text("id", x.id.as_str());
            o.put("referent", Json::Bool(x.referent));
            assert(o@ =~= seq![
                ("id"@, JsonView::Text(x.id@)),
                ("referent"@, JsonView::Bool(x.referent)),
            ]);
            Some(o.done())
        },
        None => None,
    }
}

pub open spec fn node_ref(id: NodeId) -> JsonView {
    JsonView::Object(
        with_opt_text(
            seq![("path"@, JsonView::Text(id.path@))],
            "block_id"@,
            opt_view(id.block_id),
        ),
    )
}

fn node_ref_json(id: &NodeId) -> (r: Json)
    ensures
        jv(r) == node_ref(*id),
{
    let mut b = ObjectBuilder::new();
    b.put_text("path", id.path.as_str());
    assert(b@ =~= seq![("path"@, JsonView::Text(id.path@))]);
    b.put_opt_text("block_id", &id.block_id);
    b.done()
}

/// A reached node on the wire.
pub open spec fn node_members(w: WalkedNode) -> Seq<(Seq<char>, JsonView)> {
    let head = with_opt_text(
        seq![("path"@, JsonView::Text(w.id.path@))],
        "block_id"@,
        opt_view(w.id.block_id),
    ).push(("depth"@, JsonView::Int(w.depth as nat)));
    with_opt_text(head, "repo"@, opt_view(w.repo)).push(
        ("file_kind"@, JsonView::Text(w.file_kind@)),
    ).push(("bytes"@, count_or_null(w.bytes))).push(("body_bytes"@, count_or_null(w.body_bytes)))
}

fn put_node(b: &mut ObjectBuilder, w: &WalkedNode)
    requires
        old(b)@.len() == 0,
    ensures
        final(b)@ == node_members(*w),
{
    b.put_text("path", w.id.path.as_str());
    assert(b@ =~= seq![("path"@, JsonView::Text(w.id.path@))]);
    b.put_opt_text("block_id", &w.id.block_id);
    b.put("depth", Json::Int(w.depth as u64));
    b.put_opt_text("repo", &w.repo);
    b.put_text("file_kind", w.file_kind);
    b.put("bytes", json_opt_count(w.bytes));
    b.put("body_bytes", json_opt_count(w.body_bytes));
}

pub open spec fn opt_node_ref(id: Option<NodeId>) -> JsonView {
    match id {
        Some(x) => node_ref(x),
        None => JsonView::Null,
    }
}

/// A followed edge on the wire. What the link itself carries is told only where
/// the edge was found from its source.
pub open spec fn edge_members(e: WalkedEdge) -> Seq<(Seq<char>, JsonView)> {
    let head = seq![
        ("from"@, node_ref(e.from)),
        ("to"@, opt_node_ref(e.to)),
        ("kind"@, JsonView::Text(e.kind@)),
        ("surface"@, JsonView::Text(surface_label(e.surface))),
        ("span_start"@, JsonView::Int(e.span.start as nat)),
        ("span_end"@, JsonView::Int(e.span.end as nat)),
    ];
    let located = with_opt(head, "line_col"@, opt_jv(e.line_col));
    let sided = with_opt_text(
        with_opt_text(located, "field"@, opt_view(e.field)),
        "source_block_id"@,
        opt_view(e.source_block_id),
    );
    let blocked = with_opt(sided, "block_id"@, block_json(block_view(e.target_block_id)));
    match e.link {
        Some(l) => with_opt_text(
            with_opt_text(
                with_opt_text(blocked, "repo"@, opt_view(l.repo)),
                "commit"@,
                opt_view(l.commit),
            ),
            "anchor"@,
            opt_view(l.anchor),
        ),
        None => blocked,
    }
}

fn edge_json(e: &WalkedEdge) -> (r: Json)
    ensures
        jv(r) == JsonView::Object(edge_members(*e)),
{
    let mut b = ObjectBuilder::new();
    b.put("from", node_ref_json(&e.from));
    b.put(
        "to",
        match &e.to {
            Some(x) => node_ref_json(x),
            None => Json::Null,
        },
    );
    b.put_text("kind", e.kind);
    b.put_text("surface", surface_str(e.surface));
    b.put("span_start", Json::Int(e.span.start as u64));
    b.put("span_end", Json::Int(e.span.end as u64));
    assert(b@ =~= seq![
        ("from"@, node_ref(e.from)),
        ("to"@, opt_node_ref(e.to)),
        ("kind"@, JsonView::Text(e.kind@)),
        ("surface"@, JsonView::Text(surface_label(e.surface))),
        ("span_start"@, JsonView::Int(e.span.start as nat)),
        ("span_end"@, JsonView::Int(e.span.end as nat)),
    ]);
    if let Some(lc) = &e.line_col {
        b.put("line_col", copy_json(lc));
    }
    b.put_opt_text("field", &e.field);
    b.put_opt_text("source_block_id", &e.source_block_id);
    b.put_opt("block_id", block_to_json(&e.target_block_id));
    if let Some(l) = &e.link {
        b.put_opt_text("repo", &l.repo);
        b.put_opt_text("commit", &l.commit);
        b.put_opt_text("anchor", &l.anchor);
    }
    b.done()
}

pub open spec fn dropped_members(d: DroppedNode) -> Seq<(Seq<char>, JsonView)> {
    with_opt_text(
        with_opt_text(
            seq![("path"@, JsonView::Text(d.id.path@))],
            "block_id"@,
            opt_view(d.id.block_id),
        ).push(("depth"@, JsonView::Int(d.depth as nat))),
        "repo"@,
        opt_view(d.repo),
    )
}

fn dropped_json(d: &DroppedNode) -> (r: Json)
    ensures
        jv(r) == JsonView::Object(dropped_members(*d)),
{
    let mut b = ObjectBuilder::new();
    b.put_text("path", d.id.path.as_str());
    assert(b@ =~= seq![("path"@, JsonView::Text(d.id.path@))]);
    b.put_opt_text("block_id", &d.id.block_id);
    b.put("depth", Json::Int(d.depth as u64));
    b.put_opt_text("repo", &d.repo);
    b.done()
}

/// What the reader of a file's frontmatter found.
#[derive(Debug)]
pub enum FrontmatterSplit {
    /// No frontmatter: the whole text is body.
    Absent,
    /// The text behind the frontmatter.
    Body(String),
    /// Frontmatter that does not end.
    Broken,
}

/// A file as it was read for its facts.
#[derive(Debug)]
pub struct FileRead {
    pub path: String,
    /// The bytes, when the file could be read.
    pub bytes: Option<Vec<u8>>,
    /// The head commit of the repository around the file.
    pub commit: Option<String>,
    /// Where the body begins, for bytes that are text.
    pub split: FrontmatterSplit,
}

/// The digest of some bytes, as it is served: sixteen hexadecimal digits.
pub open spec fn digest_of(bytes: Seq<u8>) -> Seq<char> {
    hex_of(fnv1a(bytes, bytes.len() as int) as nat, 16)
}

/// The text of some bytes, if they are text.
pub open spec fn text_in(bytes: Seq<u8>) -> Option<Seq<char>> {
    if vstd::utf8::valid_utf8(bytes) {
        Some(vstd::utf8::decode_utf8(bytes))
    } else {
        None
    }
}

/// The text of the whole file.
pub open spec fn file_text(f: FileRead) -> Option<Seq<char>> {
    match f.bytes {
        Some(b) => text_in(b@),
        None => None,
    }
}

/// The prose of a file: what stands behind its frontmatter.
pub open spec fn file_body(f: FileRead) -> Option<Seq<char>> {
    match file_text(f) {
        Some(t) => match f.split {
            FrontmatterSplit::Absent => Some(t),
            FrontmatterSplit::Body(b) => Some(b@),
            FrontmatterSplit::Broken => None,
        },
        None => None,
    }
}

/// A whole file's content on the wire.
pub open spec fn content_json(
    text: Seq<char>,
    hash: Option<Seq<char>>,
    commit: Option<Seq<char>>,
) -> JsonView {
    JsonView::Object(
        seq![
            ("text"@, JsonView::Text(text)),
            ("hash"@, text_or_null(hash)),
            ("commit"@, text_or_null(commit)),
        ],
    )
}

/// A file's content on the wire: `null` where it is no text.
pub open spec fn file_content(f: FileRead) -> JsonView {
    match file_text(f) {
        Some(t) => content_json(t, Some(digest_of(f.bytes->0@)), opt_view(f.commit)),
        None => JsonView::Null,
    }
}

fn make_content(text: &str, hash: &Option<String>, commit: &Option<String>) -> (r: Json)
    ensures
        jv(r) == content_json(text@, opt_view(*hash), opt_view(*commit)),
{
    let mut b = ObjectBuilder::new();
    b.put_text("text", text);
    b.put("hash", json_opt_text(hash));
    b.put("commit", json_opt_text(commit));
    assert(b@ =~= seq![
        ("text"@, JsonView::Text(text@)),
        ("hash"@, text_or_null(opt_view(*hash))),
        ("commit"@, text_or_null(opt_view(*commit))),
    ]);
    b.done()
}

fn copy_bytes(b: &Vec<u8>, from: usize, to: usize) -> (r: Vec<u8>)
    requires
        from <= to <= b@.len(),
    ensures
        r@ == b@.subrange(from as int, to as int),
{
    let mut out: Vec<u8> = Vec::new();
    let mut i: usize = from;
    while i < to
        invariant
            from <= i <= to <= b@.len(),
            out@ == b@.subrange(from as int, i as int),
        decreases to - i,
    {
        out.push(b[i]);
        assert(out@ =~= b@.subrange(from as int, i + 1));
        i += 1;
    }
    out
}

fn text_of_file(f: &FileRead) -> (r: Option<String>)
    ensures
        opt_view(r) == file_text(*f),
{
    match &f.bytes {
        Some(b) => {
            let n: usize = b.len();
            assert(b@.subrange(0, n as int) =~= b@);
            utf8_text(copy_bytes(b, 0, n))
        },
        None => None,
    }
}

/// The content that a file contributes to a reply, from one read of its bytes.
pub fn read_content_at(f: &FileRead) -> (r: Json)
    ensures
        jv(r) == file_content(*f),
{
    match text_of_file(f) {
        Some(t) => {
            let hash = match &f.bytes {
                Some(b) => Some(hex_text(content_hash(b.as_slice()), 16)),
                None => None,
            };
            make_content(t.as_str(), &hash, &f.commit)
        },
        None => Json::Null,
    }
}

/// The prose of a file.
pub fn read_body_at(f: &FileRead) -> (r: Option<String>)
    ensures
        opt_view(r) == file_body(*f),
{
    match text_of_file(f) {
        Some(t) => match &f.split {
            FrontmatterSplit::Absent => Some(t),
            FrontmatterSplit::Body(b) => Some(b.clone()),
            FrontmatterSplit::Broken => None,
        },
        None => None,
    }
}

/// The text that a span of a file holds: nothing when the span lies outside the
/// file, runs backwards or cuts a character.
pub open spec fn slice_text(f: FileRead, span: ByteRange) -> Option<Seq<char>> {
    match f.bytes {
        Some(b) => if span.start <= span.end <= b@.len() {
            text_in(b@.subrange(span.start as int, span.end as int))
        } else {
            None
        },
        None => None,
    }
}

fn read_slice(f: &FileRead, span: ByteRange) -> (r: Option<String>)
    ensures
        opt_view(r) == slice_text(*f, span),
{
    match &f.bytes {
        Some(b) => if span.start <= span.end && span.end <= b.len() {
            utf8_text(copy_bytes(b, span.start, span.end))
        } else {
            None
        },
        None => None,
    }
}

/// The read of a file, searching from `i` on.
pub open spec fn read_from(files: Seq<FileRead>, path: Seq<char>, i: int) -> Option<int>
    decreases files.len() - i,
{
    if i < 0 || i >= files.len() {
        None
    } else if same_path_spec(files[i].path@, path) {
        Some(i)
    } else {
        read_from(files, path, i + 1)
    }
}

pub fn find_read(files: &Vec<FileRead>, path: &str) -> (r: Option<usize>)
    ensures
        match r {
            Some(i) => i < files@.len() && read_from(files@, path@, 0) == Some(i as int),
            None => read_from(files@, path@, 0) is None,
        },
{
    for i in 0..files.len()
        invariant
            read_from(files@, path@, 0) == read_from(files@, path@, i as int),
    {
        if same_path(files[i].path.as_str(), path) {
            return Some(i);
        }
    }
    None
}

/// The `content` of a node: a file's own, a block's slice of its file without a
/// digest or a commit, `null` for a block that was not found.
pub open spec fn node_content(w: WalkedNode, files: Seq<FileRead>) -> JsonView {
    match read_from(files, w.id.path@, 0) {
        Some(i) => match w.block_span {
            Some(span) => match slice_text(files[i], span) {
                Some(t) => content_json(t, None, None),
                None => JsonView::Null,
            },
            None => if w.id.block_id is None {
                file_content(files[i])
            } else {
                JsonView::Null
            },
        },
        None => JsonView::Null,
    }
}

/// The `body` of a node.
pub open spec fn node_body(w: WalkedNode, files: Seq<FileRead>) -> Option<Seq<char>> {
    match read_from(files, w.id.path@, 0) {
        Some(i) => match w.block_span {
            Some(span) => slice_text(files[i], span),
            None => if w.id.block_id is None {
                file_body(files[i])
            } else {
                None
            },
        },
        None => None,
    }
}

/// The facts that a caller asks for beside each node.
#[derive(Debug, Clone, Copy, PartialEq, Eq, Structural)]
pub struct Wants {
    pub content: bool,
    pub body: bool,
    pub instance: bool,
}

/// A node with the facts that were asked for. `instance` is the resolved view of
/// the node's file; a block has none of its own.
pub open spec fn full_node(
    w: WalkedNode,
    want: Wants,
    instance: JsonView,
    files: Seq<FileRead>,
) -> JsonView {
    let base = node_members(w);
    let with_instance = if want.instance {
        base.push(
            (
                "instance"@,
                if w.id.block_id is Some {
                    JsonView::Null
                } else {
                    instance
                },
            ),
        )
    } else {
        base
    };
    let with_content = if want.content {
        with_instance.push(("content"@, node_content(w, files)))
    } else {
        with_instance
    };
    JsonView::Object(
        if want.body {
            with_content.push(("body"@, text_or_null(node_body(w, files))))
        } else {
            with_content
        },
    )
}

fn full_node_json(
    w: &WalkedNode,
    want: Wants,
    instance: &Json,
    files: &Vec<FileRead>,
) -> (r: Json)
    ensures
        jv(r) == full_node(*w, want, jv(*instance), files@),
{
    let mut b = ObjectBuilder::new();
    put_node(&mut b, w);
    if want.instance {
        let value = if w.id.block_id.is_some() {
            Json::Null
        } else {
            copy_json(instance)
        };
        b.put("instance", value);
    }
    let at = find_read(files, w.id.path.as_str());
    if want.content {
        let value = match at {
            Some(i) => match w.block_span {
                Some(span) => match read_slice(&files[i], span) {
                    Some(t) => make_content(t.as_str(), &None, &None),
                    None => Json::Null,
                },
                None => if w.id.block_id.is_none() {
                    read_content_at(&files[i])
                } else {
                    Json::Null
                },
            },
            None => Json::Null,
        };
        b.put("content", value);
    }
    if want.body {
        let value: Option<String> = match at {
            Some(i) => match w.block_span {
                Some(span) => read_slice(&files[i], span),
                None => if w.id.block_id.is_none() {
                    read_body_at(&files[i])
                } else {
                    None
                },
            },
            None => None,
        };
        b.put("body", json_opt_text(&value));
    }
    b.done()
}

/// The nodes of a reply.
pub open spec fn full_nodes(
    nodes: Seq<WalkedNode>,
    want: Wants,
    instances: Seq<Json>,
    files: Seq<FileRead>,
) -> Seq<JsonView> {
    Seq::new(nodes.len(), |i: int| full_node(nodes[i], want, jv(instances[i]), files))
}

pub open spec fn edge_list(edges: Seq<WalkedEdge>) -> Seq<JsonView> {
    Seq::new(edges.len(), |i: int| JsonView::Object(edge_members(edges[i])))
}

pub open spec fn dropped_list(dropped: Seq<DroppedNode>) -> Seq<JsonView> {
    Seq::new(dropped.len(), |i: int| JsonView::Object(dropped_members(dropped[i])))
}

/// What a walk found, on the wire.
pub open spec fn neighborhood_members(
    n: Neighborhood,
    want: Wants,
    instances: Seq<Json>,
    files: Seq<FileRead>,
) -> Seq<(Seq<char>, JsonView)> {
    with_opt(
        seq![
            ("nodes"@, JsonView::List(full_nodes(n.nodes@, want, instances, files))),
            ("edges"@, JsonView::List(edge_list(n.edges@))),
            ("truncated"@, JsonView::Bool(n.truncated)),
        ],
        "truncated_at_depth"@,
        match n.truncated_at_depth {
            Some(d) => Some(JsonView::Int(d as nat)),
            None => None,
        },
    ).push(("dropped"@, JsonView::List(dropped_list(n.dropped@))))
}

/// Renders what a walk found, with the facts that were asked for beside each node.
pub fn neighborhood_view(
    n: &Neighborhood,
    want: Wants,
    instances: &Vec<Json>,
    files: &Vec<FileRead>,
) -> (r: Json)
    requires
        instances@.len() == n.nodes@.len(),
    ensures
        jv(r) == JsonView::Object(neighborhood_members(*n, want, instances@, files@)),
{
    let mut nodes = ListBuilder::new();
    let ghost all_nodes = full_nodes(n.nodes@, want, instances@, files@);
    assert(nodes@ =~= all_nodes.take(0));
    for i in 0..n.nodes.len()
        invariant
            all_nodes == full_nodes(n.nodes@, want, instances@, files@),
            instances@.len() == n.nodes@.len(),
            nodes@ == all_nodes.take(i as int),
    {
        nodes.put(full_node_json(&n.nodes[i], want, &instances[i], files));
        assert(nodes@ =~= all_nodes.take(i + 1));
    }
    assert(all_nodes.take(all_nodes.len() as int) =~= all_nodes);
    let mut edges = ListBuilder::new();
    let ghost all_edges = edge_list(n.edges@);
    assert(edges@ =~= all_edges.take(0));
    for i in 0..n.edges.len()
        invariant
            all_edges == edge_list(n.edges@),
            edges@ == all_edges.take(i as int),
    {
        edges.put(edge_json(&n.edges[i]));
        assert(edges@ =~= all_edges.take(i + 1));
    }
    assert(all_edges.take(all_edges.len() as int) =~= all_edges);
    let mut dropped = ListBuilder::new();
    let ghost all_dropped = dropped_list(n.dropped@);
    assert(dropped@ =~= all_dropped.take(0));
    for i in 0..n.dropped.len()
        invariant
            all_dropped == dropped_list(n.dropped@),
            dropped@ == all_dropped.take(i as int),
    {
        dropped.put(dropped_json(&n.dropped[i]));
        assert(dropped@ =~= all_dropped.take(i + 1));
    }
    assert(all_dropped.take(all_dropped.len() as int) =~= all_dropped);
    let mut b = ObjectBuilder::new();
    b.put("nodes", nodes.done());
    b.put("edges", edges.done());
    b.put("truncated", Json::Bool(n.truncated));
    assert(b@ =~= seq![
        ("nodes"@, JsonView::List(all_nodes)),
        ("edges"@, JsonView::List(all_edges)),
        ("truncated"@, JsonView::Bool(n.truncated)),
    ]);
    if let Some(d) = n.truncated_at_depth {
        b.put("truncated_at_depth", Json::Int(d as u64));
    }
    b.put("dropped", dropped.done());
    b.done()
}

/// The reply to a `neighborhood` read.
pub fn neighborhood_response(
    version: u64,
    n: &Neighborhood,
    want: Wants,
    instances: &Vec<Json>,
    files: &Vec<FileRead>,
) -> (r: Json)
    requires
        instances@.len() == n.nodes@.len(),
    ensures
        jv(r) == ready_frame(
            version as nat,
            JsonView::Object(
                seq![
                    (
                        "neighborhood"@,
                        JsonView::Object(neighborhood_members(*n, want, instances@, files@)),
                    ),
                ],
            ),
        ),
{
    let view = neighborhood_view(n, want, instances, files);
    let mut b = ObjectBuilder::new();
    b.put("neighborhood", view);
    assert(b@ =~= seq![
        (
            "neighborhood"@,
            JsonView::Object(neighborhood_members(*n, want, instances@, files@)),
        ),
    ]);
    make_ready_frame(version, b.done())
}

/// A file to read for the facts of a reply.
#[derive(Debug)]
pub struct ReadOrder {
    pub path: String,
    /// Whether a block of the file is sliced out of its bytes.
    pub keep_bytes: bool,
}

/// Whether one of the paths is this one.
pub open spec fn has_same_path(v: Seq<Seq<char>>, path: Seq<char>) -> bool {
    exists|i: int| 0 <= i < v.len() && same_path_spec(#[trigger] v[i], path)
}

/// The files of the first `n` nodes, each where it comes first.
pub open spec fn first_files(nodes: Seq<WalkedNode>, n: int) -> Seq<Seq<char>>
    decreases n,
{
    if n <= 0 {
        Seq::empty()
    } else {
        let before = first_files(nodes, n - 1);
        if has_same_path(before, nodes[n - 1].id.path@) {
            before
        } else {
            before.push(nodes[n - 1].id.path@)
        }
    }
}

pub open spec fn order_paths(v: Seq<ReadOrder>) -> Seq<Seq<char>> {
    v.map_values(|o: ReadOrder| o.path@)
}

/// Whether a block of this file was found by the walk.
pub open spec fn has_block(nodes: Seq<WalkedNode>, path: Seq<char>) -> bool {
    exists|i: int|
        0 <= i < nodes.len() && (#[trigger] nodes[i]).block_span is Some && same_path_spec(
            nodes[i].id.path@,
            path,
        )
}

fn block_of(nodes: &Vec<WalkedNode>, path: &str) -> (r: bool)
    ensures
        r == has_block(nodes@, path@),
{
    for i in 0..nodes.len()
        invariant
            forall|k: int|
                0 <= k < i ==> !((#[trigger] nodes@[k]).block_span is Some && same_path_spec(
                    nodes@[k].id.path@,
                    path@,
                )),
    {
        if nodes[i].block_span.is_some() && same_path(nodes[i].id.path.as_str(), path) {
            return true;
        }
    }
    false
}

/// The files to read for a reply: each file of a node once, in the order of the
/// nodes, and none where neither contents nor bodies were asked for.
pub fn reads_of(n: &Neighborhood, want: Wants) -> (r: Vec<ReadOrder>)
    ensures
        order_paths(r@) == (if want.content || want.body {
            first_files(n.nodes@, n.nodes@.len() as int)
        } else {
            Seq::empty()
        }),
        forall|i: int|
            #![trigger r@[i]]
            0 <= i < r@.len() ==> r@[i].keep_bytes == has_block(n.nodes@, r@[i].path@),
{
    let mut out: Vec<ReadOrder> = Vec::new();
    assert(order_paths(out@) =~= Seq::empty());
    if !want.content && !want.body {
        return out;
    }
    for i in 0..n.nodes.len()
        invariant
            order_paths(out@) == first_files(n.nodes@, i as int),
            forall|a: int|
                #![trigger out@[a]]
                0 <= a < out@.len() ==> out@[a].keep_bytes == has_block(n.nodes@, out@[a].path@),
    {
        let path = &n.nodes[i].id.path;
        let ghost before = order_paths(out@);
        let mut seen = false;
        for j in 0..out.len()
            invariant
                before == order_paths(out@),
                seen == (exists|k: int| 0 <= k < j && same_path_spec(#[trigger] before[k], path@)),
        {
            if same_path(out[j].path.as_str(), path.as_str()) {
                assert(same_path_spec(before[j as int], path@));
                seen = true;
            }
        }
        assert(before.len() == out@.len());
        assert(seen == has_same_path(before, path@));
        if !seen {
            let keep_bytes = block_of(&n.nodes, path.as_str());
            let order = ReadOrder { path: path.clone(), keep_bytes };
            let ghost had = out@;
            out.push(order);
            assert(order_paths(out@) =~= before.push(path@));
        }
    }
    out
}

/// Each file of a walk is read once, and every one is read.
pub proof fn files_are_read_once(nodes: Seq<WalkedNode>, n: int)
    requires
        0 <= n <= nodes.len(),
    ensures
        forall|i: int|
            0 <= i < n ==> has_same_path(first_files(nodes, n), #[trigger] nodes[i].id.path@),
        forall|i: int, j: int|
            #![trigger first_files(nodes, n)[i], first_files(nodes, n)[j]]
            0 <= i < j < first_files(nodes, n).len() ==> !same_path_spec(
                first_files(nodes, n)[i],
                first_files(nodes, n)[j],
            ),
    decreases n,
{
    if n > 0 {
        files_are_read_once(nodes, n - 1);
        let before = first_files(nodes, n - 1);
        let now = first_files(nodes, n);
        let here = nodes[n - 1].id.path@;
        assert forall|i: int| 0 <= i < n implies has_same_path(now, #[trigger] nodes[i].id.path@) by {
            let p = nodes[i].id.path@;
            if i < n - 1 {
                let k = choose|k: int| 0 <= k < before.len() && same_path_spec(#[trigger] before[k], p);
                assert(now[k] == before[k]);
            } else if !has_same_path(before, here) {
                assert(now[before.len() as int] == here);
                assert(same_path_spec(now[before.len() as int], here));
            }
        }
        assert forall|i: int, j: int| #![trigger now[i], now[j]] 0 <= i < j < now.len() implies !same_path_spec(
            now[i],
            now[j],
        ) by {
            assert(now[i] == before[i]);
            if j < before.len() {
                assert(now[j] == before[j]);
            }
        }
    }
}

} // verus!
