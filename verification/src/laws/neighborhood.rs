//! What a walk round a file tells of the nodes and the edges that it met.

use crate::ast::ByteRange;
use crate::graph::links::surface_label;
use crate::json::{
    count_or_null, jv, text_list, text_or_null, with_opt, with_opt_text, Json, JsonView,
};
use crate::laws::json::{lemma_opt, lemma_opt_text, lemma_push, tells};
use crate::mutation::links::block_view;
use crate::neighborhood::{
    block_json, dropped_list, dropped_members, edge_list, edge_members, file_body, file_text,
    first_files, full_node, full_nodes, neighborhood_error, neighborhood_members, node_body,
    node_content, node_members, node_ref, read_from, slice_text, text_in, unknown_kind_from,
    DroppedNode, FileRead, FrontmatterSplit, Neighborhood, NeighborhoodArgs, NodeId, WalkedEdge,
    WalkedNode, Wants,
};
use crate::paths::same_path_spec;
use crate::socket::fnv1a;
use crate::text::{hex_of, holds, opt_view};
use vstd::prelude::*;

verus! {

/// An optional text or count is told as what it is, and as null where there is none.
pub proof fn what_is_not_there_is_null(s: Option<Seq<char>>, n: Option<usize>, list: Seq<Seq<char>>, i: int)
    ensures
        s is None ==> text_or_null(s) == JsonView::Null,
        s matches Some(t) ==> text_or_null(s) == JsonView::Text(t),
        n is None ==> count_or_null(n) == JsonView::Null,
        n matches Some(k) ==> count_or_null(n) == JsonView::Int(k as nat),
        text_list(list) is List && text_list(list)->List_0.len() == list.len(),
        0 <= i < list.len() ==> text_list(list)->List_0[i] == JsonView::Text(list[i]),
{
}

/// A node is named by its file and, where it is a block, by its id.
pub proof fn a_node_is_named_by_its_file_and_id(id: NodeId)
    ensures
        node_ref(id) matches JsonView::Object(m) && tells(m, "path"@, JsonView::Text(id.path@)) && (
        id.block_id matches Some(b) ==> tells(m, "block_id"@, JsonView::Text(b@))) && (
        id.block_id is None ==> m.len() == 1),
{
    let head = seq![("path"@, JsonView::Text(id.path@))];
    assert(head[0] == ("path"@, JsonView::Text(id.path@)));
    assert(tells(head, "path"@, JsonView::Text(id.path@)));
    lemma_opt_text(head, "block_id"@, opt_view(id.block_id));
}

/// A node is told with its name, how far off it is, its repo, its role and its sizes.
pub proof fn a_node_is_told_whole(w: WalkedNode)
    ensures
        ({
            let m = node_members(w);
            &&& tells(m, "path"@, JsonView::Text(w.id.path@))
            &&& w.id.block_id matches Some(b) ==> tells(m, "block_id"@, JsonView::Text(b@))
            &&& tells(m, "depth"@, JsonView::Int(w.depth as nat))
            &&& w.repo matches Some(r) ==> tells(m, "repo"@, JsonView::Text(r@))
            &&& tells(m, "file_kind"@, JsonView::Text(w.file_kind@))
            &&& w.bytes matches Some(n) ==> tells(m, "bytes"@, JsonView::Int(n as nat))
            &&& w.bytes is None ==> tells(m, "bytes"@, JsonView::Null)
            &&& w.body_bytes matches Some(n) ==> tells(m, "body_bytes"@, JsonView::Int(n as nat))
            &&& w.body_bytes is None ==> tells(m, "body_bytes"@, JsonView::Null)
        }),
{
    let head = seq![("path"@, JsonView::Text(w.id.path@))];
    assert(head[0] == ("path"@, JsonView::Text(w.id.path@)));
    assert(tells(head, "path"@, JsonView::Text(w.id.path@)));
    let a = with_opt_text(head, "block_id"@, opt_view(w.id.block_id));
    lemma_opt_text(head, "block_id"@, opt_view(w.id.block_id));
    let depth = JsonView::Int(w.depth as nat);
    let b = a.push(("depth"@, depth));
    lemma_push(a, "depth"@, depth);
    let c = with_opt_text(b, "repo"@, opt_view(w.repo));
    lemma_opt_text(b, "repo"@, opt_view(w.repo));
    let kind = JsonView::Text(w.file_kind@);
    let d = c.push(("file_kind"@, kind));
    lemma_push(c, "file_kind"@, kind);
    let e = d.push(("bytes"@, count_or_null(w.bytes)));
    lemma_push(d, "bytes"@, count_or_null(w.bytes));
    lemma_push(e, "body_bytes"@, count_or_null(w.body_bytes));
    assert(node_members(w) == e.push(("body_bytes"@, count_or_null(w.body_bytes))));
}

/// An edge is told from the node that holds the reference to the node that it reaches, with
/// its kind, its surface and its place, and with what the link itself says.
pub proof fn an_edge_is_told_whole(e: WalkedEdge)
    ensures
        ({
            let m = edge_members(e);
            &&& tells(m, "from"@, node_ref(e.from))
            &&& e.to matches Some(to) ==> tells(m, "to"@, node_ref(to))
            &&& e.to is None ==> tells(m, "to"@, JsonView::Null)
            &&& tells(m, "kind"@, JsonView::Text(e.kind@))
            &&& tells(m, "surface"@, JsonView::Text(surface_label(e.surface)))
            &&& tells(m, "span_start"@, JsonView::Int(e.span.start as nat))
            &&& tells(m, "span_end"@, JsonView::Int(e.span.end as nat))
            &&& e.line_col matches Some(l) ==> tells(m, "line_col"@, jv(l))
            &&& e.field matches Some(f) ==> tells(m, "field"@, JsonView::Text(f@))
            &&& e.source_block_id matches Some(s) ==> tells(
                m,
                "source_block_id"@,
                JsonView::Text(s@),
            )
            &&& block_json(block_view(e.target_block_id)) matches Some(b) ==> tells(
                m,
                "block_id"@,
                b,
            )
            &&& e.link matches Some(l) ==> {
                &&& l.repo matches Some(r) ==> tells(m, "repo"@, JsonView::Text(r@))
                &&& l.commit matches Some(c) ==> tells(m, "commit"@, JsonView::Text(c@))
                &&& l.anchor matches Some(a) ==> tells(m, "anchor"@, JsonView::Text(a@))
            }
        }),
{
    let to = crate::neighborhood::opt_node_ref(e.to);
    let head = seq![
        ("from"@, node_ref(e.from)),
        ("to"@, to),
        ("kind"@, JsonView::Text(e.kind@)),
        ("surface"@, JsonView::Text(surface_label(e.surface))),
        ("span_start"@, JsonView::Int(e.span.start as nat)),
        ("span_end"@, JsonView::Int(e.span.end as nat)),
    ];
    assert(head[0] == ("from"@, node_ref(e.from)));
    assert(head[1] == ("to"@, to));
    assert(head[2] == ("kind"@, JsonView::Text(e.kind@)));
    assert(head[3] == ("surface"@, JsonView::Text(surface_label(e.surface))));
    assert(head[4] == ("span_start"@, JsonView::Int(e.span.start as nat)));
    assert(head[5] == ("span_end"@, JsonView::Int(e.span.end as nat)));
    assert(tells(head, "from"@, node_ref(e.from)));
    assert(tells(head, "to"@, to));
    assert(tells(head, "kind"@, JsonView::Text(e.kind@)));
    assert(tells(head, "surface"@, JsonView::Text(surface_label(e.surface))));
    assert(tells(head, "span_start"@, JsonView::Int(e.span.start as nat)));
    assert(tells(head, "span_end"@, JsonView::Int(e.span.end as nat)));
    let a = with_opt(head, "line_col"@, crate::json::opt_jv(e.line_col));
    lemma_opt(head, "line_col"@, crate::json::opt_jv(e.line_col));
    let b = with_opt_text(a, "field"@, opt_view(e.field));
    lemma_opt_text(a, "field"@, opt_view(e.field));
    let c = with_opt_text(b, "source_block_id"@, opt_view(e.source_block_id));
    lemma_opt_text(b, "source_block_id"@, opt_view(e.source_block_id));
    let d = with_opt(c, "block_id"@, block_json(block_view(e.target_block_id)));
    lemma_opt(c, "block_id"@, block_json(block_view(e.target_block_id)));
    if let Some(l) = e.link {
        let f = with_opt_text(d, "repo"@, opt_view(l.repo));
        lemma_opt_text(d, "repo"@, opt_view(l.repo));
        let g = with_opt_text(f, "commit"@, opt_view(l.commit));
        lemma_opt_text(f, "commit"@, opt_view(l.commit));
        lemma_opt_text(g, "anchor"@, opt_view(l.anchor));
    }
}

/// A node that did not fit is told with its name, how far off it is, and its repo.
pub proof fn a_dropped_node_is_told_whole(x: DroppedNode)
    ensures
        ({
            let m = dropped_members(x);
            &&& tells(m, "path"@, JsonView::Text(x.id.path@))
            &&& x.id.block_id matches Some(b) ==> tells(m, "block_id"@, JsonView::Text(b@))
            &&& tells(m, "depth"@, JsonView::Int(x.depth as nat))
            &&& x.repo matches Some(r) ==> tells(m, "repo"@, JsonView::Text(r@))
        }),
{
    let head = seq![("path"@, JsonView::Text(x.id.path@))];
    assert(head[0] == ("path"@, JsonView::Text(x.id.path@)));
    assert(tells(head, "path"@, JsonView::Text(x.id.path@)));
    let a = with_opt_text(head, "block_id"@, opt_view(x.id.block_id));
    lemma_opt_text(head, "block_id"@, opt_view(x.id.block_id));
    let depth = JsonView::Int(x.depth as nat);
    let b = a.push(("depth"@, depth));
    lemma_push(a, "depth"@, depth);
    lemma_opt_text(b, "repo"@, opt_view(x.repo));
}

proof fn lemma_read(files: Seq<FileRead>, path: Seq<char>, i: int, k: int)
    requires
        0 <= i <= k < files.len(),
        same_path_spec(files[k].path@, path),
        forall|j: int| #![trigger files[j]] i <= j < k ==> !same_path_spec(files[j].path@, path),
    ensures
        read_from(files, path, i) == Some(k),
    decreases k - i,
{
    if i < k {
        let here = files[i];
        lemma_read(files, path, i + 1, k);
    }
}

/// The text of a file is its bytes as they decode; bytes that do not are no text.
pub proof fn a_file_is_read_as_text_where_it_decodes(f: FileRead, text: Seq<char>)
    ensures
        f.bytes matches Some(b) && b@ == vstd::utf8::encode_utf8(text) ==> file_text(f) == Some(
            text,
        ),
        f.bytes matches Some(b) && !vstd::utf8::valid_utf8(b@) ==> file_text(f) is None,
        f.bytes is None ==> file_text(f) is None,
{
    vstd::utf8::encode_utf8_valid_utf8(text);
    vstd::utf8::encode_utf8_decode_utf8(text);
}

/// The body of a file is what follows its frontmatter, or all of it where there is none;
/// where the frontmatter does not end, or the file is no text, there is no body.
pub proof fn the_body_is_what_follows_the_frontmatter(f: FileRead)
    ensures
        file_text(f) is None ==> file_body(f) is None,
        f.split is Absent ==> file_body(f) == file_text(f),
        f.split is Broken ==> file_body(f) is None,
        file_text(f) is Some ==> (f.split matches FrontmatterSplit::Body(b) ==> file_body(f)
            == Some(b@)),
{
}

/// A whole file is told with its text, its digest and its commit; a block with the text of
/// its own range.
pub proof fn the_content_of_a_node_is_that_of_its_file(
    w: WalkedNode,
    files: Seq<FileRead>,
    k: int,
)
    requires
        0 <= k < files.len(),
        same_path_spec(files[k].path@, w.id.path@),
        forall|j: int|
            #![trigger files[j]]
            0 <= j < k ==> !same_path_spec(files[j].path@, w.id.path@),
    ensures
        w.block_span is None && w.id.block_id is None ==> {
            &&& node_body(w, files) == file_body(files[k])
            &&& file_text(files[k]) matches Some(t) ==> (node_content(w, files) matches JsonView::Object(
                m,
            ) && tells(m, "text"@, JsonView::Text(t)) && (files[k].commit matches Some(c) ==> tells(
                m,
                "commit"@,
                JsonView::Text(c@),
            )))
            &&& file_text(files[k]) is None ==> node_content(w, files) == JsonView::Null
        },
        w.block_span is None && w.id.block_id is Some ==> node_body(w, files) is None
            && node_content(w, files) == JsonView::Null,
        w.block_span matches Some(span) ==> {
            &&& node_body(w, files) == slice_text(files[k], span)
            &&& slice_text(files[k], span) matches Some(t) ==> (node_content(
                w,
                files,
            ) matches JsonView::Object(m) && tells(m, "text"@, JsonView::Text(t)) && tells(
                m,
                "hash"@,
                JsonView::Null,
            ) && tells(m, "commit"@, JsonView::Null))
            &&& slice_text(files[k], span) is None ==> node_content(w, files) == JsonView::Null
        },
{
    lemma_read(files, w.id.path@, 0, k);
    let c = node_content(w, files);
    if let JsonView::Object(m) = c {
        assert(m[0].0 == "text"@ && m[1].0 == "hash"@ && m[2].0 == "commit"@);
        assert(m.contains(m[0]) && m.contains(m[1]) && m.contains(m[2]));
    }
}

/// The text of a block is that of its bytes in the file, which must lie in it.
pub proof fn a_block_is_cut_out_of_its_file(f: FileRead, span: ByteRange)
    ensures
        f.bytes matches Some(b) ==> (span.start <= span.end && span.end <= b@.len() ==> slice_text(
            f,
            span,
        ) == text_in(b@.subrange(span.start as int, span.end as int))),
        f.bytes matches Some(b) ==> (span.start > span.end || span.end > b@.len() ==> slice_text(
            f,
            span,
        ) is None),
        f.bytes is None ==> slice_text(f, span) is None,
{
}

/// What is asked for of a node is told of it, and nothing that is not asked for; a block is
/// no instance.
pub proof fn a_node_tells_what_is_asked_for(
    w: WalkedNode,
    want: Wants,
    instance: JsonView,
    files: Seq<FileRead>,
)
    ensures
        full_node(w, want, instance, files) matches JsonView::Object(m) && {
            &&& want.instance && w.id.block_id is None ==> tells(m, "instance"@, instance)
            &&& want.instance && w.id.block_id is Some ==> tells(m, "instance"@, JsonView::Null)
            &&& want.content ==> tells(m, "content"@, node_content(w, files))
            &&& want.body && node_body(w, files) is Some ==> tells(
                m,
                "body"@,
                JsonView::Text(node_body(w, files)->0),
            )
            &&& want.body && node_body(w, files) is None ==> tells(m, "body"@, JsonView::Null)
            &&& m.len() == node_members(w).len() + (if want.instance {
                1int
            } else {
                0
            }) + (if want.content {
                1int
            } else {
                0
            }) + (if want.body {
                1int
            } else {
                0
            })
            &&& forall|k: Seq<char>, v: JsonView|
                #![trigger tells(m, k, v)]
                tells(node_members(w), k, v) ==> tells(m, k, v)
        },
{
    let base = node_members(w);
    let i = if w.id.block_id is Some {
        JsonView::Null
    } else {
        instance
    };
    lemma_push(base, "instance"@, i);
    let a = if want.instance {
        base.push(("instance"@, i))
    } else {
        base
    };
    lemma_push(a, "content"@, node_content(w, files));
    let b = if want.content {
        a.push(("content"@, node_content(w, files)))
    } else {
        a
    };
    lemma_push(b, "body"@, text_or_null(node_body(w, files)));
}

/// A walk tells every node with its own instance, every edge and every dropped node, each
/// in its place, and whether and where it was cut off.
pub proof fn a_walk_tells_all_that_it_met(
    n: Neighborhood,
    want: Wants,
    instances: Seq<Json>,
    files: Seq<FileRead>,
    i: int,
)
    requires
        instances.len() == n.nodes@.len(),
    ensures
        ({
            let m = neighborhood_members(n, want, instances, files);
            &&& tells(m, "nodes"@, JsonView::List(full_nodes(n.nodes@, want, instances, files)))
            &&& tells(m, "edges"@, JsonView::List(edge_list(n.edges@)))
            &&& tells(m, "truncated"@, JsonView::Bool(n.truncated))
            &&& n.truncated_at_depth matches Some(d) ==> tells(
                m,
                "truncated_at_depth"@,
                JsonView::Int(d as nat),
            )
            &&& tells(m, "dropped"@, JsonView::List(dropped_list(n.dropped@)))
            &&& full_nodes(n.nodes@, want, instances, files).len() == n.nodes@.len()
            &&& 0 <= i < n.nodes@.len() ==> full_nodes(n.nodes@, want, instances, files)[i]
                == full_node(n.nodes@[i], want, jv(instances[i]), files)
            &&& edge_list(n.edges@).len() == n.edges@.len()
            &&& 0 <= i < n.edges@.len() ==> edge_list(n.edges@)[i] == JsonView::Object(
                edge_members(n.edges@[i]),
            )
            &&& dropped_list(n.dropped@).len() == n.dropped@.len()
            &&& 0 <= i < n.dropped@.len() ==> dropped_list(n.dropped@)[i] == JsonView::Object(
                dropped_members(n.dropped@[i]),
            )
        }),
{
    let nodes = JsonView::List(full_nodes(n.nodes@, want, instances, files));
    let edges = JsonView::List(edge_list(n.edges@));
    let head = seq![
        ("nodes"@, nodes),
        ("edges"@, edges),
        ("truncated"@, JsonView::Bool(n.truncated)),
    ];
    assert(head[0] == ("nodes"@, nodes));
    assert(head[1] == ("edges"@, edges));
    assert(head[2] == ("truncated"@, JsonView::Bool(n.truncated)));
    assert(tells(head, "nodes"@, nodes));
    assert(tells(head, "edges"@, edges));
    assert(tells(head, "truncated"@, JsonView::Bool(n.truncated)));
    let at = match n.truncated_at_depth {
        Some(d) => Some(JsonView::Int(d as nat)),
        None => None,
    };
    let a = with_opt(head, "truncated_at_depth"@, at);
    lemma_opt(head, "truncated_at_depth"@, at);
    lemma_push(a, "dropped"@, JsonView::List(dropped_list(n.dropped@)));
}

proof fn lemma_unknown(kinds: Seq<String>, known: Seq<String>, i: int)
    requires
        0 <= i,
    ensures
        unknown_kind_from(kinds, known, i) is None <==> forall|k: int|
            #![trigger kinds[k]]
            i <= k < kinds.len() ==> holds(known, kinds[k]@),
    decreases kinds.len() - i,
{
    if i < kinds.len() {
        lemma_unknown(kinds, known, i + 1);
        let here = kinds[i];
    }
}

/// A walk is refused for a kind that is not known, for going past the first step without a
/// kind, and for no room for a node; for nothing else.
pub proof fn a_walk_is_refused_for_these_reasons(args: NeighborhoodArgs, known: Seq<String>)
    ensures
        neighborhood_error(args, known) is None <==> {
            &&& args.kinds matches Some(ks) ==> forall|k: int|
                #![trigger ks@[k]]
                0 <= k < ks@.len() ==> holds(known, ks@[k]@)
            &&& args.depth > 1 ==> args.kinds is Some
            &&& args.max_nodes is Some ==> args.max_nodes->0 > 0
        },
{
    if let Some(ks) = args.kinds {
        lemma_unknown(ks@, known, 0);
    }
}

/// Every file of a node is read.
pub proof fn every_file_of_a_node_is_read(nodes: Seq<WalkedNode>, n: int, i: int)
    requires
        0 <= i < n <= nodes.len(),
    ensures
        exists|k: int|
            0 <= k < first_files(nodes, n).len() && same_path_spec(
                #[trigger] first_files(nodes, n)[k],
                nodes[i].id.path@,
            ),
    decreases n,
{
    let before = first_files(nodes, n - 1);
    let now = first_files(nodes, n);
    let path = nodes[i].id.path@;
    if i < n - 1 {
        every_file_of_a_node_is_read(nodes, n - 1, i);
        let k = choose|k: int|
            0 <= k < before.len() && same_path_spec(#[trigger] before[k], path);
        assert(now[k] == before[k]);
    } else if crate::neighborhood::has_same_path(before, path) {
        let k = choose|k: int| 0 <= k < before.len() && same_path_spec(#[trigger] before[k], path);
        assert(now[k] == before[k]);
    } else {
        assert(now[before.len() as int] == path);
    }
}

/// The digest of a file is of all its bytes, in sixteen digits.
pub proof fn a_file_is_told_with_its_digest(w: WalkedNode, files: Seq<FileRead>, k: int, bytes: Vec<u8>)
    requires
        0 <= k < files.len(),
        same_path_spec(files[k].path@, w.id.path@),
        forall|j: int|
            #![trigger files[j]]
            0 <= j < k ==> !same_path_spec(files[j].path@, w.id.path@),
        w.block_span is None,
        w.id.block_id is None,
        files[k].bytes == Some(bytes),
        file_text(files[k]) is Some,
    ensures
        node_content(w, files) matches JsonView::Object(m) && tells(
            m,
            "hash"@,
            JsonView::Text(hex_of(fnv1a(bytes@, bytes@.len() as int) as nat, 16)),
        ) && (files[k].commit is None ==> tells(m, "commit"@, JsonView::Null)),
{
    lemma_read(files, w.id.path@, 0, k);
    let m = node_content(w, files)->Object_0;
    assert(m.contains(m[1]) && m.contains(m[2]));
}

} // verus!
