//! What goes out on the wire: each value under its own key.

use crate::diagnostics::{DiagnosticCountsView, LabelCount};
use crate::graph::hubs::Hub;
use crate::graph::links::{GraphEdgeView, GraphNodeView, LinkGraphView};
use crate::graph::shape::{DegreeBucket, GraphShapeView, OrphanPath};
use crate::graph::types::{TypeGraphEdgeView, TypeGraphNodeView, TypeGraphView};
use crate::json::{rendered_list, JsonView, Rendered};
use crate::laws::json::tells;
use crate::listing::{DirEntry, FileEntry, TopLevelDir};
use crate::render::{counts_json, orphans_json, shape_json};
use crate::text::opt_view;
use vstd::prelude::*;

verus! {

/// Whether the members tell an optional text: the text, or null without one.
pub open spec fn tells_opt(
    m: Seq<(Seq<char>, JsonView)>,
    key: Seq<char>,
    value: Option<Seq<char>>,
) -> bool {
    match value {
        Some(t) => tells(m, key, JsonView::Text(t)),
        None => tells(m, key, JsonView::Null),
    }
}

/// Whether the members tell a count.
pub open spec fn tells_count(m: Seq<(Seq<char>, JsonView)>, key: Seq<char>, n: nat) -> bool {
    tells(m, key, JsonView::Int(n))
}

/// A list is told item by item, in its order.
pub proof fn a_list_is_told_in_order<T: Rendered>(v: Seq<T>, i: int)
    ensures
        rendered_list(v) matches JsonView::List(l) && l.len() == v.len() && (0 <= i < v.len()
            ==> l[i] == v[i].rendered()),
{
}

/// A count by label is told under the label.
pub proof fn a_count_is_told_under_its_label(v: Seq<LabelCount>, i: int)
    requires
        0 <= i < v.len(),
    ensures
        counts_json(v) matches JsonView::Object(m) && m.len() == v.len() && tells_count(
            m,
            v[i].label@,
            v[i].count as nat,
        ),
{
    let m = counts_json(v)->Object_0;
    assert(m[i] == (v[i].label@, JsonView::Int(v[i].count as nat)));
}

/// A file of the reference graph is told with its own path, repo, role and counts.
pub proof fn a_node_of_the_graph_is_told_whole(v: GraphNodeView)
    ensures
        v.rendered() matches JsonView::Object(m) && {
            &&& tells(m, "path"@, JsonView::Text(v.path@))
            &&& tells_opt(m, "repo"@, opt_view(v.repo))
            &&& tells(m, "kind"@, JsonView::Text(v.kind@))
            &&& tells_count(m, "refs_structural"@, v.refs_structural as nat)
            &&& tells_count(m, "refs_total"@, v.refs_total as nat)
        },
{
    let m = v.rendered()->Object_0;
    assert(m.contains(m[0]));
    assert(m.contains(m[1]));
    assert(m.contains(m[2]));
    assert(m.contains(m[3]));
    assert(m.contains(m[4]));
}

/// An edge of the reference graph is told from its source to its target.
pub proof fn an_edge_of_the_graph_is_told_whole(v: GraphEdgeView)
    ensures
        v.rendered() matches JsonView::Object(m) && {
            &&& tells(m, "from"@, JsonView::Text(v.from@))
            &&& tells(m, "to"@, JsonView::Text(v.to@))
            &&& tells(m, "kind"@, JsonView::Text(v.kind@))
            &&& tells(m, "surface"@, JsonView::Text(v.surface@))
        },
{
    let m = v.rendered()->Object_0;
    assert(m.contains(m[0]));
    assert(m.contains(m[1]));
    assert(m.contains(m[2]));
    assert(m.contains(m[3]));
}

/// The reference graph is told with its nodes and its edges.
pub proof fn the_reference_graph_is_told_whole(v: LinkGraphView)
    ensures
        v.rendered() matches JsonView::Object(m) && {
            &&& tells_opt(m, "repo"@, opt_view(v.repo))
            &&& tells(m, "scope"@, JsonView::Text(v.scope@))
            &&& tells(m, "nodes"@, rendered_list(v.nodes@))
            &&& tells(m, "edges"@, rendered_list(v.edges@))
        },
{
    let m = v.rendered()->Object_0;
    assert(m.contains(m[0]));
    assert(m.contains(m[1]));
    assert(m.contains(m[2]));
    assert(m.contains(m[3]));
}

/// A file of the type graph is told with its own path, repo and role.
pub proof fn a_node_of_the_type_graph_is_told_whole(v: TypeGraphNodeView)
    ensures
        v.rendered() matches JsonView::Object(m) && {
            &&& tells(m, "path"@, JsonView::Text(v.path@))
            &&& tells_opt(m, "repo"@, opt_view(v.repo))
            &&& tells(m, "kind"@, JsonView::Text(v.kind@))
        },
{
    let m = v.rendered()->Object_0;
    assert(m.contains(m[0]));
    assert(m.contains(m[1]));
    assert(m.contains(m[2]));
}

/// An edge of the type graph is told from its source to its target.
pub proof fn an_edge_of_the_type_graph_is_told_whole(v: TypeGraphEdgeView)
    ensures
        v.rendered() matches JsonView::Object(m) && {
            &&& tells(m, "from"@, JsonView::Text(v.from@))
            &&& tells(m, "to"@, JsonView::Text(v.to@))
            &&& tells(m, "relation"@, JsonView::Text(v.relation@))
            &&& tells_count(m, "count"@, v.count as nat)
        },
{
    let m = v.rendered()->Object_0;
    assert(m.contains(m[0]));
    assert(m.contains(m[1]));
    assert(m.contains(m[2]));
    assert(m.contains(m[3]));
}

/// The type graph is told with its nodes and its edges.
pub proof fn the_type_graph_is_told_whole(v: TypeGraphView)
    ensures
        v.rendered() matches JsonView::Object(m) && {
            &&& tells_opt(m, "repo"@, opt_view(v.repo))
            &&& tells(m, "scope"@, JsonView::Text(v.scope@))
            &&& tells(m, "nodes"@, rendered_list(v.nodes@))
            &&& tells(m, "edges"@, rendered_list(v.edges@))
        },
{
    let m = v.rendered()->Object_0;
    assert(m.contains(m[0]));
    assert(m.contains(m[1]));
    assert(m.contains(m[2]));
    assert(m.contains(m[3]));
}

/// A hub is told with its own counts.
pub proof fn a_hub_is_told_whole(v: Hub)
    ensures
        v.rendered() matches JsonView::Object(m) && {
            &&& tells(m, "path"@, JsonView::Text(v.path@))
            &&& tells_opt(m, "repo"@, opt_view(v.repo))
            &&& tells(m, "kind"@, JsonView::Text(v.kind@))
            &&& tells_count(m, "refs_structural"@, v.refs_structural as nat)
            &&& tells_count(m, "refs_navigational"@, v.refs_navigational as nat)
            &&& tells_count(m, "refs_total"@, v.refs_total as nat)
        },
{
    let m = v.rendered()->Object_0;
    assert(m.contains(m[0]));
    assert(m.contains(m[1]));
    assert(m.contains(m[2]));
    assert(m.contains(m[3]));
    assert(m.contains(m[4]));
    assert(m.contains(m[5]));
}

/// An orphan is told with what it is.
pub proof fn an_orphan_is_told_whole(v: OrphanPath)
    ensures
        v.rendered() matches JsonView::Object(m) && {
            &&& tells(m, "path"@, JsonView::Text(v.path@))
            &&& tells(m, "kind"@, JsonView::Text(v.kind@))
        },
{
    let m = v.rendered()->Object_0;
    assert(m.contains(m[0]));
    assert(m.contains(m[1]));
}

/// A bucket is told with its degree and how many fall into it.
pub proof fn a_bucket_is_told_whole(v: DegreeBucket)
    ensures
        v.rendered() matches JsonView::Object(m) && {
            &&& tells_count(m, "degree"@, v.degree as nat)
            &&& tells_count(m, "count"@, v.count as nat)
        },
{
    let m = v.rendered()->Object_0;
    assert(m.contains(m[0]));
    assert(m.contains(m[1]));
}

/// A file is told with its own path, stem, repo and role.
pub proof fn a_file_is_told_whole(v: FileEntry)
    ensures
        v.rendered() matches JsonView::Object(m) && {
            &&& tells(m, "path"@, JsonView::Text(v.path@))
            &&& tells(m, "stem"@, JsonView::Text(v.stem@))
            &&& tells_opt(m, "repo"@, opt_view(v.repo))
            &&& tells(m, "kind"@, JsonView::Text(v.kind@))
        },
{
    let m = v.rendered()->Object_0;
    assert(m.contains(m[0]));
    assert(m.contains(m[1]));
    assert(m.contains(m[2]));
    assert(m.contains(m[3]));
}

/// An entry of a directory is told with its path, name and kind.
pub proof fn an_entry_of_a_directory_is_told_whole(v: DirEntry)
    ensures
        v.rendered() matches JsonView::Object(m) && {
            &&& tells(m, "path"@, JsonView::Text(v.path@))
            &&& tells(m, "name"@, JsonView::Text(v.name@))
            &&& tells(m, "kind"@, JsonView::Text(v.kind@))
        },
{
    let m = v.rendered()->Object_0;
    assert(m.contains(m[0]));
    assert(m.contains(m[1]));
    assert(m.contains(m[2]));
}

/// A top-level directory is told with its repo, name, path and member.
pub proof fn a_top_level_directory_is_told_whole(v: TopLevelDir)
    ensures
        v.rendered() matches JsonView::Object(m) && {
            &&& tells(m, "repo"@, JsonView::Text(v.repo@))
            &&& tells(m, "name"@, JsonView::Text(v.name@))
            &&& tells(m, "path"@, JsonView::Text(v.path@))
            &&& tells_opt(m, "member"@, opt_view(v.member))
        },
{
    let m = v.rendered()->Object_0;
    assert(m.contains(m[0]));
    assert(m.contains(m[1]));
    assert(m.contains(m[2]));
    assert(m.contains(m[3]));
}

/// The counts are told under what they count.
pub proof fn the_counts_is_told_whole(v: DiagnosticCountsView)
    ensures
        v.rendered() matches JsonView::Object(m) && {
            &&& tells_count(m, "total"@, v.total as nat)
            &&& tells(m, "by_severity"@, counts_json(v.by_severity@))
            &&& tells(m, "by_code"@, counts_json(v.by_code@))
        },
{
    let m = v.rendered()->Object_0;
    assert(m.contains(m[0]));
    assert(m.contains(m[1]));
    assert(m.contains(m[2]));
}

/// The shape of a graph is told with its counts, its orphans and its degrees.
pub proof fn the_shape_is_told_whole(v: GraphShapeView, density: JsonView)
    ensures
        shape_json(v, density) matches JsonView::Object(m) && {
            &&& tells_opt(m, "repo"@, opt_view(v.repo))
            &&& tells(m, "scope"@, JsonView::Text(v.scope@))
            &&& tells_count(m, "node_count"@, v.node_count as nat)
            &&& tells_count(m, "edge_count"@, v.edge_count as nat)
            &&& tells_count(m, "edges_structural"@, v.edges_structural as nat)
            &&& tells_count(m, "edges_navigational"@, v.edges_navigational as nat)
            &&& tells_count(m, "components"@, v.components as nat)
            &&& tells_count(m, "largest_component"@, v.largest_component as nat)
            &&& tells(m, "orphans"@, orphans_json(v))
            &&& tells(m, "density"@, density)
            &&& exists|d: Seq<(Seq<char>, JsonView)>| #[trigger]
                tells(m, "degree"@, JsonView::Object(d)) && tells(
                    d,
                    "in"@,
                    rendered_list(v.degree.inbound@),
                ) && tells(d, "out"@, rendered_list(v.degree.out@))
        },
        orphans_json(v) matches JsonView::Object(m) && {
            &&& tells_count(m, "no_inbound"@, v.orphans.no_inbound as nat)
            &&& tells_count(m, "isolated"@, v.orphans.isolated as nat)
            &&& v.orphans.paths matches Some(p) ==> tells(m, "paths"@, rendered_list(p@))
            &&& v.orphans.paths is None ==> m.len() == 2
        },
{
    let m = shape_json(v, density)->Object_0;
    assert(m.contains(m[0]));
    assert(m.contains(m[1]));
    assert(m.contains(m[2]));
    assert(m.contains(m[3]));
    assert(m.contains(m[4]));
    assert(m.contains(m[5]));
    assert(m.contains(m[6]));
    assert(m.contains(m[7]));
    assert(m.contains(m[8]));
    assert(m.contains(m[9]));
    assert(m.contains(m[10]));
    let d = m[9].1->Object_0;
    assert(d.contains(d[0]) && d.contains(d[1]));
    assert(tells(m, "degree"@, JsonView::Object(d)));
    let p = orphans_json(v)->Object_0;
    assert(p.contains(p[0]) && p.contains(p[1]));
    if v.orphans.paths is Some {
        assert(p.contains(p[2]));
    }
}

} // verus!
