//! The views of the reads, on the wire.

use crate::diagnostics::{DiagnosticCountsView, LabelCount};

use crate::graph::hubs::Hub;
use crate::graph::links::{GraphEdgeView, GraphNodeView, LinkGraphView};
use crate::graph::shape::{DegreeBucket, GraphShapeView, OrphanPath};
use crate::graph::types::{TypeGraphEdgeView, TypeGraphNodeView, TypeGraphView};
use crate::json::{
    json_opt_text, jv, render_list, rendered_list, text_or_null, with_opt, Json, JsonView,
    ObjectBuilder, Rendered,
};
use crate::listing::{DirEntry, FileEntry, TopLevelDir};
use crate::text::opt_view;
use vstd::prelude::*;

verus! {

impl Rendered for GraphNodeView {
    open spec fn rendered(&self) -> JsonView {
        JsonView::Object(
            seq![
                ("path"@, JsonView::Text(self.path@)),
                ("repo"@, text_or_null(opt_view(self.repo))),
                ("kind"@, JsonView::Text(self.kind@)),
                ("refs_structural"@, JsonView::Int(self.refs_structural as nat)),
                ("refs_total"@, JsonView::Int(self.refs_total as nat)),
            ],
        )
    }

    fn render(&self) -> (r: Json) {
        let mut b = ObjectBuilder::new();
        b.put_text("path", self.path.as_str());
        b.put("repo", json_opt_text(&self.repo));
        b.put_text("kind", self.kind);
        b.put("refs_structural", Json::Int(self.refs_structural as u64));
        b.put("refs_total", Json::Int(self.refs_total as u64));
        assert(b@ =~= self.rendered()->Object_0);
        b.done()
    }
}

impl Rendered for GraphEdgeView {
    open spec fn rendered(&self) -> JsonView {
        JsonView::Object(
            seq![
                ("from"@, JsonView::Text(self.from@)),
                ("to"@, JsonView::Text(self.to@)),
                ("kind"@, JsonView::Text(self.kind@)),
                ("surface"@, JsonView::Text(self.surface@)),
            ],
        )
    }

    fn render(&self) -> (r: Json) {
        let mut b = ObjectBuilder::new();
        b.put_text("from", self.from.as_str());
        b.put_text("to", self.to.as_str());
        b.put_text("kind", self.kind);
        b.put_text("surface", self.surface);
        assert(b@ =~= self.rendered()->Object_0);
        b.done()
    }
}

impl Rendered for LinkGraphView {
    open spec fn rendered(&self) -> JsonView {
        JsonView::Object(
            seq![
                ("repo"@, text_or_null(opt_view(self.repo))),
                ("scope"@, JsonView::Text(self.scope@)),
                ("nodes"@, rendered_list(self.nodes@)),
                ("edges"@, rendered_list(self.edges@)),
            ],
        )
    }

    fn render(&self) -> (r: Json) {
        let mut b = ObjectBuilder::new();
        b.put("repo", json_opt_text(&self.repo));
        b.put_text("scope", self.scope);
        b.put("nodes", render_list(&self.nodes));
        b.put("edges", render_list(&self.edges));
        assert(b@ =~= self.rendered()->Object_0);
        b.done()
    }
}

impl Rendered for TypeGraphNodeView {
    open spec fn rendered(&self) -> JsonView {
        JsonView::Object(
            seq![
                ("path"@, JsonView::Text(self.path@)),
                ("repo"@, text_or_null(opt_view(self.repo))),
                ("kind"@, JsonView::Text(self.kind@)),
            ],
        )
    }

    fn render(&self) -> (r: Json) {
        let mut b = ObjectBuilder::new();
        b.put_text("path", self.path.as_str());
        b.put("repo", json_opt_text(&self.repo));
        b.put_text("kind", self.kind);
        assert(b@ =~= self.rendered()->Object_0);
        b.done()
    }
}

impl Rendered for TypeGraphEdgeView {
    open spec fn rendered(&self) -> JsonView {
        JsonView::Object(
            seq![
                ("from"@, JsonView::Text(self.from@)),
                ("to"@, JsonView::Text(self.to@)),
                ("relation"@, JsonView::Text(self.relation@)),
                ("count"@, JsonView::Int(self.count as nat)),
            ],
        )
    }

    fn render(&self) -> (r: Json) {
        let mut b = ObjectBuilder::new();
        b.put_text("from", self.from.as_str());
        b.put_text("to", self.to.as_str());
        b.put_text("relation", self.relation);
        b.put("count", Json::Int(self.count as u64));
        assert(b@ =~= self.rendered()->Object_0);
        b.done()
    }
}

impl Rendered for TypeGraphView {
    open spec fn rendered(&self) -> JsonView {
        JsonView::Object(
            seq![
                ("repo"@, text_or_null(opt_view(self.repo))),
                ("scope"@, JsonView::Text(self.scope@)),
                ("nodes"@, rendered_list(self.nodes@)),
                ("edges"@, rendered_list(self.edges@)),
            ],
        )
    }

    fn render(&self) -> (r: Json) {
        let mut b = ObjectBuilder::new();
        b.put("repo", json_opt_text(&self.repo));
        b.put_text("scope", self.scope);
        b.put("nodes", render_list(&self.nodes));
        b.put("edges", render_list(&self.edges));
        assert(b@ =~= self.rendered()->Object_0);
        b.done()
    }
}

impl Rendered for Hub {
    open spec fn rendered(&self) -> JsonView {
        JsonView::Object(
            seq![
                ("path"@, JsonView::Text(self.path@)),
                ("repo"@, text_or_null(opt_view(self.repo))),
                ("kind"@, JsonView::Text(self.kind@)),
                ("refs_structural"@, JsonView::Int(self.refs_structural as nat)),
                ("refs_navigational"@, JsonView::Int(self.refs_navigational as nat)),
                ("refs_total"@, JsonView::Int(self.refs_total as nat)),
            ],
        )
    }

    fn render(&self) -> (r: Json) {
        let mut b = ObjectBuilder::new();
        b.put_text("path", self.path.as_str());
        b.put("repo", json_opt_text(&self.repo));
        b.put_text("kind", self.kind);
        b.put("refs_structural", Json::Int(self.refs_structural as u64));
        b.put("refs_navigational", Json::Int(self.refs_navigational as u64));
        b.put("refs_total", Json::Int(self.refs_total as u64));
        assert(b@ =~= self.rendered()->Object_0);
        b.done()
    }
}

impl Rendered for OrphanPath {
    open spec fn rendered(&self) -> JsonView {
        JsonView::Object(
            seq![("path"@, JsonView::Text(self.path@)), ("kind"@, JsonView::Text(self.kind@))],
        )
    }

    fn render(&self) -> (r: Json) {
        let mut b = ObjectBuilder::new();
        b.put_text("path", self.path.as_str());
        b.put_text("kind", self.kind);
        assert(b@ =~= self.rendered()->Object_0);
        b.done()
    }
}

impl Rendered for DegreeBucket {
    open spec fn rendered(&self) -> JsonView {
        JsonView::Object(
            seq![
                ("degree"@, JsonView::Int(self.degree as nat)),
                ("count"@, JsonView::Int(self.count as nat)),
            ],
        )
    }

    fn render(&self) -> (r: Json) {
        let mut b = ObjectBuilder::new();
        b.put("degree", Json::Int(self.degree as u64));
        b.put("count", Json::Int(self.count as u64));
        assert(b@ =~= self.rendered()->Object_0);
        b.done()
    }
}

/// The orphans of a graph on the wire, with their paths where those were asked for.
pub open spec fn orphans_json(v: GraphShapeView) -> JsonView {
    JsonView::Object(
        with_opt(
            seq![
                ("no_inbound"@, JsonView::Int(v.orphans.no_inbound as nat)),
                ("isolated"@, JsonView::Int(v.orphans.isolated as nat)),
            ],
            "paths"@,
            match v.orphans.paths {
                Some(p) => Some(rendered_list(p@)),
                None => None,
            },
        ),
    )
}

/// The shape of a graph on the wire. `density` is the quotient of its two counts.
pub open spec fn shape_json(v: GraphShapeView, density: JsonView) -> JsonView {
    JsonView::Object(
        seq![
            ("repo"@, text_or_null(opt_view(v.repo))),
            ("scope"@, JsonView::Text(v.scope@)),
            ("node_count"@, JsonView::Int(v.node_count as nat)),
            ("edge_count"@, JsonView::Int(v.edge_count as nat)),
            ("edges_structural"@, JsonView::Int(v.edges_structural as nat)),
            ("edges_navigational"@, JsonView::Int(v.edges_navigational as nat)),
            ("components"@, JsonView::Int(v.components as nat)),
            ("largest_component"@, JsonView::Int(v.largest_component as nat)),
            ("orphans"@, orphans_json(v)),
            (
                "degree"@,
                JsonView::Object(
                    seq![
                        ("in"@, rendered_list(v.degree.inbound@)),
                        ("out"@, rendered_list(v.degree.out@)),
                    ],
                ),
            ),
            ("density"@, density),
        ],
    )
}

/// Renders the shape of a graph.
pub fn render_shape(v: &GraphShapeView, density: Json) -> (r: Json)
    ensures
        jv(r) == shape_json(*v, jv(density)),
{
    let mut orphans = ObjectBuilder::new();
    orphans.put("no_inbound", Json::Int(v.orphans.no_inbound as u64));
    orphans.put("isolated", Json::Int(v.orphans.isolated as u64));
    assert(orphans@ =~= seq![
        ("no_inbound"@, JsonView::Int(v.orphans.no_inbound as nat)),
        ("isolated"@, JsonView::Int(v.orphans.isolated as nat)),
    ]);
    if let Some(p) = &v.orphans.paths {
        orphans.put("paths", render_list(p));
    }
    let mut degree = ObjectBuilder::new();
    degree.put("in", render_list(&v.degree.inbound));
    degree.put("out", render_list(&v.degree.out));
    assert(degree@ =~= seq![
        ("in"@, rendered_list(v.degree.inbound@)),
        ("out"@, rendered_list(v.degree.out@)),
    ]);
    let mut b = ObjectBuilder::new();
    b.put("repo", json_opt_text(&v.repo));
    b.put_text("scope", v.scope);
    b.put("node_count", Json::Int(v.node_count as u64));
    b.put("edge_count", Json::Int(v.edge_count as u64));
    b.put("edges_structural", Json::Int(v.edges_structural as u64));
    b.put("edges_navigational", Json::Int(v.edges_navigational as u64));
    b.put("components", Json::Int(v.components as u64));
    b.put("largest_component", Json::Int(v.largest_component as u64));
    b.put("orphans", orphans.done());
    b.put("degree", degree.done());
    b.put("density", density);
    let ghost want = shape_json(*v, jv(density));
    assert(b@ =~= want->Object_0);
    b.done()
}

impl Rendered for FileEntry {
    open spec fn rendered(&self) -> JsonView {
        JsonView::Object(
            seq![
                ("path"@, JsonView::Text(self.path@)),
                ("stem"@, JsonView::Text(self.stem@)),
                ("repo"@, text_or_null(opt_view(self.repo))),
                ("kind"@, JsonView::Text(self.kind@)),
            ],
        )
    }

    fn render(&self) -> (r: Json) {
        let mut b = ObjectBuilder::new();
        b.put_text("path", self.path.as_str());
        b.put_text("stem", self.stem.as_str());
        b.put("repo", json_opt_text(&self.repo));
        b.put_text("kind", self.kind);
        assert(b@ =~= self.rendered()->Object_0);
        b.done()
    }
}

impl Rendered for DirEntry {
    open spec fn rendered(&self) -> JsonView {
        JsonView::Object(
            seq![
                ("path"@, JsonView::Text(self.path@)),
                ("name"@, JsonView::Text(self.name@)),
                ("kind"@, JsonView::Text(self.kind@)),
            ],
        )
    }

    fn render(&self) -> (r: Json) {
        let mut b = ObjectBuilder::new();
        b.put_text("path", self.path.as_str());
        b.put_text("name", self.name.as_str());
        b.put_text("kind", self.kind);
        assert(b@ =~= self.rendered()->Object_0);
        b.done()
    }
}

impl Rendered for TopLevelDir {
    open spec fn rendered(&self) -> JsonView {
        JsonView::Object(
            seq![
                ("repo"@, JsonView::Text(self.repo@)),
                ("name"@, JsonView::Text(self.name@)),
                ("path"@, JsonView::Text(self.path@)),
                ("member"@, text_or_null(opt_view(self.member))),
            ],
        )
    }

    fn render(&self) -> (r: Json) {
        let mut b = ObjectBuilder::new();
        b.put_text("repo", self.repo.as_str());
        b.put_text("name", self.name.as_str());
        b.put_text("path", self.path.as_str());
        b.put("member", json_opt_text(&self.member));
        assert(b@ =~= self.rendered()->Object_0);
        b.done()
    }
}

/// Counts by label on the wire: an object with a member for each label.
pub open spec fn counts_json(v: Seq<LabelCount>) -> JsonView {
    JsonView::Object(
        Seq::new(v.len(), |i: int| (v[i].label@, JsonView::Int(v[i].count as nat))),
    )
}

fn render_counts(v: &Vec<LabelCount>) -> (r: Json)
    ensures
        jv(r) == counts_json(v@),
{
    let mut b = ObjectBuilder::new();
    let ghost all = Seq::new(v@.len(), |i: int| (v@[i].label@, JsonView::Int(v@[i].count as nat)));
    assert(b@ =~= all.take(0));
    for i in 0..v.len()
        invariant
            all == Seq::new(
                v@.len(),
                |i: int| (v@[i].label@, JsonView::Int(v@[i].count as nat)),
            ),
            b@ == all.take(i as int),
    {
        b.put(v[i].label.as_str(), Json::Int(v[i].count as u64));
        assert(b@ =~= all.take(i + 1));
    }
    assert(all.take(all.len() as int) =~= all);
    b.done()
}

impl Rendered for DiagnosticCountsView {
    open spec fn rendered(&self) -> JsonView {
        JsonView::Object(
            seq![
                ("total"@, JsonView::Int(self.total as nat)),
                ("by_severity"@, counts_json(self.by_severity@)),
                ("by_code"@, counts_json(self.by_code@)),
            ],
        )
    }

    fn render(&self) -> (r: Json) {
        let mut b = ObjectBuilder::new();
        b.put("total", Json::Int(self.total as u64));
        b.put("by_severity", render_counts(&self.by_severity));
        b.put("by_code", render_counts(&self.by_code));
        assert(b@ =~= self.rendered()->Object_0);
        b.done()
    }
}

} // verus!
