//! The reference graph, its shape, its payload and its hubs.

use au_engine::ast::{ByteRange, FileParse};
use au_engine::graph::delta::{edge_multiset_diff, link_graph_delta};
use au_engine::graph::hubs::hub_ranking;
use au_engine::graph::links::{link_graph_view, GraphEdgeView, LinkGraphView};
use au_engine::graph::shape::{graph_shape_view, DegreeBucket};
use au_engine::model::{
    Backlink, CatalogEntry, FileKind, Inbound, KnowledgeBase, RefSurface, Repo, Scope,
};

fn note(path: &str) -> CatalogEntry {
    CatalogEntry {
        path: path.to_string(),
        kind: FileKind::Unclassified,
        served: "note",
        parse: FileParse::Note(Vec::new()),
        field_refs: Vec::new(),
        hash: None,
        body: None,
    }
}

fn repo(name: &str, root: &str, own: bool) -> Repo {
    Repo {
        name: name.to_string(),
        root: root.to_string(),
        own,
        builtin: false,
        editable: own,
        role: "edit",
    }
}

fn link(source: &str, slot: Option<&str>, at: usize) -> Backlink {
    Backlink {
        source: source.to_string(),
        slot: slot.map(|s| s.to_string()),
        surface: if slot.is_some() { RefSurface::Frontmatter } else { RefSurface::Body },
        kind: if slot.is_some() { "field" } else { "navigational" },
        span: ByteRange { start: at, end: at + 5 },
        block_id: None,
        source_block_id: None,
        line_col: None,
    }
}

fn inbound(target: &str, edges: Vec<Backlink>) -> Inbound {
    Inbound { target: target.to_string(), edges }
}

/// Notes with a known shape: `a` points at `b` and `c`, `d` at `e`, `out` at `a`, and
/// `lonely` stands alone. The marker of the repo is no node.
fn known_shape() -> KnowledgeBase {
    let mut marker = note("/v/.arsumbris/repo.yaml");
    marker.kind = FileKind::RepoLock;
    marker.served = "asset";
    KnowledgeBase {
        repos: vec![repo("v", "/v", true)],
        catalog: vec![
            marker,
            note("/v/a.md"),
            note("/v/b.md"),
            note("/v/c.md"),
            note("/v/d.md"),
            note("/v/e.md"),
            note("/v/lonely.md"),
            note("/v/out.md"),
        ],
        backlinks: vec![
            inbound("/v/a.md", vec![link("/v/out.md", None, 4)]),
            inbound("/v/b.md", vec![link("/v/a.md", None, 4)]),
            inbound("/v/c.md", vec![link("/v/a.md", None, 14)]),
            inbound("/v/e.md", vec![link("/v/d.md", None, 4)]),
        ],
        types: Vec::new(),
    }
}

#[test]
fn folds_a_known_shape() {
    let kb = known_shape();
    let s = graph_shape_view(&kb, &None, Scope::All, true);
    assert_eq!(s.node_count, 7);
    assert_eq!(s.components, 3);
    assert_eq!(s.largest_component, 4);
    assert_eq!(s.edge_count, 4);
    assert_eq!(s.edges_structural, 0);
    assert_eq!(s.edges_navigational, 4);
    assert_eq!(s.orphans.no_inbound, 3);
    assert_eq!(s.orphans.isolated, 1);
    let density = s.edge_count as f64 / s.node_count as f64;
    assert_eq!((density * 1000.0).round(), 571.0, "4 edges / 7 nodes");
    let paths = s.orphans.paths.expect("orphan_paths requested");
    let by_path: std::collections::HashMap<&str, &str> =
        paths.iter().map(|o| (o.path.as_str(), o.kind)).collect();
    assert_eq!(by_path.get("/v/lonely.md"), Some(&"isolated"));
    assert_eq!(by_path.get("/v/d.md"), Some(&"no_inbound"));
    assert_eq!(by_path.get("/v/out.md"), Some(&"no_inbound"));
    assert_eq!(
        s.degree.inbound,
        vec![
            DegreeBucket { degree: 0, count: 3 },
            DegreeBucket { degree: 1, count: 4 },
        ]
    );
}

#[test]
fn orphan_paths_flag_gates_the_list() {
    let kb = known_shape();
    let s = graph_shape_view(&kb, &None, Scope::All, false);
    assert_eq!(s.orphans.no_inbound, 3);
    assert_eq!(s.orphans.isolated, 1);
    assert!(s.orphans.paths.is_none());
}

/// A hub that one file references in a field and in its prose.
fn structural_and_prose() -> KnowledgeBase {
    let mut hub = note("/v/hub.md");
    hub.kind = FileKind::Instance;
    hub.served = "instance";
    let mut r = note("/v/r.md");
    r.kind = FileKind::Instance;
    r.served = "instance";
    KnowledgeBase {
        repos: vec![repo("v", "/v", true)],
        catalog: vec![hub, r],
        backlinks: vec![inbound(
            "/v/hub.md",
            vec![link("/v/r.md", Some("rel"), 30), link("/v/r.md", None, 50)],
        )],
        types: Vec::new(),
    }
}

#[test]
fn splits_structural_from_navigational_edges() {
    let kb = structural_and_prose();
    let s = graph_shape_view(&kb, &None, Scope::All, false);
    assert_eq!(s.edges_structural, 1, "the rel slot edge");
    assert_eq!(s.edges_navigational, 1, "the prose edge");
    assert_eq!(s.edge_count, 2);
}

#[test]
fn link_graph_carries_every_content_node_and_resolved_edge() {
    let kb = known_shape();
    let g = link_graph_view(&kb, &None, Scope::All);
    assert_eq!(g.nodes.len(), 7);
    let node = |p: &str| g.nodes.iter().find(|n| n.path == p).expect("node present");
    let lonely = node("/v/lonely.md");
    assert_eq!((lonely.refs_structural, lonely.refs_total), (0, 0));
    assert_eq!(lonely.kind, "note");
    assert_eq!(node("/v/a.md").refs_total, 1);
    assert_eq!(node("/v/a.md").refs_structural, 0);
    assert_eq!(g.edges.len(), 4);
    assert!(g.edges.iter().all(|e| e.surface == "body" && e.kind == "navigational"));
    assert!(g.edges.iter().any(|e| e.from == "/v/out.md" && e.to == "/v/a.md"));
    let keys: Vec<(&str, &str)> =
        g.edges.iter().map(|e| (e.from.as_str(), e.to.as_str())).collect();
    let mut sorted = keys.clone();
    sorted.sort();
    assert_eq!(keys, sorted);
}

#[test]
fn link_graph_edge_kinds_match_references_in() {
    let kb = structural_and_prose();
    let g = link_graph_view(&kb, &None, Scope::All);
    let hub = g.nodes.iter().find(|n| n.path == "/v/hub.md").unwrap();
    assert_eq!((hub.refs_structural, hub.refs_total), (1, 2));
    assert!(g
        .edges
        .iter()
        .any(|e| e.to == "/v/hub.md" && e.kind == "field" && e.surface == "frontmatter"));
    assert!(g
        .edges
        .iter()
        .any(|e| e.to == "/v/hub.md" && e.kind == "navigational" && e.surface == "body"));
}

/// Two graphs that differ by one prose link from `a` to `b`.
fn before_after() -> (LinkGraphView, LinkGraphView) {
    let before = KnowledgeBase {
        repos: vec![repo("v", "/v", true)],
        catalog: vec![note("/v/a.md"), note("/v/b.md")],
        backlinks: Vec::new(),
        types: Vec::new(),
    };
    let after = KnowledgeBase {
        repos: vec![repo("v", "/v", true)],
        catalog: vec![note("/v/a.md"), note("/v/b.md")],
        backlinks: vec![inbound("/v/b.md", vec![link("/v/a.md", None, 4)])],
        types: Vec::new(),
    };
    (
        link_graph_view(&before, &None, Scope::All),
        link_graph_view(&after, &None, Scope::All),
    )
}

#[test]
fn delta_reports_the_added_edge_and_the_re_referenced_node() {
    let (before, after) = before_after();
    let d = link_graph_delta(&before, &after);
    assert_eq!(d.edges_added.len(), 1);
    assert_eq!(
        (d.edges_added[0].from.as_str(), d.edges_added[0].to.as_str()),
        ("/v/a.md", "/v/b.md")
    );
    assert!(d.edges_removed.is_empty());
    let added_paths: Vec<&str> = d.nodes_added.iter().map(|n| n.path.as_str()).collect();
    assert_eq!(added_paths, vec!["/v/b.md"]);
    assert_eq!(d.nodes_added[0].refs_total, 1);
    assert!(d.nodes_removed.is_empty());
}

#[test]
fn delta_is_empty_when_the_graph_is_unchanged() {
    let (_before, after) = before_after();
    assert!(link_graph_delta(&after, &after).is_empty());
}

#[test]
fn edge_multiset_diff_is_multiplicity_correct() {
    let e = |from: &str| GraphEdgeView {
        from: from.to_string(),
        to: "/v/t.md".to_string(),
        kind: "navigational",
        surface: "body",
    };
    let (added, removed) =
        edge_multiset_diff(&vec![e("/v/s.md"), e("/v/s.md")], &vec![e("/v/s.md")]);
    assert!(added.is_empty());
    assert_eq!(removed.len(), 1);
    let (added, removed) =
        edge_multiset_diff(&vec![e("/v/s.md")], &vec![e("/v/s.md"), e("/v/s.md")]);
    assert_eq!(added.len(), 1);
    assert!(removed.is_empty());
}

#[test]
fn ranks_structural_over_navigational_and_excludes_leaves() {
    let mut hub_edges = Vec::new();
    let mut moc_edges = Vec::new();
    let mut catalog = vec![note("/v/hub.md"), note("/v/leaf.md"), note("/v/moc.md")];
    catalog[0].served = "instance";
    catalog[1].served = "instance";
    for i in 0..5 {
        let path = format!("/v/ref-{i}.md");
        catalog.push(note(&path));
        catalog[i + 3].served = "instance";
        hub_edges.push(link(&path, Some("rel"), 20));
        moc_edges.push(link(&path, None, 40));
    }
    let kb = KnowledgeBase {
        repos: vec![repo("v", "/v", true)],
        catalog,
        backlinks: vec![inbound("/v/hub.md", hub_edges), inbound("/v/moc.md", moc_edges)],
        types: Vec::new(),
    };
    let hubs = hub_ranking(&kb, &None, Scope::All, 10, 0);
    assert_eq!(hubs.len(), 2);
    assert_eq!(hubs[0].path, "/v/hub.md");
    assert_eq!(hubs[0].kind, "instance");
    assert_eq!(hubs[0].refs_structural, 5);
    assert_eq!(hubs[0].refs_navigational, 0);
    assert_eq!(hubs[0].repo.as_deref(), Some("v"));
    assert_eq!(hubs[1].path, "/v/moc.md");
    assert_eq!(hubs[1].refs_structural, 0);
    assert_eq!(hubs[1].refs_navigational, 5);
    assert_eq!(hubs[1].kind, "note");
    assert!(hubs.iter().all(|h| h.path != "/v/leaf.md"));
}

#[test]
fn truncates_to_the_limit() {
    let mut catalog = Vec::new();
    let mut backlinks = Vec::new();
    for i in 0..10 {
        catalog.push(note(&format!("/v/n-{i}.md")));
        let next = (i + 1) % 10;
        backlinks.push(inbound(&format!("/v/n-{next}.md"), vec![link(&format!("/v/n-{i}.md"), None, 4)]));
    }
    let kb = KnowledgeBase {
        repos: vec![repo("v", "/v", true)],
        catalog,
        backlinks,
        types: Vec::new(),
    };
    assert_eq!(
        hub_ranking(&kb, &None, Scope::All, 3, 0).len(),
        3,
        "top-N is bounded by the limit"
    );
    assert_eq!(hub_ranking(&kb, &None, Scope::All, 3, 9).len(), 1);
}

#[test]
fn a_dependency_is_outside_the_own_scope() {
    let mut kb = known_shape();
    kb.repos.push(repo("dep", "/v/dep", false));
    kb.catalog.push(note("/v/dep/x.md"));
    assert_eq!(graph_shape_view(&kb, &None, Scope::All, false).node_count, 8);
    assert_eq!(graph_shape_view(&kb, &None, Scope::Own, false).node_count, 7);
    let only = graph_shape_view(&kb, &Some("dep".to_string()), Scope::All, false);
    assert_eq!(only.node_count, 1);
    assert_eq!(only.scope, "all");
}

#[test]
fn the_edges_of_a_delta_keep_their_order() {
    let e = |from: &str| GraphEdgeView {
        from: from.to_string(),
        to: "/v/t.md".to_string(),
        kind: "navigational",
        surface: "body",
    };
    let last = vec![e("/v/b.md"), e("/v/d.md"), e("/v/f.md")];
    let cur = vec![e("/v/a.md"), e("/v/c.md"), e("/v/d.md"), e("/v/e.md")];
    let (added, removed) = edge_multiset_diff(&last, &cur);
    let from = |v: Vec<GraphEdgeView>| v.into_iter().map(|e| e.from).collect::<Vec<_>>();
    assert_eq!(from(added), ["/v/a.md", "/v/c.md", "/v/e.md"]);
    assert_eq!(from(removed), ["/v/b.md", "/v/f.md"]);
}

#[test]
fn pages_of_the_hubs_join() {
    let kb = known_shape();
    let paths = |limit, offset| {
        hub_ranking(&kb, &None, Scope::All, limit, offset)
            .into_iter()
            .map(|h| h.path)
            .collect::<Vec<_>>()
    };
    let mut joined = paths(2, 0);
    joined.extend(paths(2, 2));
    assert_eq!(joined, paths(4, 0));
}

#[test]
fn the_list_and_the_summary_count_alike() {
    let kb = known_shape();
    let g = link_graph_view(&kb, &None, Scope::All);
    let s = graph_shape_view(&kb, &None, Scope::All, false);
    assert_eq!(g.nodes.len(), s.node_count);
    assert_eq!(g.edges.len(), s.edge_count);
    assert_eq!(g.nodes.iter().map(|n| n.refs_structural).sum::<usize>(), s.edges_structural);
    for n in &g.nodes {
        assert_eq!(g.edges.iter().filter(|e| e.to == n.path).count(), n.refs_total);
    }
}
