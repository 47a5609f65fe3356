//! The subscriptions.

use au_engine::ast::FileParse;
use au_engine::channels::diagnostics::DiagnosticsWatch;
use au_engine::channels::files::{files_delta, files_snapshot, ChangesWatch, FileState, FilesWatch};
use au_engine::channels::graphs::{LinkGraphWatch, TypeGraphWatch};
use au_engine::channels::lifecycle::{Channel, LifecycleWatch};
use au_engine::channels::types::{TypeState, TypesWatch};
use au_engine::commits::recent::{effective_limit, CommitStream, RecentCommit, TreeEvent, TreeLog};
use au_engine::diagnostics::{Diagnostic, DiagnosticsScope, Severity};
use au_engine::encoding::quote_json;
use au_engine::frames::ack_frame;
use au_engine::graph::links::{GraphEdgeView, GraphNodeView, LinkGraphView};
use au_engine::graph::types::{TypeGraphEdgeView, TypeGraphNodeView, TypeGraphView};
use au_engine::json::{Json, Member};
use au_engine::model::{CatalogEntry, FileKind};

/// The text of a value, with the members of an object in their order.
fn compact_text(j: &Json) -> String {
    match j {
        Json::Null => "null".to_string(),
        Json::Bool(b) => b.to_string(),
        Json::Int(n) => n.to_string(),
        Json::Number(n) => n.clone(),
        Json::Text(t) => quote_json(t),
        Json::List(v) => {
            let items: Vec<String> = v.iter().map(compact_text).collect();
            format!("[{}]", items.join(","))
        }
        Json::Object(v) => {
            let members: Vec<String> = v
                .iter()
                .map(|m| format!("{}:{}", quote_json(&m.key), compact_text(&m.value)))
                .collect();
            format!("{{{}}}", members.join(","))
        }
    }
}

fn file(path: &str, hash: &str) -> FileState {
    FileState { path: path.to_string(), hash: Some(hash.to_string()) }
}

#[test]
fn the_acknowledgement_names_the_channel() {
    assert_eq!(
        compact_text(&ack_frame(2, Channel::LinkGraph.channel(), &Some(Json::Int(9)))),
        r#"{"type":"ack","schema_version":29,"subscription_id":2,"channel":"link_graph","accepted":true,"id":9}"#
    );
    let names: Vec<&str> = [
        Channel::Lifecycle,
        Channel::Types,
        Channel::Files,
        Channel::Changes,
        Channel::Diagnostics,
        Channel::TypeGraph,
        Channel::RecentCommits,
    ]
    .iter()
    .map(|c| c.channel())
    .collect();
    assert_eq!(
        names,
        vec!["lifecycle", "types", "files", "changes", "diagnostics", "type_graph", "recent_commits"]
    );
}

#[test]
fn the_lifecycle_tells_only_that_the_base_became_ready() {
    let mut w = LifecycleWatch::new(1, false);
    assert_eq!(
        compact_text(&w.initial_frame(None, "Running", "Deriving")),
        r#"{"type":"initial_value","schema_version":29,"subscription_id":1,"at_version":0,"result":{"lifecycle":{"engine":"running","ref":"deriving"}}}"#
    );
    assert!(w.wake(false, None, 1).is_none());
    assert_eq!(
        compact_text(&w.wake(true, Some(4), 1).unwrap()),
        r#"{"type":"change_event","schema_version":29,"subscription_id":1,"kind":"lifecycle-changed","at_version":4,"scope_hint":{"scope":"knowledge-base"}}"#
    );
    assert!(w.wake(true, Some(5), 5).is_none());
    assert!(w.wake(false, None, 6).is_none());
    assert!(compact_text(&w.wake(true, None, 7).unwrap()).contains(r#""at_version":7"#));
}

#[test]
fn a_delta_tells_what_appeared_vanished_and_changed() {
    let last = vec![file("/v/a.md", "1"), file("/v/b.md", "1"), file("/v/c.md", "1")];
    let cur = vec![file("/v/b.md", "2"), file("/v/c.md", "1"), file("/v/d.md", "1")];
    let d = files_delta(&last, &cur);
    assert_eq!(d.added, vec!["/v/d.md"]);
    assert_eq!(d.removed, vec!["/v/a.md"]);
    assert_eq!(d.modified, vec!["/v/b.md"]);
    assert!(files_delta(&cur, &cur).is_empty());
}

#[test]
fn changes_that_cancel_out_are_not_told() {
    let mut w = ChangesWatch::new(3, Some(vec![file("/v/a.md", "1")]));
    assert!(w.wake(1, vec![file("/v/a.md", "1")]).is_none());
    assert_eq!(
        compact_text(&w.wake(2, vec![file("/v/a.md", "2")]).unwrap()),
        r#"{"type":"change_event","schema_version":29,"subscription_id":3,"kind":"knowledge-base-changed","at_version":2,"scope_hint":{"scope":"files","added":[],"removed":[],"modified":["/v/a.md"]}}"#
    );
    assert!(w.wake(3, vec![file("/v/a.md", "2")]).is_none());
    let mut early = ChangesWatch::new(3, None);
    assert!(compact_text(&early.wake(1, vec![file("/v/a.md", "1")]).unwrap())
        .contains(r#""added":["/v/a.md"]"#));
}

#[test]
fn the_files_channel_ignores_contents() {
    let mut w = FilesWatch::new(4, vec![file("/v/a.md", "1")]);
    assert!(compact_text(&w.initial_frame(1)).ends_with(r#""result":[{"path":"/v/a.md"}]}"#));
    assert!(w.wake(2, vec![file("/v/a.md", "2")]).is_none());
    assert!(compact_text(&w.wake(3, vec![file("/v/b.md", "2")]).unwrap()).ends_with(
        r#""kind":"files-changed","at_version":3,"scope_hint":{"scope":"files","added":["/v/b.md"],"removed":["/v/a.md"]}}"#
    ));
}

#[test]
fn a_snapshot_is_the_catalog() {
    let entry = CatalogEntry {
        path: "/v/a.md".to_string(),
        kind: FileKind::Unclassified,
        served: "note",
        parse: FileParse::Other,
        field_refs: Vec::new(),
        hash: Some("h".to_string()),
        body: None,
    };
    let snap = files_snapshot(&vec![entry]);
    assert_eq!((snap[0].path.as_str(), snap[0].hash.as_deref()), ("/v/a.md", Some("h")));
}

fn ty(name: &str, repo: &str, hash: &str) -> TypeState {
    TypeState {
        name: name.to_string(),
        repo: repo.to_string(),
        served: Json::Object(vec![Member {
            key: "hash".to_string(),
            value: Json::Text(hash.to_string()),
        }]),
    }
}

#[test]
fn types_of_one_name_are_told_apart_by_repo() {
    let mut w = TypesWatch::new(5, vec![ty("note", "b", "1"), ty("note", "a", "1")]);
    assert!(w.wake(2, vec![ty("note", "a", "1"), ty("note", "b", "1")]).is_none());
    let frame = w.wake(3, vec![ty("note", "a", "1"), ty("note", "b", "2"), ty("book", "a", "1")]).unwrap();
    assert!(compact_text(&frame).ends_with(
        r#""scope_hint":{"scope":"types","added":[{"name":"book","repo":"a","hash":"1"}],"removed":[],"changed":[{"name":"note","repo":"b","hash":"2"}]}}"#
    ));
    let frame = w.wake(4, Vec::new()).unwrap();
    assert!(compact_text(&frame).contains(
        r#""removed":[{"name":"book","repo":"a","hash":"1"},{"name":"note","repo":"a","hash":"1"},{"name":"note","repo":"b","hash":"2"}]"#
    ));
}

fn diagnostic(file: &str, code: &str) -> Diagnostic {
    Diagnostic {
        file: file.to_string(),
        severity: Severity::Error,
        code: code.to_string(),
        served: Json::Text(code.to_string()),
    }
}

#[test]
fn the_files_whose_diagnostics_changed_are_told_in_order() {
    let repos = Vec::new();
    let before = vec![diagnostic("/v/b", "x"), diagnostic("/v/c", "y"), diagnostic("/v/d", "z")];
    let mut w = DiagnosticsWatch::new(6, DiagnosticsScope::everything(), &repos, &before);
    assert!(compact_text(&w.initial_frame(1, &repos, &before)).ends_with(r#""result":["x","y","z"]}"#));
    assert!(w.wake(2, &repos, &before).is_none());
    let after = vec![diagnostic("/v/d", "w"), diagnostic("/v/a", "n"), diagnostic("/v/c", "y")];
    assert!(compact_text(&w.wake(3, &repos, &after).unwrap()).ends_with(
        r#""kind":"diagnostics-changed","at_version":3,"scope_hint":{"scope":"files","files":["/v/a","/v/b","/v/d"]}}"#
    ));
}

fn graph(refs: usize) -> LinkGraphView {
    LinkGraphView {
        repo: None,
        scope: "all",
        nodes: vec![GraphNodeView {
            path: "/v/b.md".to_string(),
            repo: None,
            kind: "note",
            refs_structural: 0,
            refs_total: refs,
        }],
        edges: (0..refs)
            .map(|_| GraphEdgeView {
                from: "/v/a.md".to_string(),
                to: "/v/b.md".to_string(),
                kind: "navigational",
                surface: "body",
            })
            .collect(),
    }
}

#[test]
fn the_link_graph_tells_nodes_and_edges_that_changed() {
    let mut w = LinkGraphWatch::new(7, graph(0));
    assert!(compact_text(&w.initial_frame(1)).ends_with(
        r#""result":{"repo":null,"scope":"all","nodes":[{"path":"/v/b.md","repo":null,"kind":"note","refs_structural":0,"refs_total":0}],"edges":[]}}"#
    ));
    assert!(w.wake(2, graph(0)).is_none());
    assert!(compact_text(&w.wake(3, graph(1)).unwrap()).ends_with(
        r#""kind":"link-graph-changed","at_version":3,"scope_hint":{"scope":"link_graph","nodes_added":[{"path":"/v/b.md","repo":null,"kind":"note","refs_structural":0,"refs_total":1}],"nodes_removed":[],"edges_added":[{"from":"/v/a.md","to":"/v/b.md","kind":"navigational","surface":"body"}],"edges_removed":[]}}"#
    ));
}

#[test]
fn the_type_graph_tells_an_edge_whose_count_changed() {
    let types = |count| TypeGraphView {
        repo: None,
        scope: "own",
        nodes: vec![TypeGraphNodeView { path: "/v/t".to_string(), repo: None, kind: "type-def" }],
        edges: vec![TypeGraphEdgeView {
            from: "/v/t".to_string(),
            to: "/v/t".to_string(),
            relation: "subtype",
            count,
        }],
    };
    let mut w = TypeGraphWatch::new(8, types(1));
    assert!(w.wake(2, types(1)).is_none());
    assert!(compact_text(&w.wake(3, types(2)).unwrap()).contains(
        r#""edges_added":[{"from":"/v/t","to":"/v/t","relation":"subtype","count":2}],"edges_removed":[]"#
    ));
}

fn log(tree: &str, commits: &[&str]) -> TreeLog {
    TreeLog {
        tree: tree.to_string(),
        members: vec!["m".to_string()],
        commits: commits.iter().map(|c| c.to_string()).collect(),
    }
}

fn row(commit: &str) -> RecentCommit {
    RecentCommit {
        commit: commit.to_string(),
        tree: "/t".to_string(),
        members: vec!["m".to_string()],
        author_name: "A".to_string(),
        author_email: "a@x".to_string(),
        timestamp: -5,
        subject: "s".to_string(),
        changed_files: Vec::new(),
        trailers: Vec::new(),
    }
}

#[test]
fn a_commit_below_the_first_page_is_not_told_later() {
    let mut stream = CommitStream::seed(9, vec![log("/t", &["c1", "c2"]), log("/u", &["d1"])]);
    assert!(compact_text(&stream.initial_frame(None, &vec![row("c1")])).ends_with(
        r#""at_version":0,"result":[{"commit":"c1","tree":"/t","members":["m"],"author":{"name":"A","email":"a@x"},"timestamp":-5,"subject":"s","changed_files":[],"trailers":[]}]}"#
    ));
    assert_eq!(stream.to_relog(&TreeEvent::Moved("/u/".to_string())), vec![1]);
    assert!(stream.to_relog(&TreeEvent::Moved("/x".to_string())).is_empty());
    assert_eq!(stream.to_relog(&TreeEvent::Lagged), vec![0, 1]);
    assert!(stream.appeared(Some(1), &vec![row("c1"), row("c2"), row("d1")]).is_none());
    stream.relogged(1, vec!["d2".to_string(), "d1".to_string()]);
    let merged = vec![row("d2"), row("c1"), row("c2"), row("d1")];
    let frame = compact_text(&stream.appeared(Some(2), &merged).unwrap());
    assert!(frame.contains(r#""kind":"commits-appeared","at_version":2"#));
    assert_eq!(frame.matches(r#""commit":"#).count(), 1);
    assert!(frame.contains(r#""commit":"d2""#));
    assert!(stream.appeared(Some(3), &merged).is_none());
}

#[test]
fn a_time_is_a_bound_of_its_own() {
    assert_eq!(effective_limit(None, &None), Some(100));
    assert_eq!(effective_limit(Some(5), &None), Some(5));
    assert_eq!(effective_limit(None, &Some("1.day".to_string())), None);
    assert_eq!(effective_limit(Some(5), &Some("1.day".to_string())), Some(5));
}

#[test]
fn what_a_delta_tells_is_in_the_order_of_the_paths() {
    let last = vec![file("/v/a", "1"), file("/v/a/x", "1"), file("/v/b", "1"), file("/v/d", "1")];
    let cur = vec![file("/v/a", "2"), file("/v/a/y", "1"), file("/v/c", "1"), file("/v/d", "2")];
    let d = files_delta(&last, &cur);
    assert_eq!(d.added, ["/v/a/y", "/v/c"]);
    assert_eq!(d.removed, ["/v/a/x", "/v/b"]);
    assert_eq!(d.modified, ["/v/a", "/v/d"]);
}
