//! The reads: arguments, answers and what is asked for elsewhere.

use au_engine::ast::{ByteRange, ClaimedName, FileParse, Instance, TypeClaim};
use au_engine::commits::meta::CommitRef;
use au_engine::config_read::{config_response, ConfigRead, ConfigScope};
use au_engine::diagnostics::{Diagnostic, DiagnosticsFilterArgs, Severity};
use au_engine::encoding::quote_json;
use au_engine::frames::Response;
use au_engine::instances::{
    instances_of_response, record_paths, resolved_view, HeldInstance, InstanceFact, MatchRecord,
};
use au_engine::json::{Json, Member};
use au_engine::listing::{children_view, entry_name, files_view, top_level_dirs_view};
use au_engine::model::{
    Backlink, CatalogEntry, FileKind, Inbound, KnowledgeBase, RefSurface, Repo, Scope,
};
use au_engine::neighborhood::{
    check_neighborhood, neighborhood_response, read_body_at, reads_of, Direction, DroppedNode, FileRead,
    FrontmatterSplit, Neighborhood, NeighborhoodArgs, NodeId, WalkedEdge, WalkedNode, Wants,
};
use au_engine::requests::{
    deliver, handle_request, members_payload, overview, render_overview, Handled, Held, MemberRow, Query,
    Request, Standing,
};

/// The text of a value, with the members of an object in their order.
fn compact_text(j: &Json) -> String {
    match j {
        Json::Null => "null".to_string(),
        Json::Bool(b) => b.to_string(),
        Json::Int(n) => n.to_string(),
        Json::Number(n) => n.clone(),
        Json::Text(t) => quote_json(t),
        Json::List(v) => {
            let items: Vec<String> = v.iter().map(compact_text).collect();
            format!("[{}]", items.join(","))
        }
        Json::Object(v) => {
            let members: Vec<String> = v
                .iter()
                .map(|m| format!("{}:{}", quote_json(&m.key), compact_text(&m.value)))
                .collect();
            format!("{{{}}}", members.join(","))
        }
    }
}

fn s(t: &str) -> Option<String> {
    Some(t.to_string())
}

fn text(t: &str) -> Json {
    Json::Text(t.to_string())
}

fn object(members: Vec<(&str, Json)>) -> Json {
    Json::Object(
        members
            .into_iter()
            .map(|(k, value)| Member { key: k.to_string(), value })
            .collect(),
    )
}

fn file(path: &str) -> CatalogEntry {
    CatalogEntry {
        path: path.to_string(),
        kind: FileKind::Unclassified,
        served: "note",
        parse: FileParse::Note(Vec::new()),
        field_refs: Vec::new(),
        hash: None,
        body: None,
    }
}

fn repo(name: &str, root: &str, own: bool, builtin: bool) -> Repo {
    Repo { name: name.to_string(), root: root.to_string(), own, builtin, editable: own, role: "edit" }
}

fn base() -> KnowledgeBase {
    KnowledgeBase {
        repos: vec![
            repo("au-engine", "/builtin", false, true),
            repo("v", "/v", true, false),
            repo("lib", "/v/lib", false, false),
        ],
        catalog: vec![
            file("/v/.hidden/x.md"),
            file("/v/a.session.yaml"),
            file("/v/docs/deep/y.md"),
            file("/v/docs/z.md"),
            file("/v/lib/q.md"),
        ],
        backlinks: vec![Inbound {
            target: "/v/docs/z.md".to_string(),
            edges: vec![Backlink {
                source: "/v/lib/q.md".to_string(),
                slot: None,
                surface: RefSurface::Body,
                kind: "navigational",
                span: ByteRange { start: 0, end: 5 },
                block_id: None,
                source_block_id: None,
                line_col: None,
            }],
        }],
        types: Vec::new(),
    }
}

#[test]
fn files_are_paged_in_the_order_of_the_catalog() {
    let kb = base();
    let all = files_view(&kb.repos, &kb.catalog, &None, Scope::All, None, 0);
    assert_eq!(all.len(), 5);
    assert_eq!(all[1].stem, "a.session");
    assert_eq!(all[4].repo.as_deref(), Some("lib"));
    let own = files_view(&kb.repos, &kb.catalog, &None, Scope::Own, None, 0);
    assert_eq!(own.len(), 4);
    let page = files_view(&kb.repos, &kb.catalog, &None, Scope::All, Some(2), 1);
    let paths: Vec<&str> = page.iter().map(|f| f.path.as_str()).collect();
    assert_eq!(paths, vec!["/v/a.session.yaml", "/v/docs/deep/y.md"]);
    assert!(files_view(&kb.repos, &kb.catalog, &s("none"), Scope::All, None, 0).is_empty());
}

#[test]
fn a_directory_lists_directories_then_files_without_hidden_ones() {
    let kb = base();
    let entries = children_view(&kb.catalog, "/v");
    let listed: Vec<(&str, &str, &str)> =
        entries.iter().map(|e| (e.path.as_str(), e.name.as_str(), e.kind)).collect();
    assert_eq!(
        listed,
        vec![
            ("/v/docs", "docs", "directory"),
            ("/v/lib", "lib", "directory"),
            ("/v/a.session.yaml", "a.session.yaml", "file"),
        ]
    );
    assert!(children_view(&kb.catalog, "/nowhere").is_empty());
    assert_eq!(entry_name("/v/.git"), None);
    assert_eq!(entry_name("/v/a.md").as_deref(), Some("a.md"));
}

#[test]
fn a_nested_member_is_a_directory_of_its_container_too() {
    let kb = base();
    let dirs = top_level_dirs_view(&kb.repos, &kb.catalog, &None, Scope::All);
    let listed: Vec<(&str, &str, Option<&str>)> =
        dirs.iter().map(|d| (d.repo.as_str(), d.path.as_str(), d.member.as_deref())).collect();
    assert_eq!(listed, vec![("v", "/v/docs", None), ("v", "/v/lib", Some("lib"))]);
    assert!(top_level_dirs_view(&kb.repos, &kb.catalog, &s("lib"), Scope::All).is_empty());
    assert!(top_level_dirs_view(&kb.repos, &kb.catalog, &s("lib"), Scope::Own).is_empty());
}

fn args(path: &str) -> NeighborhoodArgs {
    NeighborhoodArgs {
        path: path.to_string(),
        direction: Direction::Out,
        depth: 1,
        kinds: None,
        scope: Scope::All,
        max_nodes: None,
        content: false,
        body: false,
        instance: false,
    }
}

fn kinds() -> Vec<String> {
    ["navigational", "contributing", "field"].iter().map(|k| k.to_string()).collect()
}

#[test]
fn the_arguments_of_a_walk_are_checked_against_each_other() {
    let mut a = args("a.md");
    assert_eq!(check_neighborhood(&a, &kinds()), None);
    a.kinds = Some(vec!["field".to_string(), "typo".to_string()]);
    assert_eq!(
        check_neighborhood(&a, &kinds()).as_deref(),
        Some("unknown edge kind 'typo'; expected one of navigational / contributing / field")
    );
    a.kinds = None;
    a.depth = 2;
    assert!(check_neighborhood(&a, &kinds()).unwrap().starts_with("`kinds` is required past depth 1"));
    a.depth = 1;
    a.max_nodes = Some(0);
    assert_eq!(
        check_neighborhood(&a, &kinds()).as_deref(),
        Some("`max_nodes` must be at least 1; the seed always counts")
    );
}

fn node(path: &str, block: Option<&str>, span: Option<(usize, usize)>) -> WalkedNode {
    WalkedNode {
        id: NodeId { path: path.to_string(), block_id: block.map(|b| b.to_string()) },
        depth: 0,
        repo: None,
        file_kind: "note",
        bytes: Some(9),
        body_bytes: None,
        block_span: span.map(|(start, end)| ByteRange { start, end }),
    }
}

fn walk() -> Neighborhood {
    Neighborhood {
        nodes: vec![
            node("/v/a.md", None, None),
            node("/v/a.md", Some("x"), Some((2, 5))),
            node("/v/a.md", Some("gone"), None),
            node("/v/b.md", None, None),
        ],
        edges: vec![WalkedEdge {
            from: NodeId { path: "/v/a.md".to_string(), block_id: None },
            to: None,
            kind: "navigational",
            surface: RefSurface::Body,
            span: ByteRange { start: 1, end: 4 },
            line_col: None,
            field: None,
            source_block_id: None,
            target_block_id: None,
            link: None,
        }],
        truncated: true,
        truncated_at_depth: Some(1),
        dropped: vec![DroppedNode {
            id: NodeId { path: "/v/c.md".to_string(), block_id: None },
            depth: 1,
            repo: s("v"),
        }],
    }
}

fn read(path: &str, bytes: Option<&[u8]>, split: FrontmatterSplit) -> FileRead {
    FileRead {
        path: path.to_string(),
        bytes: bytes.map(|b| b.to_vec()),
        commit: None,
        split,
    }
}

#[test]
fn each_file_of_a_walk_is_read_once() {
    let want = Wants { content: true, body: false, instance: false };
    let orders = reads_of(&walk(), want);
    let listed: Vec<(&str, bool)> =
        orders.iter().map(|o| (o.path.as_str(), o.keep_bytes)).collect();
    assert_eq!(listed, vec![("/v/a.md", true), ("/v/b.md", false)]);
    let none = Wants { content: false, body: false, instance: true };
    assert!(reads_of(&walk(), none).is_empty());
}

#[test]
fn a_node_carries_the_facts_that_were_asked_for() {
    let want = Wants { content: true, body: true, instance: true };
    let files = vec![
        read("/v/a.md", Some(b"abcdefgh"), FrontmatterSplit::Body("gh".to_string())),
        read("/v/b.md", Some(&[0xff, 0xfe]), FrontmatterSplit::Absent),
    ];
    let instances = vec![Json::Int(1), Json::Int(2), Json::Int(3), Json::Null];
    let reply = compact_text(&neighborhood_response(5, &walk(), want, &instances, &files));
    assert!(reply.starts_with(
        r#"{"type":"response","schema_version":29,"ready":true,"version":5,"result":{"neighborhood":{"nodes":["#
    ));
    assert!(reply.contains(
        r#"{"path":"/v/a.md","depth":0,"file_kind":"note","bytes":9,"body_bytes":null,"instance":1,"content":{"text":"abcdefgh","hash":"25da8c1836a8d66d","commit":null},"body":"gh"}"#
    ));
    assert!(reply.contains(
        r#"{"path":"/v/a.md","block_id":"x","depth":0,"file_kind":"note","bytes":9,"body_bytes":null,"instance":null,"content":{"text":"cde","hash":null,"commit":null},"body":"cde"}"#
    ));
    assert!(reply.contains(r#""block_id":"gone","depth":0,"file_kind":"note","bytes":9,"body_bytes":null,"instance":null,"content":null,"body":null}"#));
    assert!(reply.contains(r#""instance":null,"content":null,"body":null}],"edges":[{"from":{"path":"/v/a.md"},"to":null,"kind":"navigational","surface":"body","span_start":1,"span_end":4}]"#));
    assert!(reply.ends_with(
        r#""truncated":true,"truncated_at_depth":1,"dropped":[{"path":"/v/c.md","depth":1,"repo":"v"}]}}}"#
    ));
}

#[test]
fn a_block_that_cuts_a_character_has_no_text() {
    let mut w = walk();
    w.nodes = vec![node("/v/a.md", Some("x"), Some((0, 1))), node("/v/a.md", Some("y"), Some((0, 9)))];
    let files = vec![read("/v/a.md", Some("é".as_bytes()), FrontmatterSplit::Absent)];
    let want = Wants { content: true, body: false, instance: false };
    let reply = compact_text(&neighborhood_response(1, &w, want, &vec![Json::Null, Json::Null], &files));
    assert_eq!(reply.matches(r#""content":null"#).count(), 2);
}

#[test]
fn unterminated_frontmatter_has_no_body() {
    assert_eq!(read_body_at(&read("/a", Some(b"x"), FrontmatterSplit::Broken)), None);
    assert_eq!(read_body_at(&read("/a", Some(b"x"), FrontmatterSplit::Absent)).as_deref(), Some("x"));
    assert_eq!(read_body_at(&read("/a", None, FrontmatterSplit::Absent)), None);
    assert_eq!(read_body_at(&read("/a", Some(&[0x80]), FrontmatterSplit::Absent)), None);
}

#[test]
fn records_of_one_file_share_its_facts() {
    let rec = |path: &str| MatchRecord { path: path.to_string(), record: object(vec![("path", text(path))]) };
    let records = vec![rec("/v/a.md"), rec("/v/b.md"), rec("/v/a.md")];
    assert_eq!(record_paths(&records), vec!["/v/a.md", "/v/b.md"]);
    let facts = vec![InstanceFact { path: "/v/a.md".to_string(), view: Json::Int(1) }];
    let files = vec![read("/v/b.md", Some(b"B"), FrontmatterSplit::Absent)];
    let reply = compact_text(&instances_of_response(2, &records, true, true, &facts, &files));
    assert!(reply.ends_with(
        r#""result":{"instances_of":[{"path":"/v/a.md","instance":1,"body":null},{"path":"/v/b.md","instance":null,"body":"B"},{"path":"/v/a.md","instance":1,"body":null}]}}"#
    ));
    let bare = compact_text(&instances_of_response(2, &records, false, false, &facts, &files));
    assert!(bare.ends_with(
        r#"{"instances_of":[{"path":"/v/a.md"},{"path":"/v/b.md"},{"path":"/v/a.md"}]}}"#
    ));
}

fn diagnostic(path: &str, code: &str) -> Diagnostic {
    Diagnostic {
        file: path.to_string(),
        severity: Severity::Warning,
        code: code.to_string(),
        served: text(code),
    }
}

#[test]
fn the_view_of_an_instance_keeps_qualified_claims() {
    let mut entry = file("/v/i.md");
    entry.parse = FileParse::Instance(Some(Instance {
        type_claim: TypeClaim::Bare(ClaimedName {
            name: "book".to_string(),
            repo: s("lib"),
            span: ByteRange { start: 0, end: 0 },
        }),
        fields: Vec::new(),
    }));
    let catalog = vec![entry, file("/v/n.md")];
    let all = vec![diagnostic("/v/i.md", "one"), diagnostic("/v/n.md", "two")];
    let held = || {
        Some(HeldInstance {
            closure: None,
            candidates: Json::List(Vec::new()),
            layer: None,
            record_block_ids: Vec::new(),
        })
    };
    assert_eq!(
        compact_text(&resolved_view(&catalog, &all, "/v/i.md", &held())),
        r#"{"resolved":false,"claim":["book::lib"],"closure":[],"candidates":[],"effective_values":[],"section_presence":null,"body_events":null,"diagnostics":["one"]}"#
    );
    assert_eq!(compact_text(&resolved_view(&catalog, &all, "/v/n.md", &held())), "null");
    assert_eq!(compact_text(&resolved_view(&catalog, &all, "/v/i.md", &None)), "null");
}

#[test]
fn a_config_file_lies_under_its_scope() {
    let kb = base();
    let at = |refused: Option<&str>, ready: bool, scope, asked: Option<&str>, dir: Option<&str>| {
        config_response(
            refused.map(|m| m.to_string()),
            ready,
            &kb.repos,
            Some(1),
            "/v",
            scope,
            &asked.map(|a| a.to_string()),
            &dir.map(|d| d.to_string()),
        )
    };
    assert!(matches!(
        at(Some("bad name"), false, ConfigScope::Repo, None, None),
        ConfigRead::Reply(r) if r.error.as_deref() == Some("bad name")
    ));
    assert!(matches!(
        at(None, false, ConfigScope::Repo, None, None),
        ConfigRead::Reply(r) if !r.ready && r.error.is_none()
    ));
    assert!(matches!(
        at(None, true, ConfigScope::Repo, Some("lib"), None),
        ConfigRead::Read { dir, repo } if dir == "/v/lib/.arsumbris" && repo == "lib"
    ));
    assert!(matches!(
        at(None, true, ConfigScope::Repo, Some("gone"), None),
        ConfigRead::Reply(r) if r.error.as_deref()
            == Some("repo scope needs a declared member root; `/v/gone` names none")
    ));
    assert!(matches!(
        at(None, true, ConfigScope::Machine, None, Some("/home/me/.arsumbris")),
        ConfigRead::Read { dir, repo } if dir == "/home/me/.arsumbris" && repo == "v"
    ));
    assert!(matches!(
        at(None, true, ConfigScope::Machine, None, None),
        ConfigRead::Nowhere(v) if v.path.is_none() && !v.exists
    ));
}

fn ask(request: Request, kb: Option<&KnowledgeBase>, all: &Vec<Diagnostic>) -> Handled {
    let walk_kinds = kinds();
    let standing = Standing {
        root: "/v",
        engine: "Running",
        base: if kb.is_some() { "Ready" } else { "Deriving" },
        ready: kb.is_some(),
        version: kb.map(|_| 3),
        walk_kinds: &walk_kinds,
        held: kb.map(|kb| Held { version: 3, kb, diagnostics: all }),
    };
    handle_request(request, &standing)
}

fn reply(h: Handled) -> Response {
    match h {
        Handled::Reply(r) => r,
        _ => panic!("expected a reply"),
    }
}

fn result(h: Handled) -> String {
    compact_text(&reply(h).result.expect("a result"))
}

#[test]
fn the_lifecycle_and_the_shutdown_are_told_in_any_state() {
    let none = Vec::new();
    assert_eq!(
        compact_text(&reply(ask(Request::Lifecycle, None, &none)).into_frame()),
        r#"{"type":"response","schema_version":29,"ready":false,"result":{"lifecycle":{"engine":"running","ref":"deriving"}}}"#
    );
    match ask(Request::Shutdown, Some(&base()), &none) {
        Handled::ShutDown(r) => {
            assert_eq!(r.version, Some(3));
            assert_eq!(compact_text(&r.result.unwrap()), r#"{"shutting_down":true}"#);
        }
        _ => panic!("expected a shutdown"),
    }
}

#[test]
fn a_read_waits_for_the_knowledge_base_but_a_refusal_does_not() {
    let none = Vec::new();
    let r = reply(ask(Request::Files { repo: None, scope: Scope::All, limit: None, offset: None }, None, &none));
    assert!(!r.ready && r.error.is_none());
    let commits = vec![CommitRef { commit: "a\nb".to_string(), repo: None }];
    assert_eq!(
        reply(ask(Request::CommitMeta { commits }, None, &none)).error.as_deref(),
        Some("commit 'a\\nb' contains a newline; a commit-ish is a single line")
    );
    let r = reply(ask(
        Request::FileHistory { path: "/v/a.md".to_string(), repo: s("v") },
        None,
        &none,
    ));
    assert!(r.error.unwrap().starts_with("an absolute `path` cannot be combined with `repo`"));
    let mut a = args("a.md");
    a.depth = 3;
    assert!(reply(ask(Request::Neighborhood(a), None, &none)).error.is_some());
}

#[test]
fn diagnostics_are_paged_and_scoped() {
    let kb = base();
    let all = vec![
        diagnostic("/v/docs/z.md", "one"),
        diagnostic("/v/lib/q.md", "two"),
        diagnostic("/v/docs/z.md", "three"),
    ];
    let filter = |path: Option<&str>, limit, offset| DiagnosticsFilterArgs {
        path: path.map(|p| p.to_string()),
        path_prefix: None,
        severity: None,
        code: None,
        limit,
        offset,
        repo: None,
        scope: None,
    };
    let asked = |f| result(ask(Request::Diagnostics(f), Some(&kb), &all));
    assert_eq!(asked(filter(None, None, None)), r#"{"diagnostics":["one","three"]}"#);
    assert_eq!(asked(filter(None, Some(1), Some(1))), r#"{"diagnostics":["three"]}"#);
    assert_eq!(asked(filter(Some("lib/q.md"), None, None)), r#"{"diagnostics":["two"]}"#);
    assert_eq!(
        result(ask(Request::DiagnosticCounts(filter(None, Some(1), None)), Some(&kb), &all)),
        r#"{"diagnostic_counts":{"total":2,"by_severity":{"warning":2},"by_code":{"one":1,"three":1}}}"#
    );
}

#[test]
fn listings_are_answered_from_the_catalog() {
    let kb = base();
    let none = Vec::new();
    let files = Request::Files { repo: s("lib"), scope: Scope::All, limit: None, offset: None };
    assert_eq!(
        result(ask(files, Some(&kb), &none)),
        r#"{"files":[{"path":"/v/lib/q.md","stem":"q","repo":"lib","kind":"note"}]}"#
    );
    assert_eq!(
        result(ask(Request::DirEntries { dir: "docs".to_string() }, Some(&kb), &none)),
        r#"{"dir_entries":[{"path":"/v/docs/deep","name":"deep","kind":"directory"},{"path":"/v/docs/z.md","name":"z.md","kind":"file"}]}"#
    );
    assert_eq!(
        result(ask(Request::TopLevelDirs { repo: None, scope: None }, Some(&kb), &none)),
        r#"{"top_level_dirs":[{"repo":"v","name":"docs","path":"/v/docs","member":null},{"repo":"v","name":"lib","path":"/v/lib","member":"lib"}]}"#
    );
    assert!(result(ask(Request::ReferencesIn { path: "docs/z.md".to_string() }, Some(&kb), &none))
        .contains(r#""source":"/v/lib/q.md","repo":"lib""#));
}

#[test]
fn graphs_are_answered_from_the_references() {
    let kb = base();
    let none = Vec::new();
    let hubs = |scope| Request::Hubs { repo: None, scope, limit: None, offset: None };
    assert_eq!(
        result(ask(hubs(Some(Scope::All)), Some(&kb), &none)),
        r#"{"hubs":[{"path":"/v/docs/z.md","repo":"v","kind":"note","refs_structural":0,"refs_navigational":1,"refs_total":1}]}"#
    );
    let graph = result(ask(Request::LinkGraph { repo: None, scope: Some(Scope::All) }, Some(&kb), &none));
    assert!(graph.starts_with(r#"{"link_graph":{"repo":null,"scope":"all","nodes":["#));
    assert!(graph.ends_with(
        r#""edges":[{"from":"/v/lib/q.md","to":"/v/docs/z.md","kind":"navigational","surface":"body"}]}}"#
    ));
    assert_eq!(
        result(ask(Request::TypeGraph { repo: None, scope: None, edges: None }, Some(&kb), &none)),
        r#"{"type_graph":{"repo":null,"scope":"own","nodes":[],"edges":[]}}"#
    );
    match ask(Request::GraphShape { repo: None, scope: None, orphan_paths: false }, Some(&kb), &none) {
        Handled::Shape { version, view } => {
            assert_eq!(version, 3);
            assert_eq!(view.node_count, 4);
            assert_eq!(view.scope, "own");
        }
        _ => panic!("expected a shape"),
    }
}

#[test]
fn other_reads_are_asked_for_with_settled_arguments() {
    let kb = base();
    let none = Vec::new();
    let fetch = |r| match ask(r, Some(&kb), &none) {
        Handled::Fetch { version: 3, query } => query,
        _ => panic!("expected a query"),
    };
    assert!(matches!(
        fetch(Request::Content { path: "a.md".to_string() }),
        Query::Content { path } if path == "/v/a.md"
    ));
    assert!(matches!(
        fetch(Request::ResolveTarget { target: "b".to_string(), origin: s("/w/x.md") }),
        Query::ResolveTarget { origin: Some(o), .. } if o == "/w/x.md"
    ));
    assert!(matches!(
        fetch(Request::RecentCommits { members: None, limit: None, since: None }),
        Query::RecentCommits { limit: Some(100), .. }
    ));
    assert!(matches!(
        fetch(Request::RecentCommits { members: None, limit: None, since: s("2.days") }),
        Query::RecentCommits { limit: None, .. }
    ));
    assert!(matches!(
        fetch(Request::Overview { repo: s("lib"), scope: None }),
        Query::Overview { scope: Scope::All, .. }
    ));
    assert!(matches!(
        fetch(Request::Overview { repo: None, scope: None }),
        Query::Overview { scope: Scope::Own, .. }
    ));
    assert!(matches!(
        fetch(Request::Neighborhood(args("a.md"))),
        Query::Neighborhood { max_nodes: 2000, seed, .. } if seed == "/v/a.md"
    ));
    match fetch(Request::Ignores { repo: None, resolve: true }) {
        Query::Ignores { roots, resolve: true } => {
            let names: Vec<&str> = roots.iter().map(|m| m.name.as_str()).collect();
            assert_eq!(names, vec!["v", "lib"]);
        }
        _ => panic!("expected the members"),
    }
}

#[test]
fn a_payload_is_delivered_under_the_name_of_its_read() {
    let got = deliver(4, &Query::Type { name: "x".to_string() }, Json::Null);
    assert_eq!(compact_text(&got.result.unwrap()), r#"{"type":null}"#);
    let got = deliver(4, &Query::Instances, object(vec![("count", Json::Int(0))]));
    assert_eq!(compact_text(&got.result.unwrap()), r#"{"count":0}"#);
}

#[test]
fn an_overview_mirrors_the_reads_that_it_gathers() {
    let kb = base();
    let all = vec![diagnostic("/v/docs/z.md", "one")];
    let rows = vec![
        MemberRow { repo: "v".to_string(), served: text("v") },
        MemberRow { repo: "lib".to_string(), served: text("lib") },
    ];
    assert_eq!(compact_text(&members_payload(&rows, &None)), r#"["v","lib"]"#);
    assert_eq!(compact_text(&members_payload(&rows, &s("lib"))), r#"["lib"]"#);
    let v = overview(&kb, &all, &None, Scope::All);
    let shown = compact_text(&render_overview(
        &v,
        members_payload(&rows, &None),
        Json::Int(0),
        Json::Number("0.2".to_string()),
    ));
    let hubs = result(ask(
        Request::Hubs { repo: None, scope: Some(Scope::All), limit: None, offset: None },
        Some(&kb),
        &all,
    ));
    assert!(shown.contains(&hubs[1..hubs.len() - 1]));
    let dirs = result(ask(
        Request::TopLevelDirs { repo: None, scope: Some(Scope::All) },
        Some(&kb),
        &all,
    ));
    assert!(shown.contains(&dirs[1..dirs.len() - 1]));
    assert!(shown.starts_with(r#"{"repo":null,"scope":"all","members":["v","lib"],"#));
    assert!(shown.ends_with(r#""density":0.2}}"#));
}
