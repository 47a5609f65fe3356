//! Where links lead, and what the files at their ends hold.

use au_engine::ast::{ByteRange, ClaimedName, FileParse, Instance, TypeClaim, TypeDef};
use au_engine::edges::{
    backlinks_view, classify_edge, outgoing_view, pins_view, EdgeKind, Slot, SlotGate, SourceEdge,
    SourceFile,
};
use au_engine::encoding::quote_json;
use au_engine::json::Json;
use au_engine::model::{
    Backlink, BlockRef, BodyEvent, CatalogEntry, FencedBlock, FileKind, Inbound, MarkdownBody,
    RefSurface, Repo, Yaml, YamlPair,
};
use au_engine::mutation::links::WikilinkRef;
use au_engine::navigation::{
    anchors_view, block_ids_view, block_type_claim, resolve_anchor_view, resolve_block_id_view,
    resolve_navigation_target, resolve_target_view, Lookup, RecordEntry,
};

/// The text of a value, with the members of an object in their order.
fn compact_text(j: &Json) -> String {
    match j {
        Json::Null => "null".to_string(),
        Json::Bool(b) => b.to_string(),
        Json::Int(n) => n.to_string(),
        Json::Number(n) => n.clone(),
        Json::Text(t) => quote_json(t),
        Json::List(v) => {
            let items: Vec<String> = v.iter().map(compact_text).collect();
            format!("[{}]", items.join(","))
        }
        Json::Object(v) => {
            let members: Vec<String> = v
                .iter()
                .map(|m| format!("{}:{}", quote_json(&m.key), compact_text(&m.value)))
                .collect();
            format!("{{{}}}", members.join(","))
        }
    }
}

fn link(target: &str) -> WikilinkRef {
    WikilinkRef {
        target: target.to_string(),
        repo: None,
        commit: None,
        block_id: None,
        anchor: None,
        field: None,
    }
}

fn s(t: &str) -> Option<String> {
    Some(t.to_string())
}

#[test]
fn a_name_is_looked_up_beside_its_file() {
    let l = resolve_navigation_target("b", &Some(link("b")), &s("/v/a.md"));
    assert!(matches!(l, Lookup::Beside { origin, name } if origin == "/v/a.md" && name == "b"));
    let l = resolve_navigation_target("b", &Some(link("b")), &None);
    assert!(matches!(l, Lookup::Anywhere(name) if name == "b"));
    let mut w = link("b");
    w.repo = s("lib");
    let l = resolve_navigation_target("b::lib", &Some(w), &s("/v/a.md"));
    assert!(matches!(l, Lookup::Across { repo, .. } if repo == "lib"));
    let mut w = link("b");
    w.repo = s("lib");
    let l = resolve_navigation_target("b::lib", &Some(w), &None);
    assert!(matches!(l, Lookup::InRepo { repo, name } if repo == "lib" && name == "b"));
}

#[test]
fn a_pinned_target_leads_nowhere() {
    let mut w = link("b");
    w.commit = s("abc");
    assert!(matches!(
        resolve_navigation_target("b::@abc", &Some(w), &s("/v/a.md")),
        Lookup::Nothing
    ));
    let mut w = link("");
    w.commit = s("abc");
    w.block_id = Some(BlockRef { id: "x".to_string(), referent: false });
    assert!(matches!(
        resolve_navigation_target("::@abc", &Some(w), &s("/v/a.md")),
        Lookup::Nothing
    ));
}

#[test]
fn a_local_target_leads_to_its_own_file() {
    let mut w = link("");
    w.anchor = s("head");
    assert!(matches!(
        resolve_navigation_target("#head", &Some(w), &s("/v/a.md")),
        Lookup::Itself(p) if p == "/v/a.md"
    ));
    assert!(matches!(resolve_navigation_target("  ", &None, &s("/v/a.md")), Lookup::Itself(_)));
    assert!(matches!(resolve_navigation_target("  ", &None, &None), Lookup::Nothing));
    assert!(matches!(resolve_navigation_target("[[", &None, &None), Lookup::Anywhere(n) if n == "[["));
}

fn claimed(name: &str, repo: Option<&str>) -> ClaimedName {
    ClaimedName {
        name: name.to_string(),
        repo: repo.map(|r| r.to_string()),
        span: ByteRange { start: 0, end: 0 },
    }
}

fn fence(start: usize, end: usize, id: Option<&str>, field: Option<&str>, docs: Vec<Yaml>) -> BodyEvent {
    BodyEvent::FencedBlock {
        block: FencedBlock {
            span: ByteRange { start, end },
            trailing_block_id: id.map(|i| i.to_string()),
            field: field.map(|f| f.to_string()),
            docs,
            id_at: end - 1,
            record: None,
        },
    }
}

fn yaml_type(value: Yaml) -> Vec<Yaml> {
    vec![Yaml::Mapping(vec![
        YamlPair { key: Yaml::Text("a".to_string()), value: Yaml::Other },
        YamlPair { key: Yaml::Text("type".to_string()), value },
    ])]
}

fn page() -> CatalogEntry {
    CatalogEntry {
        path: "/v/page.md".to_string(),
        kind: FileKind::Instance,
        served: "instance",
        parse: FileParse::Instance(Some(Instance {
            type_claim: TypeClaim::Bare(claimed("note", None)),
            fields: Vec::new(),
        })),
        field_refs: Vec::new(),
        hash: s("h1"),
        body: Some(MarkdownBody {
            offset: 100,
            blank: false,
            events: vec![
                BodyEvent::Heading {
                    text: " Intro ".to_string(),
                    level: 2,
                    span: ByteRange { start: 0, end: 8 },
                },
                fence(10, 40, Some("f1"), Some("rel"), yaml_type(Yaml::Text("book".to_string()))),
                BodyEvent::BlockIdMarker { id: "m1".to_string(), span: ByteRange { start: 50, end: 53 } },
                fence(60, 80, Some("f2"), None, Vec::new()),
                BodyEvent::BlockIdMarker { id: "m1".to_string(), span: ByteRange { start: 90, end: 93 } },
                fence(95, 99, None, Some("rel"), Vec::new()),
            ],
        }),
    }
}

fn record(id: &str, start: usize) -> RecordEntry {
    RecordEntry {
        id: id.to_string(),
        claim: vec![claimed("book", Some("lib")), claimed("note", None)],
        span: ByteRange { start, end: start + 5 },
    }
}

#[test]
fn a_record_is_found_before_the_body() {
    let catalog = vec![page()];
    let hit = resolve_block_id_view(&catalog, "/v/page.md", "m1", &Some(record("m1", 20))).unwrap();
    assert_eq!(hit.kind, "record");
    assert_eq!(hit.type_claim, vec!["book::lib", "note"]);
    assert_eq!(hit.span, ByteRange { start: 20, end: 25 });
}

#[test]
fn the_first_place_of_an_id_in_the_body_is_found() {
    let catalog = vec![page()];
    let hit = resolve_block_id_view(&catalog, "/v/page.md", "m1", &None).unwrap();
    assert_eq!((hit.kind, hit.span.start, hit.span.end), ("marker", 150, 153));
    let hit = resolve_block_id_view(&catalog, "/v/page.md", "f1", &None).unwrap();
    assert_eq!((hit.kind, hit.span.start), ("typed_block", 110));
    assert_eq!(hit.type_claim, vec!["book"]);
    let hit = resolve_block_id_view(&catalog, "/v/page.md", "f2", &None).unwrap();
    assert_eq!(hit.kind, "marker");
    assert!(hit.type_claim.is_empty());
    assert!(resolve_block_id_view(&catalog, "/v/page.md", "none", &None).is_none());
    assert!(resolve_block_id_view(&catalog, "/v/gone.md", "m1", &None).is_none());
}

#[test]
fn every_place_of_an_id_is_listed_in_order() {
    let catalog = vec![page()];
    let ids = block_ids_view(&catalog, "/v/page.md", &vec![record("r2", 40), record("r1", 20)]);
    let listed: Vec<(&str, usize)> = ids.iter().map(|e| (e.id.as_str(), e.span.start)).collect();
    assert_eq!(
        listed,
        vec![("r1", 20), ("r2", 40), ("f1", 110), ("m1", 150), ("f2", 160), ("m1", 190)]
    );
    let mut plain = page();
    plain.parse = FileParse::Note(Vec::new());
    assert_eq!(block_ids_view(&vec![plain], "/v/page.md", &vec![record("r1", 20)]).len(), 4);
}

#[test]
fn headings_are_listed_without_white_space() {
    let catalog = vec![page()];
    let found = anchors_view(&catalog, "/v/page.md");
    assert_eq!(found.len(), 1);
    assert_eq!((found[0].text.as_str(), found[0].level), ("Intro", 2));
    assert_eq!(found[0].span, ByteRange { start: 100, end: 108 });
    assert_eq!(
        resolve_anchor_view(&catalog, "/v/page.md", Some(ByteRange { start: 0, end: 8 })),
        Some(ByteRange { start: 100, end: 108 })
    );
    assert_eq!(resolve_anchor_view(&catalog, "/v/page.md", None), None);
    let mut bodyless = page();
    bodyless.body = None;
    assert!(anchors_view(&vec![bodyless], "/v/page.md").is_empty());
}

#[test]
fn the_claim_of_a_fence_is_under_its_type_key() {
    assert_eq!(block_type_claim(&yaml_type(Yaml::Text("book".to_string()))), vec!["book"]);
    let list = Yaml::List(vec![Yaml::Text("a".to_string()), Yaml::Other, Yaml::Text("b".to_string())]);
    assert_eq!(block_type_claim(&yaml_type(list)), vec!["a", "b"]);
    assert!(block_type_claim(&yaml_type(Yaml::Other)).is_empty());
    assert!(block_type_claim(&Vec::new()).is_empty());
    assert!(block_type_claim(&vec![Yaml::Text("type".to_string())]).is_empty());
}

#[test]
fn a_type_def_is_opened_where_it_is_defined() {
    let mut def = page();
    def.path = "/v/type/note.type.yaml".to_string();
    def.kind = FileKind::TypeDef;
    def.parse = FileParse::TypeDef(Some(TypeDef {
        parents: Vec::new(),
        sealed: Vec::new(),
        fields: Vec::new(),
        meta_blocks: None,
        body: None,
    }));
    let catalog = vec![page(), def];
    let place = Json::Text("here".to_string());
    assert_eq!(
        compact_text(&resolve_target_view(&catalog, &s("/v/type/note.type.yaml"), &place)),
        r#"{"path":"/v/type/note.type.yaml","kind":"type-def","hash":"h1","source":"here"}"#
    );
    assert_eq!(
        compact_text(&resolve_target_view(&catalog, &s("/v/page.md"), &place)),
        r#"{"path":"/v/page.md","kind":"instance","hash":"h1","source":null}"#
    );
    assert_eq!(
        compact_text(&resolve_target_view(&catalog, &s("/v/x.png"), &place)),
        r#"{"path":"/v/x.png","kind":"unclassified","hash":null,"source":null}"#
    );
    assert_eq!(compact_text(&resolve_target_view(&catalog, &None, &place)), "null");
}

fn edge(surface: RefSurface, slot: Option<&str>, whole: bool) -> SourceEdge {
    SourceEdge {
        link: link("b"),
        slot: slot.map(|x| x.to_string()),
        surface,
        whole_value: whole,
        resolved: s("/v/b.md"),
        source_block_id: None,
        span: Json::Int(1),
    }
}

fn shape() -> SlotGate {
    SlotGate::Shape(vec![
        Slot { name: "rel".to_string(), admits_reference: true },
        Slot { name: "title".to_string(), admits_reference: false },
    ])
}

#[test]
fn the_slot_decides_what_a_frontmatter_link_is() {
    let front = RefSurface::Frontmatter;
    assert_eq!(classify_edge(&edge(front, Some("rel"), true), &shape()), EdgeKind::FieldReference);
    assert_eq!(
        classify_edge(&edge(front, Some("title"), true), &shape()),
        EdgeKind::FieldStringWikilink
    );
    assert_eq!(
        classify_edge(&edge(front, Some("extra"), true), &shape()),
        EdgeKind::FieldStringWikilink
    );
    assert_eq!(
        classify_edge(&edge(front, Some("rel"), false), &SlotGate::Unknown),
        EdgeKind::FieldStringWikilink
    );
    assert_eq!(classify_edge(&edge(front, Some("rel"), true), &SlotGate::Unknown), EdgeKind::Unknown);
    assert_eq!(
        classify_edge(&edge(front, Some("rel"), true), &SlotGate::Untyped),
        EdgeKind::FieldStringWikilink
    );
    assert_eq!(classify_edge(&edge(front, None, true), &shape()), EdgeKind::Unknown);
}

#[test]
fn a_body_link_is_settled_by_its_own_form() {
    let mut e = edge(RefSurface::Body, None, false);
    assert_eq!(classify_edge(&e, &SlotGate::Unknown), EdgeKind::Navigational);
    e.link.field = s("rel");
    assert_eq!(classify_edge(&e, &SlotGate::Unknown), EdgeKind::Contributing);
    e.link.target = String::new();
    e.link.commit = s("abc");
    assert_eq!(classify_edge(&e, &SlotGate::Unknown), EdgeKind::CommitReferent);
}

#[test]
fn a_note_has_no_typed_slots() {
    let edges = vec![edge(RefSurface::Frontmatter, Some("rel"), true)];
    let out = outgoing_view(&FileParse::Note(Vec::new()), None, &edges);
    assert_eq!(
        compact_text(&out),
        r#"[{"target":"b","resolved":"/v/b.md","span":1,"field":"rel","surface":"frontmatter","kind":"field-string-wikilink"}]"#
    );
    let out = outgoing_view(&FileParse::Instance(None), None, &edges);
    assert!(compact_text(&out).contains(r#""kind":"unknown""#));
}

#[test]
fn pins_are_found_by_the_name_they_recorded() {
    let mut pin = edge(RefSurface::Body, None, false);
    pin.link.commit = s("abc");
    pin.link.block_id = Some(BlockRef { id: "x".to_string(), referent: true });
    let live = edge(RefSurface::Body, None, false);
    let mut other = edge(RefSurface::Body, None, false);
    other.link.target = "c".to_string();
    other.link.commit = s("abc");
    let files = vec![SourceFile { path: "/v/a.md".to_string(), edges: vec![live, pin, other] }];
    assert_eq!(
        compact_text(&pins_view("b", &files)),
        r#"[{"source":"/v/a.md","span":1,"surface":"body","target":"b","commit":"abc","block_id":{"id":"x","referent":true}}]"#
    );
    assert_eq!(compact_text(&pins_view("z", &files)), "[]");
}

fn repo(name: &str, root: &str) -> Repo {
    Repo {
        name: name.to_string(),
        root: root.to_string(),
        own: true,
        builtin: false,
        editable: true,
        role: "edit",
    }
}

#[test]
fn a_backlink_names_its_repo_only_across_a_boundary() {
    let repos = vec![repo("v", "/v"), repo("w", "/w")];
    let back = |source: &str| Backlink {
        source: source.to_string(),
        slot: None,
        surface: RefSurface::Body,
        kind: "navigational",
        span: ByteRange { start: 3, end: 9 },
        block_id: None,
        source_block_id: s("r"),
        line_col: None,
    };
    let links =
        vec![Inbound { target: "/v/b.md".to_string(), edges: vec![back("/v/a.md"), back("/w/c.md")] }];
    assert_eq!(
        compact_text(&backlinks_view(&repos, &links, "/v/b.md")),
        concat_lines(&[
            r#"[{"source":"/v/a.md","slot":null,"surface":"body","kind":"navigational","span_start":3,"span_end":9,"block_id":null,"source_block_id":"r"},"#,
            r#"{"source":"/w/c.md","repo":"w","slot":null,"surface":"body","kind":"navigational","span_start":3,"span_end":9,"block_id":null,"source_block_id":"r"}]"#,
        ])
    );
    assert_eq!(compact_text(&backlinks_view(&repos, &links, "/v/z.md")), "[]");
}

fn concat_lines(parts: &[&str]) -> String {
    parts.join("")
}
