//! The semantic tokens of a file.

use au_engine::ast::{
    ByteRange, ClaimedName, FieldDef, FileParse, InlineValue, Instance, InstanceField, InstanceValue,
    MetaBlock, NavLink, SequenceElement, TypeClaim, TypeDef,
};
use au_engine::json::Json;
use au_engine::model::{BodyEvent, CatalogEntry, FencedBlock, FileKind, MarkdownBody};
use au_engine::mutation::links::WikilinkRef;
use au_engine::mutation::promote::RecordTarget;
use au_engine::tokens::{
    semantic_tokens_view, wikilink_kind, FileFacts, LinkFact, NamedShape, ParsedShape, ShapeForm,
    ShapePart, ShapeRole, SlotField, SlotShape, Token, TokenFacts, TokenKind, ValueType,
};

fn span(start: usize, end: usize) -> ByteRange {
    ByteRange { start, end }
}

fn link(target: &str, commit: Option<&str>) -> WikilinkRef {
    WikilinkRef {
        target: target.to_string(),
        repo: None,
        commit: commit.map(|c| c.to_string()),
        block_id: None,
        anchor: None,
        field: None,
    }
}

fn fact(raw: &str, target: &str, resolved: Option<&str>) -> LinkFact {
    LinkFact {
        raw: raw.to_string(),
        parsed: Some(link(target, None)),
        resolved: resolved.map(|r| r.to_string()),
    }
}

fn field(key: &str, value: InstanceValue, at: ByteRange, nav_links: Vec<NavLink>) -> InstanceField {
    InstanceField { key: key.to_string(), key_span: span(0, 0), value, value_span: at, nav_links }
}

fn claim(name: &str, repo: Option<&str>, at: ByteRange) -> ClaimedName {
    ClaimedName { name: name.to_string(), repo: repo.map(|r| r.to_string()), span: at }
}

fn shape(form: ShapeForm, served: &str) -> SlotShape {
    SlotShape { form, served: Json::Text(served.to_string()) }
}

fn slot(name: &str, s: Option<SlotShape>) -> SlotField {
    SlotField { name: name.to_string(), shape: s }
}

fn entry(parse: FileParse, body: Option<MarkdownBody>) -> CatalogEntry {
    CatalogEntry {
        path: "/v/a.md".to_string(),
        kind: FileKind::Instance,
        served: "instance",
        parse,
        field_refs: Vec::new(),
        hash: None,
        body,
    }
}

fn facts() -> FileFacts {
    FileFacts {
        links: TokenFacts { whole: Vec::new(), inner: Vec::new(), shapes: Vec::new() },
        shape: None,
        records: Vec::new(),
        declared: Vec::new(),
    }
}

fn show(t: &Token) -> String {
    let kind = match &t.kind {
        TokenKind::WikilinkResolved { resolved, .. } => format!("resolved {resolved}"),
        TokenKind::WikilinkBroken { target, .. } => format!("broken {target}"),
        TokenKind::WikilinkPinned { commit, .. } => format!("pinned {commit}"),
        TokenKind::FieldValue { field, value_type } => match value_type {
            ValueType::Declared(Json::Text(s)) => format!("value {field} as {s}"),
            ValueType::Declared(_) => format!("value {field}"),
            ValueType::Literal(s) => format!("value {field} like {s}"),
        },
        TokenKind::TypeClaim { name } => format!("claim {name}"),
        TokenKind::TypedBlock { field } => format!("block {field}"),
        TokenKind::BlockId { id } => format!("id {id}"),
        TokenKind::Anchor { text } => format!("anchor {text}"),
        TokenKind::FieldShape { field, declared } => format!("shape {field} {}", declared.is_some()),
        TokenKind::TypeRef { name } => format!("ref {name}"),
        TokenKind::ShapeBuiltin { name } => format!("builtin {name}"),
        TokenKind::EnumMember { value } => format!("member {value}"),
    };
    format!("{}..{} {kind}", t.range.start, t.range.end)
}

fn shown(e: &CatalogEntry, f: &FileFacts) -> Vec<String> {
    semantic_tokens_view(e, f).iter().map(show).collect()
}

#[test]
fn a_link_is_pinned_resolved_or_broken() {
    let show_kind = |w: &WikilinkRef, resolved: Option<&str>| {
        let kind = wikilink_kind("/v/a.md", w, &resolved.map(|r| r.to_string()));
        show(&Token { range: span(0, 1), kind })
    };
    assert_eq!(show_kind(&link("b", None), Some("/v/b.md")), "0..1 resolved /v/b.md");
    assert_eq!(show_kind(&link("b", None), None), "0..1 broken b");
    assert_eq!(show_kind(&link("b", Some("abc")), Some("/v/b.md")), "0..1 pinned abc");
    let mut local = link("", None);
    local.anchor = Some("head".to_string());
    assert_eq!(show_kind(&local, None), "0..1 resolved /v/a.md");
}

#[test]
fn a_value_is_coloured_by_its_shape_else_by_its_literal() {
    let inst = Instance {
        type_claim: TypeClaim::Bare(claim("note", Some("lib"), span(6, 15))),
        fields: vec![
            field("title", InstanceValue::Text("x".to_string()), span(20, 21), Vec::new()),
            field("n", InstanceValue::Integer(7), span(25, 26), Vec::new()),
            field("ok", InstanceValue::Boolean(true), span(30, 34), Vec::new()),
            field("none", InstanceValue::Null, span(40, 41), Vec::new()),
            field("rel", InstanceValue::Text("[[b]]".to_string()), span(45, 52), Vec::new()),
            field("f", InstanceValue::Float("1.5".to_string()), span(60, 63), Vec::new()),
        ],
    };
    let mut f = facts();
    f.links.whole = vec![fact("[[b]]", "b", None)];
    f.shape = Some(vec![slot("title", Some(shape(ShapeForm::Other, "String"))), slot("n", None)]);
    f.records = vec![RecordTarget { id: "r".to_string(), span: span(22, 24) }];
    let e = entry(FileParse::Instance(Some(inst)), None);
    assert_eq!(
        shown(&e, &f),
        vec![
            "6..15 claim note::lib",
            "20..21 value title as String",
            "22..24 id r",
            "25..26 value n like Number",
            "30..34 value ok like Boolean",
            "45..52 broken b",
            "60..63 value f like Number",
        ]
    );
}

#[test]
fn a_text_with_links_is_covered_without_gaps() {
    let nav = |raw: &str, start: usize, end: usize| NavLink { raw: raw.to_string(), span: span(start, end) };
    let inst = Instance {
        type_claim: TypeClaim::List(Vec::new()),
        fields: vec![field(
            "d",
            InstanceValue::Text("see [[b]] and [[c]]!".to_string()),
            span(10, 30),
            vec![nav("b", 14, 19), nav("c", 24, 29)],
        )],
    };
    let mut f = facts();
    f.links.inner = vec![fact("b", "b", Some("/v/b.md")), fact("c", "c", None)];
    let e = entry(FileParse::Instance(Some(inst)), None);
    assert_eq!(
        shown(&e, &f),
        vec![
            "10..14 value d like String",
            "14..19 resolved /v/b.md",
            "19..24 value d like String",
            "24..29 broken c",
            "29..30 value d like String",
        ]
    );
}

#[test]
fn a_list_is_read_by_the_shape_of_its_elements_and_a_record_by_its_type() {
    let inner = shape(ShapeForm::Record("person".to_string()), "person");
    let list = shape(ShapeForm::List(Box::new(inner)), "person[]");
    let record = InlineValue {
        type_claim: None,
        block_id: None,
        fields: vec![field("name", InstanceValue::Text("x".to_string()), span(40, 41), Vec::new())],
    };
    let claimed = InlineValue {
        type_claim: Some(TypeClaim::Bare(claim("pet", None, span(50, 53)))),
        block_id: None,
        fields: vec![field("name", InstanceValue::Text("y".to_string()), span(60, 61), Vec::new())],
    };
    let element = |value, at| SequenceElement { value, span: at, nav_links: Vec::new() };
    let inst = Instance {
        type_claim: TypeClaim::List(Vec::new()),
        fields: vec![field(
            "who",
            InstanceValue::Sequence(vec![
                element(InstanceValue::Mapping(record), span(38, 45)),
                element(InstanceValue::Mapping(claimed), span(48, 65)),
                element(InstanceValue::Integer(3), span(70, 71)),
            ]),
            span(30, 72),
            Vec::new(),
        )],
    };
    let mut f = facts();
    f.shape = Some(vec![slot("who", Some(list))]);
    f.links.shapes = vec![NamedShape {
        names: vec!["person".to_string()],
        fields: vec![slot("name", Some(shape(ShapeForm::Other, "String")))],
    }];
    let e = entry(FileParse::Instance(Some(inst)), None);
    assert_eq!(
        shown(&e, &f),
        vec![
            "40..41 value name as String",
            "50..53 claim pet",
            "60..61 value name like String",
            "70..71 value who as person",
        ]
    );
}

fn body() -> MarkdownBody {
    MarkdownBody {
        offset: 100,
        blank: false,
        events: vec![
            BodyEvent::FencedBlock {
                block: FencedBlock {
                    span: span(20, 60),
                    trailing_block_id: Some("f1".to_string()),
                    field: Some("who".to_string()),
                    docs: Vec::new(),
                    id_at: 58,
                    record: Some(InlineValue {
                        type_claim: None,
                        block_id: None,
                        fields: vec![field(
                            "name",
                            InstanceValue::Text("x".to_string()),
                            span(130, 131),
                            Vec::new(),
                        )],
                    }),
                },
            },
            BodyEvent::Heading { text: " Intro ".to_string(), level: 1, span: span(0, 7) },
            BodyEvent::Wikilink { raw: "b".to_string(), span: span(8, 13) },
            BodyEvent::Wikilink { raw: "??".to_string(), span: span(14, 16) },
            BodyEvent::BlockIdMarker { id: "m".to_string(), span: span(70, 72) },
        ],
    }
}

#[test]
fn a_typed_fence_is_a_container_in_an_instance_only() {
    let mut f = facts();
    f.links.inner = vec![fact("b", "b", Some("/v/b.md"))];
    let inst = Instance { type_claim: TypeClaim::List(Vec::new()), fields: Vec::new() };
    let typed = entry(FileParse::Instance(Some(inst)), Some(body()));
    assert_eq!(
        shown(&typed, &f),
        vec![
            "100..107 anchor  Intro ",
            "108..113 resolved /v/b.md",
            "120..160 block who",
            "130..131 value name like String",
            "157..160 id f1",
            "170..172 id m",
        ]
    );
    let note = entry(FileParse::Note(Vec::new()), Some(body()));
    assert_eq!(
        shown(&note, &f),
        vec!["100..107 anchor  Intro ", "108..113 resolved /v/b.md", "157..160 id f1", "170..172 id m"]
    );
}

#[test]
fn a_type_def_tells_the_parts_of_its_shapes() {
    let def = TypeDef {
        parents: vec![claim("base", Some("lib"), span(0, 9))],
        sealed: vec![claim("branch", Some("lib"), span(40, 51))],
        fields: vec![
            FieldDef {
                name: "rel".to_string(),
                raw_shape: "note*".to_string(),
                shape_span: span(20, 25),
            },
            FieldDef {
                name: "q".to_string(),
                raw_shape: "note*".to_string(),
                shape_span: span(60, 67),
            },
        ],
        meta_blocks: Some(vec![MetaBlock { claim: claim("doc", None, span(80, 83)), fields: Vec::new() }]),
        body: None,
    };
    let part = || ShapePart { range: span(0, 4), role: ShapeRole::TypeName, text: "note".to_string() };
    let mut f = facts();
    f.declared = vec![
        ParsedShape { served: Some(Json::Null), parts: vec![part()] },
        ParsedShape { served: None, parts: vec![part()] },
    ];
    let e = entry(FileParse::TypeDef(Some(def)), None);
    assert_eq!(
        shown(&e, &f),
        vec![
            "0..9 claim base::lib",
            "20..25 shape rel true",
            "20..24 ref note",
            "40..51 ref branch",
            "60..67 shape q false",
            "80..83 claim doc",
        ]
    );
}
