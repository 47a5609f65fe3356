//! Mutations: what they are refused for, what they gather, and how they are answered.

use au_engine::ast::{
    ByteRange, ClaimedName, FieldDef, FileParse, InlineValue, Instance, InstanceField, InstanceValue,
    NavLink, TypeClaim, TypeDef,
};
use au_engine::config_read::ConfigScope;
use au_engine::diagnostics::{Diagnostic, Severity};
use au_engine::encoding::quote_json;
use au_engine::json::{Json, Member};
use au_engine::model::{
    Backlink, BlockRef, CatalogEntry, DefSource, FileKind, Inbound, KnowledgeBase, MarkdownBody,
    RefSurface, Repo, RepoTypes,
};
use au_engine::mutation::assign::{
    assign_block_id, assign_extra, assign_is_done, block_ref, check_assign, AssignEdit, AssignPlan,
};
use au_engine::mutation::blocks::{host_block_ids, is_valid_block_id, wikilink_inner_at, BlockIdGather};
use au_engine::mutation::config::{
    config_edit_base, config_path, hash_extra, ignores_content, inject_type, produce_config_content,
    register, ConfigForm, ConfigText, RegisterOutcome,
};
use au_engine::mutation::edits::{
    check_foldable, folded_file_edits, inline_host_edits, inline_rewriting, promote_host_edits,
    promote_rewriting, rename_block_host_edits, rename_block_rewriting, rename_type_edits, rewrite_links,
    FoundLink, Rewriting,
};
use au_engine::mutation::handle::{answer_mutation, handle_mutation, Landed, Opened, Opening};
use au_engine::mutation::inline::{
    gather_inline, rename_colliding, HostSlot, InlineGather, InlineSpot, LinkProbe,
};
use au_engine::mutation::links::{
    fold_cross_link, fold_local_link, promote_link, rename_block_link, IdChange, WikilinkRef,
};
use au_engine::mutation::nested::{check_expected, gate_invalid, nested_record_reject, OnInvalid};
use au_engine::mutation::preview::{
    preview_mutation, resolve_attribution, PreviewMutationArgs, PreviewOp, PreviewStep,
};
use au_engine::mutation::promote::{
    gather_promote, promoted_file, reference_span, reference_text, PromoteGather, RecordTarget,
};
use au_engine::mutation::refactor::{check_referrer, check_unchanged, scope_refactor, Refactored};
use au_engine::mutation::referrers::Referrer;
use au_engine::mutation::rename_type::{scope_rename_type, FileEdits};
use au_engine::mutation::response::{last_live_extra, told};
use au_engine::mutation::riders::{
    fold_write_mixins, fold_write_stamps, mixin_outcomes_extra, stops_write, MixinStep,
};
use au_engine::mutation::script::{requires_git, summary, write_script, Verb, WriteRun, WriteStep};
use au_engine::records::RecordHit;
use au_engine::paths::{ancestors, parent, path_before, with_file_name};
use au_engine::resolve::{
    enclosing_git_root, handle_resolve, open_resolve, summarize_resolve, LockCommit, ResolveMemberSummary,
    ResolveOutcome, WrittenLock,
};
use au_engine::saga::commit::RepoCommit;
use au_engine::saga::plan::{CommitTrailer, Reject};

/// The text of a value, with the members of an object in their order.
fn compact_text(j: &Json) -> String {
    match j {
        Json::Null => "null".to_string(),
        Json::Bool(b) => b.to_string(),
        Json::Int(n) => n.to_string(),
        Json::Number(n) => n.clone(),
        Json::Text(t) => quote_json(t),
        Json::List(v) => {
            let items: Vec<String> = v.iter().map(compact_text).collect();
            format!("[{}]", items.join(","))
        }
        Json::Object(v) => {
            let members: Vec<String> = v
                .iter()
                .map(|m| format!("{}:{}", quote_json(&m.key), compact_text(&m.value)))
                .collect();
            format!("{{{}}}", members.join(","))
        }
    }
}

fn s(t: &str) -> Option<String> {
    Some(t.to_string())
}

fn span(start: usize, end: usize) -> ByteRange {
    ByteRange { start, end }
}

fn repo(name: &str, root: &str, editable: bool) -> Repo {
    Repo {
        name: name.to_string(),
        root: root.to_string(),
        own: editable,
        builtin: false,
        editable,
        role: if editable { "edit" } else { "dep" },
    }
}

fn claim(name: &str, at: ByteRange) -> ClaimedName {
    ClaimedName { name: name.to_string(), repo: None, span: at }
}

fn field(key: &str, value: InstanceValue, at: ByteRange, links: Vec<NavLink>) -> InstanceField {
    InstanceField { key: key.to_string(), key_span: span(0, 0), value, value_span: at, nav_links: links }
}

fn entry(path: &str, parse: FileParse) -> CatalogEntry {
    CatalogEntry {
        path: path.to_string(),
        kind: FileKind::Instance,
        served: "instance",
        parse,
        field_refs: Vec::new(),
        hash: Some(format!("hash of {path}")),
        body: None,
    }
}

fn instance(fields: Vec<InstanceField>) -> FileParse {
    FileParse::Instance(Some(Instance {
        type_claim: TypeClaim::Bare(claim("note", span(6, 10))),
        fields,
    }))
}

fn back(source: &str, at: ByteRange, block: Option<(&str, bool)>, slot: Option<&str>) -> Backlink {
    Backlink {
        source: source.to_string(),
        slot: slot.map(|x| x.to_string()),
        surface: RefSurface::Body,
        kind: "navigational",
        span: at,
        block_id: block.map(|(id, referent)| BlockRef { id: id.to_string(), referent }),
        source_block_id: None,
        line_col: None,
    }
}

/// A host with a record `r`, files that reference it, a type, and a dependency.
fn base() -> KnowledgeBase {
    let record = InlineValue {
        type_claim: None,
        block_id: s("r"),
        fields: vec![field("k", InstanceValue::Integer(1), span(45, 46), Vec::new())],
    };
    let host = entry(
        "/v/host.md",
        instance(vec![
            field("rec", InstanceValue::Mapping(record), span(40, 60), Vec::new()),
            field(
                "rel",
                InstanceValue::Text("[[leaf]]".to_string()),
                span(70, 80),
                vec![NavLink { raw: "leaf".to_string(), span: span(71, 79) }],
            ),
        ]),
    );
    let mut def = entry(
        "/v/type/note.type.yaml",
        FileParse::TypeDef(Some(TypeDef {
            parents: Vec::new(),
            sealed: Vec::new(),
            fields: vec![FieldDef {
                name: "rel".to_string(),
                raw_shape: "note*".to_string(),
                shape_span: span(15, 20),
            }],
            meta_blocks: None,
            body: None,
        })),
    );
    def.kind = FileKind::TypeDef;
    KnowledgeBase {
        repos: vec![repo("v", "/v", true), repo("lib", "/lib", false)],
        catalog: vec![
            entry("/lib/x.md", FileParse::Note(Vec::new())),
            host,
            entry("/v/leaf.md", instance(Vec::new())),
            entry("/v/other.md", FileParse::Note(Vec::new())),
            def,
        ],
        backlinks: vec![
            Inbound {
                target: "/v/host.md".to_string(),
                edges: vec![
                    back("/v/other.md", span(3, 12), Some(("r", true)), Some("slot")),
                    back("/lib/x.md", span(8, 17), None, None),
                    back("/v/other.md", span(30, 40), None, None),
                ],
            },
            Inbound {
                target: "/v/leaf.md".to_string(),
                edges: vec![
                    back("/v/host.md", span(71, 79), None, Some("rel")),
                    back("/v/other.md", span(50, 60), None, None),
                ],
            },
        ],
        types: vec![RepoTypes {
            repo: "v".to_string(),
            defs: vec![DefSource {
                name: "note".to_string(),
                source_path: "/v/type/note.type.yaml".to_string(),
            }],
        }],
    }
}

fn ok(path: &str) -> Result<String, Reject> {
    Ok(path.to_string())
}

fn open(m: Opening) -> Opened {
    handle_mutation(Some(&base()), m)
}

fn refusal(o: Opened) -> String {
    match o {
        Opened::Reply(j) => {
            let text = compact_text(&j);
            let head = r#"{"type":"error","schema_version":29,"error":""#;
            assert!(text.starts_with(head), "a refusal: {text}");
            text[head.len()..text.len() - 2].to_string()
        }
        _ => panic!("expected a refusal"),
    }
}

fn write(target: Result<String, Reject>, kind: Option<FileKind>, riders: bool) -> Opening {
    Opening::Write { target, kind, riders, attribution: Ok(Vec::new()) }
}

#[test]
fn nothing_is_mutated_before_the_base_is_ready() {
    match handle_mutation(None, write(ok("/v/a.md"), None, false)) {
        Opened::Reply(j) => assert_eq!(
            compact_text(&j),
            r#"{"type":"response","schema_version":29,"ready":false}"#
        ),
        _ => panic!("expected a reply"),
    }
}

#[test]
fn only_editable_members_are_written() {
    assert!(matches!(open(write(ok("/v/a.md"), None, true)), Opened::Write { target, .. } if target == "/v/a.md"));
    assert_eq!(
        refusal(open(write(ok("/lib/x.md"), None, false))),
        "member 'lib' is mounted as 'dep', not editable — list it in workspace.yaml 'edit:' to author it"
    );
    let escaped = Err(Reject { message: "path escapes".to_string(), detail: None });
    assert_eq!(refusal(open(write(escaped, None, false))), "path escapes");
}

#[test]
fn riders_do_not_ride_a_type_def() {
    let kind = Some(FileKind::TypeDef);
    assert!(refusal(open(write(ok("/v/type/n.type.yaml"), kind, true)))
        .starts_with("a stamp or ensure_mixin targets an instance's frontmatter"));
    assert!(matches!(open(write(ok("/v/type/n.type.yaml"), kind, false)), Opened::Write { .. }));
    let m = Opening::Write {
        target: ok("/v/a.md"),
        kind: None,
        riders: false,
        attribution: Err("reserved key".to_string()),
    };
    assert_eq!(refusal(open(m)), "reserved key");
}

#[test]
fn a_rename_gathers_every_referrer() {
    let rename = |from: &str, to: &str, kind| Opening::Rename {
        from: ok(from),
        to: ok(to),
        from_kind: kind,
        to_kind: None,
    };
    match open(rename("/v/host.md", "/v/sub/new.md", None)) {
        Opened::Rename { gather, .. } => {
            assert_eq!(gather.move_repo_root, "/v");
            assert_eq!((gather.old_rel.as_str(), gather.new_rel.as_str()), ("host.md", "sub/new.md"));
            let listed: Vec<(&str, usize)> =
                gather.referrers.iter().map(|r| (r.path.as_str(), r.spans.len())).collect();
            assert_eq!(listed, vec![("/lib/x.md", 1), ("/v/other.md", 2)]);
            assert_eq!(gather.referrers[1].hash.as_deref(), Some("hash of /v/other.md"));
        }
        _ => panic!("expected a rename"),
    }
    assert!(refusal(open(rename("/v/host.md", "/v/x.md", Some(FileKind::TypeDef))))
        .starts_with("rename does not move type-def files"));
    assert!(refusal(open(rename("/v/host.md", "/lib/x.md", None))).contains("not editable"));
}

#[test]
fn a_written_referrer_in_a_dependency_refuses_the_refactor() {
    let kb = base();
    let rs = || {
        vec![
            Referrer { path: "/lib/x.md".to_string(), spans: Vec::new(), hash: None },
            Referrer { path: "/v/other.md".to_string(), spans: Vec::new(), hash: None },
        ]
    };
    let about = || Refactored::Moved { from: "/v/host.md".to_string(), to: "/v/new.md".to_string() };
    let scope = scope_refactor(&kb.repos, about(), &rs(), &vec![Some(false), Some(true)]).unwrap();
    assert_eq!(scope.touched, vec!["/v/host.md", "/v/new.md", "/lib/x.md", "/v/other.md"]);
    assert_eq!(scope.exempt, vec!["/lib/x.md"]);
    let refused = scope_refactor(&kb.repos, about(), &rs(), &vec![None, Some(true)]).unwrap_err();
    assert!(compact_text(&refused.detail.unwrap()).contains("/lib/x.md"));
}

#[test]
fn a_type_is_renamed_with_its_mentions() {
    let rename = |old: &str, new: &str, stamps, valid| Opening::RenameType {
        stamps,
        old_name: old.to_string(),
        new_name: new.to_string(),
        valid,
    };
    match open(rename("note::v", "memo", 0, true)) {
        Opened::RenameType { gather } => {
            assert_eq!(gather.from, "/v/type/note.type.yaml");
            assert_eq!(gather.to, "/v/type/memo.type.yaml");
            let paths: Vec<&str> = gather.type_edits.iter().map(|e| e.path.as_str()).collect();
            assert_eq!(paths, vec!["/v/host.md", "/v/leaf.md", "/v/type/note.type.yaml"]);
            assert_eq!(gather.type_edits[2].edits[0].1, "memo*");
            let scope = scope_rename_type(&base().repos, &gather, &Vec::new()).unwrap();
            assert!(scope.touched.contains(&"/v/type/memo.type.yaml".to_string()));
            assert!(scope.exempt.is_empty());
        }
        _ => panic!("expected the renaming of a type"),
    }
    assert!(refusal(open(rename("note", "memo", 1, true))).starts_with("rename_type has no single target"));
    assert_eq!(refusal(open(rename("gone", "memo", 0, true))), "no type-def named 'gone' to rename");
    assert_eq!(
        refusal(open(rename("note::lib", "memo", 0, true))),
        "no type-def named 'note' owned by 'lib' to rename"
    );
    assert_eq!(refusal(open(rename("note", "a b", 0, false))), "'a b' is not a valid type name");
    assert_eq!(
        refusal(open(rename("note", "note", 0, true))),
        "type-def 'note' already exists — pick a free name"
    );
}

fn promote(to: &str, kind: Option<FileKind>, at: Option<usize>, block: Option<&str>) -> Opening {
    Opening::Promote {
        from: ok("/v/host.md"),
        to: ok(to),
        to_kind: kind,
        asked: to.to_string(),
        at,
        block_id: block.map(|b| b.to_string()),
    }
}

#[test]
fn a_record_is_promoted_with_its_referrers() {
    let hit = match open(promote("/v/new.md", None, Some(45), None)) {
        Opened::Promote { hit, .. } => hit,
        _ => panic!("expected a promotion"),
    };
    assert_eq!((hit.span, hit.existing.as_deref()), (span(40, 60), Some("r")));
    let targets = vec![RecordTarget { id: "r".to_string(), span: span(42, 58) }];
    let again = || RecordHit { span: span(40, 60), existing: s("r") };
    let g = gather_promote(&base(), "/v/host.md", "/v/new.md", again(), Some(true), &targets).unwrap();
    assert_eq!(g.new_stem, "new");
    assert_eq!(g.referrers.len(), 1);
    assert_eq!(g.referrers[0].spans, vec![span(3, 12)]);
    assert!(gather_promote(&base(), "/v/host.md", "/v/new.md", again(), Some(false), &targets)
        .unwrap_err()
        .starts_with("promote out of an inline-only slot"));
}

#[test]
fn a_promotion_says_which_record_and_which_file() {
    assert!(matches!(open(promote("/v/new.md", None, None, Some("r"))), Opened::Promote { .. }));
    assert_eq!(
        refusal(open(promote("/v/new.md", None, Some(1), Some("r")))),
        "pass exactly one of `at` or `block_id`, not both"
    );
    assert_eq!(
        refusal(open(promote("/v/new.md", None, None, None))),
        "pass exactly one of `at` (a byte offset) or `block_id`"
    );
    assert!(refusal(open(promote("/v/new.txt", None, Some(45), None)))
        .starts_with("promote target must be a .md, .markdown, .yaml, or .yml file, got "));
    assert!(refusal(open(promote("/v/n.type.yaml", Some(FileKind::TypeDef), Some(45), None)))
        .starts_with("promote creates an instance file"));
    assert_eq!(
        refusal(open(promote("/v/new.md", None, None, Some("zz")))),
        "no inline record carries the block-id `zz`"
    );
    assert!(refusal(open(promote("/v/new.md", None, Some(99), None)))
        .starts_with("no inline record encloses the offset"));
}

#[test]
fn the_host_keeps_the_line_end_behind_the_record() {
    let bytes = b"rec:\n  k: 1\r\n\nnext";
    assert_eq!(reference_span(bytes, span(4, 14)), span(4, 11));
    assert_eq!(reference_text("new"), "\"[[new]]\"");
    assert_eq!(promoted_file("k: 1\n".to_string(), "/v/new.md"), "---\nk: 1\n---\n");
    assert_eq!(promoted_file("k: 1\n".to_string(), "/v/new.yaml"), "k: 1\n");
}

fn link(target: &str, block: Option<(&str, bool)>) -> WikilinkRef {
    WikilinkRef {
        target: target.to_string(),
        repo: s("lib"),
        commit: None,
        block_id: block.map(|(id, referent)| BlockRef { id: id.to_string(), referent }),
        anchor: s("head"),
        field: s("f"),
    }
}

#[test]
fn links_follow_what_moved() {
    let p = promote_link(&link("host", Some(("r", true))), "new", &s("r"));
    assert_eq!((p.target.as_str(), p.block_id.is_none(), p.anchor.is_none()), ("new", true, true));
    assert_eq!((p.repo.as_deref(), p.field.as_deref()), (Some("lib"), Some("f")));
    let nested = promote_link(&link("host", Some(("inner", true))), "new", &s("r"));
    assert_eq!(nested.block_id.unwrap().id, "inner");
    let changes = vec![IdChange { from: "x".to_string(), to: "x2".to_string() }];
    let local = fold_local_link(&link("leaf", Some(("x", false))), &changes, "fresh");
    assert_eq!((local.target.as_str(), local.block_id.unwrap().id.as_str()), ("", "x2"));
    let whole = fold_cross_link(&link("leaf", None), "host", &changes, "fresh");
    assert_eq!((whole.target.as_str(), whole.block_id.unwrap().id.as_str()), ("host", "fresh"));
    let renamed = rename_block_link(&link("host", Some(("r", true))), "q");
    let block = renamed.block_id.unwrap();
    assert_eq!((block.id.as_str(), block.referent), ("q", true));
}

#[test]
fn a_file_is_folded_in_where_its_host_references_it() {
    let inline = |file: &str, into: &str, at| Opening::Inline { file: ok(file), into: ok(into), at };
    let spot = match open(inline("/v/leaf.md", "/v/host.md", None)) {
        Opened::Inline { spot, .. } => spot,
        other => panic!("expected a fold: {}", refusal(other)),
    };
    assert_eq!((spot.chosen, spot.value_span), (span(71, 79), span(70, 80)));
    assert!(refusal(open(inline("/v/leaf.md", "/v/leaf.md", None))).starts_with("inline needs a file"));
    assert_eq!(
        refusal(open(inline("/v/leaf.md", "/v/host.md", Some(5)))),
        "`at` does not land on a reference to `path`"
    );
    let slot = || Some(HostSlot { shape: "note&".to_string(), inline_or_reference: true });
    let again = || InlineSpot { chosen: span(71, 79), value_span: span(70, 80) };
    let kb = base();
    let ids = |id: &str| vec![RecordTarget { id: id.to_string(), span: span(1, 3) }];
    let g = gather_inline(&kb, "/v/leaf.md", "/v/host.md", again(), &slot(), &ids("r"), &ids("r"), &Vec::new())
        .unwrap();
    assert_eq!(g.cross.len(), 1);
    assert_eq!(g.cross[0].path, "/v/other.md");
    assert_eq!(g.colliding.len(), 1);
    assert_eq!(g.into_stem, "host");
    let probe = vec![LinkProbe {
        source: "/v/other.md".to_string(),
        span: span(50, 60),
        file_slot: true,
        anchored: false,
    }];
    let refused =
        gather_inline(&kb, "/v/leaf.md", "/v/host.md", again(), &slot(), &ids("r"), &ids("q"), &probe)
            .unwrap_err();
    assert!(refused.detail.is_some());
    let (changes, edits) = rename_colliding(&ids("r"), &vec!["r9".to_string()]);
    assert_eq!((changes[0].from.as_str(), changes[0].to.as_str()), ("r", "r9"));
    assert_eq!(edits[0].0, span(1, 3));
}

#[test]
fn an_id_is_renamed_with_the_links_to_it() {
    let targets = || vec![RecordTarget { id: "r".to_string(), span: span(42, 43) }];
    let rename = |from: &str, to: &str| Opening::RenameBlockId {
        host: ok("/v/host.md"),
        targets: targets(),
        block_id: from.to_string(),
        to_block_id: to.to_string(),
    };
    match open(rename("r", "q")) {
        Opened::RenameBlockId { gather, .. } => {
            assert_eq!(gather.decl_span, span(42, 43));
            assert_eq!(gather.referrers.len(), 1);
            assert_eq!(gather.referrers[0].spans, vec![span(3, 12)]);
        }
        _ => panic!("expected the renaming of an id"),
    }
    assert!(refusal(open(rename("r", "r"))).contains("are the same"));
    assert_eq!(
        refusal(open(rename("r", "a b"))),
        r#"`to_block_id` \"a b\" is not a valid block-id — ids are [A-Za-z0-9_-]+"#
    );
    assert!(refusal(open(rename("zz", "q"))).starts_with("no inline record carries block-id `zz`"));
    assert!(is_valid_block_id("a-B_9"));
    assert!(!is_valid_block_id(""));
    assert!(!is_valid_block_id("a^"));
    assert_eq!(host_block_ids(&targets(), &None), vec!["r"]);
}

#[test]
fn a_link_is_read_back_from_its_place() {
    let kb = base();
    assert_eq!(wikilink_inner_at(&kb.catalog[1], span(71, 79)).as_deref(), Some("leaf"));
    assert_eq!(wikilink_inner_at(&kb.catalog[1], span(0, 4)), None);
}

#[test]
fn an_entity_gets_an_id_once() {
    let assign = |path: &str, at, marker: Option<&str>| Opening::AssignBlockId {
        target: ok(path),
        at,
        marker: marker.map(|m| m.to_string()),
    };
    match open(assign("/v/host.md", 45, None)) {
        Opened::AssignBlockId { plan: AssignPlan::Existing(id), .. } => assert_eq!(id, "r"),
        _ => panic!("expected the id that is there"),
    }
    assert_eq!(
        refusal(open(assign("/v/host.md", 5, None))),
        "no addressable entity encloses the offset — pass an offset inside an inline record or a markdown block"
    );
    let mut kb = base();
    kb.catalog[3].body = Some(MarkdownBody { offset: 0, blank: false, events: Vec::new() });
    let plan = |marker| match handle_mutation(Some(&kb), assign("/v/other.md", 9, marker)) {
        Opened::AssignBlockId { plan, .. } => plan,
        _ => panic!("expected a plan"),
    };
    assert!(matches!(plan(None), AssignPlan::MarkdownMarker));
    assert!(matches!(plan(Some("m")), AssignPlan::Existing(id) if id == "m"));
    assert!(assign_is_done(&AssignPlan::Existing("r".to_string()), 0));
    assert!(!assign_is_done(&AssignPlan::Existing("r".to_string()), 1));
    assert!(!assign_is_done(&AssignPlan::MarkdownMarker, 0));
    assert!(check_assign("/v/a.md", &s("h"), &Ok("h".to_string())).is_ok());
    assert!(check_assign("/v/a.md", &s("h"), &Ok("x".to_string())).is_err());
    assert_eq!(block_ref(true, "/v/sub/a.md", "/v", "r"), "[[a^r]]");
    assert_eq!(assign_extra("r", "[[a^r]]").len(), 2);
}

#[test]
fn patterns_and_configuration_are_written_to_editable_members() {
    let ignores = |root: &str, bad: Option<&str>| Opening::SetIgnores {
        served_root: "/v".to_string(),
        root: root.to_string(),
        malformed: bad.map(|b| b.to_string()),
    };
    assert!(matches!(
        open(ignores("/v", None)),
        Opened::SetIgnores { path } if path == "/v/.arsumbris/.auignore"
    ));
    assert_eq!(
        refusal(open(ignores("/v/sub", None))),
        "root must name a declared member root (the `ignores` read surfaces it): /v/sub"
    );
    assert!(refusal(open(ignores("/lib", None))).contains("not editable"));
    assert_eq!(
        refusal(open(ignores("/v", Some("bad glob")))),
        "malformed .auignore pattern, nothing written: bad glob"
    );
    assert_eq!(ignores_content(&vec!["a".to_string(), "b".to_string()]).as_deref(), Some("a\nb\n"));
    assert_eq!(ignores_content(&Vec::new()), None);
    let config = |content, edit, scope, root: Option<&str>, base: Option<&str>| Opening::SetConfig {
        refused: None,
        has_content: content,
        has_edit: edit,
        scope,
        entry: Some(0),
        served_root: "/v".to_string(),
        root: root.map(|r| r.to_string()),
        base: base.map(|b| b.to_string()),
    };
    assert!(matches!(
        open(config(true, false, ConfigScope::Repo, None, None)),
        Opened::SetConfig { form: ConfigForm::Content, dir } if dir == "/v/.arsumbris"
    ));
    assert_eq!(
        refusal(open(config(true, true, ConfigScope::Repo, None, None))),
        "set_config takes `content` OR `edit`, not both"
    );
    assert_eq!(
        refusal(open(config(false, false, ConfigScope::Repo, None, None))),
        "set_config needs `content` or `edit`"
    );
    assert_eq!(
        refusal(open(config(false, true, ConfigScope::Machine, None, None))),
        "no device root (set $HOME) to write machine-scope config into"
    );
    assert_eq!(
        refusal(open(config(false, true, ConfigScope::Repo, Some("gone"), None))),
        "repo scope needs a declared member root; `gone` names none"
    );
    assert_eq!(inject_type("a: 1\n", false, "t"), "type: t\na: 1\n");
    assert_eq!(inject_type("type: x\n", true, "t"), "type: x\n");
    assert!(config_edit_base(&None, false, "t").is_err());
}

#[test]
fn a_registration_is_told_or_refused() {
    assert_eq!(
        compact_text(&register(RegisterOutcome::Written, "lib", "/v", "../lib", Some(3))),
        r#"{"type":"registered","schema_version":29,"name":"lib","path":"/v/../lib","version":3}"#
    );
    assert!(compact_text(&register(RegisterOutcome::Conflict("taken".to_string()), "lib", "/v", "x", None))
        .contains("taken"));
    assert!(compact_text(&register(RegisterOutcome::WriteFailed("disk".to_string()), "lib", "/v", "x", None))
        .contains("register write failed: disk"));
    assert!(compact_text(&register(RegisterOutcome::NoDevice, "lib", "/v", "x", None))
        .contains("no device root (set $HOME) to register into"));
}

#[test]
fn stamps_and_mixins_are_folded_in_order() {
    let refuse = || Reject { message: "no".to_string(), detail: None };
    assert_eq!(
        fold_write_stamps("h0".to_string(), vec![Ok(s("h1")), Ok(None)]).unwrap(),
        "h1"
    );
    assert!(fold_write_stamps("h0".to_string(), vec![Ok(s("h1")), Err(refuse())]).is_err());
    let names: Vec<String> = ["a", "b", "c"].iter().map(|n| n.to_string()).collect();
    let steps = || {
        vec![
            MixinStep::Applied("h2".to_string()),
            MixinStep::NoOp,
            MixinStep::UnAppliable("sealed".to_string()),
        ]
    };
    let (hash, outcomes) = fold_write_mixins("h1".to_string(), &names, false, steps()).unwrap();
    assert_eq!(hash, "h2");
    let kinds: Vec<&str> = outcomes.iter().map(|o| o.outcome).collect();
    assert_eq!(kinds.len(), 3);
    assert_eq!(outcomes[2].reason.as_deref(), Some("sealed"));
    assert_eq!(mixin_outcomes_extra(&outcomes).len(), 1);
    assert!(mixin_outcomes_extra(&Vec::new()).is_empty());
    assert!(fold_write_mixins("h1".to_string(), &names, true, steps()).is_err());
}

#[test]
fn referrers_are_rewritten_before_the_file_moves() {
    let rs = vec![
        Referrer { path: "/v/a.md".to_string(), spans: Vec::new(), hash: None },
        Referrer { path: "/v/host.md".to_string(), spans: Vec::new(), hash: None },
    ];
    assert_eq!(
        write_script(Verb::Rename, &rs, &None, 1, 1),
        vec![
            WriteStep::RewriteReferrer(0),
            WriteStep::RewriteReferrer(1),
            WriteStep::MoveFile,
            WriteStep::Stamp(0),
            WriteStep::Mixin(0),
        ]
    );
    assert_eq!(
        write_script(Verb::Promote, &rs, &s("/v/host.md"), 0, 0),
        vec![
            WriteStep::RequireAbsent,
            WriteStep::ReadHost,
            WriteStep::RewriteReferrer(0),
            WriteStep::CreateFile,
            WriteStep::WriteHost,
        ]
    );
    let mut run = WriteRun::start(write_script(Verb::DeleteFile, &Vec::new(), &None, 0, 0));
    assert_eq!(run.next(), Some(WriteStep::RemoveFile));
    run.advance(Some(Reject { message: "gone".to_string(), detail: None }));
    assert_eq!(run.next(), None);
    assert!(run.reject.is_some());
    assert_eq!(summary(Verb::Rename, "a", "b", ""), "rename a -> b");
    assert_eq!(summary(Verb::SetConfig, "app", "f.yaml", ""), "set_config app/f.yaml");
    assert!(requires_git(Verb::Inline));
    assert!(!requires_git(Verb::WriteFile));
}

#[test]
fn a_referrer_that_changed_on_disk_stops_the_refactor() {
    assert!(check_referrer("/v/a.md", &s("h"), &Ok("h".to_string())).is_ok());
    assert!(check_referrer("/v/a.md", &s("h"), &Ok("x".to_string())).is_err());
    assert!(check_referrer("/v/a.md", &s("h"), &Err("gone".to_string())).is_err());
}

#[test]
fn a_host_that_changed_on_disk_stops_the_refactor() {
    assert!(check_unchanged("/v/a.md", "host", &s("h"), &Ok("h".to_string())).is_ok());
    let changed = check_unchanged("/v/a.md", "host", &s("h"), &Ok("x".to_string())).unwrap_err();
    assert_eq!(
        changed.message,
        "the host changed since the engine last read it — wait for the rebuild and retry"
    );
    let gone = check_unchanged("/v/a.md", "host", &s("h"), &Err("gone".to_string())).unwrap_err();
    assert_eq!(gone.message, "cannot read /v/a.md: gone");
}

#[test]
fn a_refactor_touches_its_own_files_and_its_referrers() {
    let kb = base();
    let rs = || {
        vec![
            Referrer { path: "/v/host.md".to_string(), spans: Vec::new(), hash: None },
            Referrer { path: "/v/other.md".to_string(), spans: Vec::new(), hash: None },
        ]
    };
    let all = vec![Some(true), Some(true)];
    let folded = Refactored::Folded { file: "/v/note.md".to_string(), into: "/v/host.md".to_string() };
    let scope = scope_refactor(&kb.repos, folded, &rs(), &all).unwrap();
    assert_eq!(scope.touched, vec!["/v/host.md", "/v/note.md", "/v/other.md"]);
    let in_place = Refactored::InPlace { host: "/v/host.md".to_string() };
    let scope = scope_refactor(&kb.repos, in_place, &rs(), &all).unwrap();
    assert_eq!(scope.touched, vec!["/v/host.md", "/v/other.md"]);
    assert!(scope.exempt.is_empty());
}

#[test]
fn an_id_is_inserted_only_into_the_file_that_was_read() {
    let path = "/v/a.md";
    let read = || Ok("h".to_string());
    let assign = |plan: AssignPlan| assign_block_id(path, &s("h"), &read(), &plan, 9, "new1").unwrap();
    assert_eq!(assign(AssignPlan::Existing("old1".to_string())), ("old1".to_string(), AssignEdit::Keep));
    assert_eq!(assign(AssignPlan::InsertRecord(4)), ("new1".to_string(), AssignEdit::Record(4)));
    assert_eq!(assign(AssignPlan::MarkdownMarker), ("new1".to_string(), AssignEdit::Marker(9)));
    let stale = assign_block_id(path, &s("x"), &read(), &AssignPlan::MarkdownMarker, 9, "new1");
    assert!(stale.unwrap_err().message.ends_with("retry with a fresh offset"));
}

#[test]
fn a_consumer_file_says_its_type() {
    assert_eq!(config_path("/v/.arsumbris", "viewer", "ui.yaml"), "/v/.arsumbris/viewer/config/ui.yaml");
    match produce_config_content(ConfigForm::Content, "a: 1\n", &None, false, "ui").unwrap() {
        ConfigText::Whole(text) => assert_eq!(text, "type: ui\na: 1\n"),
        ConfigText::Base(_) => panic!("expected a whole content"),
    }
    match produce_config_content(ConfigForm::Edit, "", &s("type: ui\n"), true, "ui").unwrap() {
        ConfigText::Base(text) => assert_eq!(text, "type: ui\n"),
        ConfigText::Whole(_) => panic!("expected a base to change"),
    }
    let absent = produce_config_content(ConfigForm::Edit, "", &None, false, "ui").unwrap_err();
    assert!(absent.message.starts_with("cannot `edit` an absent config file"));
}

fn diagnostic(file: &str, code: &str) -> Diagnostic {
    Diagnostic {
        file: file.to_string(),
        severity: Severity::Error,
        code: code.to_string(),
        served: Json::Text(code.to_string()),
    }
}

#[test]
fn a_nested_change_is_gated_on_new_errors() {
    assert!(check_expected(&None, "h").is_ok());
    assert!(check_expected(&s("h"), "h").is_ok());
    let stale = check_expected(&s("old"), "now").unwrap_err();
    assert_eq!(compact_text(&stale.detail.unwrap()), r#"{"current_hash":"now"}"#);
    let before = vec![diagnostic("/v/a", "x")];
    let after = vec![diagnostic("/v/a", "x"), diagnostic("/v/a", "y")];
    assert!(gate_invalid(OnInvalid::Reject, &before, &after).is_err());
    assert!(gate_invalid(OnInvalid::Advise, &before, &after).is_ok());
    assert!(gate_invalid(OnInvalid::Reject, &after, &after).is_ok());
    let refused = |expected: Option<String>, stance| {
        nested_record_reject(&expected, "now", stance, &before, &after)
    };
    assert!(refused(s("old"), OnInvalid::Advise).unwrap().message.starts_with("expected_hash mismatch"));
    assert!(refused(s("now"), OnInvalid::Reject).unwrap().detail.is_none());
    assert!(refused(s("now"), OnInvalid::Advise).is_none());
}

#[test]
fn an_answer_tells_whether_it_reflects_the_write() {
    let kb = base();
    let all = vec![diagnostic("/v/leaf.md", "x"), diagnostic("/v/host.md", "y")];
    let landed = |written: Option<&str>, extra| Landed {
        written: written.map(|w| w.to_string()),
        commits: vec![RepoCommit { repo: "v".to_string(), sha: "abc".to_string() }],
        extra,
    };
    let answer = |outcome| {
        compact_text(&answer_mutation(
            outcome,
            Some((7, &kb, &all)),
            &"/v/leaf.md".to_string(),
            &s("head"),
        ))
    };
    assert_eq!(
        answer(Ok(landed(Some("hash of /v/leaf.md"), Vec::new()))),
        r#"{"type":"response","schema_version":29,"ready":true,"version":7,"result":{"path":"/v/leaf.md","hash":"hash of /v/leaf.md","diagnostics":["x"],"reflected":true,"commit":"abc","commits":{"v":"abc"}}}"#
    );
    assert!(answer(Ok(landed(Some("newer"), Vec::new()))).contains(r#""reflected":false"#));
    let hashed = answer(Ok(landed(None, hash_extra("written"))));
    assert!(hashed.contains(r#""reflected":true"#));
    assert_eq!(hashed.matches(r#""hash":"#).count(), 1);
    assert!(hashed.contains(r#""hash":"written""#));
    let refused = Reject { message: "no".to_string(), detail: Some(Json::Int(1)) };
    assert_eq!(answer(Err(refused)), r#"{"type":"error","schema_version":29,"error":"no","detail":1}"#);
    let commits = vec![RepoCommit { repo: "v".to_string(), sha: "abc".to_string() }];
    assert_eq!(last_live_extra(&commits, &s("old")).len(), 1);
    assert!(last_live_extra(&Vec::new(), &s("old")).is_empty());
}

#[test]
fn a_preview_reports_what_the_mutation_would_be_refused_for() {
    let kb = base();
    let write = PreviewMutationArgs::WriteFile {
        path: "a.md".to_string(),
        content: "x".to_string(),
        stamps: Vec::new(),
    };
    let (path, op, stamps) = write.into_parts();
    assert_eq!(path, "a.md");
    assert!(matches!(&op, PreviewOp::Write { content } if content == "x"));
    assert!(stamps.is_empty());
    assert!(matches!(
        preview_mutation(true, &kb.repos, ok("/v/a.md"), op, stamps),
        PreviewStep::Simulate { target, .. } if target == "/v/a.md"
    ));
    assert!(matches!(
        preview_mutation(true, &kb.repos, ok("/lib/a.md"), PreviewOp::Delete, Vec::new()),
        PreviewStep::Refused(r) if r.message.contains("not editable")
    ));
    assert!(matches!(
        preview_mutation(false, &kb.repos, ok("/v/a.md"), PreviewOp::Delete, Vec::new()),
        PreviewStep::Reply(r) if !r.ready
    ));
    let trailer = CommitTrailer { key: "By".to_string(), value: "me".to_string() };
    assert_eq!(resolve_attribution(Ok(vec![trailer])).unwrap().len(), 1);
    assert!(resolve_attribution(Err("bad".to_string())).is_err());
}

#[test]
fn a_resolve_waits_for_the_base_before_it_looks_for_a_place() {
    assert!(matches!(open_resolve(None, &None), Some(ResolveOutcome::NotReady)));
    assert!(matches!(open_resolve(None, &s("/c")), Some(ResolveOutcome::NotReady)));
    assert!(matches!(open_resolve(Some(1), &None), Some(ResolveOutcome::NoCacheRoot)));
    assert!(open_resolve(Some(1), &s("/c")).is_none());
}

#[test]
fn only_a_strict_write_stops_at_a_mixin_that_does_not_apply() {
    let no = || MixinStep::UnAppliable("no".to_string());
    assert!(stops_write(&no(), true));
    assert!(!stops_write(&no(), false));
    assert!(!stops_write(&MixinStep::NoOp, true));
    let failed = MixinStep::Failed(Reject { message: "x".to_string(), detail: None });
    assert!(stops_write(&failed, false));
}

#[test]
fn a_resolve_tells_every_dependency() {
    let summary = summarize_resolve(
        vec![
            ResolveMemberSummary {
                name: "lib".to_string(),
                outcome: Ok("fetched".to_string()),
                remote: s("git@x"),
                path: s("/cache/lib"),
            },
            ResolveMemberSummary {
                name: "bad".to_string(),
                outcome: Err("offline".to_string()),
                remote: None,
                path: None,
            },
        ],
        &vec![
            WrittenLock { repo: "v".to_string(), commit: LockCommit::Committed("abc".to_string()) },
            WrittenLock { repo: "w".to_string(), commit: LockCommit::Failed("dirty".to_string()) },
            WrittenLock { repo: "u".to_string(), commit: LockCommit::Unchanged },
        ],
        Vec::new(),
    );
    let text = compact_text(&handle_resolve(&ResolveOutcome::Done(summary), "dependency-conflict", Some(2)));
    for part in ["lib", "fetched", "bad", "offline", "abc", "dirty"] {
        assert!(text.contains(part), "{part} in {text}");
    }
    assert!(compact_text(&handle_resolve(&ResolveOutcome::NoCacheRoot, "c", None))
        .contains("no package cache root; the home directory is unknown"));
    assert!(compact_text(&handle_resolve(&ResolveOutcome::Failed("x".to_string()), "c", None))
        .contains("resolve failed: x"));
    let dirs = ancestors("/a/b/c.md");
    let trees: Vec<bool> = dirs.iter().map(|d| d == "/a").collect();
    assert_eq!(enclosing_git_root(&dirs, &trees).as_deref(), Some("/a"));
}

#[test]
fn a_member_of_an_answer_has_one_name() {
    let extra = vec![
        Member { key: "id".to_string(), value: Json::Int(1) },
        Member { key: "id".to_string(), value: Json::Int(2) },
    ];
    let kb = base();
    let landed = Landed { written: None, commits: Vec::new(), extra };
    let text = compact_text(&answer_mutation(
        Ok(landed),
        Some((1, &kb, &Vec::new())),
        &"/v/leaf.md".to_string(),
        &None,
    ));
    assert_eq!(text.matches(r#""id":"#).count(), 1);
    assert!(text.contains(r#""id":2"#));
}

#[test]
fn a_path_is_read_by_its_components() {
    assert_eq!(parent("/a/b/").as_deref(), Some("/a"));
    assert_eq!(parent("docs/").as_deref(), Some(""));
    assert_eq!(parent("/a").as_deref(), Some("/"));
    assert_eq!(parent("/"), None);
    assert_eq!(with_file_name("/a/b.md/", "c.md"), "/a/c.md");
    assert_eq!(with_file_name("b.md", "c.md"), "c.md");
    assert!(path_before("..", "-a"));
    assert!(!path_before("-a", ".."));
    assert!(path_before("", "/a"));
    assert!(path_before("/a", "a"));
    assert!(path_before("a/b", "a-b"));
}

fn found(at: usize, link: WikilinkRef) -> FoundLink {
    FoundLink { span: span(at, at + 2), link }
}

#[test]
fn the_host_of_a_promotion_gets_the_reference_first() {
    let g = PromoteGather {
        record_span: span(4, 9),
        promoted_id: s("x1"),
        host_hash: None,
        new_stem: "new".to_string(),
        referrers: Vec::new(),
        inner_self_pointers: Vec::new(),
    };
    let edits = promote_host_edits(&g, b"abcdrec\r\nrest", vec![(span(10, 12), "own".to_string())]);
    assert_eq!((edits[0].0.start, edits[0].0.end, edits[0].1.as_str()), (4, 7, "\"[[new]]\""));
    assert_eq!(edits[1].1, "own");
    let links = vec![
        found(1, link("host", Some(("x1", false)))),
        found(5, WikilinkRef { commit: s("abc"), ..link("host", Some(("x1", false))) }),
        found(9, link("host", Some(("x2", true)))),
    ];
    let now = rewrite_links(&links, &promote_rewriting(&g));
    assert_eq!(now.len(), 2, "a pinned link stays");
    assert_eq!((now[0].span.start, now[0].link.target.as_str()), (1, "new"));
    assert!(now[0].link.block_id.is_none());
    assert_eq!(now[1].link.block_id.as_ref().map(|b| b.id.as_str()), Some("x2"));
}

#[test]
fn a_folded_file_is_named_by_its_host_from_outside_only() {
    let g = InlineGather {
        value_span: span(0, 4),
        into_other: Vec::new(),
        cross: Vec::new(),
        into_hash: None,
        file_hash: None,
        into_stem: "host".to_string(),
        namespace: Vec::new(),
        colliding: Vec::new(),
        file_self: Vec::new(),
    };
    let links = || vec![found(1, link("file", None))];
    let within = rewrite_links(&links(), &inline_rewriting(&g, true, Vec::new(), "id1".to_string()));
    assert_eq!(within[0].link.target, "");
    let cross = rewrite_links(&links(), &inline_rewriting(&g, false, Vec::new(), "id1".to_string()));
    assert_eq!(cross[0].link.target, "host");
    assert!(matches!(&cross[0].link.block_id, Some(b) if b.id == "id1" && b.referent));
    let edits = inline_host_edits((span(0, 4), "fold".to_string()), vec![(span(6, 8), "l".to_string())]);
    assert_eq!(edits.iter().map(|e| e.1.as_str()).collect::<Vec<_>>(), ["fold", "l"]);
    let edits = folded_file_edits(vec![(span(0, 1), "n".to_string())], vec![(span(2, 3), "o".to_string())]);
    assert_eq!(edits.iter().map(|e| e.1.as_str()).collect::<Vec<_>>(), ["n", "o"]);
    assert!(check_foldable(false).is_ok());
    assert_eq!(
        check_foldable(true).unwrap_err().message,
        "the file to inline has a non-empty body — a record has no body"
    );
}

#[test]
fn a_block_and_its_links_get_the_new_id() {
    let g = BlockIdGather { decl_span: span(3, 5), host_hash: None, referrers: Vec::new() };
    let edits = rename_block_host_edits(&g, "new1", vec![(span(8, 9), "l".to_string())]);
    assert_eq!((edits[0].0.start, edits[0].1.as_str()), (3, "new1"));
    assert_eq!(edits.len(), 2);
    let how = rename_block_rewriting("new1");
    assert!(matches!(&how, Rewriting::RenamedBlock { id } if id == "new1"));
    let now = rewrite_links(&vec![found(0, link("host", Some(("old1", true))))], &how);
    assert!(matches!(&now[0].link.block_id, Some(b) if b.id == "new1" && b.referent));
    assert_eq!(now[0].link.target, "host");
}

#[test]
fn mentions_are_edited_before_links() {
    let files = vec![FileEdits {
        path: "/v/a.md".to_string(),
        edits: vec![(span(0, 3), "memo".to_string())],
        hash: None,
    }];
    let links = || vec![(span(5, 9), "[[memo]]".to_string())];
    let both = rename_type_edits(&files, "/v/a.md", links());
    assert_eq!(both.iter().map(|e| e.1.as_str()).collect::<Vec<_>>(), ["memo", "[[memo]]"]);
    assert_eq!(rename_type_edits(&files, "/v/b.md", links()).len(), 1);
}

#[test]
fn each_verb_tells_what_it_left() {
    let m = |key: &str| vec![Member { key: key.to_string(), value: Json::Null }];
    let tell = |verb, written| told(verb, written, m("riders"), m("last"), m("assigned"));
    let keys = |r: (Option<String>, Vec<Member>)| {
        (r.0, r.1.into_iter().map(|m| m.key).collect::<Vec<_>>())
    };
    assert_eq!(keys(tell(Verb::WriteFile, s("h"))), (s("h"), vec!["riders".to_string()]));
    assert_eq!(keys(tell(Verb::DeleteFile, s("h"))), (None, vec!["last".to_string()]));
    assert_eq!(keys(tell(Verb::AssignBlockId, s("h"))), (s("h"), vec!["assigned".to_string()]));
    assert_eq!(keys(tell(Verb::SetIgnores, s("h"))), (None, Vec::new()));
    assert_eq!(keys(tell(Verb::SetConfig, s("h"))), (None, vec!["hash".to_string()]));
}
