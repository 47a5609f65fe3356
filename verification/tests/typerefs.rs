//! Mentions of types: which tokens they are, and how they are renamed.

use au_engine::ast::{
    ByteRange, ClaimedName, FieldDef, FileParse, Instance, MetaBlock, TypeClaim, TypeDef,
};
use au_engine::typerefs::{references_type, rewrite_shape_tokens, type_ref_edits};

/// Rewrites the tokens of a shape whose file and def are in one repo, and gives the
/// shape back unchanged when nothing matches.
fn rw(raw: &str, old: &str, new: &str) -> String {
    rewrite_shape_tokens(raw, old, new, "r", "r").unwrap_or_else(|| raw.to_string())
}

#[test]
fn replaces_whole_tokens_across_shape_operators() {
    assert_eq!(rw("foo*", "foo", "bar"), "bar*");
    assert_eq!(rw("foo&", "foo", "bar"), "bar&");
    assert_eq!(rw("foo*[]", "foo", "bar"), "bar*[]");
    assert_eq!(rw("type<foo>*", "foo", "bar"), "type<bar>*");
    assert_eq!(rw("<foo | other>", "foo", "bar"), "<bar | other>");
    assert_eq!(rw("<a | foo>[+]", "foo", "bar"), "<a | bar>[+]");
    assert_eq!(rw("foo*@", "foo", "bar"), "bar*@");
}

#[test]
fn never_matches_a_dotted_supertoken() {
    assert_eq!(
        rw("type<mcp.tool.propose>*", "mcp.tool", "x"),
        "type<mcp.tool.propose>*"
    );
    assert_eq!(rw("mcp.tool.propose*", "mcp.tool.propose", "x"), "x*");
    assert_eq!(
        rw("<mcp.tool | mcp.resource>", "mcp.tool", "mcp.device"),
        "<mcp.device | mcp.resource>"
    );
}

#[test]
fn leaves_unrelated_and_builtin_names_untouched() {
    assert_eq!(rw("file*", "foo", "bar"), "file*");
    assert_eq!(rw("String", "foo", "bar"), "String");
    assert_eq!(rw("<file* | any*>", "foo", "bar"), "<file* | any*>");
    assert_eq!(rw("foobar*", "foo", "x"), "foobar*");
    assert_eq!(rw("prefoo*", "foo", "x"), "prefoo*");
}

#[test]
fn a_qualified_shape_token_rewrites_preserving_its_repo() {
    assert_eq!(
        rewrite_shape_tokens("foo::base*", "foo", "bar", "app", "base"),
        Some("bar::base*".to_string())
    );
    assert_eq!(
        rewrite_shape_tokens("<foo::base | other>", "foo", "bar", "app", "base"),
        Some("<bar::base | other>".to_string())
    );
}

#[test]
fn a_shape_token_for_a_different_repo_is_not_rewritten() {
    assert_eq!(
        rewrite_shape_tokens("foo::other*", "foo", "bar", "app", "base"),
        None
    );
    assert_eq!(
        rewrite_shape_tokens("foo*", "foo", "bar", "app", "base"),
        None
    );
    assert_eq!(
        rewrite_shape_tokens("foo*", "foo", "bar", "app", "app"),
        Some("bar*".to_string())
    );
}

fn name(n: &str, repo: Option<&str>, start: usize, end: usize) -> ClaimedName {
    ClaimedName {
        name: n.to_string(),
        repo: repo.map(|r| r.to_string()),
        span: ByteRange { start, end },
    }
}

#[test]
fn a_claim_is_renamed_where_it_names_the_type() {
    let own = FileParse::Instance(Some(Instance {
        type_claim: TypeClaim::Bare(name("note", None, 6, 10)),
        fields: Vec::new(),
    }));
    assert!(references_type(&own, "r", "note", "r"));
    assert!(!references_type(&own, "other", "note", "r"));
    let edits = type_ref_edits(&own, "r", "note", "r", "memo");
    assert_eq!(edits.len(), 1);
    assert_eq!((edits[0].0.start, edits[0].0.end), (6, 10));
    assert_eq!(edits[0].1, "memo");
    let peer = FileParse::Instance(Some(Instance {
        type_claim: TypeClaim::List(vec![name("note", Some("r"), 7, 14), name("x", None, 16, 17)]),
        fields: Vec::new(),
    }));
    let edits = type_ref_edits(&peer, "other", "note", "r", "memo");
    assert_eq!(edits.len(), 1);
    assert_eq!(edits[0].1, "memo::r");
}

#[test]
fn a_type_def_mentions_types_in_every_part() {
    let def = FileParse::TypeDef(Some(TypeDef {
        parents: vec![name("note", None, 0, 4)],
        sealed: vec![name("note", None, 10, 14)],
        fields: vec![FieldDef {
            name: "rel".to_string(),
            raw_shape: "note*".to_string(),
            shape_span: ByteRange { start: 20, end: 25 },
        }],
        meta_blocks: Some(vec![MetaBlock { claim: name("note", None, 30, 34), fields: Vec::new() }]),
        body: None,
    }));
    let edits = type_ref_edits(&def, "r", "note", "r", "memo");
    let texts: Vec<&str> = edits.iter().map(|e| e.1.as_str()).collect();
    assert_eq!(edits.len(), 4);
    assert!(texts.contains(&"memo*"));
    assert_eq!(texts.iter().filter(|t| **t == "memo").count(), 3);
    assert!(type_ref_edits(&def, "r", "other", "r", "memo").is_empty());
}

#[test]
fn a_renamed_type_is_named_by_its_new_name_alone() {
    for raw in ["foo*", "<foo | foo::r>[]", "foo::q & foo", "a.foo | foo.a | foo"] {
        let Some(renamed) = rewrite_shape_tokens(raw, "foo", "bar", "r", "r") else {
            panic!("expected a rewrite of {raw}");
        };
        assert_eq!(rewrite_shape_tokens(&renamed, "foo", "bar", "r", "r"), None);
        assert!(rewrite_shape_tokens(&renamed, "bar", "baz", "r", "r").is_some());
    }
}

#[test]
fn a_qualifier_is_no_mention_of_a_type() {
    assert_eq!(rewrite_shape_tokens("x::foo*", "foo", "bar", "r", "r"), None);
    assert_eq!(rewrite_shape_tokens("foo::foo", "foo", "r", "r", "r"), None);
    assert_eq!(rewrite_shape_tokens("::foo*", "foo", "bar", "r", "r").as_deref(), Some("::bar*"));
    assert_eq!(
        rewrite_shape_tokens("foo::foo | foo", "foo", "bar", "r", "foo").as_deref(),
        Some("bar::foo | foo")
    );
}

#[test]
fn renaming_back_restores_a_shape() {
    for raw in ["foo*", "<foo | foo::r>[]", "foo::q & foo", "x::foo | foo | x::ba"] {
        let Some(renamed) = rewrite_shape_tokens(raw, "foo", "ba", "r", "r") else {
            panic!("expected a rewrite of {raw}");
        };
        let back = rewrite_shape_tokens(&renamed, "ba", "foo", "r", "r");
        assert_eq!(back.as_deref(), Some(raw));
    }
}
