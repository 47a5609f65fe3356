//! Values that are no files.

use au_engine::diagnostics::{Diagnostic, Severity};
use au_engine::encoding::{compact_text, frame_bytes, parse_json};
use au_engine::json::{Json, Member};
use au_engine::values::{
    line_source, synthesize_frontmatter, undeclared_value_fields,
    validate_device_file, validate_instance_content, validate_scoped_instance, validate_value_verdicts,
    value_vocabulary, BuildOutcome, ContentRead, DeviceRead, Fit, LineSource,
    Vocabulary,
};

fn object(members: Vec<(&str, Json)>) -> Json {
    Json::Object(
        members
            .into_iter()
            .map(|(k, value)| Member { key: k.to_string(), value })
            .collect(),
    )
}

fn text(s: &str) -> Json {
    Json::Text(s.to_string())
}

#[test]
fn object_value_synthesizes_a_typed_mapping() {
    let src = synthesize_frontmatter("toolInput.read_file", &object(vec![("file_path", text("a.md"))]));
    assert_eq!(
        src,
        "type: \"toolInput.read_file\"\n\"file_path\": \"a.md\"\n"
    );
}

#[test]
fn a_repeated_claim_is_left_out_of_the_document() {
    let src = synthesize_frontmatter("t", &object(vec![("type", text("t")), ("x", Json::Int(1))]));
    assert_eq!(src, "type: \"t\"\n\"x\": 1\n");
}

#[test]
fn a_contradicting_claim_stays_in_the_document() {
    let src = synthesize_frontmatter("t", &object(vec![("type", text("other")), ("x", Json::Int(1))]));
    assert_eq!(src, "type: \"t\"\n\"type\": \"other\"\n\"x\": 1\n");
    let listed = object(vec![("type", Json::List(vec![text("t")]))]);
    assert_eq!(synthesize_frontmatter("t", &listed), "type: \"t\"\n\"type\": [\"t\"]\n");
}

#[test]
fn a_value_that_is_no_object_is_its_own_document() {
    assert_eq!(synthesize_frontmatter("t", &Json::Int(42)), "42");
    assert_eq!(synthesize_frontmatter("t", &text("a\"b")), "\"a\\\"b\"");
}

#[test]
fn nested_values_are_written_without_white_space() {
    let value = object(vec![
        ("n", Json::Int(7)),
        ("flag", Json::Bool(true)),
        ("list", Json::List(vec![Json::Int(1), Json::Int(2)])),
        ("rec", object(vec![("c", Json::Null), ("a", text("b"))])),
        ("f", Json::Number("1.5".to_string())),
        ("none", Json::List(Vec::new())),
    ]);
    assert_eq!(
        compact_text(&value),
        r#"{"f":1.5,"flag":true,"list":[1,2],"n":7,"none":[],"rec":{"a":"b","c":null}}"#
    );
}

#[test]
fn control_characters_are_escaped_as_json_does() {
    assert_eq!(
        compact_text(&text("a\u{8}\t\n\u{c}\r\u{1}\u{1f}\u{7f}\\/é")),
        "\"a\\b\\t\\n\\f\\r\\u0001\\u001f\u{7f}\\\\/é\""
    );
    let back: serde_json::Value =
        serde_json::from_str(&compact_text(&text("x\u{0}\"y\"\n"))).expect("valid JSON");
    assert_eq!(back, serde_json::Value::String("x\u{0}\"y\"\n".to_string()));
}

#[test]
fn undeclared_fields_are_told_in_order() {
    let value = object(vec![
        ("zeta", Json::Null),
        ("type", text("t")),
        ("title", text("x")),
        ("rel{note}", Json::Null),
        ("alpha", Json::Null),
    ]);
    let declared = vec!["title".to_string()];
    assert_eq!(undeclared_value_fields(&value, &declared), vec!["alpha", "zeta"]);
    assert!(undeclared_value_fields(&Json::Int(1), &declared).is_empty());
}

#[test]
fn every_fit_gets_a_verdict() {
    let fits = vec![
        Fit {
            member: "a".to_string(),
            name: "note".to_string(),
            declared: Some(vec!["x".to_string()]),
        },
        Fit { member: "b".to_string(), name: "note".to_string(), declared: None },
    ];
    let value = object(vec![("x", Json::Null), ("y", Json::Null)]);
    let plans = validate_value_verdicts("note", &None, &None, &value, &fits);
    assert_eq!(plans.len(), 2);
    assert_eq!(plans[0].fit, Some(0));
    assert_eq!(plans[0].repo.as_deref(), Some("a"));
    assert_eq!(plans[0].undeclared, vec!["y"]);
    assert_eq!(plans[1].repo.as_deref(), Some("b"));
    assert!(plans[1].undeclared.is_empty());
}

#[test]
fn a_name_that_fits_nothing_gets_a_verdict_too() {
    let plans = validate_value_verdicts(
        "gone",
        &Some("lib".to_string()),
        &Some("app".to_string()),
        &Json::Null,
        &Vec::new(),
    );
    assert_eq!(plans.len(), 1);
    assert_eq!(plans[0].fit, None);
    assert_eq!(plans[0].name, "gone");
    assert_eq!(plans[0].repo.as_deref(), Some("lib"));
    let plans = validate_value_verdicts("gone", &None, &Some("app".to_string()), &Json::Null, &Vec::new());
    assert_eq!(plans[0].repo.as_deref(), Some("app"));
}

fn diagnostic(code: &str) -> Diagnostic {
    Diagnostic {
        file: "<value>".to_string(),
        severity: Severity::Error,
        code: code.to_string(),
        served: Json::Null,
    }
}

#[test]
fn an_aborted_vocabulary_gives_no_type_verdict() {
    let codes = |v: Vec<Diagnostic>| -> Vec<String> { v.into_iter().map(|d| d.code).collect() };
    let own = || vec![diagnostic("duplicate-key")];
    let typed = || vec![diagnostic("missing-field")];
    assert_eq!(
        codes(validate_scoped_instance(own(), true, Some(BuildOutcome::Complete), typed())),
        vec!["duplicate-key", "missing-field"]
    );
    assert_eq!(
        codes(validate_scoped_instance(own(), true, None, typed())),
        vec!["duplicate-key", "missing-field"]
    );
    assert_eq!(
        codes(validate_scoped_instance(own(), true, Some(BuildOutcome::Aborted), typed())),
        vec!["duplicate-key"]
    );
    assert_eq!(
        codes(validate_scoped_instance(own(), false, Some(BuildOutcome::Complete), typed())),
        vec!["duplicate-key"]
    );
}

#[test]
fn an_unmounted_repo_has_an_empty_vocabulary() {
    assert!(matches!(value_vocabulary(&None, false), Vocabulary::Root));
    assert!(matches!(value_vocabulary(&Some("x".to_string()), true), Vocabulary::Repo(n) if n == "x"));
    assert!(matches!(value_vocabulary(&Some("x".to_string()), false), Vocabulary::Empty));
}

#[test]
fn a_span_is_told_by_the_lines_of_its_own_text() {
    assert_eq!(line_source(&Vec::new(), "<value>", "<value>"), LineSource::Document);
    assert_eq!(line_source(&Vec::new(), "<value>", "/v/a.md"), LineSource::Unknown);
}

#[test]
fn a_broken_content_has_no_diagnostics() {
    let codes = |v: Vec<Diagnostic>| -> Vec<String> { v.into_iter().map(|d| d.code).collect() };
    let typed = || vec![diagnostic("missing-field")];
    let read = |parsed| ContentRead::Instance {
        duplicates: vec![diagnostic("duplicate-key")],
        own: vec![diagnostic("bad-key")],
        parsed,
    };
    let done = Some(BuildOutcome::Complete);
    assert!(validate_instance_content(ContentRead::Broken, done, typed()).is_empty());
    assert_eq!(
        codes(validate_instance_content(read(true), done, typed())),
        vec!["duplicate-key", "bad-key", "missing-field"]
    );
    assert_eq!(
        codes(validate_instance_content(read(false), done, typed())),
        vec!["duplicate-key", "bad-key"]
    );
}

#[test]
fn a_device_file_that_does_not_parse_keeps_its_own_diagnostics() {
    let own = || vec![diagnostic("not-utf8")];
    let typed = || vec![diagnostic("missing-field")];
    let done = Some(BuildOutcome::Complete);
    assert_eq!(validate_device_file(DeviceRead::Unparsed { own: own() }, done, typed()).len(), 1);
    let read = DeviceRead::Instance { own: own(), parsed: true };
    assert_eq!(validate_device_file(read, None, typed()).len(), 2);
    assert!(validate_device_file(DeviceRead::Other, done, typed()).is_empty());
}

#[test]
fn a_frame_is_read_back_with_its_keys_in_order() {
    let frame = object(vec![
        ("type", text("a\"b")),
        ("at", Json::Int(u64::MAX)),
        ("list", Json::List(vec![Json::Null, object(vec![("z", Json::Bool(false)), ("b", text(""))])])),
    ]);
    let bytes = frame_bytes(&frame);
    let want = r#"{"at":18446744073709551615,"list":[null,{"b":"","z":false}],"type":"a\"b"}"#;
    assert_eq!(bytes, want.as_bytes());
    let back = parse_json(&bytes).expect("a frame is JSON");
    assert_eq!(compact_text(&back), want);
    assert!(matches!(&back, Json::Object(m) if m[0].key == "at" && m[2].key == "type"));
}

#[test]
fn numbers_keep_their_form() {
    let read = |t: &str| parse_json(&t.as_bytes().to_vec()).expect("a number is JSON");
    assert!(matches!(read("7"), Json::Int(7)));
    assert!(matches!(read("-7"), Json::Number(n) if n == "-7"));
    assert!(matches!(read("1.50"), Json::Number(n) if n == "1.5"));
    assert_eq!(frame_bytes(&Json::Number("-7".to_string())), b"-7");
    assert_eq!(frame_bytes(&Json::Number("no number".to_string())), b"null");
}

#[test]
fn bytes_that_are_no_json_say_why() {
    let fail = |t: &str| parse_json(&t.as_bytes().to_vec()).expect_err("no JSON");
    assert!(fail("{\"a\":").cut_short);
    let e = fail("nope");
    assert!(!e.cut_short);
    assert_eq!(e.message, "expected ident at line 1 column 2");
}
