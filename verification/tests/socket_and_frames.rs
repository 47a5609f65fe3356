//! Where the daemon listens, and how frames travel.

use au_engine::codec::{encode_frame, frame_length, take_frame, Arrived, MAX_FRAME};
use au_engine::connection::{Action, Connection};
use au_engine::encoding::quote_json;
use au_engine::frames::{Response, SCHEMA_VERSION};
use au_engine::json::{Json, Member};
use au_engine::socket::{content_hash, saga_marker_dir, socket_file_name, socket_path};

/// The text of a value, with the members of an object in their order.
fn compact_text(j: &Json) -> String {
    match j {
        Json::Null => "null".to_string(),
        Json::Bool(b) => b.to_string(),
        Json::Int(n) => n.to_string(),
        Json::Number(n) => n.clone(),
        Json::Text(t) => quote_json(t),
        Json::List(v) => {
            let items: Vec<String> = v.iter().map(compact_text).collect();
            format!("[{}]", items.join(","))
        }
        Json::Object(v) => {
            let members: Vec<String> = v
                .iter()
                .map(|m| format!("{}:{}", quote_json(&m.key), compact_text(&m.value)))
                .collect();
            format!("{{{}}}", members.join(","))
        }
    }
}

#[test]
fn file_name_is_short_and_fixed_width_regardless_of_entry_depth() {
    let shallow = socket_file_name("/a");
    let deep = socket_file_name(
        "/Users/someone/very/deeply/nested/repo/tree/that/would/overrun/sun_path/workspace",
    );
    assert_eq!(shallow.len(), 21, "16 hex + '.sock'");
    assert_eq!(deep.len(), 21, "the deep path hashes to the same width");
    assert!(shallow.ends_with(".sock"));
    assert!(deep.ends_with(".sock"));
}

#[test]
fn file_name_is_deterministic() {
    let a = socket_file_name("/repo/kb");
    let b = socket_file_name("/repo/kb");
    assert_eq!(a, b);
}

#[test]
fn distinct_entries_derive_distinct_sockets() {
    let dir = socket_file_name("/repo/kb");
    let manifest_a = socket_file_name("/repo/kb/a/.arsumbris/workspace.yaml");
    let manifest_b = socket_file_name("/repo/kb/b/.arsumbris/workspace.yaml");
    assert_ne!(dir, manifest_a);
    assert_ne!(manifest_a, manifest_b);
}

#[test]
fn socket_is_under_arsumbris_run() {
    let p = socket_path(&Some("/home/me".to_string()), "/tmp", "/repo/kb");
    assert!(
        p.ends_with(&format!("au-engine/run/{}", socket_file_name("/repo/kb"))),
        "under .arsumbris/au-engine/run: {}",
        p
    );
    assert!(p.contains(".arsumbris"));
    assert!(p.starts_with("/home/me/"));
    assert!(socket_path(&None, "/tmp", "/repo/kb").starts_with("/tmp/.arsumbris/au-engine/run/"));
    assert_eq!(saga_marker_dir("/v"), "/v/.arsumbris/au-engine/run");
}

#[test]
fn the_digest_is_fnv_1a() {
    assert_eq!(content_hash(b""), 0xcbf29ce484222325);
    assert_eq!(content_hash(b"a"), 0xaf63dc4c8601ec8c);
    assert_eq!(content_hash(b"foobar"), 0x85944171f73967e8);
}

#[test]
fn a_frame_is_its_length_and_its_payload() {
    let bytes = encode_frame(&vec![7, 8, 9]);
    assert_eq!(bytes, vec![0, 0, 0, 3, 7, 8, 9]);
    let mut stream = bytes.clone();
    stream.extend([0, 0, 0, 1, 5]);
    match take_frame(&stream) {
        Arrived::Frame { payload, taken } => {
            assert_eq!(payload, vec![7, 8, 9]);
            assert_eq!(taken, 7);
        }
        other => panic!("expected a frame, got {other:?}"),
    }
    assert!(matches!(take_frame(&vec![0, 0]), Arrived::Partial));
    assert!(matches!(take_frame(&vec![0, 0, 0, 3, 7]), Arrived::Partial));
    assert!(matches!(
        take_frame(&vec![0, 0, 0, 0]),
        Arrived::Frame { taken: 4, .. }
    ));
}

#[test]
fn a_length_beyond_the_largest_is_refused() {
    assert_eq!(frame_length([1, 0, 0, 0]), Ok(MAX_FRAME));
    assert_eq!(
        frame_length([1, 0, 0, 1]),
        Err("frame length 16777217 exceeds maximum 16777216".to_string())
    );
    assert!(matches!(take_frame(&vec![255, 255, 255, 255]), Arrived::Refused(_)));
}

fn object(members: Vec<(&str, Json)>) -> Json {
    Json::Object(
        members
            .into_iter()
            .map(|(k, value)| Member { key: k.to_string(), value })
            .collect(),
    )
}

fn text(s: &str) -> Json {
    Json::Text(s.to_string())
}

#[test]
fn replies_have_a_fixed_form() {
    assert_eq!(SCHEMA_VERSION, 29);
    assert_eq!(
        compact_text(&Response::not_ready().into_frame()),
        r#"{"type":"response","schema_version":29,"ready":false}"#
    );
    assert_eq!(
        compact_text(&Response::ready(4, Json::Bool(true)).with_id(Some(Json::Int(7))).into_frame()),
        r#"{"type":"response","schema_version":29,"id":7,"ready":true,"version":4,"result":true}"#
    );
    assert_eq!(
        compact_text(&Response::invalid("no".to_string()).into_frame()),
        r#"{"type":"error","schema_version":29,"ready":false,"error":"no"}"#
    );
}

#[test]
fn a_frame_is_told_apart_by_its_member() {
    let c = Connection::new();
    match c.on_frame(Ok(object(vec![("id", Json::Int(3)), ("read", text("hubs"))]))) {
        Action::Read { id, verb, payload } => {
            assert!(matches!(id, Some(Json::Int(3))));
            assert_eq!(verb, "hubs");
            assert_eq!(compact_text(&payload), r#"{"read":"hubs"}"#);
        }
        _ => panic!("expected a read"),
    }
    assert!(matches!(
        c.on_frame(Ok(object(vec![("resolve", text("x"))]))),
        Action::Resolve { id: None }
    ));
    match c.on_frame(Ok(object(vec![("id", text("q")), ("x", Json::Null)]))) {
        Action::Send(frame) => assert_eq!(
            compact_text(&frame),
            r#"{"type":"error","schema_version":29,"error":"request names neither a read, a subscribe, a mutate, nor a resolve","for":"unknown","id":"q"}"#
        ),
        _ => panic!("expected an error frame"),
    }
}

#[test]
fn the_bytes_of_a_frame_say_what_to_do() {
    let c = Connection::new();
    match c.on_bytes(&br#" {"read":"hubs","id":[1], "limit":2} "#.to_vec()) {
        Action::Read { id: Some(Json::List(_)), verb, payload } => {
            assert_eq!(verb, "hubs");
            assert_eq!(compact_text(&payload), r#"{"limit":2,"read":"hubs"}"#);
        }
        _ => panic!("expected a read"),
    }
    assert!(matches!(
        c.on_bytes(&br#"{"subscribe":"files"}"#.to_vec()),
        Action::Subscribe { subscription_id: 0, .. }
    ));
    match c.on_bytes(&b"nope".to_vec()) {
        Action::Send(frame) => {
            assert!(compact_text(&frame)
                .contains("malformed request: expected ident at line 1 column 2"));
        }
        _ => panic!("expected an error frame"),
    }
}
