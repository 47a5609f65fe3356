//! Reads on what git recorded.

use au_engine::commits::meta::{
    check_commits, check_history, commit_meta, file_history, history_file, history_query, route_commits,
    store_batches, CommitRecord, CommitRef, HistoryRecord, MemberTree, StoreReply, StoreRequest,
};
use au_engine::encoding::quote_json;
use au_engine::json::Json;
use au_engine::saga::plan::CommitTrailer;

/// The text of a value, with the members of an object in their order.
fn compact_text(j: &Json) -> String {
    match j {
        Json::Null => "null".to_string(),
        Json::Bool(b) => b.to_string(),
        Json::Int(n) => n.to_string(),
        Json::Number(n) => n.clone(),
        Json::Text(t) => quote_json(t),
        Json::List(v) => {
            let items: Vec<String> = v.iter().map(compact_text).collect();
            format!("[{}]", items.join(","))
        }
        Json::Object(v) => {
            let members: Vec<String> = v
                .iter()
                .map(|m| format!("{}:{}", quote_json(&m.key), compact_text(&m.value)))
                .collect();
            format!("{{{}}}", members.join(","))
        }
    }
}

fn s(t: &str) -> Option<String> {
    Some(t.to_string())
}

fn members() -> Vec<MemberTree> {
    vec![
        MemberTree { repo: "a".to_string(), root: "/ws/a".to_string(), git_root: s("/ws") },
        MemberTree { repo: "snap".to_string(), root: "/cache/snap".to_string(), git_root: None },
    ]
}

fn commit(c: &str, repo: Option<&str>) -> CommitRef {
    CommitRef { commit: c.to_string(), repo: repo.map(|r| r.to_string()) }
}

#[test]
fn a_commit_is_looked_up_in_the_tree_of_its_member() {
    let commits = vec![
        commit("c1", None),
        commit("c2", Some("a")),
        commit("c3", Some("snap")),
        commit("c4", Some("gone")),
    ];
    let routed = route_commits(&commits, &members(), "/entry");
    let stores: Vec<Option<&str>> = routed.iter().map(|r| r.store.as_deref()).collect();
    assert_eq!(stores, vec![Some("/entry"), Some("/ws"), None, None]);
}

fn request(c: &str, store: Option<&str>) -> StoreRequest {
    StoreRequest { commit: c.to_string(), store: store.map(|x| x.to_string()) }
}

fn record(c: &str) -> CommitRecord {
    CommitRecord {
        commit: c.to_string(),
        available: true,
        timestamp: Some(7),
        author: s("A <a@x>"),
        message: None,
        trailers: vec![CommitTrailer { key: "Mutation-Id".to_string(), value: "m".to_string() }],
    }
}

#[test]
fn each_tree_is_asked_once_and_the_answers_keep_the_order() {
    let requests = vec![
        request("z1", Some("/z")),
        request("a1", Some("/a")),
        request("none", None),
        request("z2", Some("/z/")),
        request("a2", Some("/a")),
    ];
    let batches = store_batches(&requests);
    assert_eq!(batches.len(), 2);
    assert_eq!((batches[0].root.as_str(), batches[0].commits.join(",")), ("/a", "a1,a2".to_string()));
    assert_eq!((batches[1].root.as_str(), batches[1].commits.join(",")), ("/z", "z1,z2".to_string()));
    let replies = vec![
        StoreReply { root: "/a".to_string(), records: vec![record("A1")] },
        StoreReply { root: "/z".to_string(), records: vec![record("Z1"), record("Z2")] },
    ];
    let known = |c: &str| {
        format!(
            r#"{{"commit":"{c}","available":true,"timestamp":7,"author":"A <a@x>","trailers":[{{"key":"Mutation-Id","value":"m"}}]}}"#
        )
    };
    let missing = |c: &str| format!(r#"{{"commit":"{c}","available":false,"trailers":[]}}"#);
    assert_eq!(
        compact_text(&commit_meta(&requests, &replies)),
        format!(
            "[{},{},{},{},{}]",
            known("Z1"),
            known("A1"),
            missing("none"),
            known("Z2"),
            missing("a2")
        )
    );
}

#[test]
fn a_commit_is_named_on_one_line() {
    assert_eq!(check_commits(&vec![commit("abc", None)]), None);
    assert_eq!(
        check_commits(&vec![commit("abc", None), commit("a\n'é\"\t\\", None)]).as_deref(),
        Some("commit 'a\\n\\'\\u{e9}\\\"\\t\\\\' contains a newline; a commit-ish is a single line")
    );
}

#[test]
fn a_history_is_read_in_the_directory_of_its_file() {
    assert_eq!(check_history("a.md", &s("a")), None);
    assert_eq!(check_history("/a.md", &None), None);
    assert!(check_history("/a.md", &s("a")).is_some());
    assert_eq!(history_file("x/y.md", &None, &members(), "/e").as_deref(), Some("/e/x/y.md"));
    assert_eq!(history_file("y.md", &s("a"), &members(), "/e").as_deref(), Some("/ws/a/y.md"));
    assert_eq!(history_file("y.md", &s("gone"), &members(), "/e"), None);
    let q = history_query(&s("/ws/a/y.md")).unwrap();
    assert_eq!((q.dir.as_str(), q.name.as_str()), ("/ws/a", "y.md"));
    assert!(history_query(&s("/")).is_none());
    assert!(history_query(&None).is_none());
}

#[test]
fn a_rename_in_a_history_tells_the_prior_path() {
    let rec = |from: Option<&str>| HistoryRecord {
        commit: "c".to_string(),
        timestamp: 1,
        author: "A".to_string(),
        message: "m".to_string(),
        status: if from.is_some() { "renamed" } else { "added" },
        from: from.map(|f| f.to_string()),
    };
    assert_eq!(
        compact_text(&file_history(&vec![rec(Some("old.md")), rec(None)])),
        r#"[{"commit":"c","timestamp":1,"author":"A","message":"m","status":"renamed","from":"old.md"},{"commit":"c","timestamp":1,"author":"A","message":"m","status":"added"}]"#
    );
    assert_eq!(compact_text(&file_history(&Vec::new())), "[]");
}

#[test]
fn only_trees_that_are_asked_about_are_asked() {
    let ask = |commit: &str, store: Option<&str>| StoreRequest {
        commit: commit.to_string(),
        store: store.map(|t| t.to_string()),
    };
    let batches = store_batches(&vec![ask("c1", None), ask("c2", Some("/b")), ask("c3", Some("/b/"))]);
    assert_eq!(batches.len(), 1);
    assert_eq!(batches[0].commits, ["c2", "c3"]);
    assert!(store_batches(&vec![ask("c1", None)]).is_empty());
}
