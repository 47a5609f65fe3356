//! Bringing the dependencies in: what is committed and what is answered.

use crate::frames::{error_frame, error_members, make_not_ready_frame, not_ready_frame, SCHEMA_VERSION};
use crate::json::{
    json_opt_text, json_texts, jv, text_list, text_or_null, Json, JsonView, ListBuilder,
    ObjectBuilder,
};
use crate::text::{joined, opt_view, views};
use crate::text_map::{TextEntry, TextMap};
use vstd::prelude::*;

verus! {

/// The first of the directories from `i` on that is a working tree.
pub open spec fn first_tree(dirs: Seq<String>, is_tree: Seq<bool>, i: int) -> Option<String>
    decreases dirs.len() - i,
{
    if i < 0 || i >= dirs.len() {
        None
    } else if is_tree[i] {
        Some(dirs[i])
    } else {
        first_tree(dirs, is_tree, i + 1)
    }
}

/// The nearest directory above a file that is a working tree. `dirs` are the
/// directories above it, the nearest first.
pub fn enclosing_git_root(dirs: &Vec<String>, is_tree: &Vec<bool>) -> (r: Option<String>)
    requires
        is_tree@.len() == dirs@.len(),
    ensures
        r == first_tree(dirs@, is_tree@, 0),
{
    for i in 0..dirs.len()
        invariant
            is_tree@.len() == dirs@.len(),
            first_tree(dirs@, is_tree@, 0) == first_tree(dirs@, is_tree@, i as int),
    {
        if is_tree[i] {
            return Some(dirs[i].clone());
        }
    }
    None
}

/// How one dependency fared.
#[derive(Debug)]
pub struct ResolveMemberSummary {
    pub name: String,
    /// The commit that it resolved to, or why it did not.
    pub outcome: Result<String, String>,
    pub remote: Option<String>,
    pub path: Option<String>,
}

/// What came of committing the lock of one repo.
pub enum LockCommit {
    /// No working tree holds the lock.
    NoTree,
    /// The lock was committed as it stands already.
    Unchanged,
    Committed(String),
    Failed(String),
}

/// A lock that was written, and what came of its commit.
pub struct WrittenLock {
    pub repo: String,
    pub commit: LockCommit,
}

/// The commits of the first `n` locks, by repo.
pub open spec fn lock_commits(locks: Seq<WrittenLock>, n: int) -> Map<Seq<char>, Seq<char>>
    decreases n,
{
    if n <= 0 {
        Map::empty()
    } else {
        let before = lock_commits(locks, n - 1);
        match locks[n - 1].commit {
            LockCommit::Committed(sha) => before.insert(locks[n - 1].repo@, sha@),
            _ => before,
        }
    }
}

/// The failures among the first `n` locks, by repo.
pub open spec fn lock_errors(locks: Seq<WrittenLock>, n: int) -> Map<Seq<char>, Seq<char>>
    decreases n,
{
    if n <= 0 {
        Map::empty()
    } else {
        let before = lock_errors(locks, n - 1);
        match locks[n - 1].commit {
            LockCommit::Failed(e) => before.insert(locks[n - 1].repo@, e@),
            _ => before,
        }
    }
}

/// The whole outcome.
#[derive(Debug)]
pub struct ResolveSummary {
    pub members: Vec<ResolveMemberSummary>,
    pub commits: TextMap,
    pub commit_errors: TextMap,
    pub conflicts: Vec<String>,
}

/// Puts the outcome together. A repo whose lock did not change, or that no
/// working tree holds, is in neither of the two maps.
pub fn summarize_resolve(
    members: Vec<ResolveMemberSummary>,
    locks: &Vec<WrittenLock>,
    conflicts: Vec<String>,
) -> (r: ResolveSummary)
    ensures
        r.members == members,
        r.conflicts == conflicts,
        r.commits.wf(),
        r.commit_errors.wf(),
        r.commits@ == lock_commits(locks@, locks@.len() as int),
        r.commit_errors@ == lock_errors(locks@, locks@.len() as int),
{
    let mut commits = TextMap::new();
    let mut commit_errors = TextMap::new();
    for i in 0..locks.len()
        invariant
            commits.wf(),
            commit_errors.wf(),
            commits@ == lock_commits(locks@, i as int),
            commit_errors@ == lock_errors(locks@, i as int),
    {
        match &locks[i].commit {
            LockCommit::Committed(sha) => commits.insert(locks[i].repo.clone(), sha.clone()),
            LockCommit::Failed(e) => commit_errors.insert(locks[i].repo.clone(), e.clone()),
            _ => {},
        }
    }
    ResolveSummary { members, commits, commit_errors, conflicts }
}

/// A dependency that resolved.
pub open spec fn resolved_json(m: ResolveMemberSummary) -> JsonView {
    JsonView::Object(
        seq![
            ("name"@, JsonView::Text(m.name@)),
            ("sha"@, JsonView::Text(m.outcome->Ok_0@)),
            ("remote"@, text_or_null(opt_view(m.remote))),
            ("path"@, text_or_null(opt_view(m.path))),
        ],
    )
}

/// A dependency that did not resolve.
pub open spec fn failed_json(m: ResolveMemberSummary, code: Seq<char>) -> JsonView {
    JsonView::Object(
        seq![
            ("name"@, JsonView::Text(m.name@)),
            ("reason"@, JsonView::Text(m.outcome->Err_0@)),
            ("code"@, JsonView::Text(code)),
        ],
    )
}

/// The dependencies among the first `n` that resolved.
pub open spec fn resolved_list(members: Seq<ResolveMemberSummary>, n: int) -> Seq<JsonView>
    decreases n,
{
    if n <= 0 {
        Seq::empty()
    } else if members[n - 1].outcome is Ok {
        resolved_list(members, n - 1).push(resolved_json(members[n - 1]))
    } else {
        resolved_list(members, n - 1)
    }
}

/// The dependencies among the first `n` that did not resolve.
pub open spec fn failed_list(members: Seq<ResolveMemberSummary>, code: Seq<char>, n: int) -> Seq<
    JsonView,
>
    decreases n,
{
    if n <= 0 {
        Seq::empty()
    } else if members[n - 1].outcome is Err {
        failed_list(members, code, n - 1).push(failed_json(members[n - 1], code))
    } else {
        failed_list(members, code, n - 1)
    }
}

pub open spec fn map_json(m: TextMap) -> JsonView {
    JsonView::Object(m.listed().map_values(|e: TextEntry| (e.key@, JsonView::Text(e.value@))))
}

pub open spec fn version_json(version: Option<u64>) -> JsonView {
    match version {
        Some(v) => JsonView::Int(v as nat),
        None => JsonView::Null,
    }
}

/// The members of the answer.
pub open spec fn resolved_members(s: ResolveSummary, code: Seq<char>, version: Option<u64>) -> Seq<(
    Seq<char>,
    JsonView,
)> {
    seq![
        ("type"@, JsonView::Text("resolved"@)),
        ("schema_version"@, JsonView::Int(SCHEMA_VERSION as nat)),
        ("resolved"@, JsonView::List(resolved_list(s.members@, s.members@.len() as int))),
        ("failed"@, JsonView::List(failed_list(s.members@, code, s.members@.len() as int))),
        ("conflicts"@, text_list(views(s.conflicts@))),
        ("commits"@, map_json(s.commits)),
        ("commit_errors"@, map_json(s.commit_errors)),
        ("version"@, version_json(version)),
    ]
}

/// What a resolve came to.
pub enum ResolveOutcome {
    /// The knowledge base is still being derived.
    NotReady,
    /// There is no directory to fetch into.
    NoCacheRoot,
    /// A step failed altogether.
    Failed(String),
    Done(ResolveSummary),
}

/// What a resolve comes to before anything is fetched, if it comes to anything: the
/// knowledge base must be ready, and then there must be a directory to fetch into.
pub fn open_resolve(version: Option<u64>, cache_root: &Option<String>) -> (r: Option<ResolveOutcome>)
    ensures
        match (version, *cache_root) {
            (None, _) => r matches Some(ResolveOutcome::NotReady),
            (Some(_), None) => r matches Some(ResolveOutcome::NoCacheRoot),
            (Some(_), Some(_)) => r is None,
        },
{
    if version.is_none() {
        Some(ResolveOutcome::NotReady)
    } else if cache_root.is_none() {
        Some(ResolveOutcome::NoCacheRoot)
    } else {
        None
    }
}

/// The answer to a resolve. `code` is the diagnostic code of a dependency that
/// did not resolve; `version` is the version after the rebuild.
pub fn handle_resolve(outcome: &ResolveOutcome, code: &str, version: Option<u64>) -> (r: Json)
    ensures
        match *outcome {
            ResolveOutcome::NotReady => jv(r) == not_ready_frame(),
            ResolveOutcome::NoCacheRoot => jv(r) == JsonView::Object(
                error_members(
                    "no package cache root; the home directory is unknown"@,
                    "resolve"@,
                ),
            ),
            ResolveOutcome::Failed(e) => jv(r) == JsonView::Object(
                error_members("resolve failed: "@ + e@, "resolve"@),
            ),
            ResolveOutcome::Done(s) => jv(r) == JsonView::Object(
                resolved_members(s, code@, version),
            ),
        },
{
    let summary = match outcome {
        ResolveOutcome::NotReady => return make_not_ready_frame(),
        ResolveOutcome::NoCacheRoot => return error_frame(
            "no package cache root; the home directory is unknown",
            &None,
            "resolve",
        ),
        ResolveOutcome::Failed(e) => return error_frame(
            joined("resolve failed: ", e.as_str()).as_str(),
            &None,
            "resolve",
        ),
        ResolveOutcome::Done(s) => s,
    };
    let mut resolved = ListBuilder::new();
    let mut failed = ListBuilder::new();
    for i in 0..summary.members.len()
        invariant
            resolved@ == resolved_list(summary.members@, i as int),
            failed@ == failed_list(summary.members@, code@, i as int),
    {
        let m = &summary.members[i];
        match &m.outcome {
            Ok(sha) => {
                let mut b = ObjectBuilder::new();
                b.put_text("name", m.name.as_str());
                b.put_text("sha", sha.as_str());
                b.put("remote", json_opt_text(&m.remote));
                b.put("path", json_opt_text(&m.path));
                assert(JsonView::Object(b@) == resolved_json(*m)) by {
                    assert(b@ =~= seq![
                        ("name"@, JsonView::Text(m.name@)),
                        ("sha"@, JsonView::Text(m.outcome->Ok_0@)),
                        ("remote"@, text_or_null(opt_view(m.remote))),
                        ("path"@, text_or_null(opt_view(m.path))),
                    ]);
                }
                resolved.put(b.done());
            },
            Err(e) => {
                let mut b = ObjectBuilder::new();
                b.put_text("name", m.name.as_str());
                b.put_text("reason", e.as_str());
                b.put_text("code", code);
                assert(JsonView::Object(b@) == failed_json(*m, code@)) by {
                    assert(b@ =~= seq![
                        ("name"@, JsonView::Text(m.name@)),
                        ("reason"@, JsonView::Text(m.outcome->Err_0@)),
                        ("code"@, JsonView::Text(code@)),
                    ]);
                }
                failed.put(b.done());
            },
        }
    }
    let mut b = ObjectBuilder::new();
    b.put_text("type", "resolved");
    b.put("schema_version", Json::Int(SCHEMA_VERSION as u64));
    b.put("resolved", resolved.done());
    b.put("failed", failed.done());
    b.put("conflicts", json_texts(&summary.conflicts));
    b.put("commits", summary.commits.to_json());
    b.put("commit_errors", summary.commit_errors.to_json());
    b.put(
        "version",
        match version {
            Some(v) => Json::Int(v),
            None => Json::Null,
        },
    );
    assert(b@ =~= resolved_members(*summary, code@, version));
    b.done()
}

/// Every dependency is told as resolved or as failed.
pub proof fn every_dependency_is_told(members: Seq<ResolveMemberSummary>, code: Seq<char>, n: int)
    requires
        0 <= n,
    ensures
        resolved_list(members, n).len() + failed_list(members, code, n).len() == n,
    decreases n,
{
    if n > 0 {
        every_dependency_is_told(members, code, n - 1);
    }
}

} // verus!
