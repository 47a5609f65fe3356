//! The answer to a mutation that went through.

use crate::diagnostics::{
    admitted, scoped_diagnostics, serve_diagnostics, served_at, Diagnostic, DiagnosticsScope,
};
use crate::frames::{make_not_ready_frame, make_ready_frame, not_ready_frame, ready_frame};

use crate::json::{
    extend_object, extended, json_opt_text, json_text, jv, lemma_members_view, members_view, text_or_null,
    Json, JsonView, Member, ObjectBuilder,
};
use crate::model::{hash_of, held_hash, owner_name, repo_name_of, KnowledgeBase, Scope};
use crate::mutation::config::hash_extra;
use crate::mutation::script::Verb;
use crate::saga::commit::{commit_views, RepoCommit};
use crate::text::{opt_view, same, same_opt};
use vstd::prelude::*;

verus! {

/// The commit that carries the change of `repo`, searching from `i` on.
pub open spec fn commit_from(commits: Seq<(Seq<char>, Seq<char>)>, repo: Seq<char>, i: int) -> Option<
    Seq<char>,
>
    decreases commits.len() - i,
{
    if i < 0 || i >= commits.len() {
        None
    } else if commits[i].0 == repo {
        Some(commits[i].1)
    } else {
        commit_from(commits, repo, i + 1)
    }
}

/// The commit that pins the file of the response: the one that the mutation made
/// in the file's own repo, else the repo's head. A file that no repo owns has
/// none.
pub open spec fn anchor(
    commits: Seq<(Seq<char>, Seq<char>)>,
    repo: Option<Seq<char>>,
    head: Option<Seq<char>>,
) -> Option<Seq<char>> {
    match repo {
        None => None,
        Some(r) => match commit_from(commits, r, 0) {
            Some(sha) => Some(sha),
            None => head,
        },
    }
}

pub fn find_anchor(commits: &Vec<RepoCommit>, repo: &Option<String>, head: &Option<String>) -> (r:
    Option<String>)
    ensures
        opt_view(r) == anchor(commit_views(commits@), opt_view(*repo), opt_view(*head)),
{
    let name = match repo {
        Some(n) => n,
        None => return None,
    };
    let ghost cs = commit_views(commits@);
    for i in 0..commits.len()
        invariant
            cs == commit_views(commits@),
            opt_view(*repo) == Some(name@),
            commit_from(cs, name@, 0) == commit_from(cs, name@, i as int),
    {
        assert(cs[i as int] == (commits@[i as int].repo@, commits@[i as int].sha@));
        if same(commits[i].repo.as_str(), name.as_str()) {
            return Some(commits[i].sha.clone());
        }
    }
    assert(cs.len() == commits@.len());
    match head {
        Some(h) => Some(h.clone()),
        None => None,
    }
}

/// The commits of a mutation, by repo.
pub open spec fn commits_json(commits: Seq<(Seq<char>, Seq<char>)>) -> JsonView {
    JsonView::Object(
        commits.map_values(|c: (Seq<char>, Seq<char>)| (c.0, JsonView::Text(c.1))),
    )
}

pub fn make_commits_json(commits: &Vec<RepoCommit>) -> (r: Json)
    ensures
        jv(r) == commits_json(commit_views(commits@)),
{
    let mut b = ObjectBuilder::new();
    let ghost all = commit_views(commits@).map_values(
        |c: (Seq<char>, Seq<char>)| (c.0, JsonView::Text(c.1)),
    );
    assert(b@ =~= all.take(0));
    for i in 0..commits.len()
        invariant
            all == commit_views(commits@).map_values(
                |c: (Seq<char>, Seq<char>)| (c.0, JsonView::Text(c.1)),
            ),
            b@ == all.take(i as int),
    {
        b.put_text(commits[i].repo.as_str(), commits[i].sha.as_str());
        assert(b@ =~= all.take(i + 1));
    }
    assert(all.take(all.len() as int) =~= all);
    b.done()
}

/// Whether the knowledge base reflects what was written: its digest of the file
/// is the written one, or nothing was written.
pub open spec fn reflects(written: Option<Seq<char>>, held: Option<Seq<char>>) -> bool {
    written is None || held == written
}

/// The result of a mutation on `target`. A member that the verb adds takes the place of
/// another of its name.
pub open spec fn mutation_result(
    kb: KnowledgeBase,
    diagnostics: Seq<Diagnostic>,
    target: String,
    written: Option<Seq<char>>,
    commits: Seq<(Seq<char>, Seq<char>)>,
    head: Option<Seq<char>>,
    extra: Seq<(Seq<char>, JsonView)>,
) -> JsonView {
    let held = opt_view(held_hash(kb.catalog@, target@));
    let base = JsonView::Object(
        seq![
            ("path"@, JsonView::Text(target@)),
            ("hash"@, text_or_null(held)),
            (
                "diagnostics"@,
                served_at(diagnostics, admitted(kb.repos@, diagnostics, only_file(target))),
            ),
            ("reflected"@, JsonView::Bool(reflects(written, held))),
            (
                "commit"@,
                text_or_null(anchor(commits, owner_name(kb.repos@, target@), head)),
            ),
            ("commits"@, commits_json(commits)),
        ],
    );
    extended(base, extra, extra.len() as int)
}

/// The filter that admits the diagnostics of one file.
pub open spec fn only_file(path: String) -> DiagnosticsScope {
    DiagnosticsScope {
        path: Some(path),
        path_prefix: None,
        severity: None,
        code: None,
        repo: None,
        scope: Scope::All,
    }
}

/// The answer to a mutation: the file that it is about, the file's diagnostics
/// and digest after the rebuild, whether these reflect the write, and the
/// commits. `ready` is the knowledge base with its version, when there is one;
/// `head` is the head of the file's own repo, when git has one.
pub fn mutation_response_extra(
    ready: Option<(u64, &KnowledgeBase, &Vec<Diagnostic>)>,
    target: &String,
    written_hash: &Option<String>,
    commits: &Vec<RepoCommit>,
    head: &Option<String>,
    extra: Vec<Member>,
) -> (r: Json)
    ensures
        match ready {
            None => jv(r) == not_ready_frame(),
            Some((version, kb, diagnostics)) => jv(r) == ready_frame(
                version as nat,
                mutation_result(
                    *kb,
                    diagnostics@,
                    *target,
                    opt_view(*written_hash),
                    commit_views(commits@),
                    opt_view(*head),
                    members_view(extra, extra.len() as int),
                ),
            ),
        },
{
    let (version, kb, diagnostics) = match ready {
        Some(x) => x,
        None => return make_not_ready_frame(),
    };
    let scope = DiagnosticsScope {
        path: Some(target.clone()),
        path_prefix: None,
        severity: None,
        code: None,
        repo: None,
        scope: Scope::All,
    };
    let at = scoped_diagnostics(&kb.repos, diagnostics, &scope);
    let held = hash_of(&kb.catalog, target.as_str());
    let own = repo_name_of(&kb.repos, target.as_str());
    let reflected = match written_hash {
        Some(_) => same_opt(&held, written_hash),
        None => true,
    };
    let commit = find_anchor(commits, &own, head);
    let mut b = ObjectBuilder::new();
    b.put_text("path", target.as_str());
    b.put("hash", json_opt_text(&held));
    b.put("diagnostics", serve_diagnostics(diagnostics, &at));
    b.put("reflected", Json::Bool(reflected));
    b.put("commit", json_opt_text(&commit));
    b.put("commits", make_commits_json(commits));
    let ghost head_members = b@;
    proof {
        lemma_members_view(extra, extra.len() as int);
    }
    proof {
        let held_v = opt_view(held_hash(kb.catalog@, target@));
        assert(head_members =~= seq![
            ("path"@, JsonView::Text(target@)),
            ("hash"@, text_or_null(held_v)),
            (
                "diagnostics"@,
                served_at(diagnostics@, admitted(kb.repos@, diagnostics@, only_file(*target))),
            ),
            ("reflected"@, JsonView::Bool(reflects(opt_view(*written_hash), held_v))),
            (
                "commit"@,
                text_or_null(
                    anchor(
                        commit_views(commits@),
                        owner_name(kb.repos@, target@),
                        opt_view(*head),
                    ),
                ),
            ),
            ("commits"@, commits_json(commit_views(commits@))),
        ]);
    }
    make_ready_frame(version, extend_object(b.done(), &extra))
}

/// The members that tell a deletion's last live commit: only a deletion that
/// committed has one.
pub fn last_live_extra(commits: &Vec<RepoCommit>, last_live: &Option<String>) -> (r: Vec<Member>)
    ensures
        match last_live {
            Some(sha) => if commits@.len() > 0 {
                r@.len() == 1 && r@[0].key@ == "last_live_commit"@ && jv(r@[0].value)
                    == JsonView::Text(sha@)
            } else {
                r@.len() == 0
            },
            None => r@.len() == 0,
        },
{
    let mut extra: Vec<Member> = Vec::new();
    if commits.len() > 0 {
        if let Some(sha) = last_live {
            extra.push(
                Member { key: "last_live_commit".to_owned(), value: json_text(sha.as_str()) },
            );
        }
    }
    extra
}

/// The anchor of the response is the commit that the mutation made in the file's
/// own repo, and never that of another repo.
pub proof fn the_anchor_is_of_the_own_repo(
    commits: Seq<(Seq<char>, Seq<char>)>,
    repo: Seq<char>,
    head: Option<Seq<char>>,
)
    requires
        anchor(commits, Some(repo), head) matches Some(sha) && head != Some(sha),
    ensures
        exists|k: int|
            #![trigger commits[k]]
            0 <= k < commits.len() && commits[k] == (repo, anchor(commits, Some(repo), head)->0),
{
    lemma_commit_from(commits, repo, 0);
}

proof fn lemma_commit_from(commits: Seq<(Seq<char>, Seq<char>)>, repo: Seq<char>, i: int)
    requires
        0 <= i,
    ensures
        commit_from(commits, repo, i) matches Some(sha) ==> exists|k: int|
            #![trigger commits[k]]
            i <= k < commits.len() && commits[k] == (repo, sha),
    decreases commits.len() - i,
{
    if i < commits.len() && commits[i].0 != repo {
        lemma_commit_from(commits, repo, i + 1);
    }
}

/// What the answer to a verb tells besides its commits: the digest of what was written,
/// and the members that the verb adds. A removed file has no digest but the commit in
/// which it was last; what lies outside the catalog is told by a member, or not at all.
pub fn told(
    verb: Verb,
    written: Option<String>,
    riders: Vec<Member>,
    last_live: Vec<Member>,
    assigned: Vec<Member>,
) -> (r: (Option<String>, Vec<Member>))
    ensures
        match verb {
            Verb::DeleteFile => r.0 is None && r.1@ == last_live@,
            Verb::AssignBlockId => r.0 == written && r.1@ == assigned@,
            Verb::SetIgnores => r.0 is None && r.1@.len() == 0,
            Verb::SetConfig => r.0 is None && match written {
                Some(h) => r.1@.len() == 1 && r.1@[0].key@ == "hash"@ && jv(r.1@[0].value)
                    == JsonView::Text(h@),
                None => r.1@ == riders@,
            },
            _ => r.0 == written && r.1@ == riders@,
        },
{
    match verb {
        Verb::DeleteFile => (None, last_live),
        Verb::AssignBlockId => (written, assigned),
        Verb::SetIgnores => (None, Vec::new()),
        Verb::SetConfig => match written {
            Some(h) => (None, hash_extra(h.as_str())),
            None => (None, riders),
        },
        _ => (written, riders),
    }
}

} // verus!
