//! Where a commit is looked up and what is told of it.

use crate::commits::meta::{
    asked_of, commit_answer, commit_answers, commit_members, goes_to, history_list, history_members,
    history_path, int_json, member_tree_from, reply_from, split_commit_from, store_of, trailer_json,
    trailer_list, unavailable_json, CommitRecord, CommitRef, HistoryRecord, MemberTree, StoreReply,
    StoreRequest,
};
use crate::commits::recent::{
    appeared_hint, changed_json, changed_list, row_json, row_list, tree_from, ChangedFile,
    RecentCommit, TreeLog,
};
use crate::json::{text_list, with_opt, with_opt_text, JsonView};
use crate::laws::json::{lemma_opt, lemma_opt_text, lemma_push, tells};
use crate::paths::{joined_path, same_path_spec};
use crate::saga::plan::CommitTrailer;
use crate::text::{decimal, opt_view, views};
use vstd::prelude::*;

verus! {

proof fn lemma_member(members: Seq<MemberTree>, name: Seq<char>, i: int)
    requires
        0 <= i,
    ensures
        match member_tree_from(members, name, i) {
            Some(k) => i <= k < members.len() && members[k].repo@ == name && forall|j: int|
                #![trigger members[j]]
                i <= j < k ==> members[j].repo@ != name,
            None => forall|j: int|
                #![trigger members[j]]
                i <= j < members.len() ==> members[j].repo@ != name,
        },
    decreases members.len() - i,
{
    if i < members.len() && members[i].repo@ != name {
        lemma_member(members, name, i + 1);
    }
}

/// A commit is looked up in the repository of the member that it names, or in that of the
/// entry where it names none; one of a member that is not there is looked up nowhere.
pub proof fn a_commit_is_looked_up_where_it_says(
    c: CommitRef,
    members: Seq<MemberTree>,
    entry_root: Seq<char>,
    k: int,
)
    ensures
        c.repo is None ==> store_of(c, members, entry_root) == Some(entry_root),
        c.repo matches Some(name) ==> {
            &&& 0 <= k < members.len() && members[k].repo@ == name@ && (forall|j: int|
                #![trigger members[j]]
                0 <= j < k ==> members[j].repo@ != name@) ==> store_of(c, members, entry_root)
                == opt_view(members[k].git_root)
            &&& (forall|j: int|
                #![trigger members[j]]
                0 <= j < members.len() ==> members[j].repo@ != name@) ==> store_of(
                c,
                members,
                entry_root,
            ) is None
        },
{
    if let Some(name) = c.repo {
        lemma_member(members, name@, 0);
        if 0 <= k < members.len() && members[k].repo@ == name@ && (forall|j: int|
            #![trigger members[j]]
            0 <= j < k ==> members[j].repo@ != name@) {
            let found = member_tree_from(members, name@, 0)->0;
            let here = members[found];
            let there = members[k];
            assert(found == k);
        }
    }
}

/// The history of a path is that of the file below the root of the member that is named, or
/// below the entry's.
pub proof fn a_history_is_of_the_file_that_is_named(
    path: Seq<char>,
    name: Seq<char>,
    members: Seq<MemberTree>,
    entry_root: Seq<char>,
    k: int,
)
    ensures
        history_path(path, None, members, entry_root) == Some(joined_path(entry_root, path)),
        0 <= k < members.len() && members[k].repo@ == name && (forall|j: int|
            #![trigger members[j]]
            0 <= j < k ==> members[j].repo@ != name) ==> history_path(
            path,
            Some(name),
            members,
            entry_root,
        ) == Some(joined_path(members[k].root@, path)),
        (forall|j: int|
            #![trigger members[j]]
            0 <= j < members.len() ==> members[j].repo@ != name) ==> history_path(
            path,
            Some(name),
            members,
            entry_root,
        ) is None,
{
    lemma_member(members, name, 0);
    if 0 <= k < members.len() && members[k].repo@ == name && (forall|j: int|
        #![trigger members[j]]
        0 <= j < k ==> members[j].repo@ != name) {
        let found = member_tree_from(members, name, 0)->0;
        let here = members[found];
        let there = members[k];
        assert(found == k);
    }
}

/// A commit that holds a line end is refused, and no other.
pub proof fn a_commit_of_two_lines_is_refused(commits: Seq<CommitRef>, i: int)
    requires
        0 <= i,
    ensures
        split_commit_from(commits, i) is None <==> forall|k: int|
            #![trigger commits[k]]
            i <= k < commits.len() ==> !commits[k].commit@.contains('\n'),
        split_commit_from(commits, i) matches Some(c) ==> c.contains('\n') && exists|k: int|
            i <= k < commits.len() && (#[trigger] commits[k]).commit@ == c,
    decreases commits.len() - i,
{
    if i < commits.len() {
        a_commit_of_two_lines_is_refused(commits, i + 1);
        let here = commits[i];
    }
}

/// The commits that a repository is asked for are those that go to it.
pub proof fn a_repository_is_asked_for_its_commits(
    requests: Seq<StoreRequest>,
    root: Seq<char>,
    n: int,
    commit: Seq<char>,
)
    requires
        0 <= n <= requests.len(),
    ensures
        asked_of(requests, root, n).contains(commit) <==> exists|i: int|
            0 <= i < n && (#[trigger] requests[i]).commit@ == commit && requests[i].store is Some
                && same_path_spec(requests[i].store->0@, root),
    decreases n,
{
    if n > 0 {
        a_repository_is_asked_for_its_commits(requests, root, n - 1, commit);
        let before = asked_of(requests, root, n - 1);
        let now = asked_of(requests, root, n);
        let here = requests[n - 1];
        if before.contains(commit) {
            let j = choose|j: int| 0 <= j < before.len() && before[j] == commit;
            assert(now[j] == commit);
        }
        if now.contains(commit) && !before.contains(commit) {
            let j = choose|j: int| 0 <= j < now.len() && now[j] == commit;
            if j < before.len() {
                assert(before[j] == commit);
            }
            assert(here.commit@ == commit);
        }
        if goes_to(here, root) && here.commit@ == commit {
            assert(now[before.len() as int] == commit);
        }
    }
}

/// A number is told as it is, with its sign.
pub proof fn a_number_is_told_with_its_sign(n: int)
    ensures
        n >= 0 ==> int_json(n) == JsonView::Int(n as nat),
        n < 0 ==> int_json(n) == JsonView::Number("-"@ + decimal((-n) as nat)),
{
}

/// A commit is told with its name, whether it is there, when and by whom it was made, its
/// message and its trailers.
pub proof fn a_commit_is_told_whole(r: CommitRecord, i: int)
    ensures
        ({
            let m = commit_members(r);
            &&& tells(m, "commit"@, JsonView::Text(r.commit@))
            &&& tells(m, "available"@, JsonView::Bool(r.available))
            &&& r.timestamp matches Some(t) ==> tells(m, "timestamp"@, int_json(t as int))
            &&& r.author matches Some(a) ==> tells(m, "author"@, JsonView::Text(a@))
            &&& r.message matches Some(t) ==> tells(m, "message"@, JsonView::Text(t@))
            &&& exists|l: Seq<JsonView>| #[trigger]
                tells(m, "trailers"@, JsonView::List(l)) && l.len() == r.trailers@.len() && (0 <= i
                    < r.trailers@.len() ==> l[i] == trailer_json(r.trailers@[i]))
        }),
{
    let head = seq![
        ("commit"@, JsonView::Text(r.commit@)),
        ("available"@, JsonView::Bool(r.available)),
    ];
    assert(head[0] == ("commit"@, JsonView::Text(r.commit@)));
    assert(head[1] == ("available"@, JsonView::Bool(r.available)));
    assert(tells(head, "commit"@, JsonView::Text(r.commit@)));
    assert(tells(head, "available"@, JsonView::Bool(r.available)));
    let t = match r.timestamp {
        Some(t) => Some(int_json(t as int)),
        None => None,
    };
    let a = with_opt(head, "timestamp"@, t);
    lemma_opt(head, "timestamp"@, t);
    let b = with_opt_text(a, "author"@, opt_view(r.author));
    lemma_opt_text(a, "author"@, opt_view(r.author));
    let c = with_opt_text(b, "message"@, opt_view(r.message));
    lemma_opt_text(b, "message"@, opt_view(r.message));
    lemma_push(c, "trailers"@, trailer_list(r.trailers@));
    let l = trailer_list(r.trailers@)->List_0;
    assert(tells(commit_members(r), "trailers"@, JsonView::List(l)));
}

/// A trailer is told with its key and its value.
pub proof fn a_trailer_is_told_whole(t: CommitTrailer)
    ensures
        trailer_json(t) matches JsonView::Object(m) && tells(m, "key"@, JsonView::Text(t.key@))
            && tells(m, "value"@, JsonView::Text(t.value@)),
{
    let m = trailer_json(t)->Object_0;
    assert(m.contains(m[0]) && m.contains(m[1]));
}

proof fn lemma_reply(replies: Seq<StoreReply>, root: Seq<char>, i: int)
    requires
        0 <= i,
    ensures
        match reply_from(replies, root, i) {
            Some(k) => i <= k < replies.len() && same_path_spec(replies[k].root@, root),
            None => forall|j: int|
                #![trigger replies[j]]
                i <= j < replies.len() ==> !same_path_spec(replies[j].root@, root),
        },
    decreases replies.len() - i,
{
    if i < replies.len() && !same_path_spec(replies[i].root@, root) {
        lemma_reply(replies, root, i + 1);
    }
}

/// A commit that no repository was asked for, or that its repository did not answer, is
/// told as not available, under its own name.
pub proof fn a_commit_without_an_answer_is_not_available(
    requests: Seq<StoreRequest>,
    replies: Seq<StoreReply>,
    i: int,
)
    requires
        0 <= i < requests.len(),
        requests[i].store matches Some(root) ==> forall|j: int|
            #![trigger replies[j]]
            0 <= j < replies.len() ==> !same_path_spec(replies[j].root@, root@),
    ensures
        commit_answer(requests, replies, i) matches JsonView::Object(m) && tells(
            m,
            "commit"@,
            JsonView::Text(requests[i].commit@),
        ) && tells(m, "available"@, JsonView::Bool(false)),
{
    if let Some(root) = requests[i].store {
        lemma_reply(replies, root@, 0);
    }
    let m = unavailable_json(requests[i].commit@)->Object_0;
    assert(m.contains(m[0]) && m.contains(m[1]));
}

/// A step of a history is told with its commit, when and by whom it was made, its message
/// and what became of the file.
pub proof fn a_step_of_a_history_is_told_whole(v: Seq<HistoryRecord>, i: int)
    requires
        0 <= i < v.len(),
    ensures
        history_list(v) matches JsonView::List(l) && l.len() == v.len() && (l[i] matches JsonView::Object(
            m,
        ) && {
            &&& tells(m, "commit"@, JsonView::Text(v[i].commit@))
            &&& tells(m, "timestamp"@, int_json(v[i].timestamp as int))
            &&& tells(m, "author"@, JsonView::Text(v[i].author@))
            &&& tells(m, "message"@, JsonView::Text(v[i].message@))
            &&& tells(m, "status"@, JsonView::Text(v[i].status@))
            &&& v[i].from matches Some(f) ==> tells(m, "from"@, JsonView::Text(f@))
            &&& v[i].from is None ==> m.len() == 5
        }),
{
    let r = v[i];
    let m = history_members(r);
    assert(m.contains(m[0]) && m.contains(m[1]) && m.contains(m[2]) && m.contains(m[3])
        && m.contains(m[4]));
    if r.from is Some {
        assert(m.contains(m[5]));
    }
}

/// A recent commit is told with its tree and the members in it, its author, its subject,
/// the files that it changed and its trailers.
pub proof fn a_recent_commit_is_told_whole(c: RecentCommit)
    ensures
        row_json(c) matches JsonView::Object(m) && {
            &&& tells(m, "commit"@, JsonView::Text(c.commit@))
            &&& tells(m, "tree"@, JsonView::Text(c.tree@))
            &&& tells(m, "members"@, text_list(views(c.members@)))
            &&& tells(m, "timestamp"@, int_json(c.timestamp as int))
            &&& tells(m, "subject"@, JsonView::Text(c.subject@))
            &&& tells(m, "changed_files"@, changed_list(c.changed_files@))
            &&& tells(m, "trailers"@, trailer_list(c.trailers@))
            &&& exists|a: Seq<(Seq<char>, JsonView)>| #[trigger]
                tells(m, "author"@, JsonView::Object(a)) && tells(
                    a,
                    "name"@,
                    JsonView::Text(c.author_name@),
                ) && tells(a, "email"@, JsonView::Text(c.author_email@))
        },
{
    let m = row_json(c)->Object_0;
    assert(m.contains(m[0]) && m.contains(m[1]) && m.contains(m[2]) && m.contains(m[3])
        && m.contains(m[4]) && m.contains(m[5]) && m.contains(m[6]) && m.contains(m[7]));
    let a = m[3].1->Object_0;
    assert(a.contains(a[0]) && a.contains(a[1]));
    assert(tells(m, "author"@, JsonView::Object(a)));
}

/// A changed file is told with its path, what became of it, and where it was before.
pub proof fn a_changed_file_is_told_whole(v: Seq<ChangedFile>, i: int)
    requires
        0 <= i < v.len(),
    ensures
        changed_list(v) matches JsonView::List(l) && l.len() == v.len() && (l[i] matches JsonView::Object(
            m,
        ) && {
            &&& tells(m, "path"@, JsonView::Text(v[i].path@))
            &&& tells(m, "status"@, JsonView::Text(v[i].status@))
            &&& v[i].from matches Some(f) ==> tells(m, "from"@, JsonView::Text(f@))
            &&& v[i].from is None ==> m.len() == 2
        }),
{
    let m = changed_json(v[i])->Object_0;
    assert(m.contains(m[0]) && m.contains(m[1]));
    if v[i].from is Some {
        assert(m.contains(m[2]));
    }
}

/// A tree that moved is logged again, and no other.
pub proof fn a_tree_is_found_by_its_path(trees: Seq<TreeLog>, path: Seq<char>, i: int)
    requires
        0 <= i,
    ensures
        match tree_from(trees, path, i) {
            Some(k) => i <= k < trees.len() && same_path_spec(trees[k].tree@, path),
            None => forall|k: int|
                #![trigger trees[k]]
                i <= k < trees.len() ==> !same_path_spec(trees[k].tree@, path),
        },
    decreases trees.len() - i,
{
    if i < trees.len() && !same_path_spec(trees[i].tree@, path) {
        a_tree_is_found_by_its_path(trees, path, i + 1);
    }
}

/// New commits are told as rows, under the name of their channel.
pub proof fn new_commits_are_told_as_rows(rows: Seq<RecentCommit>, i: int)
    requires
        0 <= i < rows.len(),
    ensures
        row_list(rows) matches JsonView::List(l) && l.len() == rows.len() && l[i] == row_json(
            rows[i],
        ) && (appeared_hint(l) matches JsonView::Object(m) && tells(
            m,
            "scope"@,
            JsonView::Text("recent_commits"@),
        ) && tells(m, "commits"@, JsonView::List(l))),
{
    let l = row_list(rows)->List_0;
    let m = appeared_hint(l)->Object_0;
    assert(m.contains(m[0]) && m.contains(m[1]));
}

/// The answers to a read of commits come one for each, in the order in which they were asked
/// for.
pub proof fn each_commit_is_answered_in_its_place(
    requests: Seq<StoreRequest>,
    replies: Seq<StoreReply>,
    i: int,
    s: int,
)
    requires
        0 <= i < requests.len(),
        requests[i].store is Some,
        0 <= s < replies.len(),
        same_path_spec(replies[s].root@, requests[i].store->0@),
        forall|j: int|
            #![trigger replies[j]]
            0 <= j < s ==> !same_path_spec(replies[j].root@, requests[i].store->0@),
        asked_of(requests, requests[i].store->0@, i).len() < replies[s].records@.len(),
    ensures
        commit_answers(requests, replies).len() == requests.len(),
        commit_answers(requests, replies)[i] == JsonView::Object(
            commit_members(
                replies[s].records@[asked_of(requests, requests[i].store->0@, i).len() as int],
            ),
        ),
{
    lemma_first_reply(replies, requests[i].store->0@, 0, s);
}

proof fn lemma_first_reply(replies: Seq<StoreReply>, root: Seq<char>, i: int, k: int)
    requires
        0 <= i <= k < replies.len(),
        same_path_spec(replies[k].root@, root),
        forall|j: int| #![trigger replies[j]] i <= j < k ==> !same_path_spec(replies[j].root@, root),
    ensures
        reply_from(replies, root, i) == Some(k),
    decreases k - i,
{
    if i < k {
        let here = replies[i];
        lemma_first_reply(replies, root, i + 1, k);
    }
}

} // verus!
