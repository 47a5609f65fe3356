//! What git recorded of single commits and of single files.

use crate::json::{
    jv, with_opt, with_opt_text, Json, JsonView, ListBuilder, ObjectBuilder,
};
use crate::paths::{
    abs_arg, absolute, add_path, file_name, file_name_of, holds_path, is_absolute, joined_path, parent, parent_of, paths_ascend,
    same_path, same_path_spec,
};
use crate::saga::plan::CommitTrailer;
use crate::text::{
    decimal, decimal_text, escape_text, escaped, has_char, joined, joined3, opt_view, same, views,
};
use vstd::prelude::*;

verus! {

/// A whole number on the wire.
pub open spec fn int_json(n: int) -> JsonView {
    if n >= 0 {
        JsonView::Int(n as nat)
    } else {
        JsonView::Number("-"@ + decimal((-n) as nat))
    }
}

pub fn json_int(n: i64) -> (r: Json)
    ensures
        jv(r) == int_json(n as int),
{
    if n >= 0 {
        Json::Int(n as u64)
    } else {
        let size: u64 = (-(n as i128)) as u64;
        Json::Number(joined("-", decimal_text(size).as_str()))
    }
}

/// A commit that a caller asks about, in a member or in the entry repo.
#[derive(Debug)]
pub struct CommitRef {
    pub commit: String,
    pub repo: Option<String>,
}

/// A member of the workspace with its root and the working tree that covers it.
#[derive(Debug)]
pub struct MemberTree {
    pub repo: String,
    pub root: String,
    pub git_root: Option<String>,
}

/// The member with this name, searching from `i` on.
pub open spec fn member_tree_from(members: Seq<MemberTree>, name: Seq<char>, i: int) -> Option<int>
    decreases members.len() - i,
{
    if i < 0 || i >= members.len() {
        None
    } else if members[i].repo@ == name {
        Some(i)
    } else {
        member_tree_from(members, name, i + 1)
    }
}

fn find_member(members: &Vec<MemberTree>, name: &str) -> (r: Option<usize>)
    ensures
        match r {
            Some(i) => i < members@.len() && member_tree_from(members@, name@, 0) == Some(i as int),
            None => member_tree_from(members@, name@, 0) is None,
        },
{
    for i in 0..members.len()
        invariant
            member_tree_from(members@, name@, 0) == member_tree_from(members@, name@, i as int),
    {
        if same(members[i].repo.as_str(), name) {
            return Some(i);
        }
    }
    None
}

/// The first commit that spans two lines, searching from `i` on.
pub open spec fn split_commit_from(commits: Seq<CommitRef>, i: int) -> Option<Seq<char>>
    decreases commits.len() - i,
{
    if i < 0 || i >= commits.len() {
        None
    } else if commits[i].commit@.contains('\n') {
        Some(commits[i].commit@)
    } else {
        split_commit_from(commits, i + 1)
    }
}

/// Why a `commit_meta` read is refused: a commit is named on a single line.
pub fn check_commits(commits: &Vec<CommitRef>) -> (r: Option<String>)
    ensures
        opt_view(r) == (match split_commit_from(commits@, 0) {
            Some(bad) => Some(
                "commit '"@ + escaped(bad)
                    + "' contains a newline; a commit-ish is a single line"@,
            ),
            None => None,
        }),
{
    for i in 0..commits.len()
        invariant
            split_commit_from(commits@, 0) == split_commit_from(commits@, i as int),
    {
        if has_char(commits[i].commit.as_str(), '\n') {
            let shown = escape_text(commits[i].commit.as_str());
            return Some(
                joined3(
                    "commit '",
                    shown.as_str(),
                    "' contains a newline; a commit-ish is a single line",
                ),
            );
        }
    }
    None
}

/// Where a commit is looked up: in the entry repo, or in the working tree that
/// covers the named member.
pub open spec fn store_of(c: CommitRef, members: Seq<MemberTree>, entry_root: Seq<char>) -> Option<
    Seq<char>,
> {
    match c.repo {
        None => Some(entry_root),
        Some(name) => match member_tree_from(members, name@, 0) {
            Some(i) => opt_view(members[i].git_root),
            None => None,
        },
    }
}

/// A commit with the working tree that it is looked up in.
#[derive(Debug)]
pub struct StoreRequest {
    pub commit: String,
    pub store: Option<String>,
}

/// The working tree for each commit.
pub fn route_commits(commits: &Vec<CommitRef>, members: &Vec<MemberTree>, entry_root: &str) -> (r:
    Vec<StoreRequest>)
    ensures
        r@.len() == commits@.len(),
        forall|i: int|
            #![trigger r@[i]]
            0 <= i < r@.len() ==> r@[i].commit == commits@[i].commit && opt_view(r@[i].store)
                == store_of(commits@[i], members@, entry_root@),
{
    let mut out: Vec<StoreRequest> = Vec::new();
    for i in 0..commits.len()
        invariant
            out@.len() == i,
            forall|k: int|
                #![trigger out@[k]]
                0 <= k < i ==> out@[k].commit == commits@[k].commit && opt_view(out@[k].store)
                    == store_of(commits@[k], members@, entry_root@),
    {
        let store: Option<String> = match &commits[i].repo {
            None => Some(entry_root.to_owned()),
            Some(name) => match find_member(members, name.as_str()) {
                Some(m) => match &members[m].git_root {
                    Some(root) => Some(root.clone()),
                    None => None,
                },
                None => None,
            },
        };
        out.push(StoreRequest { commit: commits[i].commit.clone(), store });
    }
    out
}

/// Whether a request is looked up in this working tree.
pub open spec fn goes_to(q: StoreRequest, root: Seq<char>) -> bool {
    match q.store {
        Some(s) => same_path_spec(s@, root),
        None => false,
    }
}

fn is_for(q: &StoreRequest, root: &str) -> (r: bool)
    ensures
        r == goes_to(*q, root@),
{
    match &q.store {
        Some(s) => same_path(s.as_str(), root),
        None => false,
    }
}

/// The commits among the first `n` requests that are looked up in a working tree.
pub open spec fn asked_of(requests: Seq<StoreRequest>, root: Seq<char>, n: int) -> Seq<Seq<char>>
    decreases n,
{
    if n <= 0 {
        Seq::empty()
    } else if goes_to(requests[n - 1], root) {
        asked_of(requests, root, n - 1).push(requests[n - 1].commit@)
    } else {
        asked_of(requests, root, n - 1)
    }
}

/// The commits to look up in one working tree.
#[derive(Debug)]
pub struct StoreBatch {
    pub root: String,
    pub commits: Vec<String>,
}

fn batch_for(requests: &Vec<StoreRequest>, root: &str) -> (r: Vec<String>)
    ensures
        views(r@) == asked_of(requests@, root@, requests@.len() as int),
{
    let mut out: Vec<String> = Vec::new();
    assert(views(out@) =~= Seq::empty());
    for i in 0..requests.len()
        invariant
            views(out@) == asked_of(requests@, root@, i as int),
    {
        if is_for(&requests[i], root) {
            let c = requests[i].commit.clone();
            proof {
                crate::text::lemma_views_push(out@, c);
            }
            out.push(c);
        }
    }
    out
}

/// The roots of the batches.
pub open spec fn batch_roots(batches: Seq<StoreBatch>) -> Seq<String> {
    Seq::new(batches.len(), |i: int| batches[i].root)
}

/// Groups the requests by working tree, so that each tree that a request names is asked
/// once, and no other: the trees
/// in the order of their paths, the commits in the order of the requests.
pub fn store_batches(requests: &Vec<StoreRequest>) -> (r: Vec<StoreBatch>)
    ensures
        paths_ascend(batch_roots(r@)),
        forall|i: int|
            #![trigger requests@[i]]
            0 <= i < requests@.len() && requests@[i].store is Some ==> holds_path(
                batch_roots(r@),
                requests@[i].store->0@,
            ),
        forall|b: int|
            #![trigger r@[b]]
            0 <= b < r@.len() ==> views(r@[b].commits@) == asked_of(
                requests@,
                r@[b].root@,
                requests@.len() as int,
            ) && r@[b].commits@.len() > 0,
{
    let mut roots: Vec<String> = Vec::new();
    for i in 0..requests.len()
        invariant
            paths_ascend(roots@),
            forall|p: Seq<char>| #[trigger]
                holds_path(roots@, p) ==> asked_of(requests@, p, i as int).len() > 0,
            forall|k: int|
                #![trigger requests@[k]]
                0 <= k < i && requests@[k].store is Some ==> holds_path(
                    roots@,
                    requests@[k].store->0@,
                ),
    {
        if let Some(s) = &requests[i].store {
            let ghost before = roots@;
            add_path(&mut roots, s.clone());
            proof {
                assert(same_path_spec(s@, s@));
                assert forall|p: Seq<char>| #[trigger] holds_path(roots@, p) implies asked_of(
                    requests@,
                    p,
                    i + 1,
                ).len() > 0 by {
                    assert(holds_path(before, p) || same_path_spec(s@, p));
                    assert(goes_to(requests@[i as int], p) == same_path_spec(s@, p));
                }
                assert forall|k: int|
                    #![trigger requests@[k]]
                    0 <= k < i + 1 && requests@[k].store is Some implies holds_path(
                    roots@,
                    requests@[k].store->0@,
                ) by {
                    if k < i {
                        assert(holds_path(before, requests@[k].store->0@));
                    }
                }
            }
        }
    }
    let mut out: Vec<StoreBatch> = Vec::new();
    for b in 0..roots.len()
        invariant
            out@.len() == b,
            forall|k: int|
                #![trigger out@[k]]
                0 <= k < b ==> out@[k].root == roots@[k] && views(out@[k].commits@) == asked_of(
                    requests@,
                    out@[k].root@,
                    requests@.len() as int,
                ) && out@[k].commits@.len() > 0,
            forall|p: Seq<char>| #[trigger]
                holds_path(roots@, p) ==> asked_of(requests@, p, requests@.len() as int).len() > 0,
    {
        let commits = batch_for(requests, roots[b].as_str());
        proof {
            assert(same_path_spec(roots@[b as int]@, roots@[b as int]@));
            assert(holds_path(roots@, roots@[b as int]@));
            assert(views(commits@).len() == commits@.len());
        }
        out.push(StoreBatch { root: roots[b].clone(), commits });
    }
    assert(batch_roots(out@) =~= roots@);
    out
}

/// What git recorded of a commit.
#[derive(Debug)]
pub struct CommitRecord {
    pub commit: String,
    pub available: bool,
    pub timestamp: Option<i64>,
    pub author: Option<String>,
    pub message: Option<String>,
    pub trailers: Vec<CommitTrailer>,
}

/// What git answered for the commits of one working tree, in their order. A git
/// that failed answered nothing.
#[derive(Debug)]
pub struct StoreReply {
    pub root: String,
    pub records: Vec<CommitRecord>,
}

/// The answer of a working tree, searching from `i` on.
pub open spec fn reply_from(replies: Seq<StoreReply>, root: Seq<char>, i: int) -> Option<int>
    decreases replies.len() - i,
{
    if i < 0 || i >= replies.len() {
        None
    } else if same_path_spec(replies[i].root@, root) {
        Some(i)
    } else {
        reply_from(replies, root, i + 1)
    }
}

fn find_reply(replies: &Vec<StoreReply>, root: &str) -> (r: Option<usize>)
    ensures
        match r {
            Some(i) => i < replies@.len() && reply_from(replies@, root@, 0) == Some(i as int),
            None => reply_from(replies@, root@, 0) is None,
        },
{
    for i in 0..replies.len()
        invariant
            reply_from(replies@, root@, 0) == reply_from(replies@, root@, i as int),
    {
        if same_path(replies[i].root.as_str(), root) {
            return Some(i);
        }
    }
    None
}

/// The place of a request among those of its working tree.
pub open spec fn turn(requests: Seq<StoreRequest>, i: int) -> int {
    asked_of(requests, requests[i].store->0@, i).len() as int
}

/// The record that answers a request, if there is one: the one at its turn in the
/// answer of its working tree.
pub open spec fn record_for(requests: Seq<StoreRequest>, replies: Seq<StoreReply>, i: int) -> Option<
    CommitRecord,
> {
    match requests[i].store {
        Some(root) => match reply_from(replies, root@, 0) {
            Some(s) => if turn(requests, i) < replies[s].records@.len() {
                Some(replies[s].records@[turn(requests, i)])
            } else {
                None
            },
            None => None,
        },
        None => None,
    }
}

pub open spec fn trailer_json(t: CommitTrailer) -> JsonView {
    JsonView::Object(
        seq![("key"@, JsonView::Text(t.key@)), ("value"@, JsonView::Text(t.value@))],
    )
}

pub open spec fn trailer_list(v: Seq<CommitTrailer>) -> JsonView {
    JsonView::List(Seq::new(v.len(), |i: int| trailer_json(v[i])))
}

/// Trailer lines on the wire.
pub fn json_trailers(v: &Vec<CommitTrailer>) -> (r: Json)
    ensures
        jv(r) == trailer_list(v@),
{
    let mut list = ListBuilder::new();
    let ghost all = Seq::new(v@.len(), |i: int| trailer_json(v@[i]));
    assert(list@ =~= all.take(0));
    for i in 0..v.len()
        invariant
            all == Seq::new(v@.len(), |i: int| trailer_json(v@[i])),
            list@ == all.take(i as int),
    {
        let mut b = ObjectBuilder::new();
        b.put_text("key", v[i].key.as_str());
        b.put_text("value", v[i].value.as_str());
        assert(b@ =~= seq![
            ("key"@, JsonView::Text(v@[i as int].key@)),
            ("value"@, JsonView::Text(v@[i as int].value@)),
        ]);
        list.put(b.done());
        assert(list@ =~= all.take(i + 1));
    }
    assert(all.take(all.len() as int) =~= all);
    list.done()
}

/// A commit on the wire; what is not known of it is left out.
pub open spec fn commit_members(r: CommitRecord) -> Seq<(Seq<char>, JsonView)> {
    let head = seq![
        ("commit"@, JsonView::Text(r.commit@)),
        ("available"@, JsonView::Bool(r.available)),
    ];
    let timed = with_opt(
        head,
        "timestamp"@,
        match r.timestamp {
            Some(t) => Some(int_json(t as int)),
            None => None,
        },
    );
    with_opt_text(
        with_opt_text(timed, "author"@, opt_view(r.author)),
        "message"@,
        opt_view(r.message),
    ).push(("trailers"@, trailer_list(r.trailers@)))
}

fn commit_json(r: &CommitRecord) -> (j: Json)
    ensures
        jv(j) == JsonView::Object(commit_members(*r)),
{
    let mut b = ObjectBuilder::new();
    b.put_text("commit", r.commit.as_str());
    b.put("available", Json::Bool(r.available));
    assert(b@ =~= seq![
        ("commit"@, JsonView::Text(r.commit@)),
        ("available"@, JsonView::Bool(r.available)),
    ]);
    if let Some(t) = r.timestamp {
        b.put("timestamp", json_int(t));
    }
    b.put_opt_text("author", &r.author);
    b.put_opt_text("message", &r.message);
    b.put("trailers", json_trailers(&r.trailers));
    b.done()
}

/// A commit of which nothing is known, on the wire.
pub open spec fn unavailable_json(commit: Seq<char>) -> JsonView {
    JsonView::Object(
        seq![
            ("commit"@, JsonView::Text(commit)),
            ("available"@, JsonView::Bool(false)),
            ("trailers"@, JsonView::List(Seq::empty())),
        ],
    )
}

fn unavailable(commit: &str) -> (j: Json)
    ensures
        jv(j) == unavailable_json(commit@),
{
    let mut b = ObjectBuilder::new();
    b.put_text("commit", commit);
    b.put("available", Json::Bool(false));
    b.put("trailers", ListBuilder::new().done());
    assert(b@ =~= seq![
        ("commit"@, JsonView::Text(commit@)),
        ("available"@, JsonView::Bool(false)),
        ("trailers"@, JsonView::List(Seq::empty())),
    ]);
    b.done()
}

pub open spec fn commit_answer(requests: Seq<StoreRequest>, replies: Seq<StoreReply>, i: int) -> JsonView {
    match record_for(requests, replies, i) {
        Some(r) => JsonView::Object(commit_members(r)),
        None => unavailable_json(requests[i].commit@),
    }
}

pub open spec fn commit_answers(requests: Seq<StoreRequest>, replies: Seq<StoreReply>) -> Seq<
    JsonView,
> {
    Seq::new(requests.len(), |i: int| commit_answer(requests, replies, i))
}

fn turn_of(requests: &Vec<StoreRequest>, i: usize) -> (r: usize)
    requires
        i < requests@.len(),
        requests@[i as int].store is Some,
    ensures
        r == turn(requests@, i as int),
        r <= i,
{
    match &requests[i].store {
        Some(root) => {
            let mut n: usize = 0;
            for k in 0..i
                invariant
                    i < requests@.len(),
                    n == asked_of(requests@, root@, k as int).len(),
                    n <= k,
            {
                if is_for(&requests[k], root.as_str()) {
                    n += 1;
                }
            }
            n
        },
        None => 0,
    }
}

/// Puts the answers of the working trees back into the order of the requests, one
/// for each: a commit without a record is told as unavailable, never left out.
pub fn commit_meta(requests: &Vec<StoreRequest>, replies: &Vec<StoreReply>) -> (r: Json)
    ensures
        jv(r) == JsonView::List(commit_answers(requests@, replies@)),
{
    let mut list = ListBuilder::new();
    let ghost all = commit_answers(requests@, replies@);
    assert(list@ =~= all.take(0));
    for i in 0..requests.len()
        invariant
            all == commit_answers(requests@, replies@),
            list@ == all.take(i as int),
    {
        let answer = match &requests[i].store {
            Some(root) => {
                let k: usize = turn_of(requests, i);
                match find_reply(replies, root.as_str()) {
                    Some(s) => if k < replies[s].records.len() {
                        commit_json(&replies[s].records[k])
                    } else {
                        unavailable(requests[i].commit.as_str())
                    },
                    None => unavailable(requests[i].commit.as_str()),
                }
            },
            None => unavailable(requests[i].commit.as_str()),
        };
        list.put(answer);
        assert(list@ =~= all.take(i + 1));
    }
    assert(all.take(all.len() as int) =~= all);
    list.done()
}

/// The record that answers a request is the one at the place where its commit was
/// asked for: the batch of its working tree names the commit at its turn.
pub proof fn answers_line_up(requests: Seq<StoreRequest>, i: int, n: int)
    requires
        0 <= i < n <= requests.len(),
        requests[i].store is Some,
    ensures
        turn(requests, i) < asked_of(requests, requests[i].store->0@, n).len(),
        asked_of(requests, requests[i].store->0@, n)[turn(requests, i)] == requests[i].commit@,
    decreases n,
{
    let root = requests[i].store->0@;
    assert(goes_to(requests[i], root));
    if n - 1 > i {
        answers_line_up(requests, i, n - 1);
    }
}

/// A commit in the history of a file.
#[derive(Debug)]
pub struct HistoryRecord {
    pub commit: String,
    pub timestamp: i64,
    pub author: String,
    /// The first line of the message.
    pub message: String,
    pub status: &'static str,
    /// The path before a rename.
    pub from: Option<String>,
}

pub open spec fn history_members(r: HistoryRecord) -> Seq<(Seq<char>, JsonView)> {
    with_opt_text(
        seq![
            ("commit"@, JsonView::Text(r.commit@)),
            ("timestamp"@, int_json(r.timestamp as int)),
            ("author"@, JsonView::Text(r.author@)),
            ("message"@, JsonView::Text(r.message@)),
            ("status"@, JsonView::Text(r.status@)),
        ],
        "from"@,
        opt_view(r.from),
    )
}

pub open spec fn history_list(v: Seq<HistoryRecord>) -> JsonView {
    JsonView::List(Seq::new(v.len(), |i: int| JsonView::Object(history_members(v[i]))))
}

/// The history of a file on the wire.
pub fn file_history(v: &Vec<HistoryRecord>) -> (r: Json)
    ensures
        jv(r) == history_list(v@),
{
    let mut list = ListBuilder::new();
    let ghost all = Seq::new(v@.len(), |i: int| JsonView::Object(history_members(v@[i])));
    assert(list@ =~= all.take(0));
    for i in 0..v.len()
        invariant
            all == Seq::new(v@.len(), |i: int| JsonView::Object(history_members(v@[i]))),
            list@ == all.take(i as int),
    {
        let h = &v[i];
        let mut b = ObjectBuilder::new();
        b.put_text("commit", h.commit.as_str());
        b.put("timestamp", json_int(h.timestamp));
        b.put_text("author", h.author.as_str());
        b.put_text("message", h.message.as_str());
        b.put_text("status", h.status);
        assert(b@ =~= seq![
            ("commit"@, JsonView::Text(h.commit@)),
            ("timestamp"@, int_json(h.timestamp as int)),
            ("author"@, JsonView::Text(h.author@)),
            ("message"@, JsonView::Text(h.message@)),
            ("status"@, JsonView::Text(h.status@)),
        ]);
        b.put_opt_text("from", &h.from);
        list.put(b.done());
        assert(list@ =~= all.take(i + 1));
    }
    assert(all.take(all.len() as int) =~= all);
    list.done()
}

/// Why a `file_history` read is refused: a repo names the root of a relative path,
/// so an absolute one leaves it nothing to say.
pub fn check_history(path: &str, repo: &Option<String>) -> (r: Option<String>)
    ensures
        opt_view(r) == (if repo is Some && absolute(path@) {
            Some(
                "an absolute `path` cannot be combined with `repo`; `repo` names the root a relative `path` resolves against"@,
            )
        } else {
            None
        }),
{
    if repo.is_some() && is_absolute(path) {
        Some(
            "an absolute `path` cannot be combined with `repo`; `repo` names the root a relative `path` resolves against".to_owned(),
        )
    } else {
        None
    }
}

/// The file whose history is read: the path taken relative to the entry repo or to
/// the named member. A member that is not mounted has no files.
pub open spec fn history_path(
    path: Seq<char>,
    repo: Option<Seq<char>>,
    members: Seq<MemberTree>,
    entry_root: Seq<char>,
) -> Option<Seq<char>> {
    match repo {
        None => Some(joined_path(entry_root, path)),
        Some(name) => match member_tree_from(members, name, 0) {
            Some(i) => Some(joined_path(members[i].root@, path)),
            None => None,
        },
    }
}

pub fn history_file(
    path: &str,
    repo: &Option<String>,
    members: &Vec<MemberTree>,
    entry_root: &str,
) -> (r: Option<String>)
    ensures
        opt_view(r) == history_path(path@, opt_view(*repo), members@, entry_root@),
{
    match repo {
        None => Some(abs_arg(entry_root, path)),
        Some(name) => match find_member(members, name.as_str()) {
            Some(i) => Some(abs_arg(members[i].root.as_str(), path)),
            None => None,
        },
    }
}

/// Where git is asked for a file's history: in the file's own directory, by its
/// name. Nothing is asked for a path without either.
#[derive(Debug)]
pub struct HistoryQuery {
    pub dir: String,
    pub name: String,
}

pub fn history_query(path: &Option<String>) -> (r: Option<HistoryQuery>)
    ensures
        match (r, *path) {
            (Some(q), Some(p)) => parent_of(p@) == Some(q.dir@) && file_name_of(p@) == Some(q.name@),
            (None, Some(p)) => parent_of(p@) is None || file_name_of(p@) is None,
            (Some(_), None) => false,
            (None, None) => true,
        },
{
    match path {
        Some(p) => {
            let dir = parent(p.as_str());
            let name = file_name(p.as_str());
            match (dir, name) {
                (Some(dir), Some(name)) => Some(HistoryQuery { dir, name }),
                _ => None,
            }
        },
        None => None,
    }
}

} // verus!
