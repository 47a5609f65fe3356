//! What the refactors share: the repo that they stay in, the files that they
//! touch, and the checks before they write.

use crate::graph::nodes::ints;
use crate::model::{find_inbound, inbound, owner, repo_of, Backlink, KnowledgeBase, Repo};
use crate::mutation::referrers::{
    any_blocked, is_blocking, refuses_consumed, referrers_not_written, reject_if_consumed_referrers,
    unwritten, written, written_referrers, Blocking, Referrer,
};
use crate::paths::{holds_path, lists_path, same_path, same_path_spec};
use crate::saga::plan::Reject;
use crate::text::{joined, views};
use vstd::prelude::*;

verus! {

/// The repo that owns both paths, or why there is none: `escapes` when a path has
/// no owner, `crosses` when the owners differ.
pub open spec fn shared_repo(
    repos: Seq<Repo>,
    a: Seq<char>,
    b: Seq<char>,
    escapes: Seq<char>,
    crosses: Seq<char>,
) -> Result<int, Seq<char>> {
    match (owner(repos, a), owner(repos, b)) {
        (Some(i), Some(j)) => if same_path_spec(repos[i].root@, repos[j].root@) {
            Ok(i)
        } else {
            Err(crosses)
        },
        _ => Err(escapes),
    }
}

pub fn same_repo(repos: &Vec<Repo>, a: &str, b: &str, escapes: &str, crosses: &str) -> (r: Result<
    usize,
    String,
>)
    ensures
        match r {
            Ok(i) => i < repos@.len() && shared_repo(repos@, a@, b@, escapes@, crosses@) == Ok::<
                int,
                Seq<char>,
            >(i as int),
            Err(m) => shared_repo(repos@, a@, b@, escapes@, crosses@) == Err::<int, Seq<char>>(m@),
        },
{
    match (repo_of(repos, a), repo_of(repos, b)) {
        (Some(i), Some(j)) => if same_path(repos[i].root.as_str(), repos[j].root.as_str()) {
            Ok(i)
        } else {
            Err(crosses.to_owned())
        },
        _ => Err(escapes.to_owned()),
    }
}

/// The references that reach a path.
pub fn links_to<'a>(kb: &'a KnowledgeBase, path: &str) -> (r: Option<&'a Vec<Backlink>>)
    ensures
        match r {
            Some(v) => inbound(kb.backlinks@, path@) == v@,
            None => inbound(kb.backlinks@, path@) == Seq::<Backlink>::empty(),
        },
{
    match find_inbound(&kb.backlinks, path) {
        Some(i) => Some(&kb.backlinks[i].edges),
        None => None,
    }
}

/// All positions below `n`.
pub open spec fn everything(n: nat) -> Seq<int> {
    Seq::new(n, |i: int| i)
}

pub fn all_positions(n: usize) -> (r: Vec<usize>)
    ensures
        ints(r@) == everything(n as nat),
        forall|k: int| #![trigger r@[k]] 0 <= k < r@.len() ==> r@[k] < n,
{
    let mut r: Vec<usize> = Vec::new();
    for i in 0..n
        invariant
            r@.len() == i,
            forall|k: int| #![trigger r@[k]] 0 <= k < i ==> r@[k] == k,
    {
        r.push(i);
    }
    assert(ints(r@) =~= everything(n as nat));
    r
}

/// Whether a path is among these.
pub open spec fn among(paths: Seq<Seq<char>>, path: Seq<char>) -> bool {
    exists|k: int| 0 <= k < paths.len() && same_path_spec(#[trigger] paths[k], path)
}

proof fn lists_among(v: Seq<String>, path: Seq<char>)
    ensures
        holds_path(v, path) == among(views(v), path),
{
    if holds_path(v, path) {
        let k = choose|k: int| 0 <= k < v.len() && same_path_spec(#[trigger] v[k]@, path);
        assert(same_path_spec(views(v)[k], path));
    }
    if among(views(v), path) {
        let k = choose|k: int|
            0 <= k < views(v).len() && same_path_spec(#[trigger] views(v)[k], path);
        assert(same_path_spec(v[k]@, path));
    }
}

/// The paths of the first `n` referrers that are not among `skip`.
pub open spec fn other_paths(rs: Seq<Referrer>, skip: Seq<Seq<char>>, n: int) -> Seq<Seq<char>>
    decreases n,
{
    if n <= 0 {
        Seq::empty()
    } else if among(skip, rs[n - 1].path@) {
        other_paths(rs, skip, n - 1)
    } else {
        other_paths(rs, skip, n - 1).push(rs[n - 1].path@)
    }
}

/// The files that a refactor touches: its own first, then the referrers that are
/// not among `skip`.
fn touched_paths(primary: Vec<String>, skip: &Vec<String>, rs: &Vec<Referrer>) -> (r: Vec<String>)
    ensures
        views(r@) == views(primary@) + other_paths(rs@, views(skip@), rs@.len() as int),
{
    let mut r = primary;
    assert(views(primary@) + Seq::<Seq<char>>::empty() =~= views(primary@));
    for i in 0..rs.len()
        invariant
            views(r@) == views(primary@) + other_paths(rs@, views(skip@), i as int),
    {
        let listed = lists_path(skip, rs[i].path.as_str());
        proof {
            lists_among(skip@, rs@[i as int].path@);
        }
        if !listed {
            let ghost before = r@;
            r.push(rs[i].path.clone());
            assert(views(r@) =~= views(before).push(rs@[i as int].path@));
            assert(views(r@) =~= views(primary@) + other_paths(rs@, views(skip@), i + 1));
        }
    }
    r
}

/// The files that a refactor is about.
#[derive(Debug)]
pub enum Refactored {
    /// What is at `from`, or a record of it, goes to `to`.
    Moved { from: String, to: String },
    /// `file` becomes a record of `into`.
    Folded { file: String, into: String },
    /// Something in `host` is renamed where it is.
    InPlace { host: String },
}

/// The files that a refactor touches whoever references them, in their order.
pub open spec fn own_files(r: Refactored) -> Seq<Seq<char>> {
    match r {
        Refactored::Moved { from, to } => seq![from@, to@],
        Refactored::Folded { file, into } => seq![into@, file@],
        Refactored::InPlace { host } => seq![host@],
    }
}

/// The files whose own references a refactor does not count as a referrer's: what it
/// moves is not among its referrers twice, and neither is a host.
pub open spec fn set_aside(r: Refactored) -> Seq<Seq<char>> {
    match r {
        Refactored::Moved { from, .. } => seq![from@],
        _ => own_files(r),
    }
}

/// The own files of a refactor, and those that are set aside among its referrers.
fn refactored_files(r: Refactored) -> (files: (Vec<String>, Vec<String>))
    ensures
        views(files.0@) == own_files(r),
        views(files.1@) == set_aside(r),
{
    let mut own: Vec<String> = Vec::new();
    let mut aside: Vec<String> = Vec::new();
    match &r {
        Refactored::Moved { from, to } => {
            own.push(from.clone());
            own.push(to.clone());
            aside.push(from.clone());
        },
        Refactored::Folded { file, into } => {
            own.push(into.clone());
            own.push(file.clone());
            aside.push(into.clone());
            aside.push(file.clone());
        },
        Refactored::InPlace { host } => {
            own.push(host.clone());
            aside.push(host.clone());
        },
    }
    proof {
        assert(views(own@) =~= own_files(r));
        assert(views(aside@) =~= set_aside(r));
    }
    (own, aside)
}

/// What a refactor touches, and which of it the clean check leaves out.
#[derive(Debug)]
pub struct RefactorScope {
    pub touched: Vec<String>,
    pub exempt: Vec<String>,
}

/// What a refactor touches. It is refused when a referrer that it would write
/// lives in a repo which may not be written. `rewrites` says of each referrer
/// whether its content would change.
pub fn scope_refactor(
    repos: &Vec<Repo>,
    about: Refactored,
    rs: &Vec<Referrer>,
    rewrites: &Vec<Option<bool>>,
) -> (r: Result<RefactorScope, Reject>)
    requires
        rewrites@.len() == rs@.len(),
    ensures
        r is Err == any_blocked(repos@, written(rs@, rewrites@, rs@.len() as int)),
        match r {
            Ok(s) => {
                &&& views(s.touched@) == own_files(about) + other_paths(
                    rs@,
                    set_aside(about),
                    rs@.len() as int,
                )
                &&& s.exempt@ == unwritten(rs@, rewrites@, rs@.len() as int)
            },
            Err(reject) => exists|bs: Seq<Blocking>|
                #[trigger] is_blocking(bs, repos@, written(rs@, rewrites@, rs@.len() as int))
                    && refuses_consumed(reject, bs),
        },
{
    let exempt = referrers_not_written(rs, rewrites);
    let writes = written_referrers(rs, rewrites);
    match reject_if_consumed_referrers(repos, &writes) {
        Some(reject) => Err(reject),
        None => {
            let (own, aside) = refactored_files(about);
            Ok(RefactorScope { touched: touched_paths(own, &aside, rs), exempt })
        },
    }
}

proof fn others_hold(rs: Seq<Referrer>, skip: Seq<Seq<char>>, n: int, i: int)
    requires
        0 <= i < n <= rs.len(),
        !among(skip, rs[i].path@),
    ensures
        other_paths(rs, skip, n).contains(rs[i].path@),
    decreases n,
{
    let before = other_paths(rs, skip, n - 1);
    let after = other_paths(rs, skip, n);
    if i == n - 1 {
        assert(after[before.len() as int] == rs[i].path@);
    } else {
        others_hold(rs, skip, n - 1, i);
        let k = choose|k: int| 0 <= k < before.len() && before[k] == rs[i].path@;
        assert(after[k] == rs[i].path@);
    }
}

/// Whatever a refactor is about, it touches its own files and the file of each of its
/// referrers: nothing that it may rewrite is left out of its commits.
pub proof fn every_referrer_is_touched(about: Refactored, rs: Seq<Referrer>, i: int)
    requires
        0 <= i < rs.len(),
    ensures
        among(
            own_files(about) + other_paths(rs, set_aside(about), rs.len() as int),
            rs[i].path@,
        ),
{
    let own = own_files(about);
    let aside = set_aside(about);
    let others = other_paths(rs, aside, rs.len() as int);
    let path = rs[i].path@;
    if among(aside, path) {
        let k = choose|k: int| 0 <= k < aside.len() && same_path_spec(#[trigger] aside[k], path);
        assert(aside[k] == own[k]);
        assert((own + others)[k] == own[k]);
    } else {
        others_hold(rs, aside, rs.len() as int, i);
        let k = choose|k: int| 0 <= k < others.len() && others[k] == path;
        assert((own + others)[own.len() + k] == path);
        assert(same_path_spec(path, path));
    }
}

/// Why a referrer cannot be rewritten: it cannot be read, or it is not what the
/// engine last read.
pub open spec fn referrer_refusal(
    path: Seq<char>,
    held: Option<Seq<char>>,
    read: Result<Seq<char>, Seq<char>>,
) -> Option<Seq<char>> {
    match read {
        Err(e) => Some("cannot read referrer "@ + path + ": "@ + e),
        Ok(digest) => if held == Some(digest) {
            None
        } else {
            Some(
                "referrer "@ + path
                    + " changed since the engine last read it — wait for the rebuild and retry"@,
            )
        },
    }
}

pub open spec fn read_view(read: Result<String, String>) -> Result<Seq<char>, Seq<char>> {
    match read {
        Ok(d) => Ok(d@),
        Err(e) => Err(e@),
    }
}

/// Whether a referrer may be rewritten: `read` is the digest of what is on disk,
/// or why it cannot be read. The places to rewrite come from what the engine last
/// read, so the file must still be that.
pub fn check_referrer(path: &str, held: &Option<String>, read: &Result<String, String>) -> (r: Result<
    (),
    Reject,
>)
    ensures
        match referrer_refusal(path@, crate::text::opt_view(*held), read_view(*read)) {
            None => r is Ok,
            Some(m) => r matches Err(reject) && reject.message@ == m && reject.detail is None,
        },
{
    match read {
        Err(e) => {
            let mut m = joined("cannot read referrer ", path);
            m.append(": ");
            m.append(e.as_str());
            Err(Reject::new(m))
        },
        Ok(digest) => {
            let current = match held {
                Some(h) => crate::text::same(h.as_str(), digest.as_str()),
                None => false,
            };
            if current {
                Ok(())
            } else {
                let mut m = joined("referrer ", path);
                m.append(
                    " changed since the engine last read it — wait for the rebuild and retry",
                );
                Err(Reject::new(m))
            }
        },
    }
}

/// Whether a file that the mutation is about is still what the engine last read.
pub fn check_unchanged(path: &str, what: &str, held: &Option<String>, read: &Result<String, String>) -> (r:
    Result<(), Reject>)
    ensures
        match read_view(*read) {
            Err(e) => r matches Err(reject) && reject.message@ == "cannot read "@ + path@ + ": "@ + e
                && reject.detail is None,
            Ok(digest) => if crate::text::opt_view(*held) == Some(digest) {
                r is Ok
            } else {
                r matches Err(reject) && reject.message@ == "the "@ + what@
                    + " changed since the engine last read it — wait for the rebuild and retry"@
                    && reject.detail is None
            },
        },
{
    match read {
        Err(e) => {
            let mut m = joined("cannot read ", path);
            m.append(": ");
            m.append(e.as_str());
            Err(Reject::new(m))
        },
        Ok(digest) => {
            let current = match held {
                Some(h) => crate::text::same(h.as_str(), digest.as_str()),
                None => false,
            };
            if current {
                Ok(())
            } else {
                let mut m = joined("the ", what);
                m.append(
                    " changed since the engine last read it — wait for the rebuild and retry",
                );
                Err(Reject::new(m))
            }
        },
    }
}

} // verus!
