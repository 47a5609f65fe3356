//! Which files a mutation commits, where, and under which names.

use crate::model::{owner, Repo};
use crate::paths::{below, joined_path, same_path_spec};
use crate::saga::commit::{
    by_name, covered, moves_from, name_place, named_commits, onto_tree, repo_commits, TreeMoves,
};
use crate::saga::machine::{
    after, paths_taken, sentinel_name, start, uncovered, Phase, ReplyView, SagaState, Step,
};
use crate::saga::marker::{failure_text, git_trees, marked};
use crate::saga::plan::{checked_upto, touched_upto, Reject, SagaMember, SagaPlan};
use crate::saga::recovery::{
    failure_file, failures_in, recovered_from, reply_error, stuck_roots, undone_roots, RunFile,
    TreeReply,
};
use crate::saga::trees::{
    is_coalesced, is_member, owned_at, rebased, repos_at, tree_of, tree_paths, RepoPaths,
};
use crate::text::{after_prefix, lemma_text_le_total, lemma_text_le_transitive, text_le, views};
use vstd::prelude::*;

verus! {

proof fn lemma_in_concat<A>(a: Seq<A>, b: Seq<A>, x: A)
    ensures
        (a + b).contains(x) <==> a.contains(x) || b.contains(x),
{
    if a.contains(x) {
        let k = choose|k: int| 0 <= k < a.len() && a[k] == x;
        assert((a + b)[k] == x);
    }
    if b.contains(x) {
        let k = choose|k: int| 0 <= k < b.len() && b[k] == x;
        assert((a + b)[a.len() + k] == x);
    }
    if (a + b).contains(x) {
        let k = choose|k: int| 0 <= k < (a + b).len() && (a + b)[k] == x;
        if k < a.len() {
            assert(a[k] == x);
        } else {
            assert(b[k - a.len()] == x);
        }
    }
}

proof fn lemma_in_push<A>(a: Seq<A>, y: A, x: A)
    ensures
        a.push(y).contains(x) <==> a.contains(x) || x == y,
{
    assert(a.push(y) =~= a + seq![y]);
    lemma_in_concat(a, seq![y], x);
    assert(seq![y][0] == y);
}

/// The repos that a mutation commits are those of its members under git, and those that git
/// does not cover are the others.
pub proof fn a_member_is_committed_where_git_covers_it(plan: SagaPlan, n: int, name: Seq<char>)
    requires
        0 <= n <= plan.members@.len(),
    ensures
        covered(plan, n).contains(name) <==> exists|m: int|
            0 <= m < n && (#[trigger] plan.members@[m]).git && views(
                plan.members@[m].repo_names@,
            ).contains(name),
        uncovered(plan, n).contains(name) <==> exists|m: int|
            0 <= m < n && !(#[trigger] plan.members@[m]).git && views(
                plan.members@[m].repo_names@,
            ).contains(name),
    decreases n,
{
    if n > 0 {
        a_member_is_committed_where_git_covers_it(plan, n - 1, name);
        let here = plan.members@[n - 1];
        lemma_in_concat(covered(plan, n - 1), views(here.repo_names@), name);
        lemma_in_concat(uncovered(plan, n - 1), views(here.repo_names@), name);
    }
}

/// A refactor that touches a repo without git is refused before anything is done; any other
/// mutation begins.
pub proof fn a_refactor_needs_git_everywhere(plan: SagaPlan, m: int)
    requires
        0 <= m < plan.members@.len(),
        !plan.members@[m].git,
        plan.members@[m].repo_names@.len() > 0,
    ensures
        start(plan, true).phase == Phase::Done,
        start(plan, true).reject is Some,
        start(plan, false).reject is None,
{
    let name = plan.members@[m].repo_names@[0]@;
    let n = plan.members@.len() as int;
    assert(views(plan.members@[m].repo_names@)[0] == name);
    a_member_is_committed_where_git_covers_it(plan, n, name);
    assert(uncovered(plan, n).contains(name));
}

/// A mutation whose repos all have git begins, refactor or not.
pub proof fn a_refactor_under_git_begins(plan: SagaPlan)
    requires
        forall|m: int| #![trigger plan.members@[m]] 0 <= m < plan.members@.len() ==> plan.members@[m].git,
    ensures
        start(plan, true).reject is None,
        start(plan, true) == start(plan, false),
{
    let n = plan.members@.len() as int;
    let names = uncovered(plan, n);
    if names.len() > 0 {
        a_member_is_committed_where_git_covers_it(plan, n, names[0]);
        assert(names.contains(names[0]));
    }
}

/// Every repo of a member that landed is answered with the member's commit.
pub proof fn a_repo_is_answered_with_the_commit_of_its_member(
    plan: SagaPlan,
    landed: Seq<(int, Seq<char>)>,
    name: Seq<char>,
    sha: Seq<char>,
)
    requires
        forall|k: int| #![trigger landed[k]] 0 <= k < landed.len() ==> 0 <= landed[k].0 < plan.members@.len(),
    ensures
        repo_commits(plan, landed).contains((name, sha)) <==> exists|k: int|
            0 <= k < landed.len() && (#[trigger] landed[k]).1 == sha && views(
                plan.members@[landed[k].0].repo_names@,
            ).contains(name),
    decreases landed.len(),
{
    if landed.len() > 0 {
        let front = landed.drop_last();
        let last = landed.last();
        assert forall|k: int| #![trigger front[k]] 0 <= k < front.len() implies 0 <= front[k].0
            < plan.members@.len() by {
            assert(front[k] == landed[k]);
        }
        a_repo_is_answered_with_the_commit_of_its_member(plan, front, name, sha);
        let names = plan.members@[last.0].repo_names@;
        let here = named_commits(names, last.1);
        lemma_in_concat(repo_commits(plan, front), here, (name, sha));
        if here.contains((name, sha)) {
            let j = choose|j: int| 0 <= j < here.len() && here[j] == (name, sha);
            assert(views(names)[j] == name);
            assert(landed[landed.len() - 1].1 == sha);
        }
        if last.1 == sha && views(names).contains(name) {
            let j = choose|j: int| 0 <= j < views(names).len() && views(names)[j] == name;
            assert(here[j] == (name, sha));
        }
        assert(forall|k: int| #![trigger landed[k]] 0 <= k < front.len() ==> landed[k] == front[k]);
        if repo_commits(plan, front).contains((name, sha)) {
            let k = choose|k: int|
                0 <= k < front.len() && (#[trigger] front[k]).1 == sha && views(
                    plan.members@[front[k].0].repo_names@,
                ).contains(name);
            assert(landed[k] == front[k]);
        }
    }
}

/// Whether the names are in order.
pub open spec fn names_ascend(v: Seq<(Seq<char>, Seq<char>)>) -> bool {
    forall|i: int, j: int|
        #![trigger v[i], v[j]]
        0 <= i < j < v.len() ==> text_le(v[i].0, v[j].0)
}

proof fn lemma_place(v: Seq<(Seq<char>, Seq<char>)>, name: Seq<char>, i: int)
    requires
        0 <= i <= v.len(),
    ensures
        ({
            let at = name_place(v, name, i);
            &&& i <= at <= v.len()
            &&& forall|k: int| #![trigger v[k]] i <= k < at ==> text_le(v[k].0, name)
            &&& at < v.len() ==> text_le(name, v[at].0)
        }),
    decreases v.len() - i,
{
    if i < v.len() && !text_le(name, v[i].0) {
        lemma_text_le_total(name, v[i].0);
        lemma_place(v, name, i + 1);
    }
}

/// The commits are answered in the order of the repos' names, and all of them.
pub proof fn commits_are_put_in_order_and_kept(v: Seq<(Seq<char>, Seq<char>)>)
    ensures
        by_name(v).to_multiset() == v.to_multiset(),
        by_name(v).len() == v.len(),
        names_ascend(by_name(v)),
    decreases v.len(),
{
    if v.len() > 0 {
        let rest = v.drop_first();
        commits_are_put_in_order_and_kept(rest);
        let sorted = by_name(rest);
        lemma_place(sorted, v[0].0, 0);
        let at = name_place(sorted, v[0].0, 0);
        let now = sorted.insert(at, v[0]);
        vstd::seq_lib::to_multiset_insert(sorted, at, v[0]);
        assert(rest.insert(0, v[0]) =~= v);
        vstd::seq_lib::to_multiset_insert(rest, 0, v[0]);
        assert forall|i: int, j: int|
            #![trigger now[i], now[j]]
            0 <= i < j < now.len() implies text_le(now[i].0, now[j].0) by {
            if j == at {
                assert(now[i] == sorted[i]);
            } else if i == at {
                assert(now[j] == sorted[j - 1]);
                if j - 1 > at {
                    assert(text_le(sorted[at].0, sorted[j - 1].0));
                    lemma_text_le_transitive(v[0].0, sorted[at].0, sorted[j - 1].0);
                }
            } else {
                let a = if i < at {
                    i
                } else {
                    i - 1
                };
                let b = if j < at {
                    j
                } else {
                    j - 1
                };
                assert(now[i] == sorted[a] && now[j] == sorted[b]);
            }
        }
    }
}

/// The moves of a commit are those recorded for its tree, and none of another's.
pub proof fn a_commit_tells_the_moves_of_its_tree(
    moves: Seq<TreeMoves>,
    root: Seq<char>,
    i: int,
    k: int,
)
    requires
        0 <= i <= k < moves.len(),
        same_path_spec(moves[k].tree@, root),
        forall|j: int| #![trigger moves[j]] i <= j < k ==> !same_path_spec(moves[j].tree@, root),
    ensures
        moves_from(moves, root, i) == moves[k].records@,
    decreases k - i,
{
    if i < k {
        let here = moves[i];
        a_commit_tells_the_moves_of_its_tree(moves, root, i + 1, k);
    }
}

/// A commit of a tree without moves tells none.
pub proof fn a_commit_tells_no_moves_of_other_trees(moves: Seq<TreeMoves>, root: Seq<char>, i: int)
    requires
        0 <= i,
        forall|j: int|
            #![trigger moves[j]]
            i <= j < moves.len() ==> !same_path_spec(moves[j].tree@, root),
    ensures
        moves_from(moves, root, i).len() == 0,
    decreases moves.len() - i,
{
    if i < moves.len() {
        let here = moves[i];
        a_commit_tells_no_moves_of_other_trees(moves, root, i + 1);
    }
}

/// A path of a repo is told as the tree has it: below the tree where it lies there.
pub proof fn a_move_is_told_below_its_tree(repo_root: Seq<char>, tree: Seq<char>, rel: Seq<char>)
    ensures
        below(joined_path(repo_root, rel), tree) matches Some(p) ==> onto_tree(
            repo_root,
            tree,
            rel,
        ) == p,
        below(joined_path(repo_root, rel), tree) is None ==> onto_tree(repo_root, tree, rel) == rel,
{
}

/// The targets of a repo are those that it owns.
pub proof fn a_repo_gets_the_targets_that_it_owns(
    repos: Seq<Repo>,
    targets: Seq<String>,
    root: Seq<char>,
    n: int,
    t: String,
)
    requires
        0 <= n <= targets.len(),
    ensures
        owned_at(repos, targets, root, n).contains(t) <==> exists|j: int|
            0 <= j < n && (#[trigger] targets[j]) == t && (owner(repos, t@) matches Some(i)
                && same_path_spec(repos[i].root@, root)),
    decreases n,
{
    if n > 0 {
        a_repo_gets_the_targets_that_it_owns(repos, targets, root, n - 1, t);
        let here = targets[n - 1];
        lemma_in_push(owned_at(repos, targets, root, n - 1), here, t);
    }
}

proof fn lemma_rebased(paths: Seq<String>, root: Seq<char>, rel: Seq<char>)
    ensures
        rebased(paths, root).contains(rel) <==> exists|k: int|
            0 <= k < paths.len() && below((#[trigger] paths[k])@, root) == Some(rel),
    decreases paths.len(),
{
    if paths.len() > 0 {
        let front = paths.drop_last();
        lemma_rebased(front, root, rel);
        assert(forall|k: int| #![trigger paths[k]] 0 <= k < front.len() ==> paths[k] == front[k]);
        if let Some(r) = below(paths.last()@, root) {
            lemma_in_push(rebased(front, root), r, rel);
        }
        if rebased(front, root).contains(rel) {
            let k = choose|k: int|
                0 <= k < front.len() && below((#[trigger] front[k])@, root) == Some(rel);
            assert(paths[k] == front[k]);
        }
        assert(paths[paths.len() - 1] == paths.last());
    }
}

proof fn lemma_tree_paths(by_repo: Seq<RepoPaths>, at: Seq<int>, root: Seq<char>, rel: Seq<char>)
    ensures
        tree_paths(by_repo, at, root).contains(rel) <==> exists|k: int|
            0 <= k < at.len() && rebased(by_repo[#[trigger] at[k]].paths@, root).contains(rel),
    decreases at.len(),
{
    if at.len() > 0 {
        let front = at.drop_last();
        lemma_tree_paths(by_repo, front, root, rel);
        lemma_in_concat(
            tree_paths(by_repo, front, root),
            rebased(by_repo[at.last()].paths@, root),
            rel,
        );
        assert(forall|k: int| #![trigger at[k]] 0 <= k < front.len() ==> at[k] == front[k]);
        if tree_paths(by_repo, front, root).contains(rel) {
            let k = choose|k: int|
                0 <= k < front.len() && rebased(by_repo[#[trigger] front[k]].paths@, root).contains(
                    rel,
                );
            assert(at[k] == front[k]);
        }
        assert(at[at.len() - 1] == at.last());
    }
}

/// Every path of a repo is committed in the working tree that holds the repo, under its path
/// below the tree's root.
pub proof fn every_path_is_committed_in_its_tree(
    members: Seq<SagaMember>,
    by_repo: Seq<RepoPaths>,
    trees: Seq<Option<String>>,
    j: int,
    k: int,
)
    requires
        is_coalesced(members, by_repo, trees),
        0 <= j < by_repo.len() == trees.len(),
        0 <= k < by_repo[j].paths@.len(),
    ensures
        exists|m: int|
            0 <= m < members.len() && same_path_spec(
                (#[trigger] members[m]).tree_root@,
                tree_of(by_repo, trees, j)@,
            ) && (below(by_repo[j].paths@[k]@, members[m].tree_root@) matches Some(rel) ==> views(
                members[m].paths@,
            ).contains(rel)),
{
    assert(crate::saga::trees::has_member(members, by_repo, trees, j));
    let m = choose|m: int|
        #![trigger members[m]]
        0 <= m < members.len() && same_path_spec(
            members[m].tree_root@,
            tree_of(by_repo, trees, j)@,
        );
    let root = members[m].tree_root@;
    assert(is_member(members[m], by_repo, trees));
    let at = repos_at(by_repo, trees, root, by_repo.len() as int);
    crate::laws::refactors::lemma_chosen_iff(
        |j: int| same_path_spec(tree_of(by_repo, trees, j)@, root),
        by_repo.len() as int,
        j,
    );
    assert(at.contains(j));
    let q = choose|q: int| 0 <= q < at.len() && at[q] == j;
    if let Some(rel) = below(by_repo[j].paths@[k]@, root) {
        lemma_rebased(by_repo[j].paths@, root, rel);
        lemma_tree_paths(by_repo, at, root, rel);
        assert(by_repo[at[q]].paths@ == by_repo[j].paths@);
    }
}

/// A repo is committed where it has a working tree.
pub proof fn a_tree_is_that_of_the_repo(
    by_repo: Seq<RepoPaths>,
    trees: Seq<Option<String>>,
    j: int,
)
    ensures
        trees[j] matches Some(t) ==> tree_of(by_repo, trees, j) == t,
        trees[j] is None ==> tree_of(by_repo, trees, j) == by_repo[j].root,
{
}

/// The paths of a member that must be clean are all but those that are exempt.
pub proof fn every_path_that_is_not_exempt_is_checked(
    plan: SagaPlan,
    m: int,
    n: int,
    p: String,
)
    requires
        0 <= m < plan.members@.len(),
        0 <= n <= plan.members@[m].paths@.len(),
    ensures
        checked_upto(plan, m, n).contains(p) <==> exists|j: int|
            0 <= j < n && (#[trigger] plan.members@[m].paths@[j]) == p
                && !crate::paths::holds_path(
                plan.exempt_from_clean_check@,
                joined_path(plan.members@[m].tree_root@, p@),
            ),
    decreases n,
{
    if n > 0 {
        every_path_that_is_not_exempt_is_checked(plan, m, n - 1, p);
        let here = plan.members@[m].paths@[n - 1];
        lemma_in_push(checked_upto(plan, m, n - 1), here, p);
    }
}

/// A tree that carries the mutation's commit is told as reverted, one that does not as
/// restored, and one where that failed as stuck.
pub proof fn a_recovered_tree_is_told_as_what_was_done(
    trees: Seq<(Seq<char>, Seq<Seq<char>>)>,
    replies: Seq<TreeReply>,
    n: int,
    i: int,
)
    requires
        0 <= i < n <= trees.len(),
        trees.len() <= replies.len(),
    ensures
        replies[i].committed == Ok::<bool, String>(true) && replies[i].undone is None
            ==> undone_roots(trees, replies, true, n).contains(trees[i].0),
        replies[i].committed == Ok::<bool, String>(false) && replies[i].undone is None
            ==> undone_roots(trees, replies, false, n).contains(trees[i].0),
        replies[i].undone matches Some(e) ==> (replies[i].committed is Ok ==> exists|why: Seq<char>|
            #[trigger]
            stuck_roots(trees, replies, n).contains((trees[i].0, why)) && reply_error(replies[i])
                == Some(why)),
        replies[i].committed is Err ==> exists|why: Seq<char>| #[trigger]
            stuck_roots(trees, replies, n).contains((trees[i].0, why)) && reply_error(replies[i])
                == Some(why),
    decreases n,
{
    lemma_undone(trees, replies, true, n, i);
    lemma_undone(trees, replies, false, n, i);
    lemma_stuck(trees, replies, n, i);
    if let Some(why) = reply_error(replies[i]) {
        assert(stuck_roots(trees, replies, n).contains((trees[i].0, why)));
    }
}

proof fn lemma_undone(
    trees: Seq<(Seq<char>, Seq<Seq<char>>)>,
    replies: Seq<TreeReply>,
    commit: bool,
    n: int,
    i: int,
)
    requires
        0 <= i < n <= trees.len(),
        trees.len() <= replies.len(),
    ensures
        replies[i].committed == Ok::<bool, String>(commit) && replies[i].undone is None
            ==> undone_roots(trees, replies, commit, n).contains(trees[i].0),
    decreases n,
{
    let before = undone_roots(trees, replies, commit, n - 1);
    lemma_in_push(before, trees[n - 1].0, trees[i].0);
    if i < n - 1 {
        lemma_undone(trees, replies, commit, n - 1, i);
    }
}

proof fn lemma_stuck(
    trees: Seq<(Seq<char>, Seq<Seq<char>>)>,
    replies: Seq<TreeReply>,
    n: int,
    i: int,
)
    requires
        0 <= i < n <= trees.len(),
        trees.len() <= replies.len(),
    ensures
        reply_error(replies[i]) matches Some(why) ==> stuck_roots(trees, replies, n).contains(
            (trees[i].0, why),
        ),
    decreases n,
{
    let before = stuck_roots(trees, replies, n - 1);
    if let Some(why) = reply_error(replies[i]) {
        if let Some(e) = reply_error(replies[n - 1]) {
            lemma_in_push(before, (trees[n - 1].0, e), (trees[i].0, why));
        }
        if i < n - 1 {
            lemma_stuck(trees, replies, n - 1, i);
        }
    }
}

/// A recorded failure is told under the id of its mutation, and nothing else is.
pub proof fn a_recorded_failure_is_told_under_its_id(
    files: Seq<RunFile>,
    n: int,
    id: Seq<char>,
    detail: Seq<char>,
)
    requires
        0 <= n <= files.len(),
    ensures
        failures_in(files, n).contains((id, detail)) <==> exists|k: int|
            0 <= k < n && after_prefix((#[trigger] files[k]).name@, "saga.failed."@) == Some(id)
                && files[k].body@ == detail,
    decreases n,
{
    if n > 0 {
        a_recorded_failure_is_told_under_its_id(files, n - 1, id, detail);
        let here = files[n - 1];
        if let Some(x) = after_prefix(here.name@, "saga.failed."@) {
            lemma_in_push(failures_in(files, n - 1), (x, here.body@), (id, detail));
        }
    }
}

/// A step takes the paths of its member: all of them where they are kept, probed, committed
/// or restored, and those that must be clean where that is checked.
pub proof fn a_step_takes_the_paths_of_its_member(plan: SagaPlan, m: usize, p: String)
    requires
        m < plan.members@.len(),
    ensures
        paths_taken(plan, Step::Keep(m)) == plan.members@[m as int].paths@,
        paths_taken(plan, Step::ProbeClean(m)) == plan.members@[m as int].paths@,
        paths_taken(plan, Step::Commit(m)) == plan.members@[m as int].paths@,
        paths_taken(plan, Step::Restore(m)) == plan.members@[m as int].paths@,
        paths_taken(plan, Step::Write).len() == 0,
        paths_taken(plan, Step::CheckClean(m)).contains(p) ==> plan.members@[m as int].paths@.contains(
            p,
        ),
{
    every_path_that_is_not_exempt_is_checked(
        plan,
        m as int,
        plan.members@[m as int].paths@.len() as int,
        p,
    );
}

/// A mutation that fails says why: what git or the write said, and that the rollback was
/// incomplete where it was.
pub proof fn a_failure_says_why(plan: SagaPlan, s: SagaState, i: usize, e: Seq<char>, r: Reject)
    requires
        s.errors.len() == 0,
        s.committed.len() == 0,
        plan.members@.len() > 0,
    ensures
        s.phase == Phase::Checking(i) ==> {
            &&& after(plan, s, ReplyView::Clean(Ok(false))).phase == Phase::Done
            &&& after(plan, s, ReplyView::Clean(Ok(false))).reject is Some
            &&& after(plan, s, ReplyView::Clean(Err(e))).reject == Some(
                ("git precondition failed: "@ + e, None::<crate::json::Json>),
            )
        },
        s.phase == Phase::Writing ==> {
            let now = after(plan, s, ReplyView::Written(Some((r.message@, r.detail))));
            &&& now.reject == Some((r.message@, r.detail))
            &&& now.phase == Phase::Restoring(0)
        },
        s.phase == Phase::Committing(i) ==> {
            let now = after(plan, s, ReplyView::Committed(Err(e)));
            &&& now.reject == Some(("commit failed: "@ + e, None::<crate::json::Json>))
            &&& now.phase == Phase::Restoring(0)
        },
        s.phase == Phase::Opening ==> after(plan, s, ReplyView::Opened(Some(e))).phase
            == Phase::Done,
{
}

/// A commit that landed is kept with its member, in the order in which they were made.
pub proof fn a_commit_that_landed_is_kept(plan: SagaPlan, s: SagaState, i: usize, sha: Seq<char>)
    requires
        s.phase == Phase::Committing(i),
    ensures
        after(plan, s, ReplyView::Committed(Ok(sha))).committed == s.committed.push(
            (i as int, sha),
        ),
        after(plan, s, ReplyView::Committed(Ok(sha))).reject == s.reject,
{
}

/// What could not be undone is kept with its member, and everything else is still undone.
pub proof fn what_could_not_be_undone_is_kept(plan: SagaPlan, s: SagaState, i: usize, e: Seq<char>)
    requires
        i + 1 < plan.members@.len(),
        s.phase == Phase::Restoring(i),
    ensures
        after(plan, s, ReplyView::Undone(Some(e))).errors == s.errors.push(
            (i as int, "restore failed: "@ + e),
        ),
        after(plan, s, ReplyView::Undone(Some(e))).phase == Phase::Restoring((i + 1) as usize),
        after(plan, s, ReplyView::Undone(None)).errors == s.errors,
{
}

/// A failure is recorded line by line, each with the tree and the reason.
pub proof fn a_failure_is_recorded_line_by_line(
    id: Seq<char>,
    errors: Seq<(Seq<char>, Seq<char>)>,
    root: Seq<char>,
    why: Seq<char>,
)
    ensures
        failure_text(id, errors.push((root, why))) == failure_text(id, errors) + root + seq!['\t']
            + why + seq!['\n'],
        failure_text(id, Seq::empty()) == "mutation-id="@ + id + seq!['\n'],
        sentinel_name(id) == "saga.failed."@ + id,
{
    assert(errors.push((root, why)).drop_last() =~= errors);
    assert(failure_text(id, errors.push((root, why))) =~= failure_text(id, errors) + root + seq![
        '\t',
    ] + why + seq!['\n']);
    assert(failure_text(id, Seq::empty()) =~= "mutation-id="@ + id + seq!['\n']);
}

/// The paths that a mutation touches are those of its members, below their roots.
pub proof fn a_mutation_touches_the_paths_of_its_members(plan: SagaPlan, m: int, j: int)
    requires
        0 <= m < plan.members@.len(),
        0 <= j < plan.members@[m].paths@.len(),
    ensures
        touched_upto(
            plan,
            joined_path(plan.members@[m].tree_root@, plan.members@[m].paths@[j]@),
            plan.members@.len() as int,
        ),
{
    let p = joined_path(plan.members@[m].tree_root@, plan.members@[m].paths@[j]@);
    assert(crate::saga::plan::touched(plan, p, m, j));
}

/// What a marker records are the trees under git, each with its paths.
pub proof fn a_marker_records_the_trees_under_git(
    members: Seq<SagaMember>,
    n: int,
    root: Seq<char>,
    paths: Seq<Seq<char>>,
)
    requires
        0 <= n <= members.len(),
    ensures
        git_trees(members, n).contains((root, paths)) <==> exists|m: int|
            0 <= m < n && (#[trigger] members[m]).git && members[m].tree_root@ == root && views(
                members[m].paths@,
            ) == paths,
    decreases n,
{
    if n > 0 {
        a_marker_records_the_trees_under_git(members, n - 1, root, paths);
        let here = members[n - 1];
        lemma_in_push(
            git_trees(members, n - 1),
            (here.tree_root@, views(here.paths@)),
            (root, paths),
        );
    }
}

/// A recovery tells the mutation that the marker names, the trees that it reverted and those
/// that it restored; without a marker there is nothing to recover.
pub proof fn a_recovery_is_of_the_marked_mutation(
    content: Seq<char>,
    replies: Seq<TreeReply>,
    id: Seq<char>,
    trees: Seq<(Seq<char>, Seq<Seq<char>>)>,
)
    requires
        marked(content) == Some((id, trees)),
    ensures
        recovered_from(None, replies) is None,
        recovered_from(Some(content), replies) matches Some(r) && r.0 == id && r.1 == undone_roots(
            trees,
            replies,
            true,
            trees.len() as int,
        ) && r.2 == undone_roots(trees, replies, false, trees.len() as int),
        stuck_roots(trees, replies, trees.len() as int).len() == 0 ==> failure_file(
            Some(content),
            replies,
        ) is None,
        stuck_roots(trees, replies, trees.len() as int).len() > 0 ==> failure_file(
            Some(content),
            replies,
        ) == Some(
            (
                "saga.failed."@ + id,
                failure_text(id, stuck_roots(trees, replies, trees.len() as int)),
            ),
        ),
{
}

/// A reason tells what was tried.
pub proof fn a_reason_tells_what_was_tried(r: TreeReply)
    ensures
        r.committed == Ok::<bool, String>(true) ==> (r.undone matches Some(e) ==> reply_error(r)
            == Some("revert failed: "@ + e@)) && (r.undone is None ==> reply_error(r) is None),
        r.committed == Ok::<bool, String>(false) ==> (r.undone matches Some(e) ==> reply_error(r)
            == Some("restore failed: "@ + e@)) && (r.undone is None ==> reply_error(r) is None),
        r.committed matches Err(e) ==> reply_error(r) == Some("classify failed: "@ + e@),
{
}

} // verus!
