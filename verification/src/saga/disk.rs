//! What a saga leaves on disk.
//!
//! The steps of a saga are done outside, so what they do to the files is said here, and
//! what holds of a saga is shown for every world in which they do that.

use crate::saga::laws::{answers, every_saga_keeps_its_course, in_order, in_phase, run};
use crate::saga::machine::{
    after, lemma_next_bare, lemma_next_checked, lemma_next_git, next_bare, next_checked, paths_taken,
    start, state_wf, step_of, Phase, ReplyView, SagaState, Step,
};
use crate::saga::plan::{checked_upto, is_checked, needs_check, SagaPlan};
use vstd::prelude::*;

verus! {

/// What the paths of each member hold: on disk, in the last commit of the tree, in the
/// commit before that of the saga, and as the saga kept them. A path where there is no
/// file holds nothing.
#[verifier::ext_equal]
pub struct World {
    pub files: Seq<Seq<Option<Seq<u8>>>>,
    pub heads: Seq<Seq<Option<Seq<u8>>>>,
    pub bases: Seq<Seq<Option<Seq<u8>>>>,
    pub kept: Seq<Seq<Option<Seq<u8>>>>,
}

/// Whether the contents are those of the plan's members and paths.
pub open spec fn is_shaped(plan: SagaPlan, v: Seq<Seq<Option<Seq<u8>>>>) -> bool {
    &&& v.len() == plan.members@.len()
    &&& forall|m: int|
        #![trigger v[m]]
        0 <= m < v.len() ==> v[m].len() == plan.members@[m].paths@.len()
}

pub open spec fn shaped(plan: SagaPlan, w: World) -> bool {
    is_shaped(plan, w.files) && is_shaped(plan, w.heads) && is_shaped(plan, w.bases) && is_shaped(
        plan,
        w.kept,
    )
}

/// Whether a step takes the path at `j` of its member `m`.
pub open spec fn takes(plan: SagaPlan, step: Step, m: int, j: int) -> bool {
    paths_taken(plan, step).contains(plan.members@[m].paths@[j])
}

/// Whether the paths of member `m` that a step takes hold the same in both.
pub open spec fn same_taken(
    plan: SagaPlan,
    step: Step,
    m: int,
    a: Seq<Option<Seq<u8>>>,
    b: Seq<Option<Seq<u8>>>,
) -> bool {
    forall|j: int|
        #![trigger a[j]]
        #![trigger b[j]]
        0 <= j < plan.members@[m].paths@.len() && takes(plan, step, m, j) ==> a[j] == b[j]
}

/// Whether the paths of member `m` that a step does not take hold the same in both.
pub open spec fn same_besides(
    plan: SagaPlan,
    step: Step,
    m: int,
    a: Seq<Option<Seq<u8>>>,
    b: Seq<Option<Seq<u8>>>,
) -> bool {
    forall|j: int|
        #![trigger a[j]]
        #![trigger b[j]]
        0 <= j < plan.members@[m].paths@.len() && !takes(plan, step, m, j) ==> a[j] == b[j]
}

/// Whether the touched paths that the mutation does not write, and which are therefore
/// not asked about, are clean where git covers them.
pub open spec fn unwritten_are_clean(plan: SagaPlan, w: World) -> bool {
    forall|m: int, j: int|
        #![trigger w.files[m][j]]
        #![trigger w.heads[m][j]]
        0 <= m < plan.members@.len() && 0 <= j < plan.members@[m].paths@.len()
            && plan.members@[m].git && !is_checked(plan, m, j) ==> w.files[m][j] == w.heads[m][j]
}

/// Whether only member `m` differs.
pub open spec fn only_at(
    a: Seq<Seq<Option<Seq<u8>>>>,
    b: Seq<Seq<Option<Seq<u8>>>>,
    m: int,
) -> bool {
    forall|i: int| #![trigger a[i]] #![trigger b[i]] 0 <= i < a.len() && i != m ==> a[i] == b[i]
}

/// Whether a step with this reply may lead from the world `a` to the world `b`.
///
/// The write may change any file. A commit takes up what is on disk, or fails and leaves
/// all as it is; a revert that works goes back to the commit before; a restore that works
/// brings the paths back to the last commit, or without git to what was kept. Of a revert
/// or a restore that fails nothing is said.
pub open spec fn leads(plan: SagaPlan, step: Step, reply: ReplyView, a: World, b: World) -> bool {
    match step {
        Step::CheckClean(m) => b == a && (reply == ReplyView::Clean(Ok(true)) ==> same_taken(
            plan,
            step,
            m as int,
            a.files[m as int],
            a.heads[m as int],
        )),
        Step::Keep(m) => {
            &&& b.files == a.files && b.heads == a.heads && b.bases == a.bases
            &&& only_at(a.kept, b.kept, m as int)
            &&& same_taken(plan, step, m as int, b.kept[m as int], a.files[m as int])
        },
        Step::Write => b.heads == a.heads && b.bases == a.bases && b.kept == a.kept,
        Step::Commit(m) => if reply is Committed && reply->Committed_0 is Ok {
            &&& b.files == a.files && b.kept == a.kept
            &&& b.bases == a.bases.update(m as int, a.heads[m as int])
            &&& only_at(a.heads, b.heads, m as int)
            &&& same_taken(plan, step, m as int, b.heads[m as int], a.files[m as int])
            &&& same_besides(plan, step, m as int, b.heads[m as int], a.heads[m as int])
        } else {
            b == a
        },
        Step::Revert(m) => reply == ReplyView::Undone(None) ==> {
            &&& b.bases == a.bases && b.kept == a.kept
            &&& b.heads == a.heads.update(m as int, a.bases[m as int])
            &&& only_at(a.files, b.files, m as int)
        },
        Step::Restore(m) => reply == ReplyView::Undone(None) ==> {
            &&& b.heads == a.heads && b.bases == a.bases && b.kept == a.kept
            &&& only_at(a.files, b.files, m as int)
            &&& same_taken(
                plan,
                step,
                m as int,
                b.files[m as int],
                if plan.members@[m as int].git {
                    a.heads[m as int]
                } else {
                    a.kept[m as int]
                },
            )
            &&& same_besides(plan, step, m as int, b.files[m as int], a.files[m as int])
        },
        Step::OpenMarker
        | Step::ProbeClean(_)
        | Step::RecordFailure
        | Step::CloseMarker
        | Step::Finish => b == a,
    }
}

/// Whether the worlds are those of a saga with these replies, from the world before its
/// first step to the one after its last.
pub open spec fn follows(
    plan: SagaPlan,
    require_git: bool,
    replies: Seq<ReplyView>,
    worlds: Seq<World>,
) -> bool {
    &&& worlds.len() == replies.len() + 1
    &&& forall|k: int| #![trigger worlds[k]] 0 <= k < worlds.len() ==> shaped(plan, worlds[k])
    &&& forall|k: int|
        #![trigger replies[k]]
        0 <= k < replies.len() ==> {
            let step = step_of(run(plan, require_git, replies.take(k)));
            if answers(step, replies[k]) {
                leads(plan, step, replies[k], worlds[k], worlds[k + 1])
            } else {
                worlds[k + 1] == worlds[k]
            }
        }
}

/// Whether the first `n` members that git covers were clean at the start.
spec fn were_clean(plan: SagaPlan, n: int, first: World) -> bool {
    forall|m: int|
        #![trigger first.files[m]]
        #![trigger first.heads[m]]
        0 <= m < n && m < plan.members@.len() && plan.members@[m].git ==> first.files[m]
            == first.heads[m]
}

/// Whether what the first `n` members held that git does not cover is kept.
spec fn are_kept(plan: SagaPlan, n: int, first: World, w: World) -> bool {
    forall|m: int|
        #![trigger w.kept[m]]
        0 <= m < n && m < plan.members@.len() && !plan.members@[m].git ==> w.kept[m]
            == first.files[m]
}

/// Whether a commit at or after place `k` of the list was made in member `m`.
spec fn commits_from(committed: Seq<(int, Seq<char>)>, k: int, m: int) -> bool {
    exists|c: int| #![trigger committed[c]] k <= c < committed.len() && committed[c].0 == m
}

/// Whether the tree of member `m` stands at its first commit, or stood there before the
/// commit of the saga that is still to be reverted.
spec fn head_stands(
    committed: Seq<(int, Seq<char>)>,
    k: int,
    m: int,
    first: World,
    w: World,
) -> bool {
    if commits_from(committed, k, m) {
        w.bases[m] == first.heads[m]
    } else {
        w.heads[m] == first.heads[m]
    }
}

spec fn heads_stand(
    plan: SagaPlan,
    committed: Seq<(int, Seq<char>)>,
    k: int,
    first: World,
    w: World,
) -> bool {
    forall|m: int|
        0 <= m < plan.members@.len() ==> #[trigger] head_stands(committed, k, m, first, w)
}

/// What holds of the disk when a saga is in a state.
spec fn stands(plan: SagaPlan, s: SagaState, first: World, w: World) -> bool {
    let n = plan.members@.len() as int;
    match s.phase {
        Phase::Checking(i) => w.files == first.files && w.heads == first.heads && were_clean(
            plan,
            i as int,
            first,
        ),
        Phase::Opening => w.files == first.files && w.heads == first.heads && were_clean(
            plan,
            n,
            first,
        ),
        Phase::Keeping(i) => {
            &&& w.files == first.files && w.heads == first.heads
            &&& were_clean(plan, n, first)
            &&& are_kept(plan, i as int, first, w)
        },
        Phase::Writing => {
            &&& w.files == first.files && w.heads == first.heads
            &&& were_clean(plan, n, first)
            &&& are_kept(plan, n, first, w)
        },
        Phase::Probing(_) | Phase::Committing(_) => {
            &&& were_clean(plan, n, first)
            &&& are_kept(plan, n, first, w)
            &&& heads_stand(plan, s.committed, 0, first, w)
        },
        Phase::Reverting(k) => s.errors.len() == 0 ==> {
            &&& were_clean(plan, n, first)
            &&& are_kept(plan, n, first, w)
            &&& heads_stand(plan, s.committed, k as int, first, w)
        },
        Phase::Restoring(i) => s.errors.len() == 0 ==> {
            &&& were_clean(plan, n, first)
            &&& are_kept(plan, n, first, w)
            &&& w.heads == first.heads
            &&& forall|m: int| #![trigger w.files[m]] 0 <= m < i ==> w.files[m] == first.files[m]
        },
        Phase::Recording => s.errors.len() > 0,
        Phase::Closing | Phase::Done => s.reject is Some && s.errors.len() == 0 ==> w.files
            == first.files,
    }
}

/// What is known of a saga's state besides.
spec fn known(plan: SagaPlan, s: SagaState) -> bool {
    &&& state_wf(plan, s)
    &&& forall|a: int, b: int|
        #![trigger s.committed[a], s.committed[b]]
        0 <= a < b < s.committed.len() ==> s.committed[a].0 < s.committed[b].0
    &&& match s.phase {
        Phase::Checking(_) | Phase::Opening | Phase::Keeping(_) | Phase::Writing => s.reject is None
            && s.committed.len() == 0 && s.errors.len() == 0,
        Phase::Probing(i) | Phase::Committing(i) => {
            &&& s.reject is None
            &&& s.errors.len() == 0
            &&& forall|c: int|
                #![trigger s.committed[c]]
                0 <= c < s.committed.len() ==> s.committed[c].0 < i
        },
        _ => true,
    }
}

/// The paths that the mutation writes are those that the clean check takes.
proof fn lemma_checked_taken(plan: SagaPlan, m: int, n: int, j: int)
    requires
        0 <= j < n <= plan.members@[m].paths@.len(),
        is_checked(plan, m, j),
    ensures
        checked_upto(plan, m, n).contains(plan.members@[m].paths@[j]),
    decreases n,
{
    let before = checked_upto(plan, m, n - 1);
    let all = checked_upto(plan, m, n);
    let p = plan.members@[m].paths@[j];
    if j == n - 1 {
        assert(all[before.len() as int] == p);
    } else {
        lemma_checked_taken(plan, m, n - 1, j);
        let k = choose|k: int| 0 <= k < before.len() && before[k] == p;
        assert(all[k] == p);
    }
}

/// A member that passed its check, or has nothing to check, was clean.
proof fn lemma_clean(plan: SagaPlan, m: int, first: World)
    requires
        0 <= m < plan.members@.len() <= usize::MAX,
        plan.members@[m].git,
        shaped(plan, first),
        unwritten_are_clean(plan, first),
        !needs_check(plan, m) || same_taken(
            plan,
            Step::CheckClean(m as usize),
            m,
            first.files[m],
            first.heads[m],
        ),
    ensures
        first.files[m] == first.heads[m],
{
    let n = plan.members@[m].paths@.len() as int;
    let step = Step::CheckClean(m as usize);
    assert forall|j: int| 0 <= j < n implies first.files[m][j] == first.heads[m][j] by {
        if is_checked(plan, m, j) {
            assert(needs_check(plan, m));
            lemma_checked_taken(plan, m, n, j);
            assert(takes(plan, step, m, j));
        }
    }
    assert(first.files[m] =~= first.heads[m]);
}

/// A step that takes all paths of its member makes them the same.
proof fn lemma_all_taken(
    plan: SagaPlan,
    step: Step,
    m: int,
    a: Seq<Option<Seq<u8>>>,
    b: Seq<Option<Seq<u8>>>,
)
    requires
        paths_taken(plan, step) == plan.members@[m].paths@,
        a.len() == plan.members@[m].paths@.len(),
        b.len() == a.len(),
        same_taken(plan, step, m, a, b),
    ensures
        a == b,
{
    assert forall|j: int| 0 <= j < a.len() implies a[j] == b[j] by {
        assert(takes(plan, step, m, j));
    }
    assert(a =~= b);
}

proof fn lemma_early(
    plan: SagaPlan,
    s: SagaState,
    r: ReplyView,
    first: World,
    a: World,
    b: World,
)
    requires
        known(plan, s),
        s.phase is Checking || s.phase is Opening || s.phase is Keeping || s.phase is Writing,
        shaped(plan, first),
        shaped(plan, a),
        shaped(plan, b),
        unwritten_are_clean(plan, first),
        stands(plan, s, first, a),
        answers(step_of(s), r),
        leads(plan, step_of(s), r, a, b),
    ensures
        stands(plan, after(plan, s, r), first, b),
{
    let t = after(plan, s, r);
    match s.phase {
        Phase::Checking(i) => {
            lemma_next_checked(plan, i + 1);
            if r == ReplyView::Clean(Ok(true)) {
                let next = next_checked(plan, i + 1);
                assert forall|m: int|
                    #![trigger first.files[m]]
                    #![trigger first.heads[m]]
                    0 <= m < next && m < plan.members@.len()
                        && plan.members@[m].git implies first.files[m] == first.heads[m] by {
                    if m >= i {
                        lemma_clean(plan, m, first);
                    }
                }
                assert(were_clean(plan, next, first));
            }
        },
        Phase::Opening => {
            lemma_next_bare(plan, 0);
        },
        Phase::Keeping(i) => {
            lemma_next_bare(plan, i + 1);
            let next = next_bare(plan, i + 1);
            lemma_all_taken(plan, Step::Keep(i), i as int, b.kept[i as int], a.files[i as int]);
            assert(are_kept(plan, next, first, b)) by {
                assert forall|m: int|
                    #![trigger b.kept[m]]
                    0 <= m < next && m < plan.members@.len()
                        && !plan.members@[m].git implies b.kept[m] == first.files[m] by {
                    if m != i {
                        assert(b.kept[m] == a.kept[m]);
                    }
                }
            }
        },
        _ => {
            lemma_next_git(plan, 0);
            assert(heads_stand(plan, t.committed, 0, first, b)) by {
                assert forall|m: int| 0 <= m < plan.members@.len() implies #[trigger] head_stands(
                    t.committed,
                    0,
                    m,
                    first,
                    b,
                ) by {
                    assert(!commits_from(t.committed, 0, m));
                }
            }
            if t.phase is Closing && t.reject is Some {
                assert(plan.members@.len() == 0);
                assert(b.files =~= first.files);
            }
        },
    }
}

proof fn lemma_commits(
    plan: SagaPlan,
    s: SagaState,
    r: ReplyView,
    first: World,
    a: World,
    b: World,
)
    requires
        known(plan, s),
        s.phase is Probing || s.phase is Committing,
        shaped(plan, first),
        shaped(plan, a),
        shaped(plan, b),
        stands(plan, s, first, a),
        answers(step_of(s), r),
        leads(plan, step_of(s), r, a, b),
    ensures
        stands(plan, after(plan, s, r), first, b),
{
    let t = after(plan, s, r);
    match s.phase {
        Phase::Probing(i) => {
            lemma_next_git(plan, i + 1);
            assert(t.committed == s.committed);
        },
        Phase::Committing(i) => {
            lemma_next_git(plan, i + 1);
            if r->Committed_0 is Ok {
                let sha = r->Committed_0->Ok_0;
                assert(t.committed == s.committed.push((i as int, sha)));
                lemma_commit_made(plan, s.committed, i as int, sha, first, a, b);
            } else {
                assert(t.committed == s.committed);
                if s.committed.len() == 0 {
                    lemma_all_reverted(plan, s.committed, first, b);
                }
            }
        },
        _ => {},
    }
}

/// A commit keeps the trees where they stand, or stood before it.
proof fn lemma_commit_made(
    plan: SagaPlan,
    committed: Seq<(int, Seq<char>)>,
    i: int,
    sha: Seq<char>,
    first: World,
    a: World,
    b: World,
)
    requires
        0 <= i < plan.members@.len(),
        shaped(plan, first),
        shaped(plan, a),
        shaped(plan, b),
        heads_stand(plan, committed, 0, first, a),
        forall|c: int| #![trigger committed[c]] 0 <= c < committed.len() ==> committed[c].0 < i,
        b.bases == a.bases.update(i, a.heads[i]),
        only_at(a.heads, b.heads, i),
    ensures
        heads_stand(plan, committed.push((i, sha)), 0, first, b),
{
    let more = committed.push((i, sha));
    assert(more[committed.len() as int].0 == i);
    assert forall|m: int| 0 <= m < plan.members@.len() implies #[trigger] head_stands(more, 0, m, first, b) by {
        assert(head_stands(committed, 0, m, first, a));
        if m == i {
            assert(commits_from(more, 0, m));
            assert(!commits_from(committed, 0, m));
        } else {
            assert(a.heads[m] == b.heads[m]);
            if commits_from(committed, 0, m) {
                let c = choose|c: int|
                    #![trigger committed[c]]
                    0 <= c < committed.len() && committed[c].0 == m;
                assert(more[c].0 == m);
            }
            if commits_from(more, 0, m) {
                let c = choose|c: int| #![trigger more[c]] 0 <= c < more.len() && more[c].0 == m;
                assert(committed[c].0 == m);
            }
        }
    }
}

/// Once no commit is left to revert, every tree stands where it stood.
proof fn lemma_all_reverted(
    plan: SagaPlan,
    committed: Seq<(int, Seq<char>)>,
    first: World,
    w: World,
)
    requires
        shaped(plan, first),
        shaped(plan, w),
        heads_stand(plan, committed, committed.len() as int, first, w),
    ensures
        w.heads == first.heads,
{
    assert forall|m: int| 0 <= m < plan.members@.len() implies w.heads[m] == first.heads[m] by {
        assert(head_stands(committed, committed.len() as int, m, first, w));
        assert(!commits_from(committed, committed.len() as int, m));
    }
    assert(w.heads =~= first.heads);
}

/// A tree gets one commit at most, so the commits are no more than the trees.
proof fn lemma_few(committed: Seq<(int, Seq<char>)>, c: int)
    requires
        0 <= c < committed.len(),
        forall|k: int| #![trigger committed[k]] 0 <= k < committed.len() ==> 0 <= committed[k].0,
        forall|a: int, b: int|
            #![trigger committed[a], committed[b]]
            0 <= a < b < committed.len() ==> committed[a].0 < committed[b].0,
    ensures
        c <= committed[c].0,
    decreases c,
{
    if c > 0 {
        lemma_few(committed, c - 1);
        assert(committed[c - 1].0 < committed[c].0);
    }
}

/// A revert that works takes one commit back.
proof fn lemma_reverts(
    plan: SagaPlan,
    s: SagaState,
    r: ReplyView,
    first: World,
    a: World,
    b: World,
)
    requires
        known(plan, s),
        s.phase is Reverting,
        shaped(plan, first),
        shaped(plan, a),
        shaped(plan, b),
        stands(plan, s, first, a),
        answers(step_of(s), r),
        leads(plan, step_of(s), r, a, b),
    ensures
        stands(plan, after(plan, s, r), first, b),
{
    let t = after(plan, s, r);
    let k = s.phase->Reverting_0 as int;
    let i = s.committed[k].0;
    assert(0 <= i < plan.members@.len());
    assert(t.committed == s.committed);
    if r != ReplyView::Undone(None) {
        assert(t.errors.len() == s.errors.len() + 1);
    }
    if r == ReplyView::Undone(None) && s.errors.len() == 0 {
        let committed = s.committed;
        assert(t.committed == committed);
        assert forall|m: int| 0 <= m < plan.members@.len() implies #[trigger] head_stands(committed, k + 1, m, first, b) by {
            assert(head_stands(committed, k, m, first, a));
            if m == i {
                assert(commits_from(committed, k, m));
                if commits_from(committed, k + 1, m) {
                    let c = choose|c: int|
                        #![trigger committed[c]]
                        k + 1 <= c < committed.len() && committed[c].0 == m;
                    assert(committed[k].0 < committed[c].0);
                }
            } else {
                assert(b.heads[m] == a.heads[m]);
                if commits_from(committed, k, m) {
                    let c = choose|c: int|
                        #![trigger committed[c]]
                        k <= c < committed.len() && committed[c].0 == m;
                    assert(c >= k + 1);
                    assert(commits_from(committed, k + 1, m));
                }
            }
        }
        assert(heads_stand(plan, committed, k + 1, first, b));
        if k + 1 < committed.len() {
            lemma_few(committed, k + 1);
            assert(t.phase == Phase::Reverting((k + 1) as usize));
        }
        if k + 1 == committed.len() {
            lemma_all_reverted(plan, committed, first, b);
        }
        assert(t.errors.len() == 0);
        assert(are_kept(plan, plan.members@.len() as int, first, b));
    }
}

/// A restore that works brings the paths of a member back.
proof fn lemma_restores(
    plan: SagaPlan,
    s: SagaState,
    r: ReplyView,
    first: World,
    a: World,
    b: World,
)
    requires
        known(plan, s),
        s.phase is Restoring,
        shaped(plan, first),
        shaped(plan, a),
        shaped(plan, b),
        stands(plan, s, first, a),
        answers(step_of(s), r),
        leads(plan, step_of(s), r, a, b),
    ensures
        stands(plan, after(plan, s, r), first, b),
{
    let t = after(plan, s, r);
    let i = s.phase->Restoring_0 as int;
    if r == ReplyView::Undone(None) && s.errors.len() == 0 {
        assert(b.files[i] == first.files[i]) by {
            let step = Step::Restore(i as usize);
            if plan.members@[i].git {
                lemma_all_taken(plan, step, i, b.files[i], a.heads[i]);
                assert(first.files[i] == first.heads[i]);
            } else {
                lemma_all_taken(plan, step, i, b.files[i], a.kept[i]);
                assert(a.kept[i] == first.files[i]);
            }
        }
        assert forall|m: int| #![trigger b.files[m]] 0 <= m < i + 1 implies b.files[m]
            == first.files[m] by {
            if m < i {
                assert(a.files[m] == b.files[m]);
            }
        }
        if i + 1 == plan.members@.len() {
            assert(b.files =~= first.files);
        }
    }
}

proof fn lemma_known(plan: SagaPlan, require_git: bool, replies: Seq<ReplyView>)
    requires
        plan.members@.len() <= usize::MAX,
    ensures
        known(plan, run(plan, require_git, replies)),
{
    every_saga_keeps_its_course(plan, require_git, replies);
    assert(in_order(plan, require_git, replies));
    assert(in_phase(plan, require_git, replies));
}

/// What holds of the disk before the first step.
proof fn lemma_begins(plan: SagaPlan, require_git: bool, first: World)
    requires
        plan.members@.len() <= usize::MAX,
        shaped(plan, first),
        unwritten_are_clean(plan, first),
    ensures
        stands(plan, start(plan, require_git), first, first),
{
    lemma_next_checked(plan, 0);
    assert forall|m: int|
        #![trigger first.files[m]]
        #![trigger first.heads[m]]
        0 <= m < next_checked(plan, 0) && m < plan.members@.len()
            && plan.members@[m].git implies first.files[m] == first.heads[m] by {
        lemma_clean(plan, m, first);
    }
    assert(were_clean(plan, next_checked(plan, 0), first));
}

/// What holds of the disk goes on to hold with a step.
proof fn lemma_goes_on(
    plan: SagaPlan,
    s: SagaState,
    r: ReplyView,
    first: World,
    a: World,
    b: World,
)
    requires
        known(plan, s),
        shaped(plan, first),
        shaped(plan, a),
        shaped(plan, b),
        unwritten_are_clean(plan, first),
        stands(plan, s, first, a),
        if answers(step_of(s), r) {
            leads(plan, step_of(s), r, a, b)
        } else {
            b == a
        },
    ensures
        stands(plan, after(plan, s, r), first, b),
{
    if answers(step_of(s), r) {
        match s.phase {
            Phase::Checking(_) | Phase::Opening | Phase::Keeping(_) | Phase::Writing => {
                lemma_early(plan, s, r, first, a, b)
            },
            Phase::Probing(_) | Phase::Committing(_) => lemma_commits(plan, s, r, first, a, b),
            Phase::Reverting(_) => lemma_reverts(plan, s, r, first, a, b),
            Phase::Restoring(_) => lemma_restores(plan, s, r, first, a, b),
            _ => {},
        }
    } else {
        assert(after(plan, s, r) == s);
    }
}

proof fn lemma_follows_front(
    plan: SagaPlan,
    require_git: bool,
    replies: Seq<ReplyView>,
    worlds: Seq<World>,
)
    requires
        replies.len() > 0,
        follows(plan, require_git, replies, worlds),
    ensures
        follows(plan, require_git, replies.drop_last(), worlds.drop_last()),
{
    let before = replies.drop_last();
    let front = worlds.drop_last();
    assert forall|k: int| #![trigger front[k]] 0 <= k < front.len() implies shaped(
        plan,
        front[k],
    ) by {
        assert(worlds[k] == front[k]);
    }
    assert forall|k: int| #![trigger before[k]] 0 <= k < before.len() implies {
        let step = step_of(run(plan, require_git, before.take(k)));
        if answers(step, before[k]) {
            leads(plan, step, before[k], front[k], front[k + 1])
        } else {
            front[k + 1] == front[k]
        }
    } by {
        assert(replies[k] == before[k]);
        assert(before.take(k) =~= replies.take(k));
    }
}

proof fn lemma_stands(
    plan: SagaPlan,
    require_git: bool,
    replies: Seq<ReplyView>,
    worlds: Seq<World>,
)
    requires
        plan.members@.len() <= usize::MAX,
        follows(plan, require_git, replies, worlds),
        unwritten_are_clean(plan, worlds[0]),
    ensures
        stands(plan, run(plan, require_git, replies), worlds[0], worlds[replies.len() as int]),
    decreases replies.len(),
{
    let n = replies.len() as int;
    let first = worlds[0];
    assert(shaped(plan, first));
    if n == 0 {
        lemma_begins(plan, require_git, first);
    } else {
        let before = replies.drop_last();
        lemma_follows_front(plan, require_git, replies, worlds);
        assert(worlds.drop_last()[0] == first);
        assert(worlds.drop_last()[n - 1] == worlds[n - 1]);
        lemma_stands(plan, require_git, before, worlds.drop_last());
        lemma_known(plan, require_git, before);
        assert(replies.take(n - 1) =~= before);
        assert(replies[n - 1] == replies.last());
        assert(shaped(plan, worlds[n - 1]) && shaped(plan, worlds[n]));
        lemma_goes_on(
            plan,
            run(plan, require_git, before),
            replies.last(),
            first,
            worlds[n - 1],
            worlds[n],
        );
    }
}

/// A refused mutation leaves every file as it was, whether git covers it or not, unless
/// the refusal tells of what could not be rolled back.
///
/// The touched files that the mutation does not write are not asked about before it
/// begins. A restore takes them with the rest, so they must have been clean too.
pub proof fn a_refused_mutation_leaves_every_file(
    plan: SagaPlan,
    require_git: bool,
    replies: Seq<ReplyView>,
    worlds: Seq<World>,
)
    requires
        plan.members@.len() <= usize::MAX,
        follows(plan, require_git, replies, worlds),
        unwritten_are_clean(plan, worlds[0]),
        run(plan, require_git, replies).phase == Phase::Done,
        run(plan, require_git, replies).reject is Some,
        run(plan, require_git, replies).errors.len() == 0,
    ensures
        worlds.last().files == worlds[0].files,
{
    lemma_stands(plan, require_git, replies, worlds);
}

} // verus!
