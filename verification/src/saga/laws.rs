//! What holds of every course of a saga, whatever git and the disk reply.

use crate::saga::machine::{
    after, lemma_next_bare, lemma_next_checked, lemma_next_git, next_git, start, state_wf, step_of,
    Phase, ReplyView, SagaState, Step,
};
use crate::saga::plan::SagaPlan;
use vstd::prelude::*;

verus! {

/// The state of a saga after these replies.
pub open spec fn run(plan: SagaPlan, require_git: bool, replies: Seq<ReplyView>) -> SagaState
    decreases replies.len(),
{
    if replies.len() == 0 {
        start(plan, require_git)
    } else {
        after(plan, run(plan, require_git, replies.drop_last()), replies.last())
    }
}

/// Whether a reply answers a step.
pub open spec fn answers(step: Step, reply: ReplyView) -> bool {
    match step {
        Step::CheckClean(_) | Step::ProbeClean(_) => reply is Clean,
        Step::OpenMarker => reply is Opened,
        Step::Write => reply is Written,
        Step::Commit(_) => reply is Committed,
        Step::Revert(_) | Step::Restore(_) => reply is Undone,
        Step::Keep(_) | Step::RecordFailure | Step::CloseMarker => reply is Noted,
        Step::Finish => false,
    }
}

/// Whether the saga took `step` at its turn `k` and got a reply to it.
pub open spec fn took(
    plan: SagaPlan,
    require_git: bool,
    replies: Seq<ReplyView>,
    k: int,
    step: Step,
) -> bool {
    &&& 0 <= k < replies.len()
    &&& step_of(run(plan, require_git, replies.take(k))) == step
    &&& answers(step, replies[k])
}

/// Whether the saga took `step` at some turn.
pub open spec fn did(
    plan: SagaPlan,
    require_git: bool,
    replies: Seq<ReplyView>,
    step: Step,
) -> bool {
    exists|k: int| #[trigger] took(plan, require_git, replies, k, step)
}

/// Whether the intent was recorded.
pub open spec fn opened(plan: SagaPlan, require_git: bool, replies: Seq<ReplyView>) -> bool {
    exists|k: int|
        #[trigger] took(plan, require_git, replies, k, Step::OpenMarker) && replies[k]
            == ReplyView::Opened(None)
}

/// Whether the write left nothing to commit in member `m`.
pub open spec fn left_clean(
    plan: SagaPlan,
    require_git: bool,
    replies: Seq<ReplyView>,
    m: int,
) -> bool {
    exists|k: int|
        #[trigger] took(plan, require_git, replies, k, Step::ProbeClean(m as usize)) && replies[k]
            == ReplyView::Clean(Ok(true))
}

/// Whether a commit was made in member `m`.
pub open spec fn has_commit(s: SagaState, m: int) -> bool {
    exists|c: int| #![trigger s.committed[c]] 0 <= c < s.committed.len() && s.committed[c].0 == m
}

/// Whether the first `n` members that git covers are either committed or had
/// nothing to commit.
pub open spec fn handled(
    plan: SagaPlan,
    require_git: bool,
    replies: Seq<ReplyView>,
    n: int,
) -> bool {
    forall|m: int|
        #![trigger plan.members@[m]]
        0 <= m < n && m < plan.members@.len() && plan.members@[m].git ==> left_clean(
            plan,
            require_git,
            replies,
            m,
        ) || has_commit(run(plan, require_git, replies), m)
}

/// Whether the first `n` commits were reverted, as far as git could.
pub open spec fn reverted(
    plan: SagaPlan,
    require_git: bool,
    replies: Seq<ReplyView>,
    n: int,
) -> bool {
    let s = run(plan, require_git, replies);
    forall|c: int|
        #![trigger s.committed[c]]
        0 <= c < n && c < s.committed.len() ==> did(
            plan,
            require_git,
            replies,
            Step::Revert(s.committed[c].0 as usize),
        )
}

/// Whether the paths of the first `n` members were restored, as far as that went.
pub open spec fn restored(
    plan: SagaPlan,
    require_git: bool,
    replies: Seq<ReplyView>,
    n: int,
) -> bool {
    forall|m: int|
        #![trigger did(plan, require_git, replies, Step::Restore(m as usize))]
        0 <= m < n && m < plan.members@.len() ==> did(
            plan,
            require_git,
            replies,
            Step::Restore(m as usize),
        )
}

/// Whether a failed saga was rolled back: every commit reverted, every member
/// restored, and what could not be rolled back recorded.
pub open spec fn rolled_back(plan: SagaPlan, require_git: bool, replies: Seq<ReplyView>) -> bool {
    let s = run(plan, require_git, replies);
    &&& reverted(plan, require_git, replies, s.committed.len() as int)
    &&& restored(plan, require_git, replies, plan.members@.len() as int)
    &&& s.errors.len() > 0 ==> did(plan, require_git, replies, Step::RecordFailure)
}

/// Whether a saga that succeeded committed everything.
pub open spec fn landed(plan: SagaPlan, require_git: bool, replies: Seq<ReplyView>) -> bool {
    &&& handled(plan, require_git, replies, plan.members@.len() as int)
    &&& run(plan, require_git, replies).errors.len() == 0
}

/// What holds of a saga in every phase.
pub open spec fn in_order(plan: SagaPlan, require_git: bool, replies: Seq<ReplyView>) -> bool {
    let s = run(plan, require_git, replies);
    let wrote = did(plan, require_git, replies, Step::Write);
    &&& state_wf(plan, s)
    &&& wrote ==> opened(plan, require_git, replies)
    &&& !wrote ==> s.committed.len() == 0 && s.errors.len() == 0
    &&& forall|m: int|
        #![trigger did(plan, require_git, replies, Step::Commit(m as usize))]
        did(plan, require_git, replies, Step::Commit(m as usize)) ==> wrote
    &&& forall|m: int|
        #![trigger did(plan, require_git, replies, Step::Revert(m as usize))]
        did(plan, require_git, replies, Step::Revert(m as usize)) ==> wrote
    &&& forall|m: int|
        #![trigger did(plan, require_git, replies, Step::Restore(m as usize))]
        did(plan, require_git, replies, Step::Restore(m as usize)) ==> wrote
    &&& forall|a: int, b: int|
        #![trigger s.committed[a], s.committed[b]]
        0 <= a < b < s.committed.len() ==> s.committed[a].0 < s.committed[b].0
}

/// What holds of a saga in its phase.
pub open spec fn in_phase(plan: SagaPlan, require_git: bool, replies: Seq<ReplyView>) -> bool {
    let s = run(plan, require_git, replies);
    let wrote = did(plan, require_git, replies, Step::Write);
    match s.phase {
        Phase::Checking(_) | Phase::Opening => !wrote && s.reject is None && !opened(
            plan,
            require_git,
            replies,
        ),
        Phase::Keeping(_) | Phase::Writing => !wrote && s.reject is None && opened(
            plan,
            require_git,
            replies,
        ),
        Phase::Probing(i) | Phase::Committing(i) => {
            &&& wrote
            &&& s.reject is None
            &&& s.errors.len() == 0
            &&& handled(plan, require_git, replies, i as int)
            &&& forall|c: int|
                #![trigger s.committed[c]]
                0 <= c < s.committed.len() ==> s.committed[c].0 < i
        },
        Phase::Reverting(k) => wrote && s.reject is Some && reverted(
            plan,
            require_git,
            replies,
            k as int,
        ),
        Phase::Restoring(i) => {
            &&& wrote
            &&& s.reject is Some
            &&& reverted(plan, require_git, replies, s.committed.len() as int)
            &&& restored(plan, require_git, replies, i as int)
        },
        Phase::Recording => {
            &&& wrote
            &&& s.reject is Some
            &&& reverted(plan, require_git, replies, s.committed.len() as int)
            &&& restored(plan, require_git, replies, plan.members@.len() as int)
        },
        Phase::Closing => {
            &&& wrote
            &&& if s.reject is Some {
                rolled_back(plan, require_git, replies)
            } else {
                landed(plan, require_git, replies)
            }
        },
        Phase::Done => {
            &&& wrote ==> did(plan, require_git, replies, Step::CloseMarker) && if s.reject is Some {
                rolled_back(plan, require_git, replies)
            } else {
                landed(plan, require_git, replies)
            }
            &&& !wrote ==> s.reject is Some && !opened(plan, require_git, replies)
        },
    }
}

/// What holds of a saga at any time.
pub open spec fn on_course(plan: SagaPlan, require_git: bool, replies: Seq<ReplyView>) -> bool {
    in_order(plan, require_git, replies) && in_phase(plan, require_git, replies)
}

proof fn lemma_took_grows(
    plan: SagaPlan,
    require_git: bool,
    replies: Seq<ReplyView>,
    r: ReplyView,
    k: int,
    step: Step,
)
    requires
        0 <= k < replies.len(),
    ensures
        took(plan, require_git, replies.push(r), k, step) == took(
            plan,
            require_git,
            replies,
            k,
            step,
        ),
{
    assert(replies.push(r).take(k) =~= replies.take(k));
}

proof fn lemma_did_push(
    plan: SagaPlan,
    require_git: bool,
    replies: Seq<ReplyView>,
    r: ReplyView,
    step: Step,
)
    ensures
        did(plan, require_git, replies.push(r), step) == (did(plan, require_git, replies, step) || (
        step_of(run(plan, require_git, replies)) == step && answers(step, r))),
{
    let more = replies.push(r);
    let n = replies.len() as int;
    assert(more.take(n) =~= replies);
    if did(plan, require_git, replies, step) {
        let k = choose|k: int| #[trigger] took(plan, require_git, replies, k, step);
        lemma_took_grows(plan, require_git, replies, r, k, step);
        assert(took(plan, require_git, more, k, step));
    }
    if step_of(run(plan, require_git, replies)) == step && answers(step, r) {
        assert(took(plan, require_git, more, n, step));
    }
    if did(plan, require_git, more, step) {
        let k = choose|k: int| #[trigger] took(plan, require_git, more, k, step);
        if k < n {
            lemma_took_grows(plan, require_git, replies, r, k, step);
            assert(took(plan, require_git, replies, k, step));
        }
    }
}

proof fn lemma_opened_push(
    plan: SagaPlan,
    require_git: bool,
    replies: Seq<ReplyView>,
    r: ReplyView,
)
    ensures
        opened(plan, require_git, replies.push(r)) == (opened(plan, require_git, replies) || (
        step_of(run(plan, require_git, replies)) == Step::OpenMarker && r == ReplyView::Opened(
            None,
        ))),
{
    let more = replies.push(r);
    let n = replies.len() as int;
    assert(more.take(n) =~= replies);
    if opened(plan, require_git, replies) {
        let k = choose|k: int|
            #[trigger] took(plan, require_git, replies, k, Step::OpenMarker) && replies[k]
                == ReplyView::Opened(None);
        lemma_took_grows(plan, require_git, replies, r, k, Step::OpenMarker);
        assert(took(plan, require_git, more, k, Step::OpenMarker));
    }
    if step_of(run(plan, require_git, replies)) == Step::OpenMarker && r == ReplyView::Opened(
        None,
    ) {
        assert(took(plan, require_git, more, n, Step::OpenMarker));
    }
    if opened(plan, require_git, more) {
        let k = choose|k: int|
            #[trigger] took(plan, require_git, more, k, Step::OpenMarker) && more[k]
                == ReplyView::Opened(None);
        if k < n {
            lemma_took_grows(plan, require_git, replies, r, k, Step::OpenMarker);
            assert(took(plan, require_git, replies, k, Step::OpenMarker));
        }
    }
}

proof fn lemma_left_clean_push(
    plan: SagaPlan,
    require_git: bool,
    replies: Seq<ReplyView>,
    r: ReplyView,
    m: int,
)
    ensures
        left_clean(plan, require_git, replies, m) ==> left_clean(
            plan,
            require_git,
            replies.push(r),
            m,
        ),
        step_of(run(plan, require_git, replies)) == Step::ProbeClean(m as usize) && r
            == ReplyView::Clean(Ok(true)) ==> left_clean(plan, require_git, replies.push(r), m),
{
    let more = replies.push(r);
    let n = replies.len() as int;
    let step = Step::ProbeClean(m as usize);
    assert(more.take(n) =~= replies);
    if left_clean(plan, require_git, replies, m) {
        let k = choose|k: int|
            #[trigger] took(plan, require_git, replies, k, step) && replies[k] == ReplyView::Clean(
                Ok(true),
            );
        lemma_took_grows(plan, require_git, replies, r, k, step);
        assert(took(plan, require_git, more, k, step));
    }
    if step_of(run(plan, require_git, replies)) == step && r == ReplyView::Clean(Ok(true)) {
        assert(took(plan, require_git, more, n, step));
    }
}

/// The members that were handled stay so, whatever comes next.
proof fn lemma_handled_push(
    plan: SagaPlan,
    require_git: bool,
    replies: Seq<ReplyView>,
    r: ReplyView,
    n: int,
)
    requires
        handled(plan, require_git, replies, n),
        forall|c: int|
            #![trigger run(plan, require_git, replies).committed[c]]
            0 <= c < run(plan, require_git, replies).committed.len() ==> c < run(
                plan,
                require_git,
                replies.push(r),
            ).committed.len() && run(plan, require_git, replies.push(r)).committed[c] == run(
                plan,
                require_git,
                replies,
            ).committed[c],
    ensures
        handled(plan, require_git, replies.push(r), n),
{
    let more = replies.push(r);
    let s = run(plan, require_git, replies);
    let t = run(plan, require_git, more);
    assert forall|m: int|
        #![trigger plan.members@[m]]
        0 <= m < n && m < plan.members@.len() && plan.members@[m].git implies left_clean(
        plan,
        require_git,
        more,
        m,
    ) || has_commit(t, m) by {
        lemma_left_clean_push(plan, require_git, replies, r, m);
        if has_commit(s, m) {
            let c = choose|c: int|
                #![trigger s.committed[c]]
                0 <= c < s.committed.len() && s.committed[c].0 == m;
            assert(t.committed[c] == s.committed[c]);
        }
    }
}

proof fn lemma_did_all(
    plan: SagaPlan,
    require_git: bool,
    replies: Seq<ReplyView>,
    r: ReplyView,
)
    ensures
        forall|step: Step|
            #[trigger] did(plan, require_git, replies.push(r), step) == (did(
                plan,
                require_git,
                replies,
                step,
            ) || (step_of(run(plan, require_git, replies)) == step && answers(step, r))),
{
    assert forall|step: Step|
        #[trigger] did(plan, require_git, replies.push(r), step) == (did(
            plan,
            require_git,
            replies,
            step,
        ) || (step_of(run(plan, require_git, replies)) == step && answers(step, r))) by {
        lemma_did_push(plan, require_git, replies, r, step);
    }
}

/// A check passes or ends the saga.
#[verifier::rlimit(30)]
proof fn lemma_checking(plan: SagaPlan, require_git: bool, replies: Seq<ReplyView>, r: ReplyView)
    requires
        on_course(plan, require_git, replies),
        run(plan, require_git, replies).phase is Checking,
        r is Clean,
    ensures
        on_course(plan, require_git, replies.push(r)),
{
    let more = replies.push(r);
    let s = run(plan, require_git, replies);
    let t = run(plan, require_git, more);
    assert(more.drop_last() =~= replies);
    assert(t == after(plan, s, r));
    lemma_did_all(plan, require_git, replies, r);
    lemma_opened_push(plan, require_git, replies, r);
    lemma_next_checked(plan, s.phase->Checking_0 + 1);
}

/// The intent is recorded or the saga ends.
#[verifier::rlimit(30)]
proof fn lemma_opening(plan: SagaPlan, require_git: bool, replies: Seq<ReplyView>, r: ReplyView)
    requires
        on_course(plan, require_git, replies),
        run(plan, require_git, replies).phase is Opening,
        r is Opened,
    ensures
        on_course(plan, require_git, replies.push(r)),
{
    let more = replies.push(r);
    let s = run(plan, require_git, replies);
    let t = run(plan, require_git, more);
    assert(more.drop_last() =~= replies);
    assert(t == after(plan, s, r));
    lemma_did_all(plan, require_git, replies, r);
    lemma_opened_push(plan, require_git, replies, r);
    lemma_next_bare(plan, 0);
}

/// What git does not cover is kept, member by member.
#[verifier::rlimit(30)]
proof fn lemma_keeping(plan: SagaPlan, require_git: bool, replies: Seq<ReplyView>, r: ReplyView)
    requires
        on_course(plan, require_git, replies),
        run(plan, require_git, replies).phase is Keeping,
        r is Noted,
    ensures
        on_course(plan, require_git, replies.push(r)),
{
    let more = replies.push(r);
    let s = run(plan, require_git, replies);
    let t = run(plan, require_git, more);
    let i = s.phase->Keeping_0;
    assert(more.drop_last() =~= replies);
    assert(t == after(plan, s, r));
    lemma_did_all(plan, require_git, replies, r);
    lemma_opened_push(plan, require_git, replies, r);
    lemma_next_bare(plan, i + 1);
}

/// The write goes on to the commits or to the rollback.
#[verifier::rlimit(30)]
proof fn lemma_writing(plan: SagaPlan, require_git: bool, replies: Seq<ReplyView>, r: ReplyView)
    requires
        on_course(plan, require_git, replies),
        run(plan, require_git, replies).phase is Writing,
        r is Written,
    ensures
        on_course(plan, require_git, replies.push(r)),
{
    let more = replies.push(r);
    let s = run(plan, require_git, replies);
    let t = run(plan, require_git, more);
    assert(more.drop_last() =~= replies);
    assert(t == after(plan, s, r));
    lemma_did_all(plan, require_git, replies, r);
    lemma_opened_push(plan, require_git, replies, r);
    lemma_next_git(plan, 0);
}

proof fn lemma_probing_order(
    plan: SagaPlan,
    require_git: bool,
    replies: Seq<ReplyView>,
    r: ReplyView,
)
    requires
        in_order(plan, require_git, replies),
        run(plan, require_git, replies).phase is Probing,
        r is Clean,
    ensures
        in_order(plan, require_git, replies.push(r)),
{
    let more = replies.push(r);
    let s = run(plan, require_git, replies);
    let t = run(plan, require_git, more);
    assert(more.drop_last() =~= replies);
    assert(t == after(plan, s, r));
    assert(t.committed == s.committed && t.errors == s.errors);
    lemma_opened_push(plan, require_git, replies, r);
    lemma_next_git(plan, s.phase->Probing_0 + 1);
    lemma_did_all(plan, require_git, replies, r);
}

proof fn lemma_handled_next(
    plan: SagaPlan,
    require_git: bool,
    replies: Seq<ReplyView>,
    i: int,
)
    requires
        0 <= i,
        handled(plan, require_git, replies, i),
        left_clean(plan, require_git, replies, i),
    ensures
        handled(plan, require_git, replies, next_git(plan, i + 1)),
{
    lemma_next_git(plan, i + 1);
}

proof fn lemma_probing_phase(
    plan: SagaPlan,
    require_git: bool,
    replies: Seq<ReplyView>,
    r: ReplyView,
    i: usize,
)
    requires
        i < plan.members@.len() <= usize::MAX,
        run(plan, require_git, replies).phase == Phase::Probing(i),
        in_phase(plan, require_git, replies),
        r is Clean,
    ensures
        in_phase(plan, require_git, replies.push(r)),
{
    let more = replies.push(r);
    let s = run(plan, require_git, replies);
    let t = run(plan, require_git, more);
    let next = next_git(plan, i + 1);
    assert(more.drop_last() =~= replies);
    assert(t == after(plan, s, r));
    assert(t.committed == s.committed && t.errors == s.errors && t.reject == s.reject);
    lemma_did_push(plan, require_git, replies, r, Step::Write);
    lemma_handled_push(plan, require_git, replies, r, i as int);
    if r == ReplyView::Clean(Ok(true)) {
        lemma_left_clean_push(plan, require_git, replies, r, i as int);
        assert(step_of(s) == Step::ProbeClean(i));
        lemma_handled_next(plan, require_git, more, i as int);
        assert(i < next <= plan.members@.len()) by {
            lemma_next_git(plan, i + 1);
        }
        if next < plan.members@.len() {
            assert(t.phase == Phase::Probing(next as usize));
        } else {
            assert(t.phase == Phase::Closing);
        }
    } else {
        assert(t.phase == Phase::Committing(i));
    }
}

/// A member without changes is passed over, another is committed.
proof fn lemma_probing(plan: SagaPlan, require_git: bool, replies: Seq<ReplyView>, r: ReplyView)
    requires
        on_course(plan, require_git, replies),
        run(plan, require_git, replies).phase is Probing,
        r is Clean,
    ensures
        on_course(plan, require_git, replies.push(r)),
{
    lemma_probing_order(plan, require_git, replies, r);
    lemma_probing_phase(
        plan,
        require_git,
        replies,
        r,
        run(plan, require_git, replies).phase->Probing_0,
    );
}

/// A commit goes on to the next member or to the rollback.
#[verifier::spinoff_prover]
#[verifier::rlimit(60)]
proof fn lemma_committing(plan: SagaPlan, require_git: bool, replies: Seq<ReplyView>, r: ReplyView)
    requires
        on_course(plan, require_git, replies),
        run(plan, require_git, replies).phase is Committing,
        r is Committed,
    ensures
        on_course(plan, require_git, replies.push(r)),
{
    let more = replies.push(r);
    let s = run(plan, require_git, replies);
    let t = run(plan, require_git, more);
    assert(more.drop_last() =~= replies);
    assert(t == after(plan, s, r));
    lemma_opened_push(plan, require_git, replies, r);
    let i = s.phase->Committing_0;
    lemma_next_git(plan, i + 1);
    assert(in_order(plan, require_git, more)) by {
        lemma_did_all(plan, require_git, replies, r);
    }
    lemma_did_push(plan, require_git, replies, r, Step::Write);
    if r->Committed_0 is Ok {
        assert forall|c: int| #![trigger s.committed[c]] 0 <= c < s.committed.len() implies c
            < t.committed.len() && t.committed[c] == s.committed[c] by {}
        lemma_handled_push(plan, require_git, replies, r, i as int);
        assert(t.committed[s.committed.len() as int].0 == i);
        assert(has_commit(t, i as int));
        let next = next_git(plan, i + 1);
        assert(handled(plan, require_git, more, next));
    }
}

/// A revert goes on to the next, then to the restores.
#[verifier::rlimit(30)]
proof fn lemma_reverting(plan: SagaPlan, require_git: bool, replies: Seq<ReplyView>, r: ReplyView)
    requires
        on_course(plan, require_git, replies),
        run(plan, require_git, replies).phase is Reverting,
        r is Undone,
    ensures
        on_course(plan, require_git, replies.push(r)),
{
    let more = replies.push(r);
    let s = run(plan, require_git, replies);
    let t = run(plan, require_git, more);
    assert(more.drop_last() =~= replies);
    assert(t == after(plan, s, r));
    lemma_did_all(plan, require_git, replies, r);
    lemma_opened_push(plan, require_git, replies, r);
    let k = s.phase->Reverting_0;
    let step = Step::Revert(s.committed[k as int].0 as usize);
    lemma_next_git(plan, 0);
    assert(step_of(s) == step);
    assert(t.committed == s.committed);
    assert(in_order(plan, require_git, more));
    assert(reverted(plan, require_git, more, k + 1)) by {
        assert forall|c: int|
            #![trigger t.committed[c]]
            0 <= c < k + 1 && c < t.committed.len() implies did(
            plan,
            require_git,
            more,
            Step::Revert(t.committed[c].0 as usize),
        ) by {
            if c < k {
                assert(did(plan, require_git, replies, Step::Revert(s.committed[c].0 as usize)));
            } else {
                assert(did(plan, require_git, more, step));
            }
        }
    }
}

/// A restore goes on to the next, then to the end.
#[verifier::rlimit(30)]
proof fn lemma_restoring(plan: SagaPlan, require_git: bool, replies: Seq<ReplyView>, r: ReplyView)
    requires
        on_course(plan, require_git, replies),
        run(plan, require_git, replies).phase is Restoring,
        r is Undone,
    ensures
        on_course(plan, require_git, replies.push(r)),
{
    let more = replies.push(r);
    let s = run(plan, require_git, replies);
    let t = run(plan, require_git, more);
    assert(more.drop_last() =~= replies);
    assert(t == after(plan, s, r));
    lemma_did_all(plan, require_git, replies, r);
    lemma_opened_push(plan, require_git, replies, r);
    let i = s.phase->Restoring_0;
    assert(t.committed == s.committed);
    assert(in_order(plan, require_git, more));
    assert(reverted(plan, require_git, more, s.committed.len() as int)) by {
        assert forall|c: int|
            #![trigger t.committed[c]]
            0 <= c < t.committed.len() implies did(
            plan,
            require_git,
            more,
            Step::Revert(t.committed[c].0 as usize),
        ) by {
            assert(did(plan, require_git, replies, Step::Revert(s.committed[c].0 as usize)));
        }
    }
    assert(restored(plan, require_git, more, i + 1)) by {
        assert forall|m: int|
            #![trigger did(plan, require_git, more, Step::Restore(m as usize))]
            0 <= m < i + 1 && m < plan.members@.len() implies did(
            plan,
            require_git,
            more,
            Step::Restore(m as usize),
        ) by {
            if m < i {
                assert(did(plan, require_git, replies, Step::Restore(m as usize)));
            } else if m == i as int {
                assert(did(plan, require_git, more, Step::Restore(i)));
            }
        }
    }
}

/// What is left behind is recorded.
#[verifier::rlimit(30)]
proof fn lemma_recording(plan: SagaPlan, require_git: bool, replies: Seq<ReplyView>, r: ReplyView)
    requires
        on_course(plan, require_git, replies),
        run(plan, require_git, replies).phase is Recording,
        r is Noted,
    ensures
        on_course(plan, require_git, replies.push(r)),
{
    let more = replies.push(r);
    let s = run(plan, require_git, replies);
    let t = run(plan, require_git, more);
    assert(more.drop_last() =~= replies);
    assert(t == after(plan, s, r));
    lemma_did_all(plan, require_git, replies, r);
    lemma_opened_push(plan, require_git, replies, r);
    assert(did(plan, require_git, more, Step::RecordFailure));
}

/// The intent is closed.
#[verifier::rlimit(30)]
proof fn lemma_closing(plan: SagaPlan, require_git: bool, replies: Seq<ReplyView>, r: ReplyView)
    requires
        on_course(plan, require_git, replies),
        run(plan, require_git, replies).phase is Closing,
        r is Noted,
    ensures
        on_course(plan, require_git, replies.push(r)),
{
    let more = replies.push(r);
    let s = run(plan, require_git, replies);
    let t = run(plan, require_git, more);
    assert(more.drop_last() =~= replies);
    assert(t == after(plan, s, r));
    lemma_did_all(plan, require_git, replies, r);
    lemma_opened_push(plan, require_git, replies, r);
    assert(did(plan, require_git, more, Step::CloseMarker));
    if s.reject is None {
        lemma_handled_push(plan, require_git, replies, r, plan.members@.len() as int);
    }
}

/// A saga stays on course under any reply.
proof fn lemma_step(plan: SagaPlan, require_git: bool, replies: Seq<ReplyView>, r: ReplyView)
    requires
        on_course(plan, require_git, replies),
    ensures
        on_course(plan, require_git, replies.push(r)),
{
    let s = run(plan, require_git, replies);
    match (s.phase, r) {
        (Phase::Checking(_), ReplyView::Clean(_)) => lemma_checking(plan, require_git, replies, r),
        (Phase::Opening, ReplyView::Opened(_)) => lemma_opening(plan, require_git, replies, r),
        (Phase::Keeping(_), ReplyView::Noted) => lemma_keeping(plan, require_git, replies, r),
        (Phase::Writing, ReplyView::Written(_)) => lemma_writing(plan, require_git, replies, r),
        (Phase::Probing(_), ReplyView::Clean(_)) => lemma_probing(plan, require_git, replies, r),
        (Phase::Committing(_), ReplyView::Committed(_)) => lemma_committing(
            plan,
            require_git,
            replies,
            r,
        ),
        (Phase::Reverting(_), ReplyView::Undone(_)) => lemma_reverting(plan, require_git, replies, r),
        (Phase::Restoring(_), ReplyView::Undone(_)) => lemma_restoring(plan, require_git, replies, r),
        (Phase::Recording, ReplyView::Noted) => lemma_recording(plan, require_git, replies, r),
        (Phase::Closing, ReplyView::Noted) => lemma_closing(plan, require_git, replies, r),
        _ => {
            assert(replies.push(r).drop_last() =~= replies);
            lemma_unanswered(plan, require_git, replies, r);
        },
    }
}

/// A reply that does not belong to the phase leaves everything as it was.
proof fn lemma_unanswered(
    plan: SagaPlan,
    require_git: bool,
    replies: Seq<ReplyView>,
    r: ReplyView,
)
    requires
        on_course(plan, require_git, replies),
        run(plan, require_git, replies.push(r)) == run(plan, require_git, replies),
        !answers(step_of(run(plan, require_git, replies)), r),
    ensures
        on_course(plan, require_git, replies.push(r)),
{
    let more = replies.push(r);
    let s = run(plan, require_git, replies);
    lemma_did_all(plan, require_git, replies, r);
    lemma_opened_push(plan, require_git, replies, r);
    match s.phase {
        Phase::Probing(i) | Phase::Committing(i) => {
            lemma_handled_push(plan, require_git, replies, r, i as int);
        },
        Phase::Closing | Phase::Done => {
            if did(plan, require_git, replies, Step::Write) && s.reject is None {
                lemma_handled_push(
                    plan,
                    require_git,
                    replies,
                    r,
                    plan.members@.len() as int,
                );
            }
        },
        _ => {},
    }
}

/// Every course of a saga keeps to what its phase promises.
pub proof fn every_saga_keeps_its_course(
    plan: SagaPlan,
    require_git: bool,
    replies: Seq<ReplyView>,
)
    requires
        plan.members@.len() <= usize::MAX,
    ensures
        on_course(plan, require_git, replies),
    decreases replies.len(),
{
    if replies.len() == 0 {
        lemma_next_checked(plan, 0);
        assert forall|step: Step| !#[trigger] did(plan, require_git, replies, step) by {}
    } else {
        every_saga_keeps_its_course(plan, require_git, replies.drop_last());
        lemma_step(plan, require_git, replies.drop_last(), replies.last());
        assert(replies.drop_last().push(replies.last()) =~= replies);
    }
}

/// A saga that ends in a refusal after it wrote has reverted every commit that it
/// made, restored every member, recorded what it could not roll back, and closed
/// its intent.
pub proof fn a_failed_saga_is_rolled_back(
    plan: SagaPlan,
    require_git: bool,
    replies: Seq<ReplyView>,
)
    requires
        plan.members@.len() <= usize::MAX,
        run(plan, require_git, replies).phase == Phase::Done,
        run(plan, require_git, replies).reject is Some,
        did(plan, require_git, replies, Step::Write),
    ensures
        rolled_back(plan, require_git, replies),
        did(plan, require_git, replies, Step::CloseMarker),
{
    every_saga_keeps_its_course(plan, require_git, replies);
}

/// A saga that ends well has committed every member that the write changed, and
/// closed its intent.
pub proof fn a_finished_saga_has_landed(
    plan: SagaPlan,
    require_git: bool,
    replies: Seq<ReplyView>,
)
    requires
        plan.members@.len() <= usize::MAX,
        run(plan, require_git, replies).phase == Phase::Done,
        run(plan, require_git, replies).reject is None,
    ensures
        landed(plan, require_git, replies),
        did(plan, require_git, replies, Step::Write),
        did(plan, require_git, replies, Step::CloseMarker),
{
    every_saga_keeps_its_course(plan, require_git, replies);
}

/// Nothing is written, committed, reverted or restored before the intent is
/// recorded.
pub proof fn nothing_happens_before_the_intent(
    plan: SagaPlan,
    require_git: bool,
    replies: Seq<ReplyView>,
    m: int,
)
    requires
        plan.members@.len() <= usize::MAX,
        !opened(plan, require_git, replies),
    ensures
        !did(plan, require_git, replies, Step::Write),
        !did(plan, require_git, replies, Step::Commit(m as usize)),
        !did(plan, require_git, replies, Step::Revert(m as usize)),
        !did(plan, require_git, replies, Step::Restore(m as usize)),
        run(plan, require_git, replies).committed.len() == 0,
{
    every_saga_keeps_its_course(plan, require_git, replies);
}

/// A working tree gets one commit at most.
pub proof fn one_commit_per_member(
    plan: SagaPlan,
    require_git: bool,
    replies: Seq<ReplyView>,
    a: int,
    b: int,
)
    requires
        plan.members@.len() <= usize::MAX,
        0 <= a < b < run(plan, require_git, replies).committed.len(),
    ensures
        run(plan, require_git, replies).committed[a].0 != run(
            plan,
            require_git,
            replies,
        ).committed[b].0,
{
    every_saga_keeps_its_course(plan, require_git, replies);
}

} // verus!
