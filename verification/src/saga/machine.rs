//! The course of a saga.
//!
//! A saga checks that every path which it will write is clean, records its
//! intent, keeps what git does not, writes, and commits each working tree. When
//! something fails after the write began, it reverts what it committed and restores
//! every member. What git and the disk do is outside: [`Saga::next`] says what to do, and
//! [`Saga::advance`] takes the reply.

use crate::json::Json;
use crate::saga::plan::{checked_paths, checked_paths_spec, needs_check, Reject, SagaMember, SagaPlan};
use crate::text::{copy_all, decimal, decimal_text, join_texts, joined, joined_by, lemma_views_push, views};
use vstd::prelude::*;

verus! {

/// Where a saga stands.
#[derive(Debug, Clone, Copy, PartialEq, Eq, Structural)]
pub enum Phase {
    /// Asking whether the paths of a member are clean.
    Checking(usize),
    /// Recording the intent.
    Opening,
    /// Keeping what the paths of a member hold that git does not cover.
    Keeping(usize),
    Writing,
    /// Asking whether the write left anything to commit in a member.
    Probing(usize),
    Committing(usize),
    /// Reverting the commit at this place in the list of commits.
    Reverting(usize),
    Restoring(usize),
    /// Recording that the rollback is incomplete.
    Recording,
    /// Removing the record of the intent.
    Closing,
    Done,
}

/// What to do next. A number is a member of the plan.
#[derive(Debug, Clone, Copy, PartialEq, Eq, Structural)]
pub enum Step {
    CheckClean(usize),
    OpenMarker,
    /// Keep what the paths of the member hold now, to restore them from.
    Keep(usize),
    Write,
    ProbeClean(usize),
    Commit(usize),
    Revert(usize),
    /// Bring the paths of the member back: git to what it holds, without git to what was
    /// kept.
    Restore(usize),
    RecordFailure,
    CloseMarker,
    Finish,
}

/// What came of a step.
pub enum Reply {
    /// Whether the paths are clean, or why git could not tell.
    Clean(Result<bool, String>),
    /// Why the intent could not be recorded, if it could not.
    Opened(Option<String>),
    /// Why the write was refused, if it was.
    Written(Option<Reject>),
    /// The commit, or why git did not make it.
    Committed(Result<String, String>),
    /// Why git could not revert or restore, if it could not.
    Undone(Option<String>),
    /// The step needs no answer.
    Noted,
}

/// The contents of a [`Reply`].
pub enum ReplyView {
    Clean(Result<bool, Seq<char>>),
    Opened(Option<Seq<char>>),
    Written(Option<(Seq<char>, Option<Json>)>),
    Committed(Result<Seq<char>, Seq<char>>),
    Undone(Option<Seq<char>>),
    Noted,
}

impl View for Reply {
    type V = ReplyView;

    open spec fn view(&self) -> ReplyView {
        match self {
            Reply::Clean(Ok(b)) => ReplyView::Clean(Ok(*b)),
            Reply::Clean(Err(e)) => ReplyView::Clean(Err(e@)),
            Reply::Opened(Some(e)) => ReplyView::Opened(Some(e@)),
            Reply::Opened(None) => ReplyView::Opened(None),
            Reply::Written(Some(r)) => ReplyView::Written(Some((r.message@, r.detail))),
            Reply::Written(None) => ReplyView::Written(None),
            Reply::Committed(Ok(sha)) => ReplyView::Committed(Ok(sha@)),
            Reply::Committed(Err(e)) => ReplyView::Committed(Err(e@)),
            Reply::Undone(Some(e)) => ReplyView::Undone(Some(e@)),
            Reply::Undone(None) => ReplyView::Undone(None),
            Reply::Noted => ReplyView::Noted,
        }
    }
}

/// A commit that a saga made in a member.
#[derive(Debug)]
pub struct Landed {
    pub member: usize,
    pub sha: String,
}

/// A member that could not be rolled back, and why.
#[derive(Debug)]
pub struct Stuck {
    pub member: usize,
    pub message: String,
}

/// A saga under way.
#[derive(Debug)]
pub struct Saga {
    pub phase: Phase,
    pub committed: Vec<Landed>,
    pub errors: Vec<Stuck>,
    pub reject: Option<Reject>,
}

/// The contents of a [`Saga`].
#[verifier::ext_equal]
pub struct SagaState {
    pub phase: Phase,
    pub committed: Seq<(int, Seq<char>)>,
    pub errors: Seq<(int, Seq<char>)>,
    pub reject: Option<(Seq<char>, Option<Json>)>,
}

pub open spec fn landed_views(v: Seq<Landed>) -> Seq<(int, Seq<char>)> {
    v.map_values(|l: Landed| (l.member as int, l.sha@))
}

pub open spec fn stuck_views(v: Seq<Stuck>) -> Seq<(int, Seq<char>)> {
    v.map_values(|l: Stuck| (l.member as int, l.message@))
}

pub open spec fn reject_view(r: Option<Reject>) -> Option<(Seq<char>, Option<Json>)> {
    match r {
        Some(x) => Some((x.message@, x.detail)),
        None => None,
    }
}

impl View for Saga {
    type V = SagaState;

    open spec fn view(&self) -> SagaState {
        SagaState {
            phase: self.phase,
            committed: landed_views(self.committed@),
            errors: stuck_views(self.errors@),
            reject: reject_view(self.reject),
        }
    }
}

/// The first member from `from` on that has a working tree, or the number of
/// members.
pub open spec fn next_git(plan: SagaPlan, from: int) -> int
    decreases plan.members@.len() - from,
{
    if from >= plan.members@.len() {
        plan.members@.len() as int
    } else if plan.members@[from].git {
        from
    } else {
        next_git(plan, from + 1)
    }
}

/// The first member from `from` on with paths to check, or the number of
/// members.
pub open spec fn next_checked(plan: SagaPlan, from: int) -> int
    decreases plan.members@.len() - from,
{
    if from >= plan.members@.len() {
        plan.members@.len() as int
    } else if needs_check(plan, from) {
        from
    } else {
        next_checked(plan, from + 1)
    }
}

/// The first member from `from` on that git does not cover, or the number of members.
pub open spec fn next_bare(plan: SagaPlan, from: int) -> int
    decreases plan.members@.len() - from,
{
    if from >= plan.members@.len() {
        plan.members@.len() as int
    } else if !plan.members@[from].git {
        from
    } else {
        next_bare(plan, from + 1)
    }
}

/// Goes on keeping from member `from`.
pub open spec fn keeping(plan: SagaPlan, s: SagaState, from: int) -> SagaState {
    let i = next_bare(plan, from);
    SagaState {
        phase: if i < plan.members@.len() {
            Phase::Keeping(i as usize)
        } else {
            Phase::Writing
        },
        ..s
    }
}

/// Goes on checking from member `from`.
pub open spec fn checking(plan: SagaPlan, s: SagaState, from: int) -> SagaState {
    let i = next_checked(plan, from);
    SagaState {
        phase: if i < plan.members@.len() {
            Phase::Checking(i as usize)
        } else {
            Phase::Opening
        },
        ..s
    }
}

/// Goes on committing from member `from`.
pub open spec fn committing(plan: SagaPlan, s: SagaState, from: int) -> SagaState {
    let i = next_git(plan, from);
    SagaState {
        phase: if i < plan.members@.len() {
            Phase::Probing(i as usize)
        } else {
            Phase::Closing
        },
        ..s
    }
}

/// The name of the record that a rollback of this mutation is incomplete.
pub open spec fn sentinel_name(mutation_id: Seq<char>) -> Seq<char> {
    "saga.failed."@ + mutation_id
}

/// The message of a refusal whose rollback left `n` members behind.
pub open spec fn incomplete(message: Seq<char>, n: nat, mutation_id: Seq<char>) -> Seq<char> {
    message + "; the rollback was incomplete, "@ + decimal(n) + " member(s) recorded in "@
        + sentinel_name(mutation_id)
}

/// Ends the rollback: what is left behind is recorded and told.
pub open spec fn settled(plan: SagaPlan, s: SagaState) -> SagaState {
    if s.errors.len() == 0 {
        SagaState { phase: Phase::Closing, ..s }
    } else {
        SagaState {
            phase: Phase::Recording,
            reject: match s.reject {
                Some((m, d)) => Some((incomplete(m, s.errors.len(), plan.mutation_id@), d)),
                None => None,
            },
            ..s
        }
    }
}

/// Goes on restoring from member `from`.
pub open spec fn restoring(plan: SagaPlan, s: SagaState, from: int) -> SagaState {
    if from < plan.members@.len() {
        SagaState { phase: Phase::Restoring(from as usize), ..s }
    } else {
        settled(plan, s)
    }
}

/// Goes on reverting from the commit at place `from`.
pub open spec fn reverting(plan: SagaPlan, s: SagaState, from: int) -> SagaState {
    if from < s.committed.len() {
        SagaState { phase: Phase::Reverting(from as usize), ..s }
    } else {
        restoring(plan, s, 0)
    }
}

pub open spec fn refused(s: SagaState, message: Seq<char>) -> SagaState {
    SagaState { phase: Phase::Done, reject: Some((message, None)), ..s }
}

/// The names of the repos in the first `n` members that have no working tree.
pub open spec fn uncovered(plan: SagaPlan, n: int) -> Seq<Seq<char>>
    decreases n,
{
    if n <= 0 {
        Seq::empty()
    } else if plan.members@[n - 1].git {
        uncovered(plan, n - 1)
    } else {
        uncovered(plan, n - 1) + views(plan.members@[n - 1].repo_names@)
    }
}

/// The refusal of a refactor that spans repos which git could not roll back.
pub open spec fn uncovered_message(names: Seq<Seq<char>>) -> Seq<char> {
    "refactor spans a member no git working tree covers ("@ + joined_by(names, ", "@)
        + "): compensation is git-only, so a mid-saga failure could not be rolled back. Refusing. Put it under a working tree, its own root or any ancestor"@
}

/// A saga at its beginning. A structural refactor asks that git covers every
/// member.
pub open spec fn start(plan: SagaPlan, require_git: bool) -> SagaState {
    let fresh = SagaState {
        phase: Phase::Opening,
        committed: Seq::empty(),
        errors: Seq::empty(),
        reject: None,
    };
    let names = uncovered(plan, plan.members@.len() as int);
    if require_git && names.len() > 0 {
        refused(fresh, uncovered_message(names))
    } else {
        checking(plan, fresh, 0)
    }
}

/// The state after a reply. A reply that does not belong to the phase changes
/// nothing.
pub open spec fn after(plan: SagaPlan, s: SagaState, reply: ReplyView) -> SagaState {
    match (s.phase, reply) {
        (Phase::Checking(i), ReplyView::Clean(Ok(true))) => checking(plan, s, i + 1),
        (Phase::Checking(i), ReplyView::Clean(Ok(false))) => refused(
            s,
            "path has uncommitted changes — the engine is the writer; commit or discard them first"@,
        ),
        (Phase::Checking(i), ReplyView::Clean(Err(e))) => refused(
            s,
            "git precondition failed: "@ + e,
        ),
        (Phase::Opening, ReplyView::Opened(Some(e))) => refused(
            s,
            "could not open the saga: intent marker write failed: "@ + e,
        ),
        (Phase::Opening, ReplyView::Opened(None)) => keeping(plan, s, 0),
        (Phase::Keeping(i), ReplyView::Noted) => keeping(plan, s, i + 1),
        (Phase::Writing, ReplyView::Written(None)) => committing(plan, s, 0),
        (Phase::Writing, ReplyView::Written(Some(r))) => restoring(
            plan,
            SagaState { reject: Some(r), ..s },
            0,
        ),
        (Phase::Probing(i), ReplyView::Clean(Ok(true))) => committing(plan, s, i + 1),
        (Phase::Probing(i), ReplyView::Clean(_)) => SagaState { phase: Phase::Committing(i), ..s },
        (Phase::Committing(i), ReplyView::Committed(Ok(sha))) => committing(
            plan,
            SagaState { committed: s.committed.push((i as int, sha)), ..s },
            i + 1,
        ),
        (Phase::Committing(i), ReplyView::Committed(Err(e))) => reverting(
            plan,
            SagaState { reject: Some(("commit failed: "@ + e, None)), ..s },
            0,
        ),
        (Phase::Reverting(k), ReplyView::Undone(None)) => reverting(plan, s, k + 1),
        (Phase::Reverting(k), ReplyView::Undone(Some(e))) => reverting(
            plan,
            SagaState {
                errors: s.errors.push((s.committed[k as int].0, "revert failed: "@ + e)),
                ..s
            },
            k + 1,
        ),
        (Phase::Restoring(i), ReplyView::Undone(None)) => restoring(plan, s, i + 1),
        (Phase::Restoring(i), ReplyView::Undone(Some(e))) => restoring(
            plan,
            SagaState { errors: s.errors.push((i as int, "restore failed: "@ + e)), ..s },
            i + 1,
        ),
        (Phase::Recording, ReplyView::Noted) => SagaState { phase: Phase::Closing, ..s },
        (Phase::Closing, ReplyView::Noted) => SagaState { phase: Phase::Done, ..s },
        _ => s,
    }
}

/// What to do in a state.
pub open spec fn step_of(s: SagaState) -> Step {
    match s.phase {
        Phase::Checking(i) => Step::CheckClean(i),
        Phase::Opening => Step::OpenMarker,
        Phase::Keeping(i) => Step::Keep(i),
        Phase::Writing => Step::Write,
        Phase::Probing(i) => Step::ProbeClean(i),
        Phase::Committing(i) => Step::Commit(i),
        Phase::Reverting(k) => Step::Revert(s.committed[k as int].0 as usize),
        Phase::Restoring(i) => Step::Restore(i),
        Phase::Recording => Step::RecordFailure,
        Phase::Closing => Step::CloseMarker,
        Phase::Done => Step::Finish,
    }
}

/// The member that a step is about, if it is about one.
pub open spec fn member_of(step: Step) -> Option<usize> {
    match step {
        Step::CheckClean(m)
        | Step::Keep(m)
        | Step::ProbeClean(m)
        | Step::Commit(m)
        | Step::Revert(m)
        | Step::Restore(m) => Some(m),
        _ => None,
    }
}

/// The paths that a step takes: the clean check those that the mutation writes, keeping,
/// probing, committing and restoring all of the member. A revert goes by the id of the
/// mutation, and takes none.
pub open spec fn paths_taken(plan: SagaPlan, step: Step) -> Seq<String> {
    match step {
        Step::CheckClean(m) => checked_paths_spec(plan, m as int),
        Step::Keep(m) | Step::ProbeClean(m) | Step::Commit(m) | Step::Restore(m) => {
            plan.members@[m as int].paths@
        },
        _ => Seq::empty(),
    }
}

/// The paths that a step takes, relative to the root of its member.
pub fn step_paths(plan: &SagaPlan, step: Step) -> (r: Vec<String>)
    requires
        member_of(step) matches Some(m) ==> m < plan.members@.len(),
    ensures
        r@ == paths_taken(*plan, step),
{
    match step {
        Step::CheckClean(m) => checked_paths(plan, m),
        Step::Keep(m) | Step::ProbeClean(m) | Step::Commit(m) | Step::Restore(m) => {
            copy_all(&plan.members[m].paths)
        },
        _ => Vec::new(),
    }
}

/// Whether the numbers in a state name members and commits that there are.
pub open spec fn state_wf(plan: SagaPlan, s: SagaState) -> bool {
    let n = plan.members@.len();
    &&& match s.phase {
        Phase::Checking(i) => i < n && needs_check(plan, i as int),
        Phase::Keeping(i) => i < n && !plan.members@[i as int].git,
        Phase::Probing(i) => i < n && plan.members@[i as int].git,
        Phase::Committing(i) => i < n && plan.members@[i as int].git,
        Phase::Reverting(k) => k < s.committed.len(),
        Phase::Restoring(i) => i < n,
        _ => true,
    }
    &&& forall|k: int|
        #![trigger s.committed[k]]
        0 <= k < s.committed.len() ==> 0 <= s.committed[k].0 < n
    &&& forall|k: int| #![trigger s.errors[k]] 0 <= k < s.errors.len() ==> 0 <= s.errors[k].0 < n
    &&& n <= usize::MAX
}

pub proof fn lemma_next_git(plan: SagaPlan, from: int)
    requires
        0 <= from,
    ensures
        next_git(plan, from) <= plan.members@.len(),
        next_git(plan, from) < plan.members@.len() ==> from <= next_git(plan, from)
            && plan.members@[next_git(plan, from)].git,
        forall|k: int|
            #![trigger plan.members@[k]]
            from <= k < next_git(plan, from) ==> !plan.members@[k].git,
    decreases plan.members@.len() - from,
{
    if from < plan.members@.len() && !plan.members@[from].git {
        lemma_next_git(plan, from + 1);
    }
}

pub proof fn lemma_next_bare(plan: SagaPlan, from: int)
    requires
        0 <= from,
    ensures
        next_bare(plan, from) <= plan.members@.len(),
        next_bare(plan, from) < plan.members@.len() ==> from <= next_bare(plan, from)
            && !plan.members@[next_bare(plan, from)].git,
        forall|k: int|
            #![trigger plan.members@[k]]
            from <= k < next_bare(plan, from) ==> plan.members@[k].git,
    decreases plan.members@.len() - from,
{
    if from < plan.members@.len() && plan.members@[from].git {
        lemma_next_bare(plan, from + 1);
    }
}

pub proof fn lemma_next_checked(plan: SagaPlan, from: int)
    requires
        0 <= from,
    ensures
        next_checked(plan, from) <= plan.members@.len(),
        next_checked(plan, from) < plan.members@.len() ==> from <= next_checked(plan, from)
            && needs_check(plan, next_checked(plan, from)),
        forall|k: int|
            from <= k < next_checked(plan, from) ==> !#[trigger] needs_check(plan, k),
    decreases plan.members@.len() - from,
{
    if from < plan.members@.len() && !needs_check(plan, from) {
        lemma_next_checked(plan, from + 1);
    }
}

fn find_git(plan: &SagaPlan, from: usize) -> (r: usize)
    requires
        from <= plan.members@.len(),
    ensures
        r == next_git(*plan, from as int),
        r <= plan.members@.len(),
{
    let mut i: usize = from;
    while i < plan.members.len()
        invariant
            from <= i <= plan.members@.len(),
            next_git(*plan, from as int) == next_git(*plan, i as int),
        decreases plan.members@.len() - i,
    {
        if plan.members[i].git {
            return i;
        }
        i += 1;
    }
    i
}

fn find_bare(plan: &SagaPlan, from: usize) -> (r: usize)
    requires
        from <= plan.members@.len(),
    ensures
        r == next_bare(*plan, from as int),
        r <= plan.members@.len(),
{
    let mut i: usize = from;
    while i < plan.members.len()
        invariant
            from <= i <= plan.members@.len(),
            next_bare(*plan, from as int) == next_bare(*plan, i as int),
        decreases plan.members@.len() - i,
    {
        if !plan.members[i].git {
            return i;
        }
        i += 1;
    }
    i
}

fn find_checked(plan: &SagaPlan, from: usize) -> (r: usize)
    requires
        from <= plan.members@.len(),
    ensures
        r == next_checked(*plan, from as int),
        r <= plan.members@.len(),
{
    let mut i: usize = from;
    while i < plan.members.len()
        invariant
            from <= i <= plan.members@.len(),
            next_checked(*plan, from as int) == next_checked(*plan, i as int),
        decreases plan.members@.len() - i,
    {
        if plan.members[i].git && checked_paths(plan, i).len() > 0 {
            return i;
        }
        i += 1;
    }
    i
}

/// The names of the repos that no working tree covers.
fn find_uncovered(plan: &SagaPlan) -> (r: Vec<String>)
    ensures
        views(r@) == uncovered(*plan, plan.members@.len() as int),
{
    let mut r: Vec<String> = Vec::new();
    assert(views(r@) =~= Seq::empty());
    for m in 0..plan.members.len()
        invariant
            views(r@) == uncovered(*plan, m as int),
    {
        let member: &SagaMember = &plan.members[m];
        if !member.git {
            let ghost before = r@;
            for k in 0..member.repo_names.len()
                invariant
                    views(r@) == views(before) + views(member.repo_names@.take(k as int)),
            {
                let ghost sofar = r@;
                r.push(member.repo_names[k].clone());
                proof {
                    lemma_views_push(sofar, member.repo_names@[k as int]);
                    lemma_views_push(member.repo_names@.take(k as int), member.repo_names@[k as int]);
                    assert(member.repo_names@.take(k + 1) =~= member.repo_names@.take(
                        k as int,
                    ).push(member.repo_names@[k as int]));
                }
                assert(views(r@) =~= views(before) + views(member.repo_names@.take(k + 1)));
            }
            assert(member.repo_names@.take(member.repo_names@.len() as int)
                =~= member.repo_names@);
        }
    }
    r
}

/// The name of the record that a rollback of this mutation is incomplete.
pub fn failure_sentinel_name(mutation_id: &str) -> (r: String)
    ensures
        r@ == sentinel_name(mutation_id@),
{
    joined("saga.failed.", mutation_id)
}

impl Saga {
    /// Begins a saga.
    pub fn begin(plan: &SagaPlan, require_git: bool) -> (r: Self)
        ensures
            r@ == start(*plan, require_git),
            state_wf(*plan, r@),
    {
        let mut s = Saga {
            phase: Phase::Opening,
            committed: Vec::new(),
            errors: Vec::new(),
            reject: None,
        };
        let n: usize = plan.members.len();
        proof {
            assert(landed_views(s.committed@) =~= Seq::empty());
            assert(stuck_views(s.errors@) =~= Seq::empty());
        }
        if require_git {
            let names = find_uncovered(plan);
            assert(views(names@).len() == names@.len());
            if names.len() > 0 {
                let mut message = joined(
                    "refactor spans a member no git working tree covers (",
                    join_texts(&names, ", ").as_str(),
                );
                message.append(
                    "): compensation is git-only, so a mid-saga failure could not be rolled back. Refusing. Put it under a working tree, its own root or any ancestor",
                );
                s.phase = Phase::Done;
                s.reject = Some(Reject::new(message));
                return s;
            }
        }
        s.check_from(plan, 0);
        s
    }

    /// What to do next.
    pub fn next(&self, plan: &SagaPlan) -> (r: Step)
        requires
            state_wf(*plan, self@),
        ensures
            r == step_of(self@),
    {
        match self.phase {
            Phase::Checking(i) => Step::CheckClean(i),
            Phase::Opening => Step::OpenMarker,
            Phase::Keeping(i) => Step::Keep(i),
            Phase::Writing => Step::Write,
            Phase::Probing(i) => Step::ProbeClean(i),
            Phase::Committing(i) => Step::Commit(i),
            Phase::Reverting(k) => {
                assert(self@.committed[k as int].0 == self.committed@[k as int].member);
                Step::Revert(self.committed[k].member)
            },
            Phase::Restoring(i) => Step::Restore(i),
            Phase::Recording => Step::RecordFailure,
            Phase::Closing => Step::CloseMarker,
            Phase::Done => Step::Finish,
        }
    }

    fn check_from(&mut self, plan: &SagaPlan, from: usize)
        requires
            from <= plan.members@.len(),
            forall|k: int|
                #![trigger old(self)@.committed[k]]
                0 <= k < old(self)@.committed.len() ==> 0 <= old(self)@.committed[k].0
                    < plan.members@.len(),
            forall|k: int|
                #![trigger old(self)@.errors[k]]
                0 <= k < old(self)@.errors.len() ==> 0 <= old(self)@.errors[k].0
                    < plan.members@.len(),
            plan.members@.len() <= usize::MAX,
        ensures
            final(self)@ == checking(*plan, old(self)@, from as int),
            state_wf(*plan, final(self)@),
    {
        let i: usize = find_checked(plan, from);
        proof {
            lemma_next_checked(*plan, from as int);
        }
        self.phase = if i < plan.members.len() {
            Phase::Checking(i)
        } else {
            Phase::Opening
        };
    }

    fn keep_from(&mut self, plan: &SagaPlan, from: usize)
        requires
            from <= plan.members@.len(),
            forall|k: int|
                #![trigger old(self)@.committed[k]]
                0 <= k < old(self)@.committed.len() ==> 0 <= old(self)@.committed[k].0
                    < plan.members@.len(),
            forall|k: int|
                #![trigger old(self)@.errors[k]]
                0 <= k < old(self)@.errors.len() ==> 0 <= old(self)@.errors[k].0
                    < plan.members@.len(),
            plan.members@.len() <= usize::MAX,
        ensures
            final(self)@ == keeping(*plan, old(self)@, from as int),
            state_wf(*plan, final(self)@),
    {
        let i: usize = find_bare(plan, from);
        proof {
            lemma_next_bare(*plan, from as int);
        }
        self.phase = if i < plan.members.len() {
            Phase::Keeping(i)
        } else {
            Phase::Writing
        };
    }

    fn commit_from(&mut self, plan: &SagaPlan, from: usize)
        requires
            from <= plan.members@.len(),
            forall|k: int|
                #![trigger old(self)@.committed[k]]
                0 <= k < old(self)@.committed.len() ==> 0 <= old(self)@.committed[k].0
                    < plan.members@.len(),
            forall|k: int|
                #![trigger old(self)@.errors[k]]
                0 <= k < old(self)@.errors.len() ==> 0 <= old(self)@.errors[k].0
                    < plan.members@.len(),
            plan.members@.len() <= usize::MAX,
        ensures
            final(self)@ == committing(*plan, old(self)@, from as int),
            state_wf(*plan, final(self)@),
    {
        let i: usize = find_git(plan, from);
        proof {
            lemma_next_git(*plan, from as int);
        }
        self.phase = if i < plan.members.len() {
            Phase::Probing(i)
        } else {
            Phase::Closing
        };
    }

    fn restore_from(&mut self, plan: &SagaPlan, from: usize)
        requires
            from <= plan.members@.len(),
            forall|k: int|
                #![trigger old(self)@.committed[k]]
                0 <= k < old(self)@.committed.len() ==> 0 <= old(self)@.committed[k].0
                    < plan.members@.len(),
            forall|k: int|
                #![trigger old(self)@.errors[k]]
                0 <= k < old(self)@.errors.len() ==> 0 <= old(self)@.errors[k].0
                    < plan.members@.len(),
            plan.members@.len() <= usize::MAX,
        ensures
            final(self)@ == restoring(*plan, old(self)@, from as int),
            state_wf(*plan, final(self)@),
    {
        assert(stuck_views(self.errors@).len() == self.errors@.len());
        if from < plan.members.len() {
            self.phase = Phase::Restoring(from);
        } else if self.errors.len() == 0 {
            self.phase = Phase::Closing;
        } else {
            self.phase = Phase::Recording;
            let told = match &self.reject {
                Some(r) => {
                    let mut m = joined(r.message.as_str(), "; the rollback was incomplete, ");
                    m.append(decimal_text(self.errors.len() as u64).as_str());
                    m.append(" member(s) recorded in ");
                    m.append(failure_sentinel_name(plan.mutation_id.as_str()).as_str());
                    Some(m)
                },
                None => None,
            };
            let mut held = None;
            std::mem::swap(&mut held, &mut self.reject);
            self.reject = match (held, told) {
                (Some(r), Some(message)) => Some(Reject { message, detail: r.detail }),
                _ => None,
            };
        }
    }

    fn revert_from(&mut self, plan: &SagaPlan, from: usize)
        requires
            from <= old(self).committed@.len(),
            forall|k: int|
                #![trigger old(self)@.committed[k]]
                0 <= k < old(self)@.committed.len() ==> 0 <= old(self)@.committed[k].0
                    < plan.members@.len(),
            forall|k: int|
                #![trigger old(self)@.errors[k]]
                0 <= k < old(self)@.errors.len() ==> 0 <= old(self)@.errors[k].0
                    < plan.members@.len(),
            plan.members@.len() <= usize::MAX,
        ensures
            final(self)@ == reverting(*plan, old(self)@, from as int),
            state_wf(*plan, final(self)@),
    {
        assert(landed_views(self.committed@).len() == self.committed@.len());
        if from < self.committed.len() {
            self.phase = Phase::Reverting(from);
        } else {
            self.restore_from(plan, 0);
        }
    }

    fn note_stuck(&mut self, member: usize, what: &str, why: &str)
        ensures
            final(self)@ == (SagaState {
                errors: old(self)@.errors.push((member as int, what@ + why@)),
                ..old(self)@
            }),
    {
        let ghost before = self.errors@;
        let stuck = Stuck { member, message: joined(what, why) };
        self.errors.push(stuck);
        assert(stuck_views(self.errors@) =~= stuck_views(before).push((member as int, what@ + why@)));
    }

    /// Takes the reply to the last step.
    pub fn advance(&mut self, plan: &SagaPlan, reply: Reply)
        requires
            state_wf(*plan, old(self)@),
        ensures
            final(self)@ == after(*plan, old(self)@, reply@),
            state_wf(*plan, final(self)@),
    {
        assert(landed_views(self.committed@).len() == self.committed@.len());
        match (self.phase, reply) {
            (Phase::Checking(i), Reply::Clean(Ok(clean))) => {
                if clean {
                    self.check_from(plan, i + 1);
                } else {
                    self.phase = Phase::Done;
                    self.reject = Some(
                        Reject::new(
                            "path has uncommitted changes — the engine is the writer; commit or discard them first".to_owned(),
                        ),
                    );
                }
            },
            (Phase::Checking(_), Reply::Clean(Err(e))) => {
                self.phase = Phase::Done;
                self.reject = Some(Reject::new(joined("git precondition failed: ", e.as_str())));
            },
            (Phase::Opening, Reply::Opened(Some(e))) => {
                self.phase = Phase::Done;
                self.reject = Some(
                    Reject::new(
                        joined(
                            "could not open the saga: intent marker write failed: ",
                            e.as_str(),
                        ),
                    ),
                );
            },
            (Phase::Opening, Reply::Opened(None)) => self.keep_from(plan, 0),
            (Phase::Keeping(i), Reply::Noted) => self.keep_from(plan, i + 1),
            (Phase::Writing, Reply::Written(None)) => self.commit_from(plan, 0),
            (Phase::Writing, Reply::Written(Some(r))) => {
                self.reject = Some(r);
                self.restore_from(plan, 0);
            },
            (Phase::Probing(i), Reply::Clean(clean)) => {
                let nothing = match clean {
                    Ok(c) => c,
                    Err(_) => false,
                };
                if nothing {
                    self.commit_from(plan, i + 1);
                } else {
                    self.phase = Phase::Committing(i);
                }
            },
            (Phase::Committing(i), Reply::Committed(Ok(sha))) => {
                let ghost before = self.committed@;
                let landed = Landed { member: i, sha };
                self.committed.push(landed);
                assert(landed_views(self.committed@) =~= landed_views(before).push(
                    (i as int, sha@),
                ));
                self.commit_from(plan, i + 1);
            },
            (Phase::Committing(_), Reply::Committed(Err(e))) => {
                self.reject = Some(Reject::new(joined("commit failed: ", e.as_str())));
                self.revert_from(plan, 0);
            },
            (Phase::Reverting(k), Reply::Undone(failure)) => {
                if let Some(e) = failure {
                    let member: usize = self.committed[k].member;
                    assert(self@.committed[k as int].0 == member);
                    self.note_stuck(member, "revert failed: ", e.as_str());
                }
                let made: usize = self.committed.len();
                assert(landed_views(self.committed@).len() == made);
                self.revert_from(plan, k + 1);
            },
            (Phase::Restoring(i), Reply::Undone(failure)) => {
                if let Some(e) = failure {
                    self.note_stuck(i, "restore failed: ", e.as_str());
                }
                self.restore_from(plan, i + 1);
            },
            (Phase::Recording, Reply::Noted) => {
                self.phase = Phase::Closing;
            },
            (Phase::Closing, Reply::Noted) => {
                self.phase = Phase::Done;
            },
            _ => {},
        }
    }
}

} // verus!
