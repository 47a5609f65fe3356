//! What the commits of a saga say and what a saga returns.

use crate::paths::{abs_arg, below, joined_path, same_path, same_path_spec, strip_root};
use crate::saga::machine::{landed_views, state_wf, Landed, Saga};
use crate::saga::plan::{CommitTrailer, Reject, SagaPlan};
use crate::sorting::{in_rank, lemma_map_multiset, place, sort, sorted, Ranked};
use crate::text::{
    is_at_most, lemma_text_le_total, lemma_text_le_transitive, lemma_views_push, opt_view, text_le,
    views,
};
use vstd::prelude::*;

verus! {

impl Ranked for String {
    open spec fn rank_le(&self, other: &Self) -> bool {
        text_le(self@, other@)
    }

    fn at_most(&self, other: &Self) -> (r: bool) {
        is_at_most(self.as_str(), other.as_str())
    }

    proof fn rank_total(a: &Self, b: &Self) {
        lemma_text_le_total(a@, b@);
    }

    proof fn rank_transitive(a: &Self, b: &Self, c: &Self) {
        lemma_text_le_transitive(a@, b@, c@);
    }
}

/// A file that a commit moves.
#[derive(Debug)]
pub struct MovedRecord {
    pub from: String,
    pub to: String,
}

/// The files that the commit of one working tree moves.
#[derive(Debug)]
pub struct TreeMoves {
    pub tree: String,
    pub records: Vec<MovedRecord>,
}

/// What a commit says.
#[derive(Debug)]
pub struct CommitMessage {
    pub summary: String,
    pub mutation_id: String,
    /// Every repo that the mutation commits, by name.
    pub members: Vec<String>,
    pub moves: Vec<MovedRecord>,
    pub attribution: Vec<CommitTrailer>,
}

/// The names of the repos in the first `n` members that git covers.
pub open spec fn covered(plan: SagaPlan, n: int) -> Seq<Seq<char>>
    decreases n,
{
    if n <= 0 {
        Seq::empty()
    } else if plan.members@[n - 1].git {
        covered(plan, n - 1) + views(plan.members@[n - 1].repo_names@)
    } else {
        covered(plan, n - 1)
    }
}

/// The names of the repos that a saga commits, by name.
pub fn member_names(plan: &SagaPlan) -> (r: Vec<String>)
    ensures
        sorted(r@),
        views(r@).to_multiset() == covered(*plan, plan.members@.len() as int).to_multiset(),
{
    let mut names: Vec<String> = Vec::new();
    assert(views(names@) =~= Seq::empty());
    for m in 0..plan.members.len()
        invariant
            views(names@) == covered(*plan, m as int),
    {
        let member = &plan.members[m];
        if member.git {
            let ghost before = names@;
            assert(views(member.repo_names@.take(0)) =~= Seq::empty());
            assert(views(before) + Seq::<Seq<char>>::empty() =~= views(before));
            for k in 0..member.repo_names.len()
                invariant
                    views(names@) == views(before) + views(member.repo_names@.take(k as int)),
            {
                let ghost sofar = names@;
                names.push(member.repo_names[k].clone());
                proof {
                    lemma_views_push(sofar, member.repo_names@[k as int]);
                    lemma_views_push(member.repo_names@.take(k as int), member.repo_names@[k as int]);
                    assert(member.repo_names@.take(k + 1) =~= member.repo_names@.take(
                        k as int,
                    ).push(member.repo_names@[k as int]));
                    assert(views(names@) =~= views(before) + views(member.repo_names@.take(k + 1)));
                }
            }
            assert(member.repo_names@.take(member.repo_names@.len() as int)
                =~= member.repo_names@);
        }
    }
    let by_name = sort(names);
    proof {
        lemma_map_multiset(by_name@, names@, |s: String| s@);
    }
    by_name
}

/// The moves of the working tree rooted at `root`, searching from `i` on.
pub open spec fn moves_from(moves: Seq<TreeMoves>, root: Seq<char>, i: int) -> Seq<MovedRecord>
    decreases moves.len() - i,
{
    if i < 0 || i >= moves.len() {
        Seq::empty()
    } else if same_path_spec(moves[i].tree@, root) {
        moves[i].records@
    } else {
        moves_from(moves, root, i + 1)
    }
}

fn copy_moves(v: &Vec<MovedRecord>) -> (r: Vec<MovedRecord>)
    ensures
        r@ == v@,
{
    let mut r: Vec<MovedRecord> = Vec::new();
    for i in 0..v.len()
        invariant
            r@ == v@.take(i as int),
    {
        r.push(MovedRecord { from: v[i].from.clone(), to: v[i].to.clone() });
        assert(r@ =~= v@.take(i + 1));
    }
    assert(v@.take(v@.len() as int) =~= v@);
    r
}

fn copy_trailers(v: &Vec<CommitTrailer>) -> (r: Vec<CommitTrailer>)
    ensures
        r@ == v@,
{
    let mut r: Vec<CommitTrailer> = Vec::new();
    for i in 0..v.len()
        invariant
            r@ == v@.take(i as int),
    {
        r.push(CommitTrailer { key: v[i].key.clone(), value: v[i].value.clone() });
        assert(r@ =~= v@.take(i + 1));
    }
    assert(v@.take(v@.len() as int) =~= v@);
    r
}

fn find_moves(moves: &Vec<TreeMoves>, root: &str) -> (r: Vec<MovedRecord>)
    ensures
        r@ == moves_from(moves@, root@, 0),
{
    for i in 0..moves.len()
        invariant
            moves_from(moves@, root@, 0) == moves_from(moves@, root@, i as int),
    {
        if same_path(moves[i].tree.as_str(), root) {
            return copy_moves(&moves[i].records);
        }
    }
    let none: Vec<MovedRecord> = Vec::new();
    assert(none@ =~= Seq::empty());
    none
}

/// What the commit of member `m` says. Every commit of a saga carries the same
/// mutation and the same list of repos; the moves are those of its own tree.
pub fn commit_message(plan: &SagaPlan, summary: &str, moves: &Vec<TreeMoves>, m: usize) -> (r:
    CommitMessage)
    requires
        m < plan.members@.len(),
    ensures
        r.summary@ == summary@,
        r.mutation_id == plan.mutation_id,
        sorted(r.members@),
        views(r.members@).to_multiset() == covered(
            *plan,
            plan.members@.len() as int,
        ).to_multiset(),
        r.moves@ == moves_from(moves@, plan.members@[m as int].tree_root@, 0),
        r.attribution@ == plan.attribution@,
{
    CommitMessage {
        summary: summary.to_owned(),
        mutation_id: plan.mutation_id.clone(),
        members: member_names(plan),
        moves: find_moves(moves, plan.members[m].tree_root.as_str()),
        attribution: copy_trailers(&plan.attribution),
    }
}

/// A path of a repo, taken relative to the working tree that commits it.
pub open spec fn onto_tree(repo_root: Seq<char>, tree: Seq<char>, rel: Seq<char>) -> Seq<char> {
    match below(joined_path(repo_root, rel), tree) {
        Some(p) => p,
        None => rel,
    }
}

fn rebase(repo_root: &str, tree: &str, rel: &str) -> (r: String)
    ensures
        r@ == onto_tree(repo_root@, tree@, rel@),
{
    match strip_root(abs_arg(repo_root, rel).as_str(), tree) {
        Some(p) => p,
        None => rel.to_owned(),
    }
}

/// The record of a file move, for the commit that carries it: that of the
/// working tree, with the paths relative to the tree. A repo that no tree covers
/// stands for itself.
pub fn moves_for(repo_root: &str, tree: &Option<String>, old_rel: &str, new_rel: &str) -> (r:
    TreeMoves)
    ensures
        ({
            let root = match opt_view(*tree) {
                Some(t) => t,
                None => repo_root@,
            };
            &&& r.tree@ == root
            &&& r.records@.len() == 1
            &&& r.records@[0].from@ == onto_tree(repo_root@, root, old_rel@)
            &&& r.records@[0].to@ == onto_tree(repo_root@, root, new_rel@)
        }),
{
    let root = match tree {
        Some(t) => t.clone(),
        None => repo_root.to_owned(),
    };
    let mut records: Vec<MovedRecord> = Vec::new();
    records.push(
        MovedRecord {
            from: rebase(repo_root, root.as_str(), old_rel),
            to: rebase(repo_root, root.as_str(), new_rel),
        },
    );
    TreeMoves { tree: root, records }
}

/// The commit that carries a repo's change.
#[derive(Debug)]
pub struct RepoCommit {
    pub repo: String,
    pub sha: String,
}

impl Ranked for RepoCommit {
    open spec fn rank_le(&self, other: &Self) -> bool {
        text_le(self.repo@, other.repo@)
    }

    fn at_most(&self, other: &Self) -> (r: bool) {
        is_at_most(self.repo.as_str(), other.repo.as_str())
    }

    proof fn rank_total(a: &Self, b: &Self) {
        lemma_text_le_total(a.repo@, b.repo@);
    }

    proof fn rank_transitive(a: &Self, b: &Self, c: &Self) {
        lemma_text_le_transitive(a.repo@, b.repo@, c.repo@);
    }
}

pub open spec fn commit_views(v: Seq<RepoCommit>) -> Seq<(Seq<char>, Seq<char>)> {
    v.map_values(|c: RepoCommit| (c.repo@, c.sha@))
}

/// Each of the names with the commit `sha`.
pub open spec fn named_commits(names: Seq<String>, sha: Seq<char>) -> Seq<(Seq<char>, Seq<char>)> {
    names.map_values(|n: String| (n@, sha))
}

/// The commits of a saga by repo, tree by tree: every repo of a tree names the one
/// commit that the tree got.
pub open spec fn repo_commits(
    plan: SagaPlan,
    landed: Seq<(int, Seq<char>)>,
) -> Seq<(Seq<char>, Seq<char>)>
    decreases landed.len(),
{
    if landed.len() == 0 {
        Seq::empty()
    } else {
        repo_commits(plan, landed.drop_last()) + named_commits(
            plan.members@[landed.last().0].repo_names@,
            landed.last().1,
        )
    }
}

fn collect_commits(plan: &SagaPlan, landed: &Vec<Landed>) -> (r: Vec<RepoCommit>)
    requires
        forall|k: int|
            #![trigger landed@[k]]
            0 <= k < landed@.len() ==> landed@[k].member < plan.members@.len(),
    ensures
        commit_views(r@) == repo_commits(*plan, landed_views(landed@)),
{
    let mut r: Vec<RepoCommit> = Vec::new();
    let ghost all = landed_views(landed@);
    assert(all.take(0) =~= Seq::empty());
    assert(commit_views(r@) =~= Seq::empty());
    for k in 0..landed.len()
        invariant
            forall|k: int|
                #![trigger landed@[k]]
                0 <= k < landed@.len() ==> landed@[k].member < plan.members@.len(),
            all == landed_views(landed@),
            commit_views(r@) == repo_commits(*plan, all.take(k as int)),
    {
        let l = &landed[k];
        let names = &plan.members[l.member].repo_names;
        let ghost before = r@;
        assert(named_commits(names@.take(0), l.sha@) =~= Seq::empty());
        assert(commit_views(before) + Seq::<(Seq<char>, Seq<char>)>::empty() =~= commit_views(
            before,
        ));
        for i in 0..names.len()
            invariant
                commit_views(r@) == commit_views(before) + named_commits(
                    names@.take(i as int),
                    l.sha@,
                ),
        {
            let ghost sofar = r@;
            let c = RepoCommit { repo: names[i].clone(), sha: l.sha.clone() };
            r.push(c);
            proof {
                assert(commit_views(r@) =~= commit_views(sofar).push((c.repo@, c.sha@)));
                assert(named_commits(names@.take(i + 1), l.sha@) =~= named_commits(
                    names@.take(i as int),
                    l.sha@,
                ).push((c.repo@, c.sha@)));
                assert(commit_views(r@) =~= commit_views(before) + named_commits(
                    names@.take(i + 1),
                    l.sha@,
                ));
            }
        }
        proof {
            assert(names@.take(names@.len() as int) =~= names@);
            let now = all.take(k + 1);
            assert(now.drop_last() =~= all.take(k as int));
            assert(now.last() == (l.member as int, l.sha@));
        }
    }
    assert(all.take(all.len() as int) =~= all);
    r
}

/// Where a commit of the repo `name` goes in a list by names, from `i` on.
pub open spec fn name_place(v: Seq<(Seq<char>, Seq<char>)>, name: Seq<char>, i: int) -> int
    decreases v.len() - i,
{
    if i >= v.len() || text_le(name, v[i].0) {
        i
    } else {
        name_place(v, name, i + 1)
    }
}

/// The commits by the names of the repos.
pub open spec fn by_name(v: Seq<(Seq<char>, Seq<char>)>) -> Seq<(Seq<char>, Seq<char>)>
    decreases v.len(),
{
    if v.len() == 0 {
        v
    } else {
        let rest = by_name(v.drop_first());
        rest.insert(name_place(rest, v[0].0, 0), v[0])
    }
}

proof fn lemma_name_place(v: Seq<RepoCommit>, x: RepoCommit, i: int)
    requires
        0 <= i,
    ensures
        place(v, x, i) == name_place(commit_views(v), x.repo@, i),
        i <= v.len() ==> i <= place(v, x, i) <= v.len(),
    decreases v.len() - i,
{
    if i < v.len() {
        lemma_name_place(v, x, i + 1);
    }
}

proof fn lemma_by_name(v: Seq<RepoCommit>)
    ensures
        commit_views(in_rank(v)) == by_name(commit_views(v)),
    decreases v.len(),
{
    if v.len() == 0 {
        assert(commit_views(v) =~= Seq::empty());
    } else {
        let rest = in_rank(v.drop_first());
        lemma_by_name(v.drop_first());
        assert(commit_views(v).drop_first() =~= commit_views(v.drop_first()));
        lemma_name_place(rest, v[0], 0);
        let at = place(rest, v[0], 0);
        assert(commit_views(rest.insert(at, v[0])) =~= commit_views(rest).insert(
            at,
            (v[0].repo@, v[0].sha@),
        ));
    }
}

impl Saga {
    /// What the saga came to: its commits by the names of the repos, or why it was
    /// refused.
    pub fn outcome(self, plan: &SagaPlan) -> (r: Result<Vec<RepoCommit>, Reject>)
        requires
            state_wf(*plan, self@),
        ensures
            match r {
                Ok(commits) => {
                    &&& self@.reject is None
                    &&& commit_views(commits@) == by_name(repo_commits(*plan, self@.committed))
                    &&& sorted(commits@)
                    &&& commit_views(commits@).to_multiset() == repo_commits(
                        *plan,
                        self@.committed,
                    ).to_multiset()
                },
                Err(reject) => self@.reject == Some((reject.message@, reject.detail)),
            },
    {
        proof {
            assert forall|k: int|
                #![trigger self.committed@[k]]
                0 <= k < self.committed@.len() implies self.committed@[k].member
                < plan.members@.len() by {
                assert(self@.committed[k].0 == self.committed@[k].member);
            }
        }
        match self.reject {
            Some(reject) => Err(reject),
            None => {
                let all = collect_commits(plan, &self.committed);
                let ghost before = all@;
                let commits = sort(all);
                proof {
                    let f = |c: RepoCommit| (c.repo@, c.sha@);
                    lemma_map_multiset(before, commits@, f);
                    lemma_by_name(before);
                }
                Ok(commits)
            },
        }
    }
}

} // verus!
