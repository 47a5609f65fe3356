//! What to do at startup with a saga that a crash cut off.

use crate::saga::machine::{failure_sentinel_name, sentinel_name};
use crate::saga::marker::{
    error_views, failure_body, failure_text, marked, parse_marker, tree_views, MarkedTree, TreeError,
};
use crate::sorting::{lemma_map_multiset, lemma_same_items, lemma_sorted_unique, sort, sorted, Ranked};
use crate::text::{
    after_prefix, is_at_most, joined, lemma_text_le_total, lemma_text_le_transitive, lemma_views_push,
    strip_prefix, text_le, views,
};
use vstd::prelude::*;

verus! {

/// A crashed saga that was rolled back: the working trees that had committed and
/// were reverted, and those that had only written and were restored.
#[derive(Debug)]
pub struct SagaRecovery {
    pub mutation_id: String,
    pub reverted: Vec<String>,
    pub restored: Vec<String>,
}

/// A saga that could not be rolled back. It is told at every start until its
/// record is removed.
#[derive(Debug)]
pub struct SagaFailure {
    pub mutation_id: String,
    pub detail: String,
}

/// What recovery found and did.
#[derive(Debug)]
pub struct SagaRecoveryReport {
    pub recovered: Option<SagaRecovery>,
    pub failures: Vec<SagaFailure>,
}

/// How to roll a working tree back.
#[derive(Debug, Clone, Copy, PartialEq, Eq, Structural)]
pub enum Undo {
    /// The tree carries the mutation's commit: revert it.
    Revert,
    /// The tree was written at most: restore its paths.
    Restore,
    /// It is unknown: leave the tree alone.
    Leave,
}

/// How to roll a tree back, by whether it carries the mutation's commit.
pub fn undo_of(committed: &Result<bool, String>) -> (r: Undo)
    ensures
        r == (match committed {
            Ok(true) => Undo::Revert,
            Ok(false) => Undo::Restore,
            Err(_) => Undo::Leave,
        }),
{
    match committed {
        Ok(true) => Undo::Revert,
        Ok(false) => Undo::Restore,
        Err(_) => Undo::Leave,
    }
}

/// What git said of a working tree: whether it carries the mutation's commit, and
/// why it could not be reverted or restored, if it could not.
#[derive(Debug)]
pub struct TreeReply {
    pub committed: Result<bool, String>,
    pub undone: Option<String>,
}

/// The error that a reply leaves behind.
pub open spec fn reply_error(r: TreeReply) -> Option<Seq<char>> {
    match r.committed {
        Ok(true) => match r.undone {
            Some(e) => Some("revert failed: "@ + e@),
            None => None,
        },
        Ok(false) => match r.undone {
            Some(e) => Some("restore failed: "@ + e@),
            None => None,
        },
        Err(e) => Some("classify failed: "@ + e@),
    }
}

/// The roots of the first `n` trees that were rolled back, of those whose commit
/// was there or was not.
pub open spec fn undone_roots(
    trees: Seq<(Seq<char>, Seq<Seq<char>>)>,
    replies: Seq<TreeReply>,
    commit: bool,
    n: int,
) -> Seq<Seq<char>>
    decreases n,
{
    if n <= 0 {
        Seq::empty()
    } else {
        let before = undone_roots(trees, replies, commit, n - 1);
        if replies[n - 1].committed == Ok::<bool, String>(commit) && replies[n - 1].undone is None {
            before.push(trees[n - 1].0)
        } else {
            before
        }
    }
}

/// The trees among the first `n` that could not be rolled back, and why.
pub open spec fn stuck_roots(
    trees: Seq<(Seq<char>, Seq<Seq<char>>)>,
    replies: Seq<TreeReply>,
    n: int,
) -> Seq<(Seq<char>, Seq<char>)>
    decreases n,
{
    if n <= 0 {
        Seq::empty()
    } else {
        let before = stuck_roots(trees, replies, n - 1);
        match reply_error(replies[n - 1]) {
            Some(e) => before.push((trees[n - 1].0, e)),
            None => before,
        }
    }
}

/// Every recorded tree is reverted, restored or told as stuck.
pub proof fn every_tree_is_accounted_for(
    trees: Seq<(Seq<char>, Seq<Seq<char>>)>,
    replies: Seq<TreeReply>,
    n: int,
)
    requires
        0 <= n,
    ensures
        undone_roots(trees, replies, true, n).len() + undone_roots(
            trees,
            replies,
            false,
            n,
        ).len() + stuck_roots(trees, replies, n).len() == n,
    decreases n,
{
    if n > 0 {
        every_tree_is_accounted_for(trees, replies, n - 1);
        match replies[n - 1].committed {
            Ok(b) => {
                assert(b == true || b == false);
            },
            Err(_) => {},
        }
    }
}

/// The trees that could not be rolled back.
fn find_stuck(trees: &Vec<MarkedTree>, replies: &Vec<TreeReply>) -> (r: Vec<TreeError>)
    requires
        replies@.len() >= trees@.len(),
    ensures
        error_views(r@) == stuck_roots(tree_views(trees@), replies@, trees@.len() as int),
{
    let mut r: Vec<TreeError> = Vec::new();
    assert(error_views(r@) =~= Seq::empty());
    for k in 0..trees.len()
        invariant
            replies@.len() >= trees@.len(),
            error_views(r@) == stuck_roots(tree_views(trees@), replies@, k as int),
    {
        let message: Option<String> = match &replies[k].committed {
            Ok(true) => match &replies[k].undone {
                Some(e) => Some(joined("revert failed: ", e.as_str())),
                None => None,
            },
            Ok(false) => match &replies[k].undone {
                Some(e) => Some(joined("restore failed: ", e.as_str())),
                None => None,
            },
            Err(e) => Some(joined("classify failed: ", e.as_str())),
        };
        if let Some(message) = message {
            let ghost before = r@;
            let e = TreeError { tree_root: trees[k].tree_root.clone(), message };
            r.push(e);
            assert(error_views(r@) =~= error_views(before).push((e.tree_root@, e.message@)));
        }
    }
    r
}

/// The trees that were rolled back in one way.
fn find_undone(trees: &Vec<MarkedTree>, replies: &Vec<TreeReply>, commit: bool) -> (r: Vec<String>)
    requires
        replies@.len() >= trees@.len(),
    ensures
        views(r@) == undone_roots(tree_views(trees@), replies@, commit, trees@.len() as int),
{
    let mut r: Vec<String> = Vec::new();
    assert(views(r@) =~= Seq::empty());
    for k in 0..trees.len()
        invariant
            replies@.len() >= trees@.len(),
            views(r@) == undone_roots(tree_views(trees@), replies@, commit, k as int),
    {
        let hit = match &replies[k].committed {
            Ok(b) => *b == commit && replies[k].undone.is_none(),
            Err(_) => false,
        };
        if hit {
            let ghost before = r@;
            r.push(trees[k].tree_root.clone());
            proof {
                lemma_views_push(before, trees@[k as int].tree_root);
            }
        }
    }
    r
}

/// A file in the directory of the engine's run state.
#[derive(Debug)]
pub struct RunFile {
    pub name: String,
    pub body: String,
}

impl Ranked for SagaFailure {
    open spec fn rank_le(&self, other: &Self) -> bool {
        text_le(self.mutation_id@, other.mutation_id@)
    }

    fn at_most(&self, other: &Self) -> (r: bool) {
        is_at_most(self.mutation_id.as_str(), other.mutation_id.as_str())
    }

    proof fn rank_total(a: &Self, b: &Self) {
        lemma_text_le_total(a.mutation_id@, b.mutation_id@);
    }

    proof fn rank_transitive(a: &Self, b: &Self, c: &Self) {
        lemma_text_le_transitive(a.mutation_id@, b.mutation_id@, c.mutation_id@);
    }
}

/// The failures that the first `n` files record: each file whose name says so,
/// with what it holds.
pub open spec fn failures_in(files: Seq<RunFile>, n: int) -> Seq<(Seq<char>, Seq<char>)>
    decreases n,
{
    if n <= 0 {
        Seq::empty()
    } else {
        let before = failures_in(files, n - 1);
        match after_prefix(files[n - 1].name@, "saga.failed."@) {
            Some(id) => before.push((id, files[n - 1].body@)),
            None => before,
        }
    }
}

pub open spec fn failure_views(v: Seq<SagaFailure>) -> Seq<(Seq<char>, Seq<char>)> {
    v.map_values(|f: SagaFailure| (f.mutation_id@, f.detail@))
}

/// The recorded failures, by the id of their mutation.
pub fn scan_failure_sentinels(files: &Vec<RunFile>) -> (r: Vec<SagaFailure>)
    ensures
        sorted(r@),
        failure_views(r@).to_multiset() == failures_in(files@, files@.len() as int).to_multiset(),
{
    let mut out: Vec<SagaFailure> = Vec::new();
    assert(failure_views(out@) =~= Seq::empty());
    for k in 0..files.len()
        invariant
            failure_views(out@) == failures_in(files@, k as int),
    {
        if let Some(id) = strip_prefix(files[k].name.as_str(), "saga.failed.") {
            let ghost before = out@;
            let f = SagaFailure { mutation_id: id, detail: files[k].body.clone() };
            out.push(f);
            assert(failure_views(out@) =~= failure_views(before).push(
                (f.mutation_id@, f.detail@),
            ));
        }
    }
    let by_id = sort(out);
    proof {
        lemma_map_multiset(by_id@, out@, |f: SagaFailure| (f.mutation_id@, f.detail@));
    }
    by_id
}

/// Whether git replied for every tree that a record of intent names.
pub open spec fn replied(marker: Option<Seq<char>>, replies: Seq<TreeReply>) -> bool {
    marker matches Some(content) ==> marked(content) matches Some((_, trees)) ==> replies.len()
        >= trees.len()
}

/// What recovery made of the record of intent: nothing without one that can be
/// read.
pub open spec fn recovered_from(
    marker: Option<Seq<char>>,
    replies: Seq<TreeReply>,
) -> Option<(Seq<char>, Seq<Seq<char>>, Seq<Seq<char>>)> {
    match marker {
        None => None,
        Some(content) => match marked(content) {
            None => None,
            Some((id, trees)) => Some(
                (
                    id,
                    undone_roots(trees, replies, true, trees.len() as int),
                    undone_roots(trees, replies, false, trees.len() as int),
                ),
            ),
        },
    }
}

pub open spec fn recovery_view(r: Option<SagaRecovery>) -> Option<(
    Seq<char>,
    Seq<Seq<char>>,
    Seq<Seq<char>>,
)> {
    match r {
        Some(x) => Some((x.mutation_id@, views(x.reverted@), views(x.restored@))),
        None => None,
    }
}

pub open spec fn text_view(s: Option<String>) -> Option<Seq<char>> {
    crate::text::opt_view(s)
}

/// The file that records what recovery could not roll back, when there is
/// anything to record.
pub open spec fn failure_file(
    marker: Option<Seq<char>>,
    replies: Seq<TreeReply>,
) -> Option<(Seq<char>, Seq<char>)> {
    match marker {
        None => None,
        Some(content) => match marked(content) {
            None => None,
            Some((id, trees)) => {
                let errors = stuck_roots(trees, replies, trees.len() as int);
                if errors.len() == 0 {
                    None
                } else {
                    Some((sentinel_name(id), failure_text(id, errors)))
                }
            },
        },
    }
}

/// The file that records what recovery could not roll back.
pub fn recovery_failure(marker: &Option<String>, replies: &Vec<TreeReply>) -> (r: Option<RunFile>)
    requires
        replied(text_view(*marker), replies@),
    ensures
        match r {
            Some(f) => failure_file(text_view(*marker), replies@) == Some((f.name@, f.body@)),
            None => failure_file(text_view(*marker), replies@) is None,
        },
{
    let content = match marker {
        Some(c) => c,
        None => return None,
    };
    let m = match parse_marker(content.as_str()) {
        Some(m) => m,
        None => return None,
    };
    assert(tree_views(m.trees@).len() == m.trees@.len());
    let errors = find_stuck(&m.trees, replies);
    assert(error_views(errors@).len() == errors@.len());
    if errors.len() == 0 {
        return None;
    }
    Some(
        RunFile {
            name: failure_sentinel_name(m.mutation_id.as_str()),
            body: failure_body(m.mutation_id.as_str(), &errors),
        },
    )
}

/// The report of a recovery: the saga that the record of intent names, rolled
/// back as git replied, and every failure that is still on record.
pub fn recover_crashed_saga(
    marker: &Option<String>,
    replies: &Vec<TreeReply>,
    files: &Vec<RunFile>,
) -> (r: SagaRecoveryReport)
    requires
        replied(text_view(*marker), replies@),
    ensures
        recovery_view(r.recovered) == recovered_from(text_view(*marker), replies@),
        sorted(r.failures@),
        failure_views(r.failures@).to_multiset() == failures_in(
            files@,
            files@.len() as int,
        ).to_multiset(),
{
    let failures = scan_failure_sentinels(files);
    let recovered = match marker {
        None => None,
        Some(content) => match parse_marker(content.as_str()) {
            None => None,
            Some(m) => {
                assert(tree_views(m.trees@).len() == m.trees@.len());
                let reverted = find_undone(&m.trees, replies, true);
                let restored = find_undone(&m.trees, replies, false);
                Some(SagaRecovery { mutation_id: m.mutation_id, reverted, restored })
            },
        },
    };
    SagaRecoveryReport { recovered, failures }
}

/// The id of the mutation that a record of intent names.
pub open spec fn recorded_id(marker: Option<Seq<char>>) -> Seq<char> {
    match marker {
        None => Seq::empty(),
        Some(content) => match marked(content) {
            None => Seq::empty(),
            Some((id, _)) => id,
        },
    }
}

/// A failure that recovery records is told by every later report.
pub proof fn recorded_failures_are_told(
    marker: Option<Seq<char>>,
    replies: Seq<TreeReply>,
    files: Seq<RunFile>,
    k: int,
    n: int,
)
    requires
        0 <= k < n <= files.len(),
        failure_file(marker, replies) == Some((files[k].name@, files[k].body@)),
    ensures
        failures_in(files, n).contains((recorded_id(marker), files[k].body@)),
    decreases n,
{
    let id = recorded_id(marker);
    let row = (id, files[k].body@);
    let now = failures_in(files, n);
    if k == n - 1 {
        assert(sentinel_name(id).take("saga.failed."@.len() as int) =~= "saga.failed."@);
        assert(sentinel_name(id).skip("saga.failed."@.len() as int) =~= id);
        assert(now[now.len() - 1] == row);
    } else {
        recorded_failures_are_told(marker, replies, files, k, n - 1);
        let before = failures_in(files, n - 1);
        let j = choose|j: int| 0 <= j < before.len() && before[j] == row;
        assert(now[j] == row);
    }
}

/// Whether each failure on record is that of another mutation, as their files have
/// different names.
pub open spec fn told_apart(rows: Seq<(Seq<char>, Seq<char>)>) -> bool {
    forall|i: int, j: int|
        #![trigger rows[i], rows[j]]
        0 <= i < rows.len() && 0 <= j < rows.len() && rows[i].0 == rows[j].0 ==> rows[i] == rows[j]
}

/// A second recovery finds no record of intent, rolls nothing back, and tells the same
/// failures in the same order, in whatever order the files are read.
pub proof fn a_second_recovery_tells_the_same(
    files: Seq<RunFile>,
    again: Seq<RunFile>,
    first: Seq<SagaFailure>,
    second: Seq<SagaFailure>,
)
    requires
        failures_in(files, files.len() as int).to_multiset() == failures_in(
            again,
            again.len() as int,
        ).to_multiset(),
        told_apart(failures_in(files, files.len() as int)),
        sorted(first),
        failure_views(first).to_multiset() == failures_in(files, files.len() as int).to_multiset(),
        sorted(second),
        failure_views(second).to_multiset() == failures_in(
            again,
            again.len() as int,
        ).to_multiset(),
    ensures
        failure_views(second) == failure_views(first),
        recovered_from(None, Seq::empty()) is None,
{
    let f = |x: SagaFailure| (x.mutation_id@, x.detail@);
    let rows = failures_in(files, files.len() as int);
    assert forall|i: int, j: int|
        #![trigger second[i], first[j]]
        0 <= i < second.len() && 0 <= j < first.len() && second[i].rank_le(&first[j])
            && first[j].rank_le(&second[i]) implies f(second[i]) == f(first[j]) by {
        crate::text::lemma_text_le_antisymmetric(second[i].mutation_id@, first[j].mutation_id@);
        assert(failure_views(second)[i] == f(second[i]));
        assert(failure_views(first)[j] == f(first[j]));
        assert(failure_views(second).contains(f(second[i])));
        assert(failure_views(first).contains(f(first[j])));
        lemma_same_items(failure_views(second), rows, f(second[i]));
        lemma_same_items(failure_views(first), rows, f(first[j]));
        let p = choose|p: int| 0 <= p < rows.len() && rows[p] == f(second[i]);
        let q = choose|q: int| 0 <= q < rows.len() && rows[q] == f(first[j]);
        assert(rows[p].0 == rows[q].0);
    }
    lemma_sorted_unique(second, first, f);
}

} // verus!
