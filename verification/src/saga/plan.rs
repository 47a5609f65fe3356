//! The members of a saga and what their commits say.

use crate::json::Json;
use crate::paths::{
    add_path, holds_path, joined_path, lists_path, abs_arg, paths_ascend, same_path_spec,
};

use vstd::prelude::*;

verus! {

/// Why a mutation was refused. The detail goes to the caller as it is.
#[derive(Debug)]
pub struct Reject {
    pub message: String,
    pub detail: Option<Json>,
}

impl Reject {
    pub fn new(message: String) -> (r: Self)
        ensures
            r.message == message,
            r.detail is None,
    {
        Reject { message, detail: None }
    }
}

/// A working tree that a mutation touches. Git commits per working tree, so the
/// repos of one tree make one member.
#[derive(Debug)]
pub struct SagaMember {
    /// The root of the working tree; of a repo that no tree covers, its own root.
    pub tree_root: String,
    /// The repos of the tree that the mutation touches.
    pub repo_names: Vec<String>,
    /// The touched paths, relative to the root.
    pub paths: Vec<String>,
    /// Whether there is a working tree. Without one the member is written but not
    /// committed.
    pub git: bool,
}

/// A line of attribution that every commit of the mutation carries.
#[derive(Debug)]
pub struct CommitTrailer {
    pub key: String,
    pub value: String,
}

/// What a mutation touches.
#[derive(Debug)]
pub struct SagaPlan {
    pub mutation_id: String,
    pub members: Vec<SagaMember>,
    /// Absolute paths among the touched ones that the mutation will not write.
    pub exempt_from_clean_check: Vec<String>,
    pub attribution: Vec<CommitTrailer>,
}

/// Whether the mutation will write the path `j` of member `m`.
pub open spec fn is_checked(plan: SagaPlan, m: int, j: int) -> bool {
    let member = plan.members@[m];
    !holds_path(
        plan.exempt_from_clean_check@,
        joined_path(member.tree_root@, member.paths@[j]@),
    )
}

/// Whether member `m` has a path that must be clean before the saga opens.
pub open spec fn needs_check(plan: SagaPlan, m: int) -> bool {
    plan.members@[m].git && exists|j: int|
        0 <= j < plan.members@[m].paths@.len() && #[trigger] is_checked(plan, m, j)
}

/// The first `n` paths of member `m` that must be clean.
pub open spec fn checked_upto(plan: SagaPlan, m: int, n: int) -> Seq<String>
    decreases n,
{
    if n <= 0 {
        Seq::empty()
    } else if is_checked(plan, m, n - 1) {
        checked_upto(plan, m, n - 1).push(plan.members@[m].paths@[n - 1])
    } else {
        checked_upto(plan, m, n - 1)
    }
}

/// The paths of member `m` that must be clean before the saga opens.
pub open spec fn checked_paths_spec(plan: SagaPlan, m: int) -> Seq<String> {
    checked_upto(plan, m, plan.members@[m].paths@.len() as int)
}

proof fn lemma_checked(plan: SagaPlan, m: int, n: int)
    requires
        0 <= n <= plan.members@[m].paths@.len(),
    ensures
        checked_upto(plan, m, n).len() > 0 <==> exists|j: int|
            0 <= j < n && #[trigger] is_checked(plan, m, j),
    decreases n,
{
    if n > 0 {
        lemma_checked(plan, m, n - 1);
        assert(is_checked(plan, m, n - 1) || !is_checked(plan, m, n - 1));
    }
}

/// The paths of a member that must be clean before the saga opens: those that
/// the mutation will write.
pub fn checked_paths(plan: &SagaPlan, m: usize) -> (r: Vec<String>)
    requires
        m < plan.members@.len(),
    ensures
        r@ == checked_paths_spec(*plan, m as int),
        plan.members@[m as int].git ==> (r@.len() > 0) == needs_check(*plan, m as int),
{
    let member = &plan.members[m];
    let mut r: Vec<String> = Vec::new();
    for j in 0..member.paths.len()
        invariant
            m < plan.members@.len(),
            *member == plan.members@[m as int],
            r@ == checked_upto(*plan, m as int, j as int),
    {
        let full = abs_arg(member.tree_root.as_str(), member.paths[j].as_str());
        if !lists_path(&plan.exempt_from_clean_check, full.as_str()) {
            assert(is_checked(*plan, m as int, j as int));
            r.push(member.paths[j].clone());
        } else {
            assert(!is_checked(*plan, m as int, j as int));
        }
    }
    proof {
        lemma_checked(*plan, m as int, member.paths@.len() as int);
    }
    r
}

/// The absolute paths of the first `n` paths of a member.
pub open spec fn touched(plan: SagaPlan, p: Seq<char>, m: int, j: int) -> bool {
    same_path_spec(joined_path(plan.members@[m].tree_root@, plan.members@[m].paths@[j]@), p)
}

/// Whether `p` is a path that the mutation touches in one of the first `n`
/// members.
pub open spec fn touched_upto(plan: SagaPlan, p: Seq<char>, n: int) -> bool {
    exists|m: int, j: int|
        0 <= m < n && 0 <= j < plan.members@[m].paths@.len() && #[trigger] touched(plan, p, m, j)
}

/// The absolute paths that a saga touches, git members and others alike, in
/// order and each once: what the rebuild after the saga reads again.
pub fn saga_dirty_set(plan: &SagaPlan) -> (r: Vec<String>)
    ensures
        paths_ascend(r@),
        forall|p: Seq<char>|
            #[trigger] holds_path(r@, p) == touched_upto(*plan, p, plan.members@.len() as int),
{
    let mut r: Vec<String> = Vec::new();
    for m in 0..plan.members.len()
        invariant
            paths_ascend(r@),
            forall|p: Seq<char>| #[trigger] holds_path(r@, p) == touched_upto(*plan, p, m as int),
    {
        let member = &plan.members[m];
        let ghost before = r@;
        for j in 0..member.paths.len()
            invariant
                m < plan.members@.len(),
                *member == plan.members@[m as int],
                paths_ascend(r@),
                forall|p: Seq<char>|
                    #[trigger] holds_path(r@, p) == (touched_upto(*plan, p, m as int) || exists|
                        k: int,
                    |
                        0 <= k < j && #[trigger] touched(*plan, p, m as int, k)),
        {
            let full = abs_arg(member.tree_root.as_str(), member.paths[j].as_str());
            let ghost sofar = r@;
            add_path(&mut r, full);
            assert forall|p: Seq<char>| #[trigger] holds_path(r@, p) == (touched_upto(
                *plan,
                p,
                m as int,
            ) || exists|k: int| 0 <= k < j + 1 && #[trigger] touched(*plan, p, m as int, k)) by {
                assert(holds_path(sofar, p) == holds_path(sofar, p));
                assert(touched(*plan, p, m as int, j as int) == same_path_spec(full@, p));
            }
        }
        assert forall|p: Seq<char>| #[trigger] holds_path(r@, p) == touched_upto(
            *plan,
            p,
            m + 1,
        ) by {
            if exists|k: int| 0 <= k < member.paths@.len() && #[trigger] touched(
                *plan,
                p,
                m as int,
                k,
            ) {
                let k = choose|k: int|
                    0 <= k < member.paths@.len() && #[trigger] touched(*plan, p, m as int, k);
                assert(touched(*plan, p, m as int, k));
            }
            if touched_upto(*plan, p, m as int) {
                let (a, b) = choose|a: int, b: int|
                    0 <= a < m && 0 <= b < plan.members@[a].paths@.len() && #[trigger] touched(
                        *plan,
                        p,
                        a,
                        b,
                    );
                assert(touched(*plan, p, a, b));
            }
            if touched_upto(*plan, p, m + 1) {
                let (a, b) = choose|a: int, b: int|
                    0 <= a < m + 1 && 0 <= b < plan.members@[a].paths@.len() && #[trigger] touched(
                        *plan,
                        p,
                        a,
                        b,
                    );
                if a < m {
                    assert(touched(*plan, p, a, b));
                }
            }
        }
    }
    r
}

} // verus!
