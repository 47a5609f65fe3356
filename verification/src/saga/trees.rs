//! From the touched paths to the working trees that hold them.

use crate::graph::nodes::{chosen, ints, lemma_chosen};
use crate::model::{owner, repo_of, Repo};
use crate::paths::{
    below, lemma_path_lt_irreflexive, lemma_path_lt_same, lemma_path_lt_total, lemma_path_lt_transitive,
    path_before, path_lt, same_path, same_path_spec, strip_root,
};
use crate::saga::plan::{CommitTrailer, SagaMember, SagaPlan};
use crate::text::{
    holds, is_before, lemma_text_lt_total, lemma_text_lt_transitive, lemma_views_push, same, text_lt,
    views,
};
use vstd::prelude::*;

verus! {

/// The positions of the keys that name one path, the first of them at `at`.
#[derive(Debug)]
pub struct PathGroup {
    pub at: usize,
    pub items: Vec<usize>,
}

/// The positions below `n` whose key names the path of the key at `at`.
pub open spec fn alike(keys: Seq<String>, at: int, n: int) -> Seq<int> {
    chosen(|j: int| same_path_spec(keys[j]@, keys[at]@), n)
}

/// Whether a group among these has the path of the key at `j`.
pub open spec fn has_path_group(groups: Seq<PathGroup>, keys: Seq<String>, j: int) -> bool {
    exists|g: int|
        #![trigger groups[g]]
        0 <= g < groups.len() && same_path_spec(keys[groups[g].at as int]@, keys[j]@)
}

/// Whether the groups are those of the first `n` keys: one for each path, in the
/// order of the paths, with all the positions that name it, ascending.
pub open spec fn is_grouping(groups: Seq<PathGroup>, keys: Seq<String>, n: int) -> bool {
    &&& forall|g: int|
        #![trigger groups[g]]
        0 <= g < groups.len() ==> {
            &&& groups[g].at < n
            &&& ints(groups[g].items@) == alike(keys, groups[g].at as int, n)
            &&& groups[g].items@.len() > 0
            &&& ints(groups[g].items@)[0] == groups[g].at
        }
    &&& forall|g: int, h: int|
        #![trigger groups[g], groups[h]]
        0 <= g < h < groups.len() ==> path_lt(
            keys[groups[g].at as int]@,
            keys[groups[h].at as int]@,
        )
    &&& forall|j: int| 0 <= j < n ==> #[trigger] has_path_group(groups, keys, j)
}

/// Key `n` joins group `i`.
proof fn lemma_join(keys: Seq<String>, n: int, before: Seq<PathGroup>, i: int, now: Seq<PathGroup>)
    requires
        0 <= n < keys.len() <= usize::MAX,
        is_grouping(before, keys, n),
        0 <= i < before.len(),
        same_path_spec(keys[before[i].at as int]@, keys[n]@),
        now.len() == before.len(),
        forall|g: int| #![trigger now[g]] 0 <= g < now.len() && g != i ==> now[g] == before[g],
        now[i].at == before[i].at,
        ints(now[i].items@) == ints(before[i].items@).push(n),
    ensures
        is_grouping(now, keys, n + 1),
{
    assert forall|g: int| #![trigger now[g]] 0 <= g < now.len() implies {
        &&& now[g].at < n + 1
        &&& ints(now[g].items@) == alike(keys, now[g].at as int, n + 1)
        &&& now[g].items@.len() > 0
        &&& ints(now[g].items@)[0] == now[g].at
    } by {
        assert(before[g].at < n);
        assert(ints(now[g].items@).len() == now[g].items@.len());
        if g != i {
            if g < i {
                assert(path_lt(keys[before[g].at as int]@, keys[before[i].at as int]@));
            } else {
                assert(path_lt(keys[before[i].at as int]@, keys[before[g].at as int]@));
            }
            if same_path_spec(keys[n]@, keys[before[g].at as int]@) {
                lemma_path_lt_same(
                    keys[before[g].at as int]@,
                    keys[before[i].at as int]@,
                    keys[before[i].at as int]@,
                );
                lemma_path_lt_irreflexive(keys[before[i].at as int]@);
            }
        }
    }
    assert forall|g: int, h: int| #![trigger now[g], now[h]] 0 <= g < h < now.len() implies path_lt(
        keys[now[g].at as int]@,
        keys[now[h].at as int]@,
    ) by {
        assert(now[g].at == before[g].at && now[h].at == before[h].at);
    }
    assert forall|j: int| 0 <= j < n + 1 implies #[trigger] has_path_group(now, keys, j) by {
        if j < n {
            assert(has_path_group(before, keys, j));
            let g = choose|g: int|
                #![trigger before[g]]
                0 <= g < before.len() && same_path_spec(keys[before[g].at as int]@, keys[j]@);
            assert(now[g].at == before[g].at);
        } else {
            assert(now[i].at == before[i].at);
        }
    }
}

/// Key `n` opens a group at `i`.
proof fn lemma_found(keys: Seq<String>, n: int, before: Seq<PathGroup>, i: int, new: PathGroup)
    requires
        0 <= n < keys.len() <= usize::MAX,
        is_grouping(before, keys, n),
        0 <= i <= before.len(),
        forall|g: int|
            #![trigger before[g]]
            0 <= g < i ==> path_lt(keys[before[g].at as int]@, keys[n]@),
        forall|g: int|
            #![trigger before[g]]
            i <= g < before.len() ==> path_lt(keys[n]@, keys[before[g].at as int]@),
        new.at == n,
        ints(new.items@) == seq![n],
    ensures
        is_grouping(before.insert(i, new), keys, n + 1),
{
    let now = before.insert(i, new);
    lemma_path_lt_irreflexive(keys[n]@);
    let p = |j: int| same_path_spec(keys[j]@, keys[n]@);
    assert(chosen(p, n).len() == 0) by {
        lemma_chosen(p, n);
        if chosen(p, n).len() > 0 {
            let j = chosen(p, n)[0];
            assert(p(j));
            assert(has_path_group(before, keys, j));
            let g = choose|g: int|
                #![trigger before[g]]
                0 <= g < before.len() && same_path_spec(keys[before[g].at as int]@, keys[j]@);
            assert(before[g].at < n);
            lemma_path_lt_same(keys[before[g].at as int]@, keys[n]@, keys[n]@);
        }
    }
    assert(alike(keys, n, n + 1) =~= seq![n]) by {
        assert(p(n));
        assert(chosen(p, n) =~= Seq::empty());
    }
    assert forall|g: int| #![trigger now[g]] 0 <= g < now.len() implies {
        &&& now[g].at < n + 1
        &&& ints(now[g].items@) == alike(keys, now[g].at as int, n + 1)
        &&& now[g].items@.len() > 0
        &&& ints(now[g].items@)[0] == now[g].at
    } by {
        assert(ints(now[g].items@).len() == now[g].items@.len());
        if g != i {
            let o = if g < i { g } else { g - 1 };
            assert(now[g] == before[o]);
            if same_path_spec(keys[n]@, keys[before[o].at as int]@) {
                lemma_path_lt_same(keys[before[o].at as int]@, keys[n]@, keys[n]@);
            }
        }
    }
    assert forall|g: int, h: int| #![trigger now[g], now[h]] 0 <= g < h < now.len() implies path_lt(
        keys[now[g].at as int]@,
        keys[now[h].at as int]@,
    ) by {
        let go = if g < i { g } else { g - 1 };
        let ho = if h < i { h } else { h - 1 };
        if g == i {
            assert(now[h] == before[ho]);
        } else if h == i {
            assert(now[g] == before[go]);
        } else {
            assert(now[g] == before[go] && now[h] == before[ho]);
        }
    }
    assert forall|j: int| 0 <= j < n + 1 implies #[trigger] has_path_group(now, keys, j) by {
        if j < n {
            assert(has_path_group(before, keys, j));
            let g = choose|g: int|
                #![trigger before[g]]
                0 <= g < before.len() && same_path_spec(keys[before[g].at as int]@, keys[j]@);
            if g < i {
                assert(now[g] == before[g]);
            } else {
                assert(now[g + 1] == before[g]);
            }
        } else {
            assert(now[i].at == n);
        }
    }
}

/// Groups positions by the path that their key names.
pub fn group_by_path(keys: &Vec<String>) -> (r: Vec<PathGroup>)
    ensures
        is_grouping(r@, keys@, keys@.len() as int),
{
    let mut groups: Vec<PathGroup> = Vec::new();
    let size: usize = keys.len();
    for n in 0..size
        invariant
            size == keys@.len(),
            is_grouping(groups@, keys@, n as int),
    {
        let ghost before = groups@;
        let mut i: usize = 0;
        proof {
            assert forall|g: int| #![trigger groups@[g]] 0 <= g < groups@.len() implies groups@[g].at
                < n by {}
        }
        while i < groups.len() && path_before(keys[groups[i].at].as_str(), keys[n].as_str())
            invariant
                groups@ == before,
                i <= groups@.len(),
                n < keys@.len(),
                forall|g: int| #![trigger groups@[g]] 0 <= g < groups@.len() ==> groups@[g].at < n,
                forall|g: int|
                    #![trigger groups@[g]]
                    0 <= g < i ==> path_lt(keys@[groups@[g].at as int]@, keys@[n as int]@),
            decreases groups@.len() - i,
        {
            i += 1;
        }
        if i < groups.len() && same_path(keys[groups[i].at].as_str(), keys[n].as_str()) {
            let mut g = groups.remove(i);
            let ghost had = g.items@;
            g.items.push(n);
            assert(ints(g.items@) =~= ints(had).push(n as int));
            groups.insert(i, g);
            proof {
                assert forall|k: int|
                    #![trigger groups@[k]]
                    0 <= k < groups@.len() && k != i implies groups@[k] == before[k] by {}
                lemma_join(keys@, n as int, before, i as int, groups@);
            }
        } else {
            let mut items: Vec<usize> = Vec::new();
            items.push(n);
            assert(ints(items@) =~= seq![n as int]);
            let g = PathGroup { at: n, items };
            proof {
                if i < before.len() {
                    lemma_path_lt_total(keys@[before[i as int].at as int]@, keys@[n as int]@);
                    assert forall|h: int|
                        #![trigger before[h]]
                        i <= h < before.len() implies path_lt(
                        keys@[n as int]@,
                        keys@[before[h].at as int]@,
                    ) by {
                        if h > i {
                            assert(path_lt(
                                keys@[before[i as int].at as int]@,
                                keys@[before[h].at as int]@,
                            ));
                            lemma_path_lt_transitive(
                                keys@[n as int]@,
                                keys@[before[i as int].at as int]@,
                                keys@[before[h].at as int]@,
                            );
                        }
                    }
                }
                lemma_found(keys@, n as int, before, i as int, g);
            }
            groups.insert(i, g);
        }
    }
    groups
}

/// Whether the texts are in strict order, so that none is listed twice.
pub open spec fn texts_ascend(v: Seq<String>) -> bool {
    forall|i: int, j: int|
        #![trigger v[i], v[j]]
        0 <= i < j < v.len() ==> text_lt(v[i]@, v[j]@)
}

/// Puts `s` at its place in an ascending list, unless it is listed already.
pub fn add_text(v: &mut Vec<String>, s: String)
    requires
        texts_ascend(old(v)@),
    ensures
        texts_ascend(final(v)@),
        forall|q: Seq<char>|
            #[trigger] holds(final(v)@, q) == (holds(old(v)@, q) || s@ == q),
{
    let ghost before = v@;
    let mut i: usize = 0;
    while i < v.len() && is_before(v[i].as_str(), s.as_str())
        invariant
            i <= v@.len(),
            v@ == before,
            forall|k: int| #![trigger v@[k]] 0 <= k < i ==> text_lt(v@[k]@, s@),
        decreases v@.len() - i,
    {
        i += 1;
    }
    if i < v.len() && same(v[i].as_str(), s.as_str()) {
        assert(before[i as int]@ == s@);
        return;
    }
    let ghost text = s;
    v.insert(i, s);
    proof {
        let now = v@;
        if i < before.len() {
            lemma_text_lt_total(before[i as int]@, text@);
        }
        assert forall|a: int, b: int| #![trigger now[a], now[b]] 0 <= a < b < now.len() implies text_lt(
            now[a]@,
            now[b]@,
        ) by {
            let ao = if a < i { a } else { a - 1 };
            let bo = if b < i { b } else { b - 1 };
            if a == i as int {
                assert(now[b] == before[bo]);
                if bo > i {
                    lemma_text_lt_transitive(text@, before[i as int]@, before[bo]@);
                }
            } else if b == i as int {
                assert(now[a] == before[a]);
            } else {
                assert(now[a] == before[ao] && now[b] == before[bo]);
            }
        }
        assert forall|q: Seq<char>| #[trigger] holds(now, q) == (holds(before, q) || text@ == q) by {
            if holds(now, q) {
                let k = choose|k: int| 0 <= k < now.len() && #[trigger] now[k]@ == q;
                if k < i {
                    assert(before[k] == now[k]);
                } else if k > i {
                    assert(before[k - 1] == now[k]);
                }
            }
            if holds(before, q) {
                let k = choose|k: int| 0 <= k < before.len() && #[trigger] before[k]@ == q;
                if k < i {
                    assert(now[k] == before[k]);
                } else {
                    assert(now[k + 1] == before[k]);
                }
            }
            if text@ == q {
                assert(now[i as int]@ == q);
            }
        }
    }
}

/// The paths that a mutation touches in one repo.
#[derive(Debug)]
pub struct RepoPaths {
    pub name: String,
    pub root: String,
    pub paths: Vec<String>,
}

/// The targets that a repo owns, as positions.
pub open spec fn owned(repos: Seq<Repo>, targets: Seq<String>) -> Seq<int> {
    chosen(|j: int| owner(repos, targets[j]@) is Some, targets.len() as int)
}

/// The repo that owns the target at `j`.
pub open spec fn owner_repo(repos: Seq<Repo>, targets: Seq<String>, j: int) -> Repo {
    repos[owner(repos, targets[j]@)->0]
}

/// The targets that the repo rooted at `root` owns, in order.
pub open spec fn owned_at(
    repos: Seq<Repo>,
    targets: Seq<String>,
    root: Seq<char>,
    n: int,
) -> Seq<String>
    decreases n,
{
    if n <= 0 {
        Seq::empty()
    } else {
        let before = owned_at(repos, targets, root, n - 1);
        if owner(repos, targets[n - 1]@) is Some && same_path_spec(
            owner_repo(repos, targets, n - 1).root@,
            root,
        ) {
            before.push(targets[n - 1])
        } else {
            before
        }
    }
}

/// Whether a repo has this name and this root.
pub open spec fn is_repo(repos: Seq<Repo>, name: String, root: String) -> bool {
    exists|i: int|
        #![trigger repos[i]]
        0 <= i < repos.len() && repos[i].name == name && repos[i].root == root
}

/// Whether these are the touched paths per owning repo: one entry for each root
/// that owns a target, in the order of the roots, with its targets in order.
pub open spec fn is_by_repo(by_repo: Seq<RepoPaths>, repos: Seq<Repo>, targets: Seq<String>) -> bool {
    &&& forall|g: int|
        #![trigger by_repo[g]]
        0 <= g < by_repo.len() ==> {
            &&& by_repo[g].paths@ == owned_at(
                repos,
                targets,
                by_repo[g].root@,
                targets.len() as int,
            )
            &&& by_repo[g].paths@.len() > 0
            &&& is_repo(repos, by_repo[g].name, by_repo[g].root)
        }
    &&& forall|g: int, h: int|
        #![trigger by_repo[g], by_repo[h]]
        0 <= g < h < by_repo.len() ==> path_lt(by_repo[g].root@, by_repo[h].root@)
    &&& forall|j: int|
        #![trigger targets[j]]
        0 <= j < targets.len() && owner(repos, targets[j]@) is Some ==> exists|g: int|
            #![trigger by_repo[g]]
            0 <= g < by_repo.len() && same_path_spec(
                by_repo[g].root@,
                owner_repo(repos, targets, j).root@,
            )
}

/// Whether `positions` and `roots` list the owned targets among the first `n` and
/// the roots of their owners.
pub open spec fn lists_owned(
    repos: Seq<Repo>,
    targets: Seq<String>,
    positions: Seq<usize>,
    roots: Seq<String>,
    n: int,
) -> bool {
    &&& positions.len() == roots.len()
    &&& ints(positions) == chosen(|j: int| owner(repos, targets[j]@) is Some, n)
    &&& forall|k: int|
        #![trigger positions[k]]
        0 <= k < positions.len() ==> positions[k] < n && owner(
            repos,
            targets[positions[k] as int]@,
        ) is Some && roots[k] == owner_repo(repos, targets, positions[k] as int).root
}

proof fn lemma_owned_at(
    repos: Seq<Repo>,
    targets: Seq<String>,
    positions: Seq<usize>,
    roots: Seq<String>,
    root: Seq<char>,
    n: int,
    m: int,
)
    requires
        0 <= n <= targets.len(),
        0 <= m <= positions.len(),
        lists_owned(repos, targets, positions, roots, targets.len() as int),
        m == chosen(|j: int| owner(repos, targets[j]@) is Some, n).len(),
        chosen(|j: int| owner(repos, targets[j]@) is Some, n) == ints(positions).take(m),
    ensures
        owned_at(repos, targets, root, n) == chosen(
            |k: int| same_path_spec(roots[k]@, root),
            m,
        ).map_values(|k: int| targets[positions[k] as int]),
    decreases n,
{
    let p = |j: int| owner(repos, targets[j]@) is Some;
    let q = |k: int| same_path_spec(roots[k]@, root);
    let f = |k: int| targets[positions[k] as int];
    if n > 0 {
        let now = chosen(p, n);
        let had = chosen(p, n - 1);
        if p(n - 1) {
            assert(now.drop_last() =~= had);
            assert(had =~= ints(positions).take(m - 1));
            lemma_owned_at(repos, targets, positions, roots, root, n - 1, m - 1);
            assert(now[m - 1] == n - 1);
            assert(ints(positions)[m - 1] == n - 1);
            assert(positions[m - 1] == n - 1);
            assert(roots[m - 1] == owner_repo(repos, targets, n - 1).root);
            assert(chosen(q, m).map_values(f) =~= if q(m - 1) {
                chosen(q, m - 1).map_values(f).push(targets[n - 1])
            } else {
                chosen(q, m - 1).map_values(f)
            });
        } else {
            lemma_owned_at(repos, targets, positions, roots, root, n - 1, m);
        }
    } else {
        assert(chosen(q, 0).map_values(f) =~= Seq::empty());
    }
}

/// The touched paths per owning repo. A path that no repo owns is left out.
pub fn paths_by_repo(repos: &Vec<Repo>, targets: &Vec<String>) -> (r: Vec<RepoPaths>)
    ensures
        is_by_repo(r@, repos@, targets@),
{
    let mut positions: Vec<usize> = Vec::new();
    let mut roots: Vec<String> = Vec::new();
    let mut names: Vec<String> = Vec::new();
    let ghost p = |j: int| owner(repos@, targets@[j]@) is Some;
    assert(ints(positions@) =~= chosen(p, 0));
    for j in 0..targets.len()
        invariant
            p == (|j: int| owner(repos@, targets@[j]@) is Some),
            lists_owned(repos@, targets@, positions@, roots@, j as int),
            names@.len() == roots@.len(),
            forall|k: int|
                #![trigger names@[k]]
                0 <= k < names@.len() ==> is_repo(repos@, names@[k], roots@[k]),
    {
        if let Some(i) = repo_of(repos, targets[j].as_str()) {
            let ghost had = positions@;
            let ghost had_roots = roots@;
            let ghost had_names = names@;
            positions.push(j);
            roots.push(repos[i].root.clone());
            names.push(repos[i].name.clone());
            proof {
                assert(p(j as int));
                assert(ints(positions@) =~= ints(had).push(j as int));
                assert forall|k: int| #![trigger positions@[k]] 0 <= k < positions@.len() implies
                    positions@[k] < j + 1 && owner(
                    repos@,
                    targets@[positions@[k] as int]@,
                ) is Some && roots@[k] == owner_repo(
                    repos@,
                    targets@,
                    positions@[k] as int,
                ).root by {
                    if k < had.len() {
                        assert(positions@[k] == had[k]);
                        assert(roots@[k] == had_roots[k]);
                    }
                }
                assert forall|k: int| #![trigger names@[k]] 0 <= k < names@.len() implies is_repo(
                    repos@,
                    names@[k],
                    roots@[k],
                ) by {
                    if k < had_names.len() {
                        assert(names@[k] == had_names[k] && roots@[k] == had_roots[k]);
                    } else {
                        assert(repos@[i as int].root == roots@[k]);
                    }
                }
            }
        } else {
            assert(!p(j as int));
        }
    }
    let groups = group_by_path(&roots);
    let ghost n = targets@.len() as int;
    let mut r: Vec<RepoPaths> = Vec::new();
    for g in 0..groups.len()
        invariant
            lists_owned(repos@, targets@, positions@, roots@, targets@.len() as int),
            names@.len() == roots@.len(),
            forall|k: int|
                #![trigger names@[k]]
                0 <= k < names@.len() ==> is_repo(repos@, names@[k], roots@[k]),
            is_grouping(groups@, roots@, roots@.len() as int),
            r@.len() == g,
            forall|h: int|
                #![trigger r@[h]]
                0 <= h < g ==> r@[h].root == roots@[groups@[h].at as int] && r@[h].name
                    == names@[groups@[h].at as int] && r@[h].paths@ == alike(
                    roots@,
                    groups@[h].at as int,
                    roots@.len() as int,
                ).map_values(|k: int| targets@[positions@[k] as int]),
    {
        let group = &groups[g];
        let at: usize = group.at;
        let mut paths: Vec<String> = Vec::new();
        let ghost f = |k: int| targets@[positions@[k] as int];
        let ghost all = alike(roots@, at as int, roots@.len() as int);
        proof {
            lemma_chosen(
                |j: int| same_path_spec(roots@[j]@, roots@[at as int]@),
                roots@.len() as int,
            );
            assert(all.take(0).map_values(f) =~= Seq::empty());
            assert(ints(group.items@).len() == group.items@.len());
        }
        for k in 0..group.items.len()
            invariant
                lists_owned(repos@, targets@, positions@, roots@, targets@.len() as int),
                f == (|k: int| targets@[positions@[k] as int]),
                ints(group.items@) == all,
                all.len() == group.items@.len(),
                forall|k: int|
                    #![trigger all[k]]
                    0 <= k < all.len() ==> 0 <= all[k] < roots@.len(),
                paths@ == all.take(k as int).map_values(f),
        {
            assert(all[k as int] == group.items@[k as int]);
            let at_target: usize = positions[group.items[k]];
            paths.push(targets[at_target].clone());
            assert(paths@ =~= all.take(k + 1).map_values(f));
        }
        assert(all.take(all.len() as int) =~= all);
        r.push(RepoPaths { name: names[at].clone(), root: roots[at].clone(), paths });
    }
    proof {
        assert(ints(positions@).take(positions@.len() as int) =~= ints(positions@));
        assert(ints(positions@).len() == positions@.len());
        assert forall|g: int| #![trigger r@[g]] 0 <= g < r@.len() implies {
            &&& r@[g].paths@ == owned_at(repos@, targets@, r@[g].root@, n)
            &&& r@[g].paths@.len() > 0
            &&& is_repo(repos@, r@[g].name, r@[g].root)
        } by {
            let at = groups@[g].at as int;
            assert(groups@[g].at < roots@.len());
            lemma_owned_at(
                repos@,
                targets@,
                positions@,
                roots@,
                roots@[at]@,
                n,
                positions@.len() as int,
            );
            let q = |j: int| same_path_spec(roots@[j]@, roots@[at]@);
            lemma_chosen(q, roots@.len() as int);
            assert(q(at));
            assert(names@[at] == r@[g].name);
        }
        assert forall|g: int, h: int| #![trigger r@[g], r@[h]] 0 <= g < h < r@.len() implies path_lt(
            r@[g].root@,
            r@[h].root@,
        ) by {
            assert(groups@[g].at < roots@.len() && groups@[h].at < roots@.len());
        }
        assert forall|j: int|
            #![trigger targets@[j]]
            0 <= j < targets@.len() && owner(repos@, targets@[j]@) is Some implies exists|g: int|
            #![trigger r@[g]]
            0 <= g < r@.len() && same_path_spec(
                r@[g].root@,
                owner_repo(repos@, targets@, j).root@,
            ) by {
            lemma_chosen(p, n);
            assert(p(j));
            let k = choose|k: int| 0 <= k < chosen(p, n).len() && chosen(p, n)[k] == j;
            assert(ints(positions@)[k] == j);
            assert(positions@[k] == j);
            assert(roots@[k] == owner_repo(repos@, targets@, j).root);
            assert(has_path_group(groups@, roots@, k));
            let g = choose|g: int|
                #![trigger groups@[g]]
                0 <= g < groups@.len() && same_path_spec(
                    roots@[groups@[g].at as int]@,
                    roots@[k]@,
                );
            assert(r@[g].root == roots@[groups@[g].at as int]);
        }
    }
    r
}

/// The root that a repo commits at: its working tree, or its own root when no
/// tree covers it.
pub open spec fn tree_of(by_repo: Seq<RepoPaths>, trees: Seq<Option<String>>, j: int) -> String {
    match trees[j] {
        Some(t) => t,
        None => by_repo[j].root,
    }
}

/// The repos below `n` that commit at `root`.
pub open spec fn repos_at(
    by_repo: Seq<RepoPaths>,
    trees: Seq<Option<String>>,
    root: Seq<char>,
    n: int,
) -> Seq<int> {
    chosen(|j: int| same_path_spec(tree_of(by_repo, trees, j)@, root), n)
}

/// The paths that lie below `root`, relative to it.
pub open spec fn rebased(paths: Seq<String>, root: Seq<char>) -> Seq<Seq<char>>
    decreases paths.len(),
{
    if paths.len() == 0 {
        Seq::empty()
    } else {
        let before = rebased(paths.drop_last(), root);
        match below(paths.last()@, root) {
            Some(rel) => before.push(rel),
            None => before,
        }
    }
}

/// The paths of these repos, relative to `root`.
pub open spec fn tree_paths(
    by_repo: Seq<RepoPaths>,
    at: Seq<int>,
    root: Seq<char>,
) -> Seq<Seq<char>>
    decreases at.len(),
{
    if at.len() == 0 {
        Seq::empty()
    } else {
        tree_paths(by_repo, at.drop_last(), root) + rebased(by_repo[at.last()].paths@, root)
    }
}

/// Whether one of these repos has the name `q`.
pub open spec fn named_among(by_repo: Seq<RepoPaths>, at: Seq<int>, q: Seq<char>) -> bool {
    exists|k: int| 0 <= k < at.len() && by_repo[#[trigger] at[k]].name@ == q
}

/// Whether `m` is the member of the tree rooted at its root: all the repos that
/// commit there, by name and once each, with all their paths.
pub open spec fn is_member(
    m: SagaMember,
    by_repo: Seq<RepoPaths>,
    trees: Seq<Option<String>>,
) -> bool {
    let at = repos_at(by_repo, trees, m.tree_root@, by_repo.len() as int);
    &&& at.len() > 0
    &&& m.tree_root == tree_of(by_repo, trees, at[0])
    &&& m.git == (trees[at[0]] is Some)
    &&& texts_ascend(m.repo_names@)
    &&& forall|q: Seq<char>| #[trigger] holds(m.repo_names@, q) == named_among(by_repo, at, q)
    &&& views(m.paths@) == tree_paths(by_repo, at, m.tree_root@)
}

/// Whether one of the members commits at the tree of repo `j`.
pub open spec fn has_member(
    members: Seq<SagaMember>,
    by_repo: Seq<RepoPaths>,
    trees: Seq<Option<String>>,
    j: int,
) -> bool {
    exists|m: int|
        #![trigger members[m]]
        0 <= m < members.len() && same_path_spec(
            members[m].tree_root@,
            tree_of(by_repo, trees, j)@,
        )
}

/// Whether the members are the working trees of the repos: one for each tree, in
/// the order of their roots.
pub open spec fn is_coalesced(
    members: Seq<SagaMember>,
    by_repo: Seq<RepoPaths>,
    trees: Seq<Option<String>>,
) -> bool {
    &&& forall|m: int|
        #![trigger members[m]]
        0 <= m < members.len() ==> is_member(members[m], by_repo, trees)
    &&& forall|a: int, b: int|
        #![trigger members[a], members[b]]
        0 <= a < b < members.len() ==> path_lt(members[a].tree_root@, members[b].tree_root@)
    &&& forall|j: int|
        0 <= j < by_repo.len() ==> #[trigger] has_member(members, by_repo, trees, j)
}

fn push_rebased(paths: &Vec<String>, root: &str, out: &mut Vec<String>)
    ensures
        views(final(out)@) == views(old(out)@) + rebased(paths@, root@),
{
    let ghost before = out@;
    assert(paths@.take(0) =~= Seq::empty());
    assert(views(before) + Seq::<Seq<char>>::empty() =~= views(before));
    for i in 0..paths.len()
        invariant
            views(out@) == views(before) + rebased(paths@.take(i as int), root@),
    {
        let ghost sofar = out@;
        assert(paths@.take(i + 1).drop_last() =~= paths@.take(i as int));
        if let Some(rel) = strip_root(paths[i].as_str(), root) {
            out.push(rel);
            proof {
                lemma_views_push(sofar, rel);
                assert(views(out@) =~= views(before) + rebased(paths@.take(i + 1), root@));
            }
        }
    }
    assert(paths@.take(paths@.len() as int) =~= paths@);
}

/// Builds the member of one group of repos.
fn make_member(
    by_repo: &Vec<RepoPaths>,
    trees: &Vec<Option<String>>,
    keys: &Vec<String>,
    group: &PathGroup,
) -> (r: SagaMember)
    requires
        trees@.len() == by_repo@.len(),
        keys@.len() == by_repo@.len(),
        forall|j: int|
            #![trigger keys@[j]]
            0 <= j < keys@.len() ==> keys@[j] == tree_of(by_repo@, trees@, j),
        group.at < keys@.len(),
        ints(group.items@) == alike(keys@, group.at as int, keys@.len() as int),
        group.items@.len() > 0,
        ints(group.items@)[0] == group.at,
    ensures
        r.tree_root == keys@[group.at as int],
        is_member(r, by_repo@, trees@),
{
    let root = &keys[group.at];
    let mut names: Vec<String> = Vec::new();
    let mut paths: Vec<String> = Vec::new();
    let ghost at = ints(group.items@);
    let ghost p = |j: int| same_path_spec(keys@[j]@, keys@[group.at as int]@);
    let ghost q = |j: int| same_path_spec(tree_of(by_repo@, trees@, j)@, root@);
    proof {
        lemma_chosen(p, keys@.len() as int);
        lemma_chosen_same(p, q, keys@.len() as int);
        assert(at == repos_at(by_repo@, trees@, root@, by_repo@.len() as int));
        assert(at.take(0) =~= Seq::empty());
        assert(views(paths@) =~= Seq::empty());
        assert(at.len() == group.items@.len());
    }
    for k in 0..group.items.len()
        invariant
            at == ints(group.items@),
            at.len() == group.items@.len(),
            forall|k: int| #![trigger at[k]] 0 <= k < at.len() ==> 0 <= at[k] < by_repo@.len(),
            texts_ascend(names@),
            forall|q: Seq<char>|
                #[trigger] holds(names@, q) == named_among(by_repo@, at.take(k as int), q),
            views(paths@) == tree_paths(by_repo@, at.take(k as int), root@),
    {
        let j: usize = group.items[k];
        assert(at[k as int] == j);
        let ghost had = names@;
        add_text(&mut names, by_repo[j].name.clone());
        push_rebased(&by_repo[j].paths, root.as_str(), &mut paths);
        proof {
            let now = at.take(k + 1);
            let before = at.take(k as int);
            assert(now.drop_last() =~= before);
            assert(now.last() == j);
            assert forall|q: Seq<char>| #[trigger] holds(names@, q) == named_among(
                by_repo@,
                now,
                q,
            ) by {
                assert(holds(had, q) == named_among(by_repo@, before, q));
                if named_among(by_repo@, before, q) {
                    let i = choose|i: int|
                        0 <= i < before.len() && by_repo@[#[trigger] before[i]].name@ == q;
                    assert(now[i] == before[i]);
                }
                if by_repo@[j as int].name@ == q {
                    assert(by_repo@[now[k as int]].name@ == q);
                }
                if named_among(by_repo@, now, q) {
                    let i = choose|i: int|
                        0 <= i < now.len() && by_repo@[#[trigger] now[i]].name@ == q;
                    if i < k {
                        assert(before[i] == now[i]);
                    }
                }
            }
        }
    }
    assert(at.take(at.len() as int) =~= at);
    SagaMember {
        tree_root: root.clone(),
        repo_names: names,
        paths,
        git: trees[group.at].is_some(),
    }
}

proof fn lemma_chosen_same(p: spec_fn(int) -> bool, q: spec_fn(int) -> bool, n: int)
    requires
        forall|j: int| 0 <= j < n ==> #[trigger] p(j) == q(j),
    ensures
        chosen(p, n) == chosen(q, n),
    decreases n,
{
    if n > 0 {
        lemma_chosen_same(p, q, n - 1);
        assert(p(n - 1) == q(n - 1));
    }
}

/// Groups the touched repos by working tree. The repos of one tree become one
/// member, so that a mutation makes one commit per tree.
pub fn coalesce_by_working_tree(by_repo: &Vec<RepoPaths>, trees: &Vec<Option<String>>) -> (r: Vec<
    SagaMember,
>)
    requires
        trees@.len() == by_repo@.len(),
    ensures
        is_coalesced(r@, by_repo@, trees@),
{
    let mut keys: Vec<String> = Vec::new();
    for j in 0..by_repo.len()
        invariant
            trees@.len() == by_repo@.len(),
            keys@.len() == j,
            forall|k: int|
                #![trigger keys@[k]]
                0 <= k < j ==> keys@[k] == tree_of(by_repo@, trees@, k),
    {
        keys.push(
            match &trees[j] {
                Some(t) => t.clone(),
                None => by_repo[j].root.clone(),
            },
        );
    }
    let groups = group_by_path(&keys);
    let mut r: Vec<SagaMember> = Vec::new();
    for g in 0..groups.len()
        invariant
            trees@.len() == by_repo@.len(),
            keys@.len() == by_repo@.len(),
            forall|k: int|
                #![trigger keys@[k]]
                0 <= k < keys@.len() ==> keys@[k] == tree_of(by_repo@, trees@, k),
            is_grouping(groups@, keys@, keys@.len() as int),
            r@.len() == g,
            forall|h: int|
                #![trigger r@[h]]
                0 <= h < g ==> r@[h].tree_root == keys@[groups@[h].at as int] && is_member(
                    r@[h],
                    by_repo@,
                    trees@,
                ),
    {
        let m = make_member(by_repo, trees, &keys, &groups[g]);
        r.push(m);
    }
    proof {
        assert forall|a: int, b: int| #![trigger r@[a], r@[b]] 0 <= a < b < r@.len() implies path_lt(
            r@[a].tree_root@,
            r@[b].tree_root@,
        ) by {
            assert(groups@[a].at < keys@.len() && groups@[b].at < keys@.len());
        }
        assert forall|j: int| 0 <= j < by_repo@.len() implies #[trigger] has_member(
            r@,
            by_repo@,
            trees@,
            j,
        ) by {
            assert(has_path_group(groups@, keys@, j));
            let g = choose|g: int|
                #![trigger groups@[g]]
                0 <= g < groups@.len() && same_path_spec(keys@[groups@[g].at as int]@, keys@[j]@);
            assert(r@[g].tree_root == keys@[groups@[g].at as int]);
            assert(keys@[j] == tree_of(by_repo@, trees@, j));
        }
    }
    r
}

/// A working tree has one member: two members never share a root.
pub proof fn one_member_per_tree(
    members: Seq<SagaMember>,
    by_repo: Seq<RepoPaths>,
    trees: Seq<Option<String>>,
    a: int,
    b: int,
)
    requires
        is_coalesced(members, by_repo, trees),
        0 <= a < b < members.len(),
    ensures
        !same_path_spec(members[a].tree_root@, members[b].tree_root@),
{
    let x = members[a].tree_root@;
    let y = members[b].tree_root@;
    assert(path_lt(x, y));
    if same_path_spec(x, y) {
        lemma_path_lt_same(x, y, y);
        lemma_path_lt_irreflexive(y);
    }
}

/// Two repos of one working tree are in one member, and it names both.
pub proof fn repos_of_one_tree_share_a_member(
    members: Seq<SagaMember>,
    by_repo: Seq<RepoPaths>,
    trees: Seq<Option<String>>,
    i: int,
    j: int,
    m: int,
)
    requires
        is_coalesced(members, by_repo, trees),
        0 <= i < by_repo.len(),
        0 <= j < by_repo.len(),
        same_path_spec(tree_of(by_repo, trees, i)@, tree_of(by_repo, trees, j)@),
        0 <= m < members.len(),
        same_path_spec(members[m].tree_root@, tree_of(by_repo, trees, i)@),
    ensures
        holds(members[m].repo_names@, by_repo[i].name@),
        holds(members[m].repo_names@, by_repo[j].name@),
{
    assert(is_member(members[m], by_repo, trees));
    let root = members[m].tree_root@;
    let q = |k: int| same_path_spec(tree_of(by_repo, trees, k)@, root);
    let at = repos_at(by_repo, trees, root, by_repo.len() as int);
    lemma_chosen(q, by_repo.len() as int);
    assert(q(i) && q(j));
    let x = choose|x: int| 0 <= x < at.len() && at[x] == i;
    let y = choose|y: int| 0 <= y < at.len() && at[y] == j;
    assert(by_repo[at[x]].name@ == by_repo[i].name@);
    assert(by_repo[at[y]].name@ == by_repo[j].name@);
    assert(named_among(by_repo, at, by_repo[i].name@));
    assert(named_among(by_repo, at, by_repo[j].name@));
}

/// The plan of a mutation: the touched paths by working tree, what is left unwritten
/// among them, and the lines of attribution. `trees` has, for each repo, the working
/// tree that covers it.
pub fn resolve_saga_plan(
    mutation_id: String,
    by_repo: &Vec<RepoPaths>,
    trees: &Vec<Option<String>>,
    exempt: Vec<String>,
    attribution: Vec<CommitTrailer>,
) -> (r: SagaPlan)
    requires
        trees@.len() == by_repo@.len(),
    ensures
        r.mutation_id == mutation_id,
        is_coalesced(r.members@, by_repo@, trees@),
        r.exempt_from_clean_check == exempt,
        r.attribution == attribution,
{
    SagaPlan {
        mutation_id,
        members: coalesce_by_working_tree(by_repo, trees),
        exempt_from_clean_check: exempt,
        attribution,
    }
}

} // verus!
