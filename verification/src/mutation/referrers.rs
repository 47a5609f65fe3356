//! The files whose references a refactor rewrites.

use crate::ast::ByteRange;
use crate::graph::nodes::{chosen, ints, lemma_chosen};
use crate::json::{Json, Member};
use crate::model::{
    hash_of, held_hash, owner, repo_of, Backlink, CatalogEntry, Repo,
};
use crate::paths::{path_lt, same_path_spec};
use crate::saga::plan::Reject;
use crate::saga::trees::{add_text, alike, group_by_path, has_path_group, is_grouping, texts_ascend};
use crate::text::{holds, join_texts, joined_by, joined3, same, views};
use vstd::prelude::*;

verus! {

/// A file with references to rewrite: where they stand, and the digest that the
/// engine holds of it.
#[derive(Debug)]
pub struct Referrer {
    pub path: String,
    pub spans: Vec<ByteRange>,
    pub hash: Option<String>,
}

/// The ranges of the picked references that stand in the file `path`, in order.
pub open spec fn spans_in(links: Seq<Backlink>, picked: Seq<int>, path: Seq<char>) -> Seq<ByteRange> {
    chosen(
        |k: int| same_path_spec(links[picked[k]].source@, path),
        picked.len() as int,
    ).map_values(|k: int| links[picked[k]].span)
}

/// Whether one of the referrers is the file that reference `k` stands in.
pub open spec fn has_referrer(
    rs: Seq<Referrer>,
    links: Seq<Backlink>,
    picked: Seq<int>,
    k: int,
) -> bool {
    exists|r: int|
        #![trigger rs[r]]
        0 <= r < rs.len() && same_path_spec(rs[r].path@, links[picked[k]].source@)
}

/// Whether these are the files of the picked references: each file once, in path
/// order, with all its ranges and its digest.
pub open spec fn is_referrers(
    rs: Seq<Referrer>,
    catalog: Seq<CatalogEntry>,
    links: Seq<Backlink>,
    picked: Seq<int>,
) -> bool {
    &&& forall|r: int|
        #![trigger rs[r]]
        0 <= r < rs.len() ==> {
            &&& rs[r].spans@ == spans_in(links, picked, rs[r].path@)
            &&& rs[r].spans@.len() > 0
            &&& rs[r].hash == held_hash(catalog, rs[r].path@)
        }
    &&& forall|a: int, b: int|
        #![trigger rs[a], rs[b]]
        0 <= a < b < rs.len() ==> path_lt(rs[a].path@, rs[b].path@)
    &&& forall|k: int| 0 <= k < picked.len() ==> #[trigger] has_referrer(rs, links, picked, k)
}

proof fn lemma_same_chosen(p: spec_fn(int) -> bool, q: spec_fn(int) -> bool, n: int)
    requires
        forall|j: int| 0 <= j < n ==> #[trigger] p(j) == q(j),
    ensures
        chosen(p, n) == chosen(q, n),
    decreases n,
{
    if n > 0 {
        lemma_same_chosen(p, q, n - 1);
        assert(p(n - 1) == q(n - 1));
    }
}

/// Collects the files of the picked references.
pub fn collect_referrers(
    catalog: &Vec<CatalogEntry>,
    links: &Vec<Backlink>,
    picked: &Vec<usize>,
) -> (r: Vec<Referrer>)
    requires
        forall|k: int| #![trigger picked@[k]] 0 <= k < picked@.len() ==> picked@[k] < links@.len(),
    ensures
        is_referrers(r@, catalog@, links@, ints(picked@)),
{
    let mut keys: Vec<String> = Vec::new();
    for k in 0..picked.len()
        invariant
            forall|k: int|
                #![trigger picked@[k]]
                0 <= k < picked@.len() ==> picked@[k] < links@.len(),
            keys@.len() == k,
            forall|j: int|
                #![trigger keys@[j]]
                0 <= j < k ==> keys@[j] == links@[picked@[j] as int].source,
    {
        keys.push(links[picked[k]].source.clone());
    }
    let groups = group_by_path(&keys);
    let mut r: Vec<Referrer> = Vec::new();
    let ghost at = ints(picked@);
    assert(at.len() == picked@.len());
    for g in 0..groups.len()
        invariant
            forall|k: int|
                #![trigger picked@[k]]
                0 <= k < picked@.len() ==> picked@[k] < links@.len(),
            at == ints(picked@),
            at.len() == picked@.len(),
            keys@.len() == picked@.len(),
            forall|j: int|
                #![trigger keys@[j]]
                0 <= j < keys@.len() ==> keys@[j] == links@[picked@[j] as int].source,
            is_grouping(groups@, keys@, keys@.len() as int),
            r@.len() == g,
            forall|h: int|
                #![trigger r@[h]]
                0 <= h < g ==> {
                    &&& r@[h].path == keys@[groups@[h].at as int]
                    &&& r@[h].spans@ == spans_in(links@, at, r@[h].path@)
                    &&& r@[h].spans@.len() > 0
                    &&& r@[h].hash == held_hash(catalog@, r@[h].path@)
                },
    {
        let group = &groups[g];
        let path = keys[group.at].clone();
        let mut spans: Vec<ByteRange> = Vec::new();
        let ghost all = ints(group.items@);
        let ghost f = |k: int| links@[at[k]].span;
        proof {
            let p = |j: int| same_path_spec(keys@[j]@, keys@[group.at as int]@);
            let q = |k: int| same_path_spec(links@[at[k]].source@, path@);
            assert forall|j: int| 0 <= j < at.len() implies #[trigger] p(j) == q(j) by {
                assert(at[j] == picked@[j]);
                assert(keys@[j] == links@[picked@[j] as int].source);
            }
            lemma_same_chosen(p, q, at.len() as int);
            lemma_chosen(p, keys@.len() as int);
            assert(all == alike(keys@, group.at as int, keys@.len() as int));
            assert(all.len() == group.items@.len());
            assert(all.take(0).map_values(f) =~= Seq::empty());
        }
        for i in 0..group.items.len()
            invariant
                forall|k: int|
                    #![trigger picked@[k]]
                    0 <= k < picked@.len() ==> picked@[k] < links@.len(),
                at == ints(picked@),
                all == ints(group.items@),
                all.len() == group.items@.len(),
                forall|k: int| #![trigger all[k]] 0 <= k < all.len() ==> 0 <= all[k] < picked@.len(),
                f == (|k: int| links@[at[k]].span),
                spans@ == all.take(i as int).map_values(f),
        {
            let k: usize = group.items[i];
            assert(all[i as int] == k);
            assert(at[k as int] == picked@[k as int]);
            spans.push(links[picked[k]].span);
            assert(spans@ =~= all.take(i + 1).map_values(f));
        }
        proof {
            assert(all.take(all.len() as int) =~= all);
            assert(spans@ =~= spans_in(links@, at, path@));
        }
        let hash = hash_of(catalog, path.as_str());
        r.push(Referrer { path, spans, hash });
    }
    proof {
        assert forall|a: int, b: int| #![trigger r@[a], r@[b]] 0 <= a < b < r@.len() implies path_lt(
            r@[a].path@,
            r@[b].path@,
        ) by {
            assert(groups@[a].at < keys@.len() && groups@[b].at < keys@.len());
        }
        assert forall|k: int| 0 <= k < at.len() implies #[trigger] has_referrer(
            r@,
            links@,
            at,
            k,
        ) by {
            assert(has_path_group(groups@, keys@, k));
            let g = choose|g: int|
                #![trigger groups@[g]]
                0 <= g < groups@.len() && same_path_spec(keys@[groups@[g].at as int]@, keys@[k]@);
            assert(r@[g].path == keys@[groups@[g].at as int]);
            assert(keys@[k] == links@[picked@[k] as int].source);
            assert(at[k] == picked@[k]);
        }
    }
    r
}

/// The paths of the referrers that the refactor leaves as they are. `rewrites`
/// says of each whether its content would change; of one that cannot be read it
/// says nothing, and the refactor counts it as written.
pub open spec fn unwritten(rs: Seq<Referrer>, rewrites: Seq<Option<bool>>, n: int) -> Seq<String>
    decreases n,
{
    if n <= 0 {
        Seq::empty()
    } else if rewrites[n - 1] == Some(false) {
        unwritten(rs, rewrites, n - 1).push(rs[n - 1].path)
    } else {
        unwritten(rs, rewrites, n - 1)
    }
}

/// The paths of the referrers that the refactor writes.
pub open spec fn written(rs: Seq<Referrer>, rewrites: Seq<Option<bool>>, n: int) -> Seq<String>
    decreases n,
{
    if n <= 0 {
        Seq::empty()
    } else if rewrites[n - 1] == Some(false) {
        written(rs, rewrites, n - 1)
    } else {
        written(rs, rewrites, n - 1).push(rs[n - 1].path)
    }
}

/// The referrers that the refactor leaves as they are: every reference in them is
/// pinned to a commit.
pub fn referrers_not_written(rs: &Vec<Referrer>, rewrites: &Vec<Option<bool>>) -> (r: Vec<String>)
    requires
        rewrites@.len() == rs@.len(),
    ensures
        r@ == unwritten(rs@, rewrites@, rs@.len() as int),
{
    let mut r: Vec<String> = Vec::new();
    for i in 0..rs.len()
        invariant
            rewrites@.len() == rs@.len(),
            r@ == unwritten(rs@, rewrites@, i as int),
    {
        if let Some(changes) = rewrites[i] {
            if !changes {
                r.push(rs[i].path.clone());
            }
        }
    }
    r
}

/// The referrers that the refactor writes.
pub fn written_referrers(rs: &Vec<Referrer>, rewrites: &Vec<Option<bool>>) -> (r: Vec<String>)
    requires
        rewrites@.len() == rs@.len(),
    ensures
        r@ == written(rs@, rewrites@, rs@.len() as int),
{
    let mut r: Vec<String> = Vec::new();
    for i in 0..rs.len()
        invariant
            rewrites@.len() == rs@.len(),
            r@ == written(rs@, rewrites@, i as int),
    {
        let stays = match rewrites[i] {
            Some(changes) => !changes,
            None => false,
        };
        if !stays {
            r.push(rs[i].path.clone());
        }
    }
    r
}

/// A referrer is either written or left as it is.
pub proof fn every_referrer_is_written_or_left(
    rs: Seq<Referrer>,
    rewrites: Seq<Option<bool>>,
    n: int,
)
    requires
        0 <= n,
    ensures
        written(rs, rewrites, n).len() + unwritten(rs, rewrites, n).len() == n,
    decreases n,
{
    if n > 0 {
        every_referrer_is_written_or_left(rs, rewrites, n - 1);
    }
}

/// The repo that may not be written and owns `path`, by name.
pub open spec fn blocking_repo(repos: Seq<Repo>, path: Seq<char>) -> Option<Seq<char>> {
    match owner(repos, path) {
        Some(i) => if repos[i].editable {
            None
        } else {
            Some(repos[i].name@)
        },
        None => None,
    }
}

/// The paths among the first `n` that the repo `name` blocks.
pub open spec fn blocked_by(repos: Seq<Repo>, paths: Seq<String>, name: Seq<char>, n: int) -> Seq<
    String,
>
    decreases n,
{
    if n <= 0 {
        Seq::empty()
    } else if blocking_repo(repos, paths[n - 1]@) == Some(name) {
        blocked_by(repos, paths, name, n - 1).push(paths[n - 1])
    } else {
        blocked_by(repos, paths, name, n - 1)
    }
}

/// The files of one repo that may not be written.
#[derive(Debug)]
pub struct Blocking {
    pub member: String,
    pub files: Vec<String>,
}

/// Whether these are the repos that block the paths: each once, by name, with the
/// paths that it blocks.
pub open spec fn is_blocking(bs: Seq<Blocking>, repos: Seq<Repo>, paths: Seq<String>) -> bool {
    &&& forall|b: int|
        #![trigger bs[b]]
        0 <= b < bs.len() ==> bs[b].files@ == blocked_by(
            repos,
            paths,
            bs[b].member@,
            paths.len() as int,
        ) && bs[b].files@.len() > 0
    &&& forall|a: int, b: int|
        #![trigger bs[a], bs[b]]
        0 <= a < b < bs.len() ==> crate::text::text_lt(bs[a].member@, bs[b].member@)
    &&& forall|k: int|
        #![trigger paths[k]]
        0 <= k < paths.len() ==> (blocking_repo(repos, paths[k]@) matches Some(name) ==> blocks(
            bs,
            name,
        ))
}

/// Whether the repo `name` is among those that block.
pub open spec fn blocks(bs: Seq<Blocking>, name: Seq<char>) -> bool {
    exists|b: int| #![trigger bs[b]] 0 <= b < bs.len() && bs[b].member@ == name
}

fn blocking_name(repos: &Vec<Repo>, path: &str) -> (r: Option<String>)
    ensures
        crate::text::opt_view(r) == blocking_repo(repos@, path@),
{
    match repo_of(repos, path) {
        Some(i) => if repos[i].editable {
            None
        } else {
            Some(repos[i].name.clone())
        },
        None => None,
    }
}

fn collect_blocked(repos: &Vec<Repo>, paths: &Vec<String>, name: &str) -> (r: Vec<String>)
    ensures
        r@ == blocked_by(repos@, paths@, name@, paths@.len() as int),
{
    let mut r: Vec<String> = Vec::new();
    for i in 0..paths.len()
        invariant
            r@ == blocked_by(repos@, paths@, name@, i as int),
    {
        let hit = match blocking_name(repos, paths[i].as_str()) {
            Some(n) => same(n.as_str(), name),
            None => false,
        };
        if hit {
            r.push(paths[i].clone());
        }
    }
    r
}

proof fn lemma_blocked(repos: Seq<Repo>, paths: Seq<String>, name: Seq<char>, n: int, k: int)
    requires
        0 <= k < n <= paths.len(),
        blocking_repo(repos, paths[k]@) == Some(name),
    ensures
        blocked_by(repos, paths, name, n).len() > 0,
    decreases n,
{
    if k < n - 1 {
        lemma_blocked(repos, paths, name, n - 1, k);
    }
}

/// The written referrers that live in a repo which may not be written, by repo.
pub fn consumed_written_referrers(repos: &Vec<Repo>, paths: &Vec<String>) -> (r: Vec<Blocking>)
    ensures
        is_blocking(r@, repos@, paths@),
{
    let mut names: Vec<String> = Vec::new();
    for i in 0..paths.len()
        invariant
            texts_ascend(names@),
            forall|q: Seq<char>|
                #[trigger] holds(names@, q) == (exists|k: int|
                    #![trigger paths@[k]]
                    0 <= k < i && blocking_repo(repos@, paths@[k]@) == Some(q)),
    {
        let ghost had = names@;
        if let Some(n) = blocking_name(repos, paths[i].as_str()) {
            add_text(&mut names, n);
            assert forall|q: Seq<char>| #[trigger] holds(names@, q) == (exists|k: int|
                #![trigger paths@[k]]
                0 <= k < i + 1 && blocking_repo(repos@, paths@[k]@) == Some(q)) by {
                assert(holds(had, q) == holds(had, q));
                if n@ == q {
                    assert(blocking_repo(repos@, paths@[i as int]@) == Some(q));
                }
            }
        } else {
            assert forall|q: Seq<char>| #[trigger] holds(names@, q) == (exists|k: int|
                #![trigger paths@[k]]
                0 <= k < i + 1 && blocking_repo(repos@, paths@[k]@) == Some(q)) by {
                assert(holds(had, q) == holds(had, q));
            }
        }
    }
    let mut r: Vec<Blocking> = Vec::new();
    for j in 0..names.len()
        invariant
            r@.len() == j,
            texts_ascend(names@),
            forall|b: int|
                #![trigger r@[b]]
                0 <= b < j ==> r@[b].member == names@[b] && r@[b].files@ == blocked_by(
                    repos@,
                    paths@,
                    names@[b]@,
                    paths@.len() as int,
                ),
    {
        let files = collect_blocked(repos, paths, names[j].as_str());
        r.push(Blocking { member: names[j].clone(), files });
    }
    proof {
        assert forall|b: int| #![trigger r@[b]] 0 <= b < r@.len() implies r@[b].files@
            == blocked_by(repos@, paths@, r@[b].member@, paths@.len() as int) && r@[b].files@.len()
            > 0 by {
            assert(names@[b]@ == r@[b].member@);
            assert(holds(names@, r@[b].member@));
            let k = choose|k: int|
                #![trigger paths@[k]]
                0 <= k < paths@.len() && blocking_repo(repos@, paths@[k]@) == Some(r@[b].member@);
            lemma_blocked(repos@, paths@, r@[b].member@, paths@.len() as int, k);
        }
        assert forall|k: int|
            #![trigger paths@[k]]
            0 <= k < paths@.len() implies (blocking_repo(repos@, paths@[k]@) matches Some(name)
            ==> blocks(r@, name)) by {
            if let Some(name) = blocking_repo(repos@, paths@[k]@) {
                assert(holds(names@, name));
                let b = choose|b: int| 0 <= b < names@.len() && #[trigger] names@[b]@ == name;
                assert(r@[b].member@ == name);
            }
        }
        assert forall|a: int, b: int|
            #![trigger r@[a], r@[b]]
            0 <= a < b < r@.len() implies crate::text::text_lt(r@[a].member@, r@[b].member@) by {
            assert(crate::text::text_lt(names@[a]@, names@[b]@));
        }
    }
    r
}

/// The names of the repos that block.
pub open spec fn blocking_names(bs: Seq<Blocking>) -> Seq<Seq<char>> {
    bs.map_values(|b: Blocking| b.member@)
}

/// The refusal of a refactor that would write repos which may not be written.
pub open spec fn consumed_message(names: Seq<Seq<char>>) -> Seq<char> {
    "cannot rewrite references in consumed member(s) "@ + joined_by(names, ", "@)
        + " — a refactor may not author a member it does not own; list them in workspace.yaml 'edit:' to rewrite their references"@
}

/// Whether `list` lists the files as texts.
pub open spec fn lists_files(list: Json, files: Seq<String>) -> bool {
    &&& list is List
    &&& list->List_0@.len() == files.len()
    &&& forall|k: int|
        #![trigger list->List_0@[k]]
        0 <= k < files.len() ==> list->List_0@[k] == Json::Text(files[k])
}

/// Whether the detail of a refusal names each blocking repo with its files.
pub open spec fn details_blocking(detail: Json, bs: Seq<Blocking>) -> bool {
    &&& detail is Object
    &&& detail->Object_0@.len() == 1
    &&& detail->Object_0@[0].key@ == "blocking_consumed_referrers"@
    &&& detail->Object_0@[0].value is Object
    &&& detail->Object_0@[0].value->Object_0@.len() == bs.len()
    &&& forall|b: int|
        #![trigger bs[b]]
        0 <= b < bs.len() ==> {
            let m = detail->Object_0@[0].value->Object_0@[b];
            m.key == bs[b].member && lists_files(m.value, bs[b].files@)
        }
}

fn files_json(files: &Vec<String>) -> (r: Json)
    ensures
        lists_files(r, files@),
{
    let mut list: Vec<Json> = Vec::new();
    for i in 0..files.len()
        invariant
            list@.len() == i,
            forall|k: int| #![trigger list@[k]] 0 <= k < i ==> list@[k] == Json::Text(files@[k]),
    {
        list.push(Json::Text(files[i].clone()));
    }
    Json::List(list)
}

/// Whether a refusal says that these repos block.
pub open spec fn refuses_consumed(r: Reject, bs: Seq<Blocking>) -> bool {
    &&& r.message@ == consumed_message(blocking_names(bs))
    &&& r.detail matches Some(d) && details_blocking(d, bs)
}

fn consumed_reject(bs: &Vec<Blocking>) -> (r: Reject)
    ensures
        refuses_consumed(r, bs@),
{
    let mut names: Vec<String> = Vec::new();
    let mut members: Vec<Member> = Vec::new();
    for b in 0..bs.len()
        invariant
            names@.len() == b,
            members@.len() == b,
            forall|k: int| #![trigger names@[k]] 0 <= k < b ==> names@[k] == bs@[k].member,
            forall|k: int|
                #![trigger members@[k]]
                0 <= k < b ==> members@[k].key == bs@[k].member && lists_files(
                    members@[k].value,
                    bs@[k].files@,
                ),
    {
        names.push(bs[b].member.clone());
        members.push(Member { key: bs[b].member.clone(), value: files_json(&bs[b].files) });
    }
    assert(views(names@) =~= blocking_names(bs@));
    let list = join_texts(&names, ", ");
    let message = joined3(
        "cannot rewrite references in consumed member(s) ",
        list.as_str(),
        " — a refactor may not author a member it does not own; list them in workspace.yaml 'edit:' to rewrite their references",
    );
    let mut outer: Vec<Member> = Vec::new();
    let key = "blocking_consumed_referrers".to_owned();
    outer.push(Member { key, value: Json::Object(members) });
    Reject { message, detail: Some(Json::Object(outer)) }
}

/// Whether some path lies in a repo that may not be written.
pub open spec fn any_blocked(repos: Seq<Repo>, paths: Seq<String>) -> bool {
    exists|k: int|
        #![trigger paths[k]]
        0 <= k < paths.len() && blocking_repo(repos, paths[k]@) is Some
}

/// Refuses a refactor when a file that it would write lives in a repo which may
/// not be written. The refusal names the repos and the files.
pub fn reject_if_consumed_referrers(repos: &Vec<Repo>, paths: &Vec<String>) -> (r: Option<Reject>)
    ensures
        r is Some == any_blocked(repos@, paths@),
        r matches Some(reject) ==> exists|bs: Seq<Blocking>|
            #[trigger] is_blocking(bs, repos@, paths@) && refuses_consumed(reject, bs),
{
    let bs = consumed_written_referrers(repos, paths);
    if bs.len() == 0 {
        proof {
            if any_blocked(repos@, paths@) {
                let k = choose|k: int|
                    #![trigger paths@[k]]
                    0 <= k < paths@.len() && blocking_repo(repos@, paths@[k]@) is Some;
                assert(blocks(bs@, blocking_repo(repos@, paths@[k]@)->0));
            }
        }
        return None;
    }
    proof {
        assert(bs@[0].files@.len() > 0);
        lemma_blocked_exists(repos@, paths@, bs@[0].member@, paths@.len() as int);
    }
    Some(consumed_reject(&bs))
}

proof fn lemma_blocked_exists(repos: Seq<Repo>, paths: Seq<String>, name: Seq<char>, n: int)
    requires
        0 <= n <= paths.len(),
        blocked_by(repos, paths, name, n).len() > 0,
    ensures
        any_blocked(repos, paths),
    decreases n,
{
    if n > 0 {
        if blocking_repo(repos, paths[n - 1]@) == Some(name) {
            assert(blocking_repo(repos, paths[n - 1]@) is Some);
        } else {
            lemma_blocked_exists(repos, paths, name, n - 1);
        }
    }
}

} // verus!
