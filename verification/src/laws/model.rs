//! Which repo a file belongs to, and what is found of it.

use crate::model::{
    entry_from, entry_of, graph_node_kind, held_hash, in_scope, inbound, inbound_from, owner,
    owner_among, owner_is_deepest, owner_name, served_kind, CatalogEntry, FileKind, Inbound, Repo,
    Scope,
};
use crate::paths::{parts, same_path_spec, within};
use vstd::prelude::*;

verus! {

/// A file belongs to the deepest repo that contains it; a file that no repo contains
/// belongs to none, and is in no scope that narrows.
pub proof fn a_file_belongs_to_the_deepest_repo(repos: Seq<Repo>, path: Seq<char>, i: int)
    requires
        0 <= i < repos.len(),
        within(path, repos[i].root@),
        forall|j: int|
            #![trigger repos[j]]
            0 <= j < repos.len() && j != i && within(path, repos[j].root@) ==> parts(
                repos[j].root@,
            ).len() < parts(repos[i].root@).len(),
    ensures
        owner(repos, path) == Some(i),
        owner_name(repos, path) == Some(repos[i].name@),
{
    owner_is_deepest(repos, path, repos.len() as int);
}

/// A read of a repo takes in the files of that repo, a read of the caller's own the files
/// of the caller's own repos, and a read that does not narrow every file.
pub proof fn a_scope_takes_in_the_files_of_its_repos(
    repos: Seq<Repo>,
    repo: Option<Seq<char>>,
    scope: Scope,
    path: Seq<char>,
)
    ensures
        in_scope(repos, None, Scope::All, path),
        owner(repos, path) matches Some(i) ==> in_scope(repos, repo, scope, path) == ((repo is None
            || repo == Some(repos[i].name@)) && (scope == Scope::All || repos[i].own)),
        owner(repos, path) is None && (repo is Some || scope == Scope::Own) ==> !in_scope(
            repos,
            repo,
            scope,
            path,
        ),
{
}

/// The engine's own configuration files are no knowledge; every other file is.
pub proof fn only_configuration_is_no_knowledge(kind: FileKind)
    ensures
        graph_node_kind(kind) == !(kind == FileKind::RepoRegistry || kind == FileKind::Workspace
            || kind == FileKind::RepoLock),
{
}

proof fn lemma_entry(catalog: Seq<CatalogEntry>, path: Seq<char>, i: int)
    requires
        0 <= i,
    ensures
        match entry_from(catalog, path, i) {
            Some(k) => i <= k < catalog.len() && same_path_spec(catalog[k].path@, path) && forall|j: int|
                #![trigger catalog[j]]
                i <= j < k ==> !same_path_spec(catalog[j].path@, path),
            None => forall|j: int|
                #![trigger catalog[j]]
                i <= j < catalog.len() ==> !same_path_spec(catalog[j].path@, path),
        },
    decreases catalog.len() - i,
{
    if i < catalog.len() && !same_path_spec(catalog[i].path@, path) {
        lemma_entry(catalog, path, i + 1);
    }
}

/// A catalogued file is found by its path, with its own digest and role; what is not
/// catalogued is not found.
pub proof fn a_file_is_found_by_its_path(catalog: Seq<CatalogEntry>, path: Seq<char>)
    ensures
        match entry_of(catalog, path) {
            Some(k) => {
                &&& 0 <= k < catalog.len()
                &&& same_path_spec(catalog[k].path@, path)
                &&& held_hash(catalog, path) == catalog[k].hash
                &&& served_kind(catalog, path) == catalog[k].served@
            },
            None => {
                &&& forall|j: int|
                    #![trigger catalog[j]]
                    0 <= j < catalog.len() ==> !same_path_spec(catalog[j].path@, path)
                &&& held_hash(catalog, path) is None
                &&& served_kind(catalog, path) == "asset"@
            },
        },
{
    lemma_entry(catalog, path, 0);
}

proof fn lemma_inbound(backlinks: Seq<Inbound>, path: Seq<char>, i: int, k: int)
    requires
        0 <= i <= k < backlinks.len(),
        same_path_spec(backlinks[k].target@, path),
        forall|j: int|
            #![trigger backlinks[j]]
            i <= j < k ==> !same_path_spec(backlinks[j].target@, path),
    ensures
        inbound_from(backlinks, path, i) == Some(k),
    decreases k - i,
{
    if i < k {
        assert(!same_path_spec(backlinks[i].target@, path));
        lemma_inbound(backlinks, path, i + 1, k);
    }
}

proof fn lemma_no_inbound(backlinks: Seq<Inbound>, path: Seq<char>, i: int)
    requires
        0 <= i,
        forall|j: int|
            #![trigger backlinks[j]]
            i <= j < backlinks.len() ==> !same_path_spec(backlinks[j].target@, path),
    ensures
        inbound_from(backlinks, path, i) is None,
    decreases backlinks.len() - i,
{
    if i < backlinks.len() {
        assert(!same_path_spec(backlinks[i].target@, path));
        lemma_no_inbound(backlinks, path, i + 1);
    }
}

/// The references that reach a file are those listed for it; one that is not listed has
/// none.
pub proof fn what_reaches_a_file_is_listed_for_it(
    backlinks: Seq<Inbound>,
    path: Seq<char>,
    k: int,
)
    requires
        0 <= k < backlinks.len(),
        same_path_spec(backlinks[k].target@, path),
        forall|j: int|
            #![trigger backlinks[j]]
            0 <= j < k ==> !same_path_spec(backlinks[j].target@, path),
    ensures
        inbound(backlinks, path) == backlinks[k].edges@,
{
    lemma_inbound(backlinks, path, 0, k);
}

/// A file for which nothing is listed is not reached.
pub proof fn what_is_not_listed_is_not_reached(backlinks: Seq<Inbound>, path: Seq<char>)
    requires
        forall|j: int|
            #![trigger backlinks[j]]
            0 <= j < backlinks.len() ==> !same_path_spec(backlinks[j].target@, path),
    ensures
        inbound(backlinks, path).len() == 0,
{
    lemma_no_inbound(backlinks, path, 0);
}

proof fn lemma_none_among(repos: Seq<Repo>, path: Seq<char>, n: int, depth: nat)
    requires
        0 <= n <= repos.len(),
        forall|j: int|
            #![trigger repos[j]]
            0 <= j < n && within(path, repos[j].root@) ==> parts(repos[j].root@).len() < depth,
    ensures
        owner_among(repos, path, n) matches Some(k) ==> 0 <= k < n && parts(repos[k].root@).len()
            < depth,
    decreases n,
{
    if n > 0 {
        let here = repos[n - 1];
        lemma_none_among(repos, path, n - 1, depth);
    }
}

proof fn lemma_first_among(repos: Seq<Repo>, path: Seq<char>, n: int, i: int)
    requires
        0 <= i < n <= repos.len(),
        within(path, repos[i].root@),
        forall|j: int|
            #![trigger repos[j]]
            0 <= j < i && within(path, repos[j].root@) ==> parts(repos[j].root@).len() < parts(
                repos[i].root@,
            ).len(),
        forall|j: int|
            #![trigger repos[j]]
            i < j < repos.len() && within(path, repos[j].root@) ==> parts(repos[j].root@).len()
                <= parts(repos[i].root@).len(),
    ensures
        owner_among(repos, path, n) == Some(i),
    decreases n,
{
    if i < n - 1 {
        let here = repos[n - 1];
        lemma_first_among(repos, path, n - 1, i);
    } else {
        lemma_none_among(repos, path, n - 1, parts(repos[i].root@).len());
    }
}

/// Of repos that contain a file and lie equally deep the first owns it.
pub proof fn the_first_of_equally_deep_repos_owns_a_file(repos: Seq<Repo>, path: Seq<char>, i: int)
    requires
        0 <= i < repos.len(),
        within(path, repos[i].root@),
        forall|j: int|
            #![trigger repos[j]]
            0 <= j < i && within(path, repos[j].root@) ==> parts(repos[j].root@).len() < parts(
                repos[i].root@,
            ).len(),
        forall|j: int|
            #![trigger repos[j]]
            i < j < repos.len() && within(path, repos[j].root@) ==> parts(repos[j].root@).len()
                <= parts(repos[i].root@).len(),
    ensures
        owner(repos, path) == Some(i),
{
    lemma_first_among(repos, path, repos.len() as int, i);
}

} // verus!
