//! What a listing shows.

use crate::diagnostics::{
    admitted, served_at, settled_scope, severity_label, Diagnostic, DiagnosticsFilterArgs,
    DiagnosticsScope, Severity,
};
use crate::graph::nodes::lemma_chosen;
use crate::json::{jv, JsonView};
use crate::laws::paths::{
    a_path_is_its_components, a_path_lies_within_nothing_else, are_components, is_component,
};
use crate::listing::{
    child_dir, child_files, dir_entries, files_in_scope, lies_right_in, lists_entry, member_dirs,
    member_in_scope, member_rooted, top_level_dirs, visible, DirEntryView, FileEntry,
    TopLevelDirView,
};
use crate::model::{in_scope, owner_name, CatalogEntry, Repo, Scope};
use crate::paging::page_of;
use crate::paths::{
    file_name_of, file_stem_of, joined_path, parts, path_from, same_path_spec, within,
};
use crate::text::opt_view;
use vstd::prelude::*;

verus! {

/// A page begins at its offset and ends at its limit or with the list, whichever comes
/// first.
pub proof fn a_page_is_a_stretch_of_the_list<T>(s: Seq<T>, offset: nat, limit: Option<nat>)
    ensures
        forall|k: int|
            #![trigger page_of(s, offset, limit)[k]]
            0 <= k < page_of(s, offset, limit).len() ==> offset + k < s.len() && page_of(
                s,
                offset,
                limit,
            )[k] == s[offset + k],
        offset >= s.len() ==> page_of(s, offset, limit).len() == 0,
        offset < s.len() && (limit matches Some(n) && offset + n <= s.len()) ==> page_of(
            s,
            offset,
            limit,
        ).len() == limit->0,
        offset < s.len() && (limit matches Some(n) ==> offset + n > s.len()) ==> page_of(
            s,
            offset,
            limit,
        ).len() == s.len() - offset,
{
}

/// A file is listed where it is in scope, each once and in the catalog's order.
pub proof fn every_file_in_scope_is_listed(
    repos: Seq<Repo>,
    catalog: Seq<CatalogEntry>,
    repo: Option<Seq<char>>,
    scope: Scope,
    i: int,
)
    requires
        0 <= i < catalog.len(),
    ensures
        files_in_scope(repos, catalog, repo, scope).contains(i) == in_scope(
            repos,
            repo,
            scope,
            catalog[i].path@,
        ),
        forall|a: int, b: int|
            #![trigger files_in_scope(repos, catalog, repo, scope)[a], files_in_scope(
                repos,
                catalog,
                repo,
                scope,
            )[b]]
            0 <= a < b < files_in_scope(repos, catalog, repo, scope).len() ==> files_in_scope(
                repos,
                catalog,
                repo,
                scope,
            )[a] < files_in_scope(repos, catalog, repo, scope)[b],
{
    let p = |j: int| in_scope(repos, repo, scope, catalog[j].path@);
    lemma_chosen(p, catalog.len() as int);
    let s = files_in_scope(repos, catalog, repo, scope);
    if s.contains(i) {
        let k = choose|k: int| 0 <= k < s.len() && s[k] == i;
        assert(p(s[k]));
    }
    if p(i) {
        assert(s.contains(i));
    }
}

/// A listed file is told with its path, its stem, the repo that owns it and its role.
pub proof fn a_file_is_told_whole(f: FileEntry, repos: Seq<Repo>, e: CatalogEntry)
    requires
        lists_entry(f, repos, e),
    ensures
        f.path@ == e.path@,
        f.kind@ == e.served@,
        opt_view(f.repo) == owner_name(repos, e.path@),
        f.stem@ == file_stem_of(e.path@),
{
}

/// A hidden name begins with a dot.
pub proof fn a_hidden_name_begins_with_a_dot(name: Seq<char>)
    ensures
        visible(name) == !(name.len() > 0 && name[0] == '.'),
{
    reveal_strlit(".");
    if name.len() > 0 && name[0] == '.' {
        assert(name.take(1) =~= "."@);
    } else if name.len() > 0 {
        assert(name.take(1)[0] == name[0]);
    }
}

proof fn lemma_below(dir: Seq<Seq<char>>, rest: Seq<Seq<char>>)
    requires
        dir.len() > 0,
        rest.len() > 0,
        are_components(dir),
        are_components(rest),
    ensures
        are_components(dir + rest),
        within(path_from(true, dir + rest), path_from(true, dir)),
        parts(path_from(true, dir + rest)) == dir + rest,
        parts(path_from(true, dir)) == dir,
{
    let c = dir + rest;
    assert forall|i: int| 0 <= i < c.len() implies is_component(#[trigger] c[i]) by {
        if i < dir.len() {
            assert(c[i] == dir[i]);
        } else {
            assert(c[i] == rest[i - dir.len()]);
        }
    }
    a_path_is_its_components(true, c);
    a_path_is_its_components(true, dir);
    assert(c.take(dir.len() as int) =~= dir);
}

/// A file below a directory stands right in it when there is one more component, and
/// otherwise below the child directory that the next component names.
pub proof fn a_file_stands_in_a_directory_or_below_a_child(
    dir: Seq<Seq<char>>,
    rest: Seq<Seq<char>>,
)
    requires
        dir.len() > 0,
        rest.len() > 0,
        are_components(dir),
        are_components(rest),
    ensures
        rest.len() == 1 ==> lies_right_in(path_from(true, dir + rest), path_from(true, dir))
            && child_dir(path_from(true, dir + rest), path_from(true, dir)) is None,
        rest.len() > 1 ==> !lies_right_in(path_from(true, dir + rest), path_from(true, dir))
            && child_dir(path_from(true, dir + rest), path_from(true, dir)) == Some(rest[0]),
{
    lemma_below(dir, rest);
    assert((dir + rest)[dir.len() as int] == rest[0]);
}

/// A file that is not below a directory is no entry of it and is below none of its
/// children.
pub proof fn a_file_elsewhere_is_no_entry(dir: Seq<Seq<char>>, path: Seq<Seq<char>>)
    requires
        dir.len() > 0,
        path.len() > 0,
        are_components(dir),
        are_components(path),
        dir.len() > path.len() || path.take(dir.len() as int) != dir,
    ensures
        !lies_right_in(path_from(true, path), path_from(true, dir)),
        child_dir(path_from(true, path), path_from(true, dir)) is None,
{
    a_path_lies_within_nothing_else(true, path, dir);
}

/// The files of a directory are the catalogued ones that stand right in it and are not
/// hidden, each told with its path and name.
pub proof fn every_file_of_a_directory_is_listed(
    catalog: Seq<CatalogEntry>,
    dir: Seq<char>,
    n: int,
    i: int,
    name: Seq<char>,
)
    requires
        0 <= i < n <= catalog.len(),
        lies_right_in(catalog[i].path@, dir),
        file_name_of(catalog[i].path@) == Some(name),
        visible(name),
    ensures
        child_files(catalog, dir, n).contains(
            DirEntryView { path: catalog[i].path@, name, kind: "file"@ },
        ),
    decreases n,
{
    let e = DirEntryView { path: catalog[i].path@, name, kind: "file"@ };
    let before = child_files(catalog, dir, n - 1);
    let now = child_files(catalog, dir, n);
    if i < n - 1 {
        every_file_of_a_directory_is_listed(catalog, dir, n - 1, i, name);
        let k = choose|k: int| 0 <= k < before.len() && before[k] == e;
        assert(now[k] == e);
    } else {
        assert(now[before.len() as int] == e);
    }
}

/// Each file that is listed is a catalogued one that stands right in the directory and is not
/// hidden.
pub proof fn only_files_of_the_directory_are_listed(
    catalog: Seq<CatalogEntry>,
    dir: Seq<char>,
    n: int,
    k: int,
)
    requires
        0 <= n <= catalog.len(),
        0 <= k < child_files(catalog, dir, n).len(),
    ensures
        ({
            let e = child_files(catalog, dir, n)[k];
            &&& e.kind == "file"@
            &&& lies_right_in(e.path, dir)
            &&& file_name_of(e.path) == Some(e.name)
            &&& visible(e.name)
            &&& exists|i: int| 0 <= i < n && (#[trigger] catalog[i]).path@ == e.path
        }),
    decreases n,
{
    if n > 0 {
        let before = child_files(catalog, dir, n - 1);
        if k < before.len() {
            only_files_of_the_directory_are_listed(catalog, dir, n - 1, k);
        } else {
            assert(catalog[n - 1].path@ == child_files(catalog, dir, n)[k].path);
        }
    }
}

/// Which members a listing of top-level directories covers: those that are not built in,
/// of the repo that is asked for and, for the caller's own, the caller's own.
pub proof fn a_listing_covers_the_members_in_scope(member: Repo, want: Seq<char>)
    ensures
        member.builtin ==> !member_in_scope(member, None, Scope::All),
        !member.builtin ==> {
            &&& member_in_scope(member, None, Scope::All)
            &&& member_in_scope(member, None, Scope::Own) == member.own
            &&& member_in_scope(member, Some(want), Scope::All) == (member.name@ == want)
            &&& member_in_scope(member, Some(want), Scope::Own) == (member.own && member.name@
                == want)
        },
{
}

proof fn lemma_top(
    repos: Seq<Repo>,
    catalog: Seq<CatalogEntry>,
    repo: Option<Seq<char>>,
    scope: Scope,
    n: int,
    i: int,
    e: TopLevelDirView,
)
    requires
        0 <= i < n <= repos.len(),
        member_in_scope(repos[i], repo, scope),
        member_dirs(repos, catalog, repos[i]).contains(e),
    ensures
        top_level_dirs(repos, catalog, repo, scope, n).contains(e),
    decreases n,
{
    let before = top_level_dirs(repos, catalog, repo, scope, n - 1);
    let here = member_dirs(repos, catalog, repos[n - 1]);
    if i < n - 1 {
        lemma_top(repos, catalog, repo, scope, n - 1, i, e);
        let k = choose|k: int| 0 <= k < before.len() && before[k] == e;
        assert(before[k] == e);
        assert((before + here)[k] == e);
    } else {
        let k = choose|k: int| 0 <= k < here.len() && here[k] == e;
        assert((before + here)[before.len() + k] == e);
    }
    let now = top_level_dirs(repos, catalog, repo, scope, n);
    assert(now == before || now == before + here);
}

/// Every child directory of a member in scope is listed, under the member's name, with its
/// path below the member's root and with the member that is rooted there.
pub proof fn every_top_level_directory_is_listed(
    repos: Seq<Repo>,
    catalog: Seq<CatalogEntry>,
    repo: Option<Seq<char>>,
    scope: Scope,
    i: int,
    name: Seq<char>,
)
    requires
        0 <= i < repos.len(),
        member_in_scope(repos[i], repo, scope),
        crate::listing::child_dirs(catalog, repos[i].root@, catalog.len() as int).contains(name),
    ensures
        top_level_dirs(repos, catalog, repo, scope, repos.len() as int).contains(
            TopLevelDirView {
                repo: repos[i].name@,
                name,
                path: joined_path(repos[i].root@, name),
                member: member_rooted(repos, joined_path(repos[i].root@, name), 0),
            },
        ),
{
    let dirs = crate::listing::child_dirs(catalog, repos[i].root@, catalog.len() as int);
    let k = choose|k: int| 0 <= k < dirs.len() && dirs[k] == name;
    let e = TopLevelDirView {
        repo: repos[i].name@,
        name,
        path: joined_path(repos[i].root@, name),
        member: member_rooted(repos, joined_path(repos[i].root@, name), 0),
    };
    assert(member_dirs(repos, catalog, repos[i])[k] == e);
    lemma_top(repos, catalog, repo, scope, repos.len() as int, i, e);
}

/// Every directory that is listed is a child directory of a member in scope.
pub proof fn only_directories_of_members_in_scope_are_listed(
    repos: Seq<Repo>,
    catalog: Seq<CatalogEntry>,
    repo: Option<Seq<char>>,
    scope: Scope,
    n: int,
    k: int,
)
    requires
        0 <= n <= repos.len(),
        0 <= k < top_level_dirs(repos, catalog, repo, scope, n).len(),
    ensures
        ({
            let e = top_level_dirs(repos, catalog, repo, scope, n)[k];
            exists|i: int|
                0 <= i < n && member_in_scope(#[trigger] repos[i], repo, scope) && e.repo
                    == repos[i].name@ && e.path == joined_path(repos[i].root@, e.name)
                    && crate::listing::child_dirs(
                    catalog,
                    repos[i].root@,
                    catalog.len() as int,
                ).contains(e.name)
        }),
    decreases n,
{
    if n > 0 {
        let before = top_level_dirs(repos, catalog, repo, scope, n - 1);
        if k < before.len() {
            only_directories_of_members_in_scope_are_listed(repos, catalog, repo, scope, n - 1, k);
        } else {
            let dirs = crate::listing::child_dirs(
                catalog,
                repos[n - 1].root@,
                catalog.len() as int,
            );
            let e = top_level_dirs(repos, catalog, repo, scope, n)[k];
            assert(e == member_dirs(repos, catalog, repos[n - 1])[k - before.len()]);
            assert(dirs[k - before.len()] == e.name);
            assert(member_in_scope(repos[n - 1], repo, scope));
        }
    }
}

/// The member rooted at a path is the first that is, and never a built-in one.
pub proof fn a_member_is_rooted_where_its_root_is(repos: Seq<Repo>, path: Seq<char>, i: int)
    requires
        0 <= i,
    ensures
        match member_rooted(repos, path, i) {
            Some(name) => exists|k: int|
                i <= k < repos.len() && !(#[trigger] repos[k]).builtin && same_path_spec(
                    repos[k].root@,
                    path,
                ) && repos[k].name@ == name && forall|j: int|
                    #![trigger repos[j]]
                    i <= j < k ==> repos[j].builtin || !same_path_spec(repos[j].root@, path),
            None => forall|k: int|
                #![trigger repos[k]]
                i <= k < repos.len() ==> repos[k].builtin || !same_path_spec(repos[k].root@, path),
        },
    decreases repos.len() - i,
{
    if i < repos.len() {
        if !repos[i].builtin && same_path_spec(repos[i].root@, path) {
            assert(repos[i].name@ == member_rooted(repos, path, i)->0);
        } else {
            a_member_is_rooted_where_its_root_is(repos, path, i + 1);
        }
    }
}

/// A diagnostic is served where it passes each filter that is set: its file, the directory
/// that holds it, its severity, its code, and the scope; each once and in order.
pub proof fn a_diagnostic_is_served_where_it_passes(
    repos: Seq<Repo>,
    all: Seq<Diagnostic>,
    scope: DiagnosticsScope,
    i: int,
)
    requires
        0 <= i < all.len(),
    ensures
        admitted(repos, all, scope).contains(i) <==> {
            &&& scope.path is None || same_path_spec(all[i].file@, scope.path->0@)
            &&& scope.path_prefix is None || within(all[i].file@, scope.path_prefix->0@)
            &&& scope.severity is None || scope.severity == Some(all[i].severity)
            &&& scope.code is None || all[i].code@ == scope.code->0@
            &&& in_scope(repos, opt_view(scope.repo), scope.scope, all[i].file@)
        },
        admitted(repos, all, scope).no_duplicates(),
{
    let p = |j: int| scope.admits(repos, all[j]);
    lemma_chosen(p, all.len() as int);
    let s = admitted(repos, all, scope);
    if s.contains(i) {
        let k = choose|k: int| 0 <= k < s.len() && s[k] == i;
        assert(p(s[k]));
    }
    if p(i) {
        assert(s.contains(i));
    }
}

/// A read that names a repo, a file or a directory takes in every file unless it says
/// otherwise, and any other read the caller's own.
pub proof fn a_read_that_pins_a_place_takes_in_all(args: DiagnosticsFilterArgs)
    ensures
        args.scope is Some ==> settled_scope(args) == args.scope->0,
        args.scope is None && args.repo is None && args.path is None && args.path_prefix is None
            ==> settled_scope(args) == Scope::Own,
        args.scope is None && args.repo is Some ==> settled_scope(args) == Scope::All,
        args.scope is None && args.path is Some ==> settled_scope(args) == Scope::All,
        args.scope is None && args.path_prefix is Some ==> settled_scope(args) == Scope::All,
{
}

/// A severity is told by its name.
pub proof fn a_severity_has_its_name(s: Severity)
    ensures
        s == Severity::Error ==> severity_label(s) == "error"@,
        s == Severity::Drift ==> severity_label(s) == "drift"@,
        s == Severity::Warning ==> severity_label(s) == "warning"@,
        s == Severity::Hint ==> severity_label(s) == "hint"@,
{
}

/// The diagnostics are served in the order in which they are held.
pub proof fn diagnostics_are_served_in_order(
    repos: Seq<Repo>,
    all: Seq<Diagnostic>,
    scope: DiagnosticsScope,
    a: int,
    b: int,
)
    requires
        0 <= a < b < admitted(repos, all, scope).len(),
    ensures
        admitted(repos, all, scope)[a] < admitted(repos, all, scope)[b],
{
    lemma_chosen(|j: int| scope.admits(repos, all[j]), all.len() as int);
}

/// What is served of a list of diagnostics is what each of them is served as, in order.
pub proof fn each_diagnostic_is_served_as_it_is(all: Seq<Diagnostic>, at: Seq<int>, k: int)
    requires
        0 <= k < at.len(),
    ensures
        served_at(all, at) matches JsonView::List(l) && l.len() == at.len() && l[k] == jv(
            all[at[k]].served,
        ),
{
}

/// The directories of a listing are told with their paths below the directory.
pub proof fn a_directory_is_told_below_its_parent(dir: Seq<char>, names: Seq<Seq<char>>, k: int)
    requires
        0 <= k < names.len(),
    ensures
        dir_entries(dir, names).len() == names.len(),
        dir_entries(dir, names)[k] == (DirEntryView {
            path: joined_path(dir, names[k]),
            name: names[k],
            kind: "directory"@,
        }),
{
}

} // verus!
