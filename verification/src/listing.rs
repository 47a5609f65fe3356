//! Files and directories as the catalog lists them.

use crate::graph::nodes::{chosen, ints};
use crate::model::{
    in_scope, node_in_scope, owner_name, repo_name_of, CatalogEntry, Repo, Scope,
};

use crate::paging::{limit_view, page, page_of};
use crate::paths::{
    abs_arg, file_name, file_name_of, file_stem, file_stem_of, is_within, joined_path, parts, parts_of,
    same_path, same_path_spec, within,
};
use crate::text::{
    has_prefix, is_before, lemma_text_lt_total, lemma_text_lt_transitive, opt_view, same, starts_with,
    text_lt, views,
};
use vstd::prelude::*;

verus! {

/// A catalogued file.
#[derive(Debug)]
pub struct FileEntry {
    pub path: String,
    /// The name of the file without its last extension.
    pub stem: String,
    /// The repo that owns the file.
    pub repo: Option<String>,
    pub kind: &'static str,
}

/// Whether a listed file is this catalogued one.
pub open spec fn lists_entry(f: FileEntry, repos: Seq<Repo>, e: CatalogEntry) -> bool {
    &&& f.path == e.path
    &&& f.stem@ == file_stem_of(e.path@)
    &&& opt_view(f.repo) == owner_name(repos, e.path@)
    &&& f.kind@ == e.served@
}

/// The catalogued files of a read, by position.
pub open spec fn files_in_scope(
    repos: Seq<Repo>,
    catalog: Seq<CatalogEntry>,
    repo: Option<Seq<char>>,
    scope: Scope,
) -> Seq<int> {
    chosen(|i: int| in_scope(repos, repo, scope, catalog[i].path@), catalog.len() as int)
}

/// A page of the catalogued files, in the order of the catalog.
pub fn files_view(
    repos: &Vec<Repo>,
    catalog: &Vec<CatalogEntry>,
    repo: &Option<String>,
    scope: Scope,
    limit: Option<usize>,
    offset: usize,
) -> (r: Vec<FileEntry>)
    ensures
        ({
            let at = page_of(
                files_in_scope(repos@, catalog@, opt_view(*repo), scope),
                offset as nat,
                limit_view(limit),
            );
            &&& r@.len() == at.len()
            &&& forall|k: int|
                #![trigger r@[k]]
                0 <= k < r@.len() ==> lists_entry(
                    r@[k],
                    repos@,
                    catalog@[at[k]],
                )
        }),
{
    let mut found: Vec<usize> = Vec::new();
    let ghost keep = |i: int| in_scope(repos@, opt_view(*repo), scope, catalog@[i].path@);
    assert(ints(found@) =~= chosen(keep, 0));
    for i in 0..catalog.len()
        invariant
            keep == (|i: int| in_scope(repos@, opt_view(*repo), scope, catalog@[i].path@)),
            ints(found@) == chosen(keep, i as int),
            forall|k: int| #![trigger found@[k]] 0 <= k < found@.len() ==> found@[k] < catalog@.len(),
    {
        if node_in_scope(repos, repo, scope, catalog[i].path.as_str()) {
            let ghost before = found@;
            found.push(i);
            assert(ints(found@) =~= ints(before).push(i as int));
        }
    }
    let ghost all = found@;
    let at = page(found, offset, limit);
    let ghost want = page_of(ints(all), offset as nat, limit_view(limit));
    assert(ints(at@) =~= want);
    proof {
        assert forall|k: int| #![trigger at@[k]] 0 <= k < at@.len() implies at@[k]
            < catalog@.len() by {
            assert(at@[k] == all[k + offset]);
        }
    }
    let mut out: Vec<FileEntry> = Vec::new();
    for k in 0..at.len()
        invariant
            out@.len() == k,
            forall|j: int| #![trigger at@[j]] 0 <= j < at@.len() ==> at@[j] < catalog@.len(),
            forall|j: int|
                #![trigger out@[j]]
                0 <= j < k ==> lists_entry(out@[j], repos@, catalog@[at@[j] as int]),
    {
        let e = &catalog[at[k]];
        out.push(
            FileEntry {
                path: e.path.clone(),
                stem: file_stem(e.path.as_str()),
                repo: repo_name_of(repos, e.path.as_str()),
                kind: e.served,
            },
        );
    }
    proof {
        assert(out@.len() == want.len());
        assert forall|k: int| #![trigger out@[k]] 0 <= k < out@.len() implies lists_entry(
            out@[k],
            repos@,
            catalog@[want[k]],
        ) by {
            assert(want[k] == at@[k] as int);
        }
    }
    out
}

/// Whether an entry of a directory is shown: those that begin with a dot are not.
pub open spec fn visible(name: Seq<char>) -> bool {
    !has_prefix(name, "."@)
}

fn is_visible(name: &str) -> (r: bool)
    ensures
        r == visible(name@),
{
    !starts_with(name, ".")
}

/// The name of a file, unless it is hidden.
pub open spec fn shown_name(path: Seq<char>) -> Option<Seq<char>> {
    match file_name_of(path) {
        Some(n) => if visible(n) {
            Some(n)
        } else {
            None
        },
        None => None,
    }
}

/// The name of a file, unless it is hidden.
pub fn entry_name(path: &str) -> (r: Option<String>)
    ensures
        opt_view(r) == shown_name(path@),
{
    match file_name(path) {
        Some(n) => if is_visible(n.as_str()) {
            Some(n)
        } else {
            None
        },
        None => None,
    }
}

/// The first position from `i` on whose text does not come before `s`.
pub open spec fn place_from(v: Seq<Seq<char>>, s: Seq<char>, i: int) -> int
    decreases v.len() - i,
{
    if i < 0 || i >= v.len() || !text_lt(v[i], s) {
        i
    } else {
        place_from(v, s, i + 1)
    }
}

/// An ascending list with `s` at its place, once.
pub open spec fn inserted(v: Seq<Seq<char>>, s: Seq<char>) -> Seq<Seq<char>> {
    let i = place_from(v, s, 0);
    if i < v.len() && v[i] == s {
        v
    } else {
        v.insert(i, s)
    }
}

proof fn lemma_place_from(v: Seq<Seq<char>>, s: Seq<char>, i: int)
    requires
        0 <= i <= v.len(),
    ensures
        i <= place_from(v, s, i) <= v.len(),
        forall|k: int| #![trigger v[k]] i <= k < place_from(v, s, i) ==> text_lt(v[k], s),
        place_from(v, s, i) < v.len() ==> !text_lt(v[place_from(v, s, i)], s),
    decreases v.len() - i,
{
    if i < v.len() && text_lt(v[i], s) {
        lemma_place_from(v, s, i + 1);
    }
}

/// Puts a text at its place in an ascending list, once.
pub fn insert_text(v: &mut Vec<String>, s: String)
    ensures
        views(final(v)@) == inserted(views(old(v)@), s@),
{
    let ghost before = views(v@);
    let mut i: usize = 0;
    while i < v.len() && is_before(v[i].as_str(), s.as_str())
        invariant
            i <= v@.len(),
            views(v@) == before,
            place_from(before, s@, 0) == place_from(before, s@, i as int),
        decreases v@.len() - i,
    {
        assert(before[i as int] == v@[i as int]@);
        i += 1;
    }
    if i < v.len() {
        assert(before[i as int] == v@[i as int]@);
    }
    if i < v.len() && same(v[i].as_str(), s.as_str()) {
        return;
    }
    let ghost had = v@;
    v.insert(i, s);
    assert(views(v@) =~= before.insert(i as int, s@));
}

/// Whether the texts are in strict order.
pub open spec fn ascend(v: Seq<Seq<char>>) -> bool {
    forall|i: int, j: int| #![trigger v[i], v[j]] 0 <= i < j < v.len() ==> text_lt(v[i], v[j])
}

pub proof fn lemma_inserted(v: Seq<Seq<char>>, s: Seq<char>)
    requires
        ascend(v),
    ensures
        ascend(inserted(v, s)),
        forall|t: Seq<char>| #[trigger] inserted(v, s).contains(t) == (v.contains(t) || t == s),
{
    let i = place_from(v, s, 0);
    lemma_place_from(v, s, 0);
    let now = inserted(v, s);
    if i < v.len() && v[i] == s {
    } else {
        if i < v.len() {
            lemma_text_lt_total(v[i], s);
        }
        assert forall|a: int, b: int| #![trigger now[a], now[b]] 0 <= a < b < now.len() implies text_lt(
            now[a],
            now[b],
        ) by {
            let ao = if a < i { a } else { a - 1 };
            let bo = if b < i { b } else { b - 1 };
            if a == i {
                assert(now[b] == v[bo]);
                if bo > i {
                    assert(text_lt(v[i], v[bo]));
                    lemma_text_lt_transitive(s, v[i], v[bo]);
                }
            } else if b == i {
                assert(now[a] == v[a]);
            } else {
                assert(now[a] == v[ao] && now[b] == v[bo]);
            }
        }
        assert forall|t: Seq<char>| #[trigger] now.contains(t) == (v.contains(t) || t == s) by {
            if v.contains(t) {
                let k = v.index_of(t);
                if k < i {
                    assert(now[k] == t);
                } else {
                    assert(now[k + 1] == t);
                }
            }
            assert(now[i] == s);
            if now.contains(t) {
                let k = now.index_of(t);
                if k < i {
                    assert(v[k] == t);
                } else if k > i {
                    assert(v[k - 1] == t);
                }
            }
        }
    }
}

/// The directory right below `dir` that a file lies in, when it lies deeper than
/// `dir` itself.
pub open spec fn child_dir(path: Seq<char>, dir: Seq<char>) -> Option<Seq<char>> {
    if within(path, dir) && parts(path).len() >= parts(dir).len() + 2 {
        Some(parts(path)[parts(dir).len() as int])
    } else {
        None
    }
}

fn child_dir_of(path: &str, dir: &str) -> (r: Option<String>)
    ensures
        opt_view(r) == child_dir(path@, dir@),
{
    if !is_within(path, dir) {
        return None;
    }
    let p = parts_of(path);
    let n: usize = parts_of(dir).len();
    assert(views(p@).len() == p@.len());
    let size: usize = p.len();
    if size > n && size - n >= 2 {
        assert(views(p@)[n as int] == p@[n as int]@);
        Some(p[n].clone())
    } else {
        None
    }
}

/// The shown directories right below `dir` that hold one of the first `n` files,
/// in order, each once.
pub open spec fn child_dirs(catalog: Seq<CatalogEntry>, dir: Seq<char>, n: int) -> Seq<Seq<char>>
    decreases n,
{
    if n <= 0 {
        Seq::empty()
    } else {
        let before = child_dirs(catalog, dir, n - 1);
        match child_dir(catalog[n - 1].path@, dir) {
            Some(name) => if visible(name) {
                inserted(before, name)
            } else {
                before
            },
            None => before,
        }
    }
}

fn list_child_dirs(catalog: &Vec<CatalogEntry>, dir: &str) -> (r: Vec<String>)
    ensures
        views(r@) == child_dirs(catalog@, dir@, catalog@.len() as int),
{
    let mut out: Vec<String> = Vec::new();
    assert(views(out@) =~= Seq::empty());
    for i in 0..catalog.len()
        invariant
            views(out@) == child_dirs(catalog@, dir@, i as int),
    {
        if let Some(name) = child_dir_of(catalog[i].path.as_str(), dir) {
            if is_visible(name.as_str()) {
                insert_text(&mut out, name);
            }
        }
    }
    out
}

/// The directories below `dir` are listed in order, each once, and are those that
/// hold a catalogued file and are not hidden.
pub proof fn child_dirs_are_those_with_files(catalog: Seq<CatalogEntry>, dir: Seq<char>, n: int)
    requires
        0 <= n <= catalog.len(),
    ensures
        ascend(child_dirs(catalog, dir, n)),
        forall|name: Seq<char>| #[trigger]
            child_dirs(catalog, dir, n).contains(name) <==> visible(name) && exists|i: int|
                0 <= i < n && child_dir((#[trigger] catalog[i]).path@, dir) == Some(name),
    decreases n,
{
    if n > 0 {
        child_dirs_are_those_with_files(catalog, dir, n - 1);
        let before = child_dirs(catalog, dir, n - 1);
        let here = child_dir(catalog[n - 1].path@, dir);
        if here is Some && visible(here->0) {
            lemma_inserted(before, here->0);
        }
        let now = child_dirs(catalog, dir, n);
        assert forall|name: Seq<char>| #[trigger] now.contains(name) <==> visible(name) && exists|
            i: int,
        |
            0 <= i < n && child_dir((#[trigger] catalog[i]).path@, dir) == Some(name) by {
            assert(before.contains(name) <==> visible(name) && exists|i: int|
                0 <= i < n - 1 && child_dir((#[trigger] catalog[i]).path@, dir) == Some(name));
            if visible(name) && here == Some(name) {
                assert(child_dir(catalog[n - 1].path@, dir) == Some(name));
            }
        }
    }
}

/// An entry of a directory.
#[derive(Debug)]
pub struct DirEntry {
    pub path: String,
    pub name: String,
    /// `directory` or `file`.
    pub kind: &'static str,
}

/// The contents of a [`DirEntry`].
pub struct DirEntryView {
    pub path: Seq<char>,
    pub name: Seq<char>,
    pub kind: Seq<char>,
}

impl View for DirEntry {
    type V = DirEntryView;

    open spec fn view(&self) -> DirEntryView {
        DirEntryView { path: self.path@, name: self.name@, kind: self.kind@ }
    }
}

pub open spec fn dir_entry_views(v: Seq<DirEntry>) -> Seq<DirEntryView> {
    v.map_values(|e: DirEntry| e@)
}

/// The shown directories of `dir`.
pub open spec fn dir_entries(dir: Seq<char>, names: Seq<Seq<char>>) -> Seq<DirEntryView> {
    names.map_values(
        |name: Seq<char>|
            DirEntryView { path: joined_path(dir, name), name, kind: "directory"@ },
    )
}

/// Whether a file lies in `dir` itself.
pub open spec fn lies_right_in(path: Seq<char>, dir: Seq<char>) -> bool {
    within(path, dir) && parts(path).len() == parts(dir).len() + 1
}

fn is_right_in(path: &str, dir: &str) -> (r: bool)
    ensures
        r == lies_right_in(path@, dir@),
{
    if !is_within(path, dir) {
        return false;
    }
    let p = parts_of(path);
    let d = parts_of(dir);
    assert(views(p@).len() == p@.len() && views(d@).len() == d@.len());
    let size: usize = p.len();
    size > d.len() && size - d.len() == 1
}

/// The shown files among the first `n` that lie in `dir` itself.
pub open spec fn child_files(catalog: Seq<CatalogEntry>, dir: Seq<char>, n: int) -> Seq<DirEntryView>
    decreases n,
{
    if n <= 0 {
        Seq::empty()
    } else {
        let before = child_files(catalog, dir, n - 1);
        let path = catalog[n - 1].path@;
        match shown_name(path) {
            Some(name) => if lies_right_in(path, dir) {
                before.push(DirEntryView { path, name, kind: "file"@ })
            } else {
                before
            },
            None => before,
        }
    }
}

/// The entries of a directory: its directories, then its files, without hidden
/// ones. A directory that holds no catalogued file does not appear.
pub fn children_view(catalog: &Vec<CatalogEntry>, dir: &str) -> (r: Vec<DirEntry>)
    ensures
        dir_entry_views(r@) == dir_entries(
            dir@,
            child_dirs(catalog@, dir@, catalog@.len() as int),
        ) + child_files(catalog@, dir@, catalog@.len() as int),
{
    let names = list_child_dirs(catalog, dir);
    let mut out: Vec<DirEntry> = Vec::new();
    let ghost dirs = dir_entries(dir@, views(names@));
    assert(dir_entry_views(out@) =~= dirs.take(0));
    for i in 0..names.len()
        invariant
            dirs == dir_entries(dir@, views(names@)),
            dir_entry_views(out@) == dirs.take(i as int),
    {
        let e = DirEntry {
            path: abs_arg(dir, names[i].as_str()),
            name: names[i].clone(),
            kind: "directory",
        };
        let ghost before = out@;
        out.push(e);
        proof {
            assert(views(names@)[i as int] == names@[i as int]@);
            assert(dir_entry_views(out@) =~= dir_entry_views(before).push(e@));
            assert(dir_entry_views(out@) =~= dirs.take(i + 1));
        }
    }
    assert(dirs.take(dirs.len() as int) =~= dirs);
    assert(dir_entry_views(out@) =~= dirs + child_files(catalog@, dir@, 0));
    for i in 0..catalog.len()
        invariant
            dir_entry_views(out@) == dirs + child_files(catalog@, dir@, i as int),
    {
        if let Some(name) = entry_name(catalog[i].path.as_str()) {
            if is_right_in(catalog[i].path.as_str(), dir) {
                let e = DirEntry { path: catalog[i].path.clone(), name, kind: "file" };
                let ghost before = out@;
                out.push(e);
                proof {
                    assert(dir_entry_views(out@) =~= dir_entry_views(before).push(e@));
                    assert(dir_entry_views(out@) =~= dirs + child_files(catalog@, dir@, i + 1));
                }
            }
        }
    }
    out
}

/// A directory right below the root of a member.
#[derive(Debug)]
pub struct TopLevelDir {
    pub repo: String,
    pub name: String,
    pub path: String,
    /// The member that is rooted at the directory, when there is one.
    pub member: Option<String>,
}

/// The contents of a [`TopLevelDir`].
pub struct TopLevelDirView {
    pub repo: Seq<char>,
    pub name: Seq<char>,
    pub path: Seq<char>,
    pub member: Option<Seq<char>>,
}

impl View for TopLevelDir {
    type V = TopLevelDirView;

    open spec fn view(&self) -> TopLevelDirView {
        TopLevelDirView {
            repo: self.repo@,
            name: self.name@,
            path: self.path@,
            member: opt_view(self.member),
        }
    }
}

pub open spec fn top_level_views(v: Seq<TopLevelDir>) -> Seq<TopLevelDirView> {
    v.map_values(|e: TopLevelDir| e@)
}

/// The member with files that is rooted at a path, searching from `i` on.
pub open spec fn member_rooted(repos: Seq<Repo>, path: Seq<char>, i: int) -> Option<Seq<char>>
    decreases repos.len() - i,
{
    if i < 0 || i >= repos.len() {
        None
    } else if !repos[i].builtin && same_path_spec(repos[i].root@, path) {
        Some(repos[i].name@)
    } else {
        member_rooted(repos, path, i + 1)
    }
}

fn find_member_rooted(repos: &Vec<Repo>, path: &str) -> (r: Option<String>)
    ensures
        opt_view(r) == member_rooted(repos@, path@, 0),
{
    for i in 0..repos.len()
        invariant
            member_rooted(repos@, path@, 0) == member_rooted(repos@, path@, i as int),
    {
        if !repos[i].builtin && same_path(repos[i].root.as_str(), path) {
            return Some(repos[i].name.clone());
        }
    }
    None
}

/// Whether a member takes part in a read at `repo` and `scope`.
pub open spec fn member_in_scope(member: Repo, repo: Option<Seq<char>>, scope: Scope) -> bool {
    &&& !member.builtin
    &&& repo matches Some(want) ==> member.name@ == want
    &&& scope == Scope::Own ==> member.own
}

pub fn is_member_in_scope(member: &Repo, repo: &Option<String>, scope: Scope) -> (r: bool)
    ensures
        r == member_in_scope(*member, opt_view(*repo), scope),
{
    let named = match repo {
        Some(want) => same(member.name.as_str(), want.as_str()),
        None => true,
    };
    !member.builtin && named && (scope == Scope::All || member.own)
}

/// The top directories of one member.
pub open spec fn member_dirs(repos: Seq<Repo>, catalog: Seq<CatalogEntry>, member: Repo) -> Seq<
    TopLevelDirView,
> {
    child_dirs(catalog, member.root@, catalog.len() as int).map_values(
        |name: Seq<char>|
            TopLevelDirView {
                repo: member.name@,
                name,
                path: joined_path(member.root@, name),
                member: member_rooted(repos, joined_path(member.root@, name), 0),
            },
    )
}

/// The top directories of the first `n` members.
pub open spec fn top_level_dirs(
    repos: Seq<Repo>,
    catalog: Seq<CatalogEntry>,
    repo: Option<Seq<char>>,
    scope: Scope,
    n: int,
) -> Seq<TopLevelDirView>
    decreases n,
{
    if n <= 0 {
        Seq::empty()
    } else if member_in_scope(repos[n - 1], repo, scope) {
        top_level_dirs(repos, catalog, repo, scope, n - 1) + member_dirs(
            repos,
            catalog,
            repos[n - 1],
        )
    } else {
        top_level_dirs(repos, catalog, repo, scope, n - 1)
    }
}

/// The top directories of every member that takes part, each with the member that
/// owns it. A member inside another is told under both.
pub fn top_level_dirs_view(
    repos: &Vec<Repo>,
    catalog: &Vec<CatalogEntry>,
    repo: &Option<String>,
    scope: Scope,
) -> (r: Vec<TopLevelDir>)
    ensures
        top_level_views(r@) == top_level_dirs(
            repos@,
            catalog@,
            opt_view(*repo),
            scope,
            repos@.len() as int,
        ),
{
    let mut out: Vec<TopLevelDir> = Vec::new();
    assert(top_level_views(out@) =~= Seq::empty());
    for m in 0..repos.len()
        invariant
            top_level_views(out@) == top_level_dirs(
                repos@,
                catalog@,
                opt_view(*repo),
                scope,
                m as int,
            ),
    {
        let member = &repos[m];
        if is_member_in_scope(member, repo, scope) {
            let ghost before = top_level_views(out@);
            let names = list_child_dirs(catalog, member.root.as_str());
            let ghost all = member_dirs(repos@, catalog@, *member);
            assert(all.len() == names@.len()) by {
                assert(views(names@).len() == names@.len());
            }
            assert(top_level_views(out@) =~= before + all.take(0));
            for i in 0..names.len()
                invariant
                    all == member_dirs(repos@, catalog@, *member),
                    all.len() == names@.len(),
                    views(names@) == child_dirs(catalog@, member.root@, catalog@.len() as int),
                    top_level_views(out@) == before + all.take(i as int),
            {
                let path = abs_arg(member.root.as_str(), names[i].as_str());
                let nested = find_member_rooted(repos, path.as_str());
                let e = TopLevelDir {
                    repo: member.name.clone(),
                    name: names[i].clone(),
                    path,
                    member: nested,
                };
                let ghost had = out@;
                out.push(e);
                proof {
                    assert(views(names@)[i as int] == names@[i as int]@);
                    assert(e@ == all[i as int]);
                    assert(top_level_views(out@) =~= top_level_views(had).push(e@));
                    assert(top_level_views(out@) =~= before + all.take(i + 1));
                }
            }
            assert(all.take(all.len() as int) =~= all);
        }
    }
    out
}

} // verus!
