//! Renaming a type: its def moves, and every mention and link follows.

use crate::ast::ByteRange;
use crate::graph::nodes::chosen;
use crate::graph::types::{resolve_type, type_source};
use crate::model::{inbound, owner, owner_name, repo_name_of, repo_of, CatalogEntry, KnowledgeBase, Repo};
use crate::mutation::refactor::{all_positions, everything, links_to, RefactorScope};
use crate::mutation::referrers::{
    any_blocked, collect_referrers, is_blocking, is_referrers, refuses_consumed,
    reject_if_consumed_referrers, Blocking, Referrer,
};
use crate::paths::{
    add_path, below_or_self, file_name, file_name_of, holds_path, paths_ascend, relative, renamed_file,
    same_path, same_path_spec, with_file_name,
};
use crate::saga::plan::Reject;
use crate::text::{
    chars_of, ends_with, has_suffix, joined, joined3, opt_view, same, text_of,
};
use crate::typerefs::{edit_views, edits_at, first_of, parse_fits, sites_of, type_ref_edits};
use vstd::prelude::*;

verus! {

/// A type name with the repo that it is qualified by: what stands before the
/// first `::`, and what stands behind it.
pub open spec fn split_type(s: Seq<char>) -> (Seq<char>, Option<Seq<char>>) {
    let p = first_of(s, seq![':', ':'], 0);
    if p >= s.len() {
        (s, None)
    } else {
        (s.take(p), Some(s.skip(p + 2)))
    }
}

pub fn split_type_name(s: &str) -> (r: (String, Option<String>))
    ensures
        (r.0@, opt_view(r.1)) == split_type(s@),
{
    let cs = chars_of(s);
    let colons: Vec<char> = vec![':', ':'];
    assert(colons@ =~= seq![':', ':']);
    let p: usize = crate::typerefs::find_first(&cs, &colons, 0);
    if p >= cs.len() {
        (s.to_owned(), None)
    } else {
        let base = text_of(&cs, 0, p);
        let repo = text_of(&cs, p + 2, cs.len());
        assert(base@ =~= s@.take(p as int));
        assert(repo@ =~= s@.skip(p + 2));
        (base, Some(repo))
    }
}

/// The suffixes of type-def files, the longer before the shorter.
pub open spec fn def_suffix(name: Seq<char>) -> Option<Seq<char>> {
    if has_suffix(name, ".type.yaml"@) {
        Some(".type.yaml"@)
    } else if has_suffix(name, ".type.yml"@) {
        Some(".type.yml"@)
    } else if has_suffix(name, ".yaml"@) {
        Some(".yaml"@)
    } else if has_suffix(name, ".yml"@) {
        Some(".yml"@)
    } else {
        None
    }
}

/// The path that a type-def takes with a new name: the same directory and suffix.
pub open spec fn renamed_def(from: Seq<char>, new: Seq<char>) -> Option<Seq<char>> {
    match file_name_of(from) {
        None => None,
        Some(name) => match def_suffix(name) {
            None => None,
            Some(suffix) => Some(renamed_file(from, new + suffix)),
        },
    }
}

pub fn renamed_type_def_path(from: &str, new_name: &str) -> (r: Option<String>)
    ensures
        opt_view(r) == renamed_def(from@, new_name@),
{
    let name = match file_name(from) {
        Some(n) => n,
        None => return None,
    };
    let suffix: &str = if ends_with(name.as_str(), ".type.yaml") {
        ".type.yaml"
    } else if ends_with(name.as_str(), ".type.yml") {
        ".type.yml"
    } else if ends_with(name.as_str(), ".yaml") {
        ".yaml"
    } else if ends_with(name.as_str(), ".yml") {
        ".yml"
    } else {
        return None;
    };
    Some(with_file_name(from, joined(new_name, suffix).as_str()))
}

/// The file of the first repo from `i` on that defines `name`; only the repo
/// `in_repo` counts when it is named.
pub open spec fn owned_def(
    kb: KnowledgeBase,
    name: Seq<char>,
    in_repo: Option<Seq<char>>,
    i: int,
) -> Option<Seq<char>>
    decreases kb.repos@.len() - i,
{
    if i < 0 || i >= kb.repos@.len() {
        None
    } else if (in_repo matches Some(want) && kb.repos@[i].name@ != want) || type_source(
        kb.types@,
        kb.repos@[i].name@,
        name,
        0,
    ) is None {
        owned_def(kb, name, in_repo, i + 1)
    } else {
        type_source(kb.types@, kb.repos@[i].name@, name, 0)
    }
}

/// The file that defines a type.
pub fn find_owned_type_def<'a>(kb: &'a KnowledgeBase, name: &str, in_repo: &Option<String>) -> (r:
    Option<&'a String>)
    ensures
        match r {
            Some(p) => owned_def(*kb, name@, opt_view(*in_repo), 0) == Some(p@),
            None => owned_def(*kb, name@, opt_view(*in_repo), 0) is None,
        },
{
    for i in 0..kb.repos.len()
        invariant
            owned_def(*kb, name@, opt_view(*in_repo), 0) == owned_def(
                *kb,
                name@,
                opt_view(*in_repo),
                i as int,
            ),
    {
        let repo = &kb.repos[i].name;
        let wanted = match in_repo {
            Some(want) => same(repo.as_str(), want.as_str()),
            None => true,
        };
        if wanted {
            let qualifier = Some(repo.clone());
            let def = resolve_type(kb, &None, name, &qualifier);
            if def.is_some() {
                return def;
            }
        }
    }
    None
}

/// The edits in one file.
#[derive(Debug)]
pub struct FileEdits {
    pub path: String,
    pub edits: Vec<(ByteRange, String)>,
    pub hash: Option<String>,
}

/// What the rename of a type needs to know.
#[derive(Debug)]
pub struct RenameTypeGather {
    pub from: String,
    pub to: String,
    pub move_repo_root: String,
    pub old_rel: String,
    pub new_rel: String,
    /// The mentions of the type, file by file.
    pub type_edits: Vec<FileEdits>,
    /// The links to the def, file by file.
    pub links: Vec<Referrer>,
    /// Every file of either list, each once and in order.
    pub referrers: Vec<String>,
}

/// The repo that owns a file; empty for none.
pub open spec fn source_repo(repos: Seq<Repo>, path: Seq<char>) -> Seq<char> {
    match owner_name(repos, path) {
        Some(n) => n,
        None => Seq::empty(),
    }
}

/// The edits that the rename makes in the catalogued file at `i`.
pub open spec fn edits_in_entry(
    kb: KnowledgeBase,
    i: int,
    old_name: Seq<char>,
    def_repo: Seq<char>,
    new_name: Seq<char>,
) -> Seq<(ByteRange, Seq<char>)> {
    let entry = kb.catalog@[i];
    edits_at(
        sites_of(entry.parse),
        source_repo(kb.repos@, entry.path@),
        old_name,
        def_repo,
        new_name,
    )
}

/// The catalogued files that mention the type, by position.
pub open spec fn mentioning(
    kb: KnowledgeBase,
    old_name: Seq<char>,
    def_repo: Seq<char>,
    new_name: Seq<char>,
) -> Seq<int> {
    chosen(
        |i: int| edits_in_entry(kb, i, old_name, def_repo, new_name).len() > 0,
        kb.catalog@.len() as int,
    )
}

/// Whether these are the edits of the files at these positions.
pub open spec fn is_type_edits(
    es: Seq<FileEdits>,
    kb: KnowledgeBase,
    at: Seq<int>,
    old_name: Seq<char>,
    def_repo: Seq<char>,
    new_name: Seq<char>,
) -> bool {
    &&& es.len() == at.len()
    &&& forall|k: int|
        #![trigger es[k]]
        0 <= k < es.len() ==> {
            &&& es[k].path == kb.catalog@[at[k]].path
            &&& es[k].hash == kb.catalog@[at[k]].hash
            &&& edit_views(es[k].edits@) == edits_in_entry(
                kb,
                at[k],
                old_name,
                def_repo,
                new_name,
            )
        }
}

/// Whether the key offsets of every catalogued file are machine integers.
pub open spec fn catalog_fits(catalog: Seq<CatalogEntry>) -> bool {
    forall|i: int| #![trigger catalog[i]] 0 <= i < catalog.len() ==> parse_fits(catalog[i].parse)
}

fn collect_type_edits(
    kb: &KnowledgeBase,
    old_name: &str,
    def_repo: &str,
    new_name: &str,
) -> (r: Vec<FileEdits>)
    requires
        catalog_fits(kb.catalog@),
    ensures
        is_type_edits(
            r@,
            *kb,
            mentioning(*kb, old_name@, def_repo@, new_name@),
            old_name@,
            def_repo@,
            new_name@,
        ),
{
    let mut r: Vec<FileEdits> = Vec::new();
    let ghost p = |i: int| edits_in_entry(*kb, i, old_name@, def_repo@, new_name@).len() > 0;
    for i in 0..kb.catalog.len()
        invariant
            catalog_fits(kb.catalog@),
            p == (|i: int| edits_in_entry(*kb, i, old_name@, def_repo@, new_name@).len() > 0),
            is_type_edits(r@, *kb, chosen(p, i as int), old_name@, def_repo@, new_name@),
    {
        let entry = &kb.catalog[i];
        let file_repo = match repo_name_of(&kb.repos, entry.path.as_str()) {
            Some(n) => n,
            None => {
                let none = String::new();
                assert(none@ =~= Seq::<char>::empty());
                none
            },
        };
        assert(parse_fits(entry.parse));
        let edits = type_ref_edits(&entry.parse, file_repo.as_str(), old_name, def_repo, new_name);
        assert(edit_views(edits@).len() == edits@.len());
        if edits.len() > 0 {
            assert(p(i as int));
            let hash = match &entry.hash {
                Some(h) => Some(h.clone()),
                None => None,
            };
            r.push(FileEdits { path: entry.path.clone(), edits, hash });
        } else {
            assert(!p(i as int));
        }
    }
    r
}

/// Whether one of the files has the path `q`.
pub open spec fn edits_path(es: Seq<FileEdits>, q: Seq<char>) -> bool {
    exists|k: int| #![trigger es[k]] 0 <= k < es.len() && same_path_spec(es[k].path@, q)
}

/// Whether one of the referrers has the path `q`.
pub open spec fn refers_path(rs: Seq<Referrer>, q: Seq<char>) -> bool {
    exists|k: int| #![trigger rs[k]] 0 <= k < rs.len() && same_path_spec(rs[k].path@, q)
}

fn merge_paths(es: &Vec<FileEdits>, rs: &Vec<Referrer>) -> (r: Vec<String>)
    ensures
        paths_ascend(r@),
        forall|q: Seq<char>|
            #[trigger] holds_path(r@, q) == (edits_path(es@, q) || refers_path(rs@, q)),
{
    let mut r: Vec<String> = Vec::new();
    for i in 0..es.len()
        invariant
            paths_ascend(r@),
            forall|q: Seq<char>|
                #[trigger] holds_path(r@, q) == edits_path(es@.take(i as int), q),
    {
        let ghost had = r@;
        add_path(&mut r, es[i].path.clone());
        assert forall|q: Seq<char>| #[trigger] holds_path(r@, q) == edits_path(
            es@.take(i + 1),
            q,
        ) by {
            let now = es@.take(i + 1);
            let before = es@.take(i as int);
            assert(holds_path(had, q) == edits_path(before, q));
            assert(now[i as int] == es@[i as int]);
            if edits_path(before, q) {
                let k = choose|k: int|
                    #![trigger before[k]]
                    0 <= k < before.len() && same_path_spec(before[k].path@, q);
                assert(now[k] == before[k]);
            }
            if edits_path(now, q) {
                let k = choose|k: int|
                    #![trigger now[k]]
                    0 <= k < now.len() && same_path_spec(now[k].path@, q);
                if k < i {
                    assert(before[k] == now[k]);
                }
            }
        }
    }
    assert(es@.take(es@.len() as int) =~= es@);
    for i in 0..rs.len()
        invariant
            paths_ascend(r@),
            forall|q: Seq<char>|
                #[trigger] holds_path(r@, q) == (edits_path(es@, q) || refers_path(
                    rs@.take(i as int),
                    q,
                )),
    {
        let ghost had = r@;
        add_path(&mut r, rs[i].path.clone());
        assert forall|q: Seq<char>| #[trigger] holds_path(r@, q) == (edits_path(es@, q)
            || refers_path(rs@.take(i + 1), q)) by {
            let now = rs@.take(i + 1);
            let before = rs@.take(i as int);
            assert(holds_path(had, q) == (edits_path(es@, q) || refers_path(before, q)));
            assert(now[i as int] == rs@[i as int]);
            if refers_path(before, q) {
                let k = choose|k: int|
                    #![trigger before[k]]
                    0 <= k < before.len() && same_path_spec(before[k].path@, q);
                assert(now[k] == before[k]);
            }
            if refers_path(now, q) {
                let k = choose|k: int|
                    #![trigger now[k]]
                    0 <= k < now.len() && same_path_spec(now[k].path@, q);
                if k < i {
                    assert(before[k] == now[k]);
                }
            }
        }
    }
    assert(rs@.take(rs@.len() as int) =~= rs@);
    r
}

/// Why a type cannot be renamed, if it cannot. `valid` says whether the new name
/// can be one.
pub open spec fn rename_type_refusal(
    kb: KnowledgeBase,
    old_name: Seq<char>,
    old_repo: Option<Seq<char>>,
    new_name: Seq<char>,
    valid: bool,
) -> Option<Seq<char>> {
    match owned_def(kb, old_name, old_repo, 0) {
        None => Some(
            match old_repo {
                Some(r) => "no type-def named '"@ + old_name + "' owned by '"@ + r
                    + "' to rename"@,
                None => "no type-def named '"@ + old_name + "' to rename"@,
            },
        ),
        Some(from) => match owner(kb.repos@, from) {
            None => Some("the type-def's repo is not mounted"@),
            Some(i) => {
                let repo = kb.repos@[i];
                if !repo.editable {
                    Some(
                        "type-def '"@ + old_name + "' is owned by '"@ + repo.name@
                            + "', mounted as '"@ + repo.role@
                            + "', not editable — list it in workspace.yaml 'edit:' to rename its types"@,
                    )
                } else if !valid {
                    Some("'"@ + new_name + "' is not a valid type name"@)
                } else if type_source(kb.types@, repo.name@, new_name, 0) is Some {
                    Some("type-def '"@ + new_name + "' already exists — pick a free name"@)
                } else if renamed_def(from, new_name) is None {
                    Some("could not derive the new path for '"@ + new_name + "'"@)
                } else {
                    None
                }
            },
        },
    }
}

/// Whether this is what the rename of a type needs to know.
pub open spec fn is_rename_type_gather(
    g: RenameTypeGather,
    kb: KnowledgeBase,
    old_name: Seq<char>,
    old_repo: Option<Seq<char>>,
    new_name: Seq<char>,
) -> bool {
    let repo = kb.repos@[owner(kb.repos@, g.from@)->0];
    &&& owned_def(kb, old_name, old_repo, 0) == Some(g.from@)
    &&& renamed_def(g.from@, new_name) == Some(g.to@)
    &&& g.move_repo_root == repo.root
    &&& g.old_rel@ == below_or_self(g.from@, repo.root@)
    &&& g.new_rel@ == below_or_self(g.to@, repo.root@)
    &&& is_type_edits(
        g.type_edits@,
        kb,
        mentioning(kb, old_name, repo.name@, new_name),
        old_name,
        repo.name@,
        new_name,
    )
    &&& is_referrers(
        g.links@,
        kb.catalog@,
        inbound(kb.backlinks@, g.from@),
        everything(inbound(kb.backlinks@, g.from@).len()),
    )
    &&& paths_ascend(g.referrers@)
    &&& forall|q: Seq<char>|
        #[trigger] holds_path(g.referrers@, q) == (edits_path(g.type_edits@, q) || refers_path(
            g.links@,
            q,
        ))
}

/// Gathers what the rename of a type needs to know.
pub fn gather_rename_type(
    kb: &KnowledgeBase,
    old_name: &str,
    old_repo: &Option<String>,
    new_name: &str,
    valid: bool,
) -> (r: Result<RenameTypeGather, String>)
    requires
        catalog_fits(kb.catalog@),
    ensures
        match rename_type_refusal(*kb, old_name@, opt_view(*old_repo), new_name@, valid) {
            Some(m) => r matches Err(e) && e@ == m,
            None => r matches Ok(g) && is_rename_type_gather(
                g,
                *kb,
                old_name@,
                opt_view(*old_repo),
                new_name@,
            ),
        },
{
    let from = match find_owned_type_def(kb, old_name, old_repo) {
        Some(p) => p.clone(),
        None => {
            return Err(
                match old_repo {
                    Some(r) => {
                        let mut m = joined3("no type-def named '", old_name, "' owned by '");
                        m.append(r.as_str());
                        m.append("' to rename");
                        m
                    },
                    None => joined3("no type-def named '", old_name, "' to rename"),
                },
            );
        },
    };
    let i: usize = match repo_of(&kb.repos, from.as_str()) {
        Some(i) => i,
        None => return Err("the type-def's repo is not mounted".to_owned()),
    };
    let repo = &kb.repos[i];
    if !repo.editable {
        let mut m = joined3("type-def '", old_name, "' is owned by '");
        m.append(repo.name.as_str());
        m.append("', mounted as '");
        m.append(repo.role);
        m.append("', not editable — list it in workspace.yaml 'edit:' to rename its types");
        return Err(m);
    }
    if !valid {
        return Err(joined3("'", new_name, "' is not a valid type name"));
    }
    let qualifier = Some(repo.name.clone());
    if resolve_type(kb, &None, new_name, &qualifier).is_some() {
        return Err(joined3("type-def '", new_name, "' already exists — pick a free name"));
    }
    let to = match renamed_type_def_path(from.as_str(), new_name) {
        Some(t) => t,
        None => return Err(joined3("could not derive the new path for '", new_name, "'")),
    };
    let type_edits = collect_type_edits(kb, old_name, repo.name.as_str(), new_name);
    let links = match links_to(kb, from.as_str()) {
        Some(links) => {
            let picked = all_positions(links.len());
            collect_referrers(&kb.catalog, links, &picked)
        },
        None => {
            let none: Vec<Referrer> = Vec::new();
            none
        },
    };
    let referrers = merge_paths(&type_edits, &links);
    Ok(
        RenameTypeGather {
            old_rel: relative(from.as_str(), repo.root.as_str()),
            new_rel: relative(to.as_str(), repo.root.as_str()),
            from,
            to,
            move_repo_root: repo.root.clone(),
            type_edits,
            links,
            referrers,
        },
    )
}

/// Whether the rename writes the file `q`: it mentions the type, or has a link
/// that follows. `rewrites` says of each file with links whether a link would
/// change; where that is unknown the file counts as written.
pub open spec fn writes_file(
    g: RenameTypeGather,
    rewrites: Seq<Option<bool>>,
    q: Seq<char>,
) -> bool {
    edits_path(g.type_edits@, q) || exists|k: int|
        #![trigger g.links@[k]]
        0 <= k < g.links@.len() && same_path_spec(g.links@[k].path@, q) && rewrites[k] != Some(
            false,
        )
}

fn is_written(g: &RenameTypeGather, rewrites: &Vec<Option<bool>>, q: &str) -> (r: bool)
    requires
        rewrites@.len() == g.links@.len(),
    ensures
        r == writes_file(*g, rewrites@, q@),
{
    for k in 0..g.type_edits.len()
        invariant
            forall|j: int|
                #![trigger g.type_edits@[j]]
                0 <= j < k ==> !same_path_spec(g.type_edits@[j].path@, q@),
    {
        if same_path(g.type_edits[k].path.as_str(), q) {
            return true;
        }
    }
    for k in 0..g.links.len()
        invariant
            rewrites@.len() == g.links@.len(),
            !edits_path(g.type_edits@, q@),
            forall|j: int|
                #![trigger g.links@[j]]
                0 <= j < k ==> !(same_path_spec(g.links@[j].path@, q@) && rewrites@[j] != Some(
                    false,
                )),
    {
        let stays = match rewrites[k] {
            Some(changes) => !changes,
            None => false,
        };
        if !stays && same_path(g.links[k].path.as_str(), q) {
            return true;
        }
    }
    false
}

/// The files among the first `n` that the rename writes, or those that it leaves.
pub open spec fn split_files(
    g: RenameTypeGather,
    rewrites: Seq<Option<bool>>,
    writes: bool,
    n: int,
) -> Seq<String>
    decreases n,
{
    if n <= 0 {
        Seq::empty()
    } else {
        let before = split_files(g, rewrites, writes, n - 1);
        if writes_file(g, rewrites, g.referrers@[n - 1]@) == writes {
            before.push(g.referrers@[n - 1])
        } else {
            before
        }
    }
}

/// What the rename of a type touches. It is refused when a file that it would
/// write lives in a repo which may not be written.
pub fn scope_rename_type(repos: &Vec<Repo>, g: &RenameTypeGather, rewrites: &Vec<Option<bool>>) -> (r:
    Result<RefactorScope, Reject>)
    requires
        rewrites@.len() == g.links@.len(),
        paths_ascend(g.referrers@),
    ensures
        r is Err == any_blocked(
            repos@,
            split_files(*g, rewrites@, true, g.referrers@.len() as int),
        ),
        match r {
            Ok(s) => {
                &&& paths_ascend(s.touched@)
                &&& forall|q: Seq<char>|
                    #[trigger] holds_path(s.touched@, q) == (same_path_spec(g.from@, q)
                        || same_path_spec(g.to@, q) || holds_path(g.referrers@, q))
                &&& s.exempt@ == split_files(*g, rewrites@, false, g.referrers@.len() as int)
            },
            Err(reject) => exists|bs: Seq<Blocking>|
                #[trigger] is_blocking(
                    bs,
                    repos@,
                    split_files(*g, rewrites@, true, g.referrers@.len() as int),
                ) && refuses_consumed(reject, bs),
        },
{
    let mut writes: Vec<String> = Vec::new();
    let mut exempt: Vec<String> = Vec::new();
    let mut touched = crate::text::copy_all(&g.referrers);
    for k in 0..g.referrers.len()
        invariant
            rewrites@.len() == g.links@.len(),
            writes@ == split_files(*g, rewrites@, true, k as int),
            exempt@ == split_files(*g, rewrites@, false, k as int),
    {
        if is_written(g, rewrites, g.referrers[k].as_str()) {
            writes.push(g.referrers[k].clone());
        } else {
            exempt.push(g.referrers[k].clone());
        }
    }
    if let Some(reject) = reject_if_consumed_referrers(repos, &writes) {
        return Err(reject);
    }
    add_path(&mut touched, g.from.clone());
    add_path(&mut touched, g.to.clone());
    Ok(RefactorScope { touched, exempt })
}

} // verus!
