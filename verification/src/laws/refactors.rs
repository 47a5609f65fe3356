//! Which files and references a refactor covers.

use crate::ast::ByteRange;
use crate::graph::nodes::{chosen, lemma_chosen};
use crate::graph::types::type_source;
use crate::model::{owner, owner_name, Backlink, CatalogEntry, KnowledgeBase, Repo};
use crate::mutation::edits::mention_edits;
use crate::mutation::refactor::{
    among, other_paths, own_files, referrer_refusal, set_aside, shared_repo, Refactored,
};
use crate::mutation::referrers::{
    blocked_by, blocking_repo, is_referrers, spans_in, unwritten, written, Referrer,
};
use crate::mutation::rename_type::{
    def_suffix, edits_in_entry, mentioning, owned_def, rename_type_refusal, renamed_def,
    split_files, split_type, writes_file, FileEdits, RenameTypeGather,
};
use crate::paths::{file_name_of, renamed_file, same_path_spec};
use crate::text::{has_suffix, occurs_at};
use crate::typerefs::{edits_at, first_of, sites_of};
use vstd::prelude::*;

verus! {

pub(crate) proof fn lemma_chosen_iff(p: spec_fn(int) -> bool, n: int, i: int)
    requires
        0 <= n,
    ensures
        chosen(p, n).contains(i) <==> 0 <= i < n && p(i),
{
    lemma_chosen(p, n);
    let s = chosen(p, n);
    if s.contains(i) {
        let k = choose|k: int| 0 <= k < s.len() && s[k] == i;
        assert(p(s[k]));
    }
    if 0 <= i < n && p(i) {
        assert(s.contains(i));
    }
}

/// Every reference that a refactor picks is rewritten in the file that holds it, at the
/// place where it stands.
pub proof fn every_picked_reference_is_told(
    rs: Seq<Referrer>,
    catalog: Seq<CatalogEntry>,
    links: Seq<Backlink>,
    picked: Seq<int>,
    k: int,
)
    requires
        is_referrers(rs, catalog, links, picked),
        0 <= k < picked.len(),
    ensures
        exists|r: int|
            0 <= r < rs.len() && same_path_spec(
                (#[trigger] rs[r]).path@,
                links[picked[k]].source@,
            ) && rs[r].spans@.contains(links[picked[k]].span),
{
    assert(crate::mutation::referrers::has_referrer(rs, links, picked, k));
    let r = choose|r: int|
        #![trigger rs[r]]
        0 <= r < rs.len() && same_path_spec(rs[r].path@, links[picked[k]].source@);
    let p = |k: int| same_path_spec(links[picked[k]].source@, rs[r].path@);
    lemma_chosen_iff(p, picked.len() as int, k);
    assert(p(k));
    let at = chosen(p, picked.len() as int);
    let j = choose|j: int| 0 <= j < at.len() && at[j] == k;
    assert(spans_in(links, picked, rs[r].path@)[j] == links[picked[k]].span);
    assert(rs[r].spans@ == spans_in(links, picked, rs[r].path@));
}

/// Nothing else is rewritten: each place is that of a picked reference of the file.
pub proof fn only_picked_references_are_told(
    rs: Seq<Referrer>,
    catalog: Seq<CatalogEntry>,
    links: Seq<Backlink>,
    picked: Seq<int>,
    r: int,
    span: ByteRange,
)
    requires
        is_referrers(rs, catalog, links, picked),
        0 <= r < rs.len(),
        rs[r].spans@.contains(span),
    ensures
        exists|k: int|
            0 <= k < picked.len() && same_path_spec(
                links[#[trigger] picked[k]].source@,
                rs[r].path@,
            ) && links[picked[k]].span == span,
{
    let p = |k: int| same_path_spec(links[picked[k]].source@, rs[r].path@);
    lemma_chosen(p, picked.len() as int);
    let at = chosen(p, picked.len() as int);
    assert(rs[r].spans@ == spans_in(links, picked, rs[r].path@));
    let j = choose|j: int| 0 <= j < rs[r].spans@.len() && rs[r].spans@[j] == span;
    assert(p(at[j]));
    assert(links[picked[at[j]]].span == span);
}

/// A referrer is written unless its rewrite is known to leave it as it is, and then it is
/// exempt.
pub proof fn a_referrer_is_written_unless_nothing_changes(
    rs: Seq<Referrer>,
    rewrites: Seq<Option<bool>>,
    n: int,
    i: int,
)
    requires
        0 <= i < n <= rs.len(),
        rewrites.len() == rs.len(),
    ensures
        rewrites[i] == Some(false) ==> unwritten(rs, rewrites, n).contains(rs[i].path),
        rewrites[i] != Some(false) ==> written(rs, rewrites, n).contains(rs[i].path),
    decreases n,
{
    let w = written(rs, rewrites, n - 1);
    let u = unwritten(rs, rewrites, n - 1);
    if i < n - 1 {
        a_referrer_is_written_unless_nothing_changes(rs, rewrites, n - 1, i);
        if rewrites[i] == Some(false) {
            let k = choose|k: int| 0 <= k < u.len() && u[k] == rs[i].path;
            assert(unwritten(rs, rewrites, n)[k] == rs[i].path);
        } else {
            let k = choose|k: int| 0 <= k < w.len() && w[k] == rs[i].path;
            assert(written(rs, rewrites, n)[k] == rs[i].path);
        }
    } else if rewrites[i] == Some(false) {
        assert(unwritten(rs, rewrites, n)[u.len() as int] == rs[i].path);
    } else {
        assert(written(rs, rewrites, n)[w.len() as int] == rs[i].path);
    }
}

/// Each file that is written or exempt is a referrer whose rewrite says so.
pub proof fn what_is_written_is_a_referrer(
    rs: Seq<Referrer>,
    rewrites: Seq<Option<bool>>,
    n: int,
    path: String,
)
    requires
        0 <= n <= rs.len(),
        rewrites.len() == rs.len(),
    ensures
        unwritten(rs, rewrites, n).contains(path) ==> exists|i: int|
            0 <= i < n && (#[trigger] rs[i]).path == path && rewrites[i] == Some(false),
        written(rs, rewrites, n).contains(path) ==> exists|i: int|
            0 <= i < n && (#[trigger] rs[i]).path == path && rewrites[i] != Some(false),
    decreases n,
{
    if n > 0 {
        what_is_written_is_a_referrer(rs, rewrites, n - 1, path);
        let w = written(rs, rewrites, n - 1);
        let u = unwritten(rs, rewrites, n - 1);
        let here = rs[n - 1].path;
        if unwritten(rs, rewrites, n).contains(path) && !u.contains(path) {
            let k = choose|k: int|
                0 <= k < unwritten(rs, rewrites, n).len() && unwritten(rs, rewrites, n)[k] == path;
            if k < u.len() {
                assert(u[k] == path);
            }
            assert(here == path);
        }
        if written(rs, rewrites, n).contains(path) && !w.contains(path) {
            let k = choose|k: int|
                0 <= k < written(rs, rewrites, n).len() && written(rs, rewrites, n)[k] == path;
            if k < w.len() {
                assert(w[k] == path);
            }
            assert(here == path);
        }
    }
}

/// A refactor is held up by the files of members that may not be edited, under the
/// member's name, and by no others.
pub proof fn a_file_of_a_consumed_member_blocks(
    repos: Seq<Repo>,
    paths: Seq<String>,
    n: int,
    k: int,
    i: int,
)
    requires
        0 <= k < n <= paths.len(),
        owner(repos, paths[k]@) == Some(i),
    ensures
        repos[i].editable ==> blocking_repo(repos, paths[k]@) is None,
        !repos[i].editable ==> blocked_by(repos, paths, repos[i].name@, n).contains(paths[k]),
    decreases n,
{
    if !repos[i].editable {
        let name = repos[i].name@;
        let before = blocked_by(repos, paths, name, n - 1);
        let now = blocked_by(repos, paths, name, n);
        if k < n - 1 {
            a_file_of_a_consumed_member_blocks(repos, paths, n - 1, k, i);
            let j = choose|j: int| 0 <= j < before.len() && before[j] == paths[k];
            assert(now[j] == paths[k]);
        } else {
            assert(now[before.len() as int] == paths[k]);
        }
    }
}

/// Each file that holds a refactor up for a member belongs to the member, which may not be
/// edited.
pub proof fn only_files_of_the_member_block(
    repos: Seq<Repo>,
    paths: Seq<String>,
    name: Seq<char>,
    n: int,
    j: int,
)
    requires
        0 <= n <= paths.len(),
        0 <= j < blocked_by(repos, paths, name, n).len(),
    ensures
        ({
            let path = blocked_by(repos, paths, name, n)[j];
            &&& paths.contains(path)
            &&& owner_name(repos, path@) == Some(name)
            &&& owner(repos, path@) matches Some(i) && !repos[i].editable
        }),
    decreases n,
{
    if n > 0 {
        let before = blocked_by(repos, paths, name, n - 1);
        if j < before.len() {
            only_files_of_the_member_block(repos, paths, name, n - 1, j);
        } else {
            assert(paths[n - 1] == blocked_by(repos, paths, name, n)[j]);
        }
    }
}

/// Two files share a repo where the same root holds both; a file that no repo holds has
/// escaped, and files of two roots cross.
pub proof fn a_refactor_stays_in_one_repo(
    repos: Seq<Repo>,
    a: Seq<char>,
    b: Seq<char>,
    escapes: Seq<char>,
    crosses: Seq<char>,
)
    ensures
        owner(repos, a) is None || owner(repos, b) is None ==> shared_repo(
            repos,
            a,
            b,
            escapes,
            crosses,
        ) == Err::<int, Seq<char>>(escapes),
        owner(repos, a) is Some && owner(repos, a) == owner(repos, b) ==> shared_repo(
            repos,
            a,
            b,
            escapes,
            crosses,
        ) == Ok::<int, Seq<char>>(owner(repos, a)->0),
        owner(repos, a) is Some && owner(repos, b) is Some && !same_path_spec(
            repos[owner(repos, a)->0].root@,
            repos[owner(repos, b)->0].root@,
        ) ==> shared_repo(repos, a, b, escapes, crosses) == Err::<int, Seq<char>>(crosses),
{
}

/// The files of the referrers are touched, but for those that are set aside.
pub proof fn the_other_files_are_those_not_set_aside(
    rs: Seq<Referrer>,
    skip: Seq<Seq<char>>,
    n: int,
    path: Seq<char>,
)
    requires
        0 <= n <= rs.len(),
    ensures
        other_paths(rs, skip, n).contains(path) <==> (exists|i: int|
            0 <= i < n && (#[trigger] rs[i]).path@ == path) && forall|k: int|
            #![trigger skip[k]]
            0 <= k < skip.len() ==> !same_path_spec(skip[k], path),
    decreases n,
{
    if n > 0 {
        the_other_files_are_those_not_set_aside(rs, skip, n - 1, path);
        let before = other_paths(rs, skip, n - 1);
        let now = other_paths(rs, skip, n);
        let here = rs[n - 1].path@;
        if before.contains(path) {
            let j = choose|j: int| 0 <= j < before.len() && before[j] == path;
            assert(now[j] == path);
        }
        if now.contains(path) && !before.contains(path) {
            let j = choose|j: int| 0 <= j < now.len() && now[j] == path;
            if j < before.len() {
                assert(before[j] == path);
            }
            assert(here == path);
            assert forall|k: int| #![trigger skip[k]] 0 <= k < skip.len() implies !same_path_spec(
                skip[k],
                path,
            ) by {
                if same_path_spec(skip[k], path) {
                    assert(among(skip, here));
                }
            }
        }
        if here == path && !among(skip, path) {
            assert(now[before.len() as int] == path);
        }
    }
}

/// The files that a refactor is about are touched, all of them, whether it moves, folds or
/// renames in place.
pub proof fn the_own_files_are_touched(r: Refactored)
    ensures
        r matches Refactored::Moved { from, to } ==> own_files(r).contains(from@) && own_files(
            r,
        ).contains(to@) && set_aside(r).contains(from@) && own_files(r).len() == 2 && set_aside(
            r,
        ).len() == 1,
        r matches Refactored::Folded { file, into } ==> own_files(r).contains(file@) && own_files(
            r,
        ).contains(into@) && own_files(r).len() == 2 && set_aside(r) == own_files(r),
        r matches Refactored::InPlace { host } ==> own_files(r) == seq![host@] && set_aside(r)
            == own_files(r),
{
    match r {
        Refactored::Moved { from, to } => {
            assert(own_files(r)[0] == from@ && own_files(r)[1] == to@);
            assert(set_aside(r)[0] == from@);
        },
        Refactored::Folded { file, into } => {
            assert(own_files(r)[0] == into@ && own_files(r)[1] == file@);
        },
        Refactored::InPlace { .. } => {},
    }
}

/// A referrer that reads as it was held may be written, and no other.
pub proof fn only_an_unchanged_referrer_is_written(
    path: Seq<char>,
    held: Option<Seq<char>>,
    read: Result<Seq<char>, Seq<char>>,
)
    ensures
        referrer_refusal(path, held, read) is None <==> read is Ok && held == Some(read->Ok_0),
{
}

/// A type is asked for by a bare name, or by the name of its repo, two colons and its own.
pub proof fn a_type_is_asked_for_with_or_without_its_repo(name: Seq<char>, repo: Seq<char>)
    requires
        !name.contains(':'),
    ensures
        split_type(name) == (name, None::<Seq<char>>),
        split_type(name + seq![':', ':'] + repo) == (name, Some(repo)),
{
    lemma_no_colons(name, 0);
    let s = name + seq![':', ':'] + repo;
    lemma_first_colons(name, repo, 0);
    assert(s.take(name.len() as int) =~= name);
    assert(s.skip(name.len() as int + 2) =~= repo);
}

proof fn lemma_no_colons(name: Seq<char>, from: int)
    requires
        0 <= from <= name.len(),
        !name.contains(':'),
    ensures
        first_of(name, seq![':', ':'], from) == name.len(),
    decreases name.len() - from,
{
    let n = seq![':', ':'];
    if !(from >= name.len() || from + n.len() > name.len()) {
        assert(name.contains(name[from]));
        if occurs_at(name, n, from) {
            assert(name.subrange(from, from + n.len())[0] == n[0]);
        }
        lemma_no_colons(name, from + 1);
    }
}

proof fn lemma_first_colons(name: Seq<char>, repo: Seq<char>, from: int)
    requires
        0 <= from <= name.len(),
        !name.contains(':'),
    ensures
        first_of(name + seq![':', ':'] + repo, seq![':', ':'], from) == name.len(),
    decreases name.len() - from,
{
    let n = seq![':', ':'];
    let s = name + n + repo;
    if from < name.len() {
        assert(name.contains(name[from]));
        if occurs_at(s, n, from) {
            assert(s.subrange(from, from + n.len())[0] == n[0]);
            assert(s[from] == name[from]);
        }
        lemma_first_colons(name, repo, from + 1);
    } else {
        assert(s.subrange(from, from + n.len()) =~= n);
    }
}

proof fn lemma_suffix(a: Seq<char>, b: Seq<char>)
    ensures
        has_suffix(a + b, b),
{
    assert((a + b).skip(a.len() as int) =~= b);
}

proof fn lemma_other_ending(a: Seq<char>, b: Seq<char>, c: Seq<char>)
    requires
        b.len() > 0,
        c.len() > 0,
        b[b.len() - 1] != c[c.len() - 1] || (b.len() >= 3 && c.len() >= 3 && b[b.len() - 3] != c[c.len()
            - 3]),
    ensures
        !has_suffix(a + b, c),
{
    let s = a + b;
    if has_suffix(s, c) {
        let t = s.skip(s.len() - c.len());
        assert(t[c.len() - 1] == s[s.len() - 1]);
        assert(s[s.len() - 1] == b[b.len() - 1]);
        if b.len() >= 3 && c.len() >= 3 {
            assert(t[c.len() - 3] == s[s.len() - 3]);
            assert(s[s.len() - 3] == b[b.len() - 3]);
        }
    }
}

/// A renamed def keeps the ending of its file, the longest of those that it has.
pub proof fn a_def_keeps_its_ending(stem: Seq<char>)
    ensures
        def_suffix(stem + ".type.yaml"@) == Some(".type.yaml"@),
        def_suffix(stem + ".type.yml"@) == Some(".type.yml"@),
        !has_suffix(stem + ".yaml"@, ".type.yaml"@) ==> def_suffix(stem + ".yaml"@) == Some(
            ".yaml"@,
        ),
        !has_suffix(stem + ".yml"@, ".type.yml"@) ==> def_suffix(stem + ".yml"@) == Some(".yml"@),
{
    reveal_strlit(".type.yaml");
    reveal_strlit(".type.yml");
    reveal_strlit(".yaml");
    reveal_strlit(".yml");
    lemma_suffix(stem, ".type.yaml"@);
    lemma_suffix(stem, ".type.yml"@);
    lemma_suffix(stem, ".yaml"@);
    lemma_suffix(stem, ".yml"@);
    lemma_other_ending(stem, ".type.yml"@, ".type.yaml"@);
    lemma_other_ending(stem, ".yaml"@, ".type.yml"@);
    lemma_other_ending(stem, ".yml"@, ".type.yaml"@);
    lemma_other_ending(stem, ".yml"@, ".yaml"@);
}

/// A renamed def stands where it stood, under the new name with its own ending.
pub proof fn a_def_is_renamed_in_place(from: Seq<char>, new: Seq<char>, name: Seq<char>, suffix: Seq<char>)
    requires
        file_name_of(from) == Some(name),
        def_suffix(name) == Some(suffix),
    ensures
        renamed_def(from, new) == Some(renamed_file(from, new + suffix)),
{
}

/// The def that a rename is about is the one of the first repo, among those that are asked
/// for, that has a type of the name.
pub proof fn a_def_is_found_in_the_repo_that_is_asked_for(
    kb: KnowledgeBase,
    name: Seq<char>,
    in_repo: Option<Seq<char>>,
    i: int,
    k: int,
)
    requires
        0 <= i <= k < kb.repos@.len(),
        in_repo is None || in_repo == Some(kb.repos@[k].name@),
        type_source(kb.types@, kb.repos@[k].name@, name, 0) is Some,
        forall|j: int|
            #![trigger kb.repos@[j]]
            i <= j < k ==> (in_repo is Some && in_repo != Some(kb.repos@[j].name@)) || type_source(
                kb.types@,
                kb.repos@[j].name@,
                name,
                0,
            ) is None,
    ensures
        owned_def(kb, name, in_repo, i) == type_source(kb.types@, kb.repos@[k].name@, name, 0),
    decreases k - i,
{
    if i < k {
        let here = kb.repos@[i];
        a_def_is_found_in_the_repo_that_is_asked_for(kb, name, in_repo, i + 1, k);
    }
}

/// Where no repo that is asked for has a type of the name there is no def to rename.
pub proof fn no_def_is_found_elsewhere(
    kb: KnowledgeBase,
    name: Seq<char>,
    in_repo: Option<Seq<char>>,
    i: int,
)
    requires
        0 <= i,
        forall|j: int|
            #![trigger kb.repos@[j]]
            i <= j < kb.repos@.len() ==> (in_repo is Some && in_repo != Some(kb.repos@[j].name@))
                || type_source(kb.types@, kb.repos@[j].name@, name, 0) is None,
    ensures
        owned_def(kb, name, in_repo, i) is None,
    decreases kb.repos@.len() - i,
{
    if i < kb.repos@.len() {
        let here = kb.repos@[i];
        no_def_is_found_elsewhere(kb, name, in_repo, i + 1);
    }
}

/// The mentions of a file are read as those of the repo that owns it, and every file with
/// an edit among its mentions is edited.
pub proof fn every_file_that_mentions_the_type_is_edited(
    kb: KnowledgeBase,
    i: int,
    old_name: Seq<char>,
    def_repo: Seq<char>,
    new_name: Seq<char>,
)
    requires
        0 <= i < kb.catalog@.len(),
    ensures
        owner_name(kb.repos@, kb.catalog@[i].path@) matches Some(repo) ==> edits_in_entry(
            kb,
            i,
            old_name,
            def_repo,
            new_name,
        ) == edits_at(sites_of(kb.catalog@[i].parse), repo, old_name, def_repo, new_name),
        mentioning(kb, old_name, def_repo, new_name).contains(i) <==> edits_in_entry(
            kb,
            i,
            old_name,
            def_repo,
            new_name,
        ).len() > 0,
{
    lemma_chosen_iff(
        |i: int| edits_in_entry(kb, i, old_name, def_repo, new_name).len() > 0,
        kb.catalog@.len() as int,
        i,
    );
}

/// A type is renamed where its def is found in an editable repo, the new name is valid and
/// free there, and the def has a path to go to.
pub proof fn a_type_is_renamed_where_it_may_be(
    kb: KnowledgeBase,
    old_name: Seq<char>,
    old_repo: Option<Seq<char>>,
    new_name: Seq<char>,
    valid: bool,
)
    ensures
        rename_type_refusal(kb, old_name, old_repo, new_name, valid) is None <==> {
            &&& valid
            &&& owned_def(kb, old_name, old_repo, 0) matches Some(from) && renamed_def(
                from,
                new_name,
            ) is Some && (owner(kb.repos@, from) matches Some(i) && kb.repos@[i].editable
                && type_source(kb.types@, kb.repos@[i].name@, new_name, 0) is None)
        },
{
}

/// The edits of a file are those gathered for it.
pub proof fn a_file_gets_the_edits_gathered_for_it(
    files: Seq<FileEdits>,
    path: Seq<char>,
    i: int,
    k: int,
)
    requires
        0 <= i <= k < files.len(),
        same_path_spec(files[k].path@, path),
        forall|j: int|
            #![trigger files[j]]
            i <= j < k ==> !same_path_spec(files[j].path@, path),
    ensures
        mention_edits(files, path, i) == files[k].edits@,
    decreases k - i,
{
    if i < k {
        let here = files[i];
        a_file_gets_the_edits_gathered_for_it(files, path, i + 1, k);
    }
}

/// A file of a renamed type is written where it mentions the type or where a link of it
/// changes.
pub proof fn a_file_that_changes_is_written(
    g: RenameTypeGather,
    rewrites: Seq<Option<bool>>,
    n: int,
    k: int,
)
    requires
        0 <= k < n <= g.referrers@.len(),
        rewrites.len() == g.links@.len(),
    ensures
        (exists|j: int|
            0 <= j < g.type_edits@.len() && same_path_spec(
                (#[trigger] g.type_edits@[j]).path@,
                g.referrers@[k]@,
            )) ==> split_files(g, rewrites, true, n).contains(g.referrers@[k]),
        (exists|j: int|
            0 <= j < g.links@.len() && same_path_spec(
                (#[trigger] g.links@[j]).path@,
                g.referrers@[k]@,
            ) && rewrites[j] != Some(false)) ==> split_files(g, rewrites, true, n).contains(
            g.referrers@[k],
        ),
        (forall|j: int|
            #![trigger g.type_edits@[j]]
            0 <= j < g.type_edits@.len() ==> !same_path_spec(
                g.type_edits@[j].path@,
                g.referrers@[k]@,
            )) && (forall|j: int|
            #![trigger g.links@[j]]
            0 <= j < g.links@.len() && same_path_spec(g.links@[j].path@, g.referrers@[k]@)
                ==> rewrites[j] == Some(false)) ==> split_files(g, rewrites, false, n).contains(
            g.referrers@[k],
        ),
{
    lemma_split(g, rewrites, writes_file(g, rewrites, g.referrers@[k]@), n, k);
}

proof fn lemma_split(
    g: RenameTypeGather,
    rewrites: Seq<Option<bool>>,
    writes: bool,
    n: int,
    k: int,
)
    requires
        0 <= k < n <= g.referrers@.len(),
        writes_file(g, rewrites, g.referrers@[k]@) == writes,
    ensures
        split_files(g, rewrites, writes, n).contains(g.referrers@[k]),
    decreases n,
{
    let before = split_files(g, rewrites, writes, n - 1);
    let now = split_files(g, rewrites, writes, n);
    if k < n - 1 {
        lemma_split(g, rewrites, writes, n - 1, k);
        let j = choose|j: int| 0 <= j < before.len() && before[j] == g.referrers@[k];
        assert(now[j] == g.referrers@[k]);
    } else {
        assert(now[before.len() as int] == g.referrers@[k]);
    }
}

} // verus!
