//! How a name in a shape is read.

use crate::renaming::{every_whole_token_is_found, is_name};
use crate::text::occurs_at;
use crate::typerefs::{name_char, name_end, qualifier_at, targeted, token_positions, whole_token};
use vstd::prelude::*;

verus! {

/// What stands behind a token: its repo, if it has one, behind two colons.
pub open spec fn repo_suffix(repo: Option<Seq<char>>) -> Seq<char> {
    match repo {
        Some(r) => seq![':', ':'] + r,
        None => Seq::empty(),
    }
}

proof fn lemma_name_run(raw: Seq<char>, at: int, r: Seq<char>)
    requires
        0 <= at,
        occurs_at(raw, r, at),
        forall|i: int| 0 <= i < r.len() ==> name_char(#[trigger] r[i]),
        at + r.len() >= raw.len() || !name_char(raw[at + r.len() as int]),
    ensures
        name_end(raw, at) == at + r.len(),
    decreases r.len(),
{
    if r.len() > 0 {
        assert(raw.subrange(at, at + r.len())[0] == raw[at]);
        assert(name_char(r[0]));
        let rest = r.drop_first();
        assert(raw.subrange(at + 1, at + 1 + rest.len()) =~= rest) by {
            assert forall|k: int| 0 <= k < rest.len() implies raw[at + 1 + k] == rest[k] by {
                assert(raw.subrange(at, at + r.len())[k + 1] == raw[at + 1 + k]);
            }
        }
        assert forall|i: int| 0 <= i < rest.len() implies name_char(#[trigger] rest[i]) by {
            assert(rest[i] == r[i + 1]);
        }
        lemma_name_run(raw, at + 1, rest);
    }
}

/// A name that stands alone in a shape is a token, and its repo is the name behind the
/// two colons that follow it.
pub proof fn a_token_is_read_with_its_repo(
    before: Seq<char>,
    name: Seq<char>,
    repo: Option<Seq<char>>,
    behind: Seq<char>,
)
    requires
        is_name(name),
        repo matches Some(r) ==> is_name(r),
        before.len() == 0 || !(name_char(before.last()) || before.last() == ':'),
        behind.len() == 0 || !(name_char(behind[0]) || behind[0] == ':'),
    ensures
        ({
            let raw = before + name + repo_suffix(repo) + behind;
            &&& token_positions(raw, name, 0).contains(before.len() as int)
            &&& qualifier_at(raw, (before.len() + name.len()) as int) == repo
        }),
{
    let raw = before + name + repo_suffix(repo) + behind;
    let p = before.len() as int;
    let e = p + name.len();
    assert(raw.subrange(p, e) =~= name);
    if p > 0 {
        assert(raw[p - 1] == before.last());
    }
    match repo {
        Some(r) => {
            assert(raw[e] == ':' && raw[e + 1] == ':');
            assert(raw.subrange(e, e + 2) =~= seq![':', ':']);
            assert(raw.subrange(e + 2, e + 2 + r.len()) =~= r);
            if behind.len() > 0 {
                assert(raw[e + 2 + r.len()] == behind[0]);
            }
            lemma_name_run(raw, e + 2, r);
        },
        None => {
            if behind.len() > 0 {
                assert(raw[e] == behind[0]);
                if occurs_at(raw, seq![':', ':'], e) {
                    assert(raw.subrange(e, e + 2)[0] == raw[e]);
                    assert(seq![':', ':'][0] == ':');
                }
            }
        },
    }
    assert(whole_token(raw, name.len(), p));
    every_whole_token_is_found(raw, name, p);
}

/// A name within a longer one, or the repo behind the two colons of another name, is no
/// token.
pub proof fn part_of_a_name_is_no_token(before: Seq<char>, name: Seq<char>, behind: Seq<char>)
    requires
        is_name(name),
        ({
            ||| before.len() > 0 && name_char(before.last())
            ||| behind.len() > 0 && name_char(behind[0])
            ||| before.len() > 2 && before.last() == ':' && before[before.len() - 2] == ':'
                && name_char(before[before.len() - 3])
        }),
    ensures
        !token_positions(before + name + behind, name, 0).contains(before.len() as int),
{
    let raw = before + name + behind;
    let p = before.len() as int;
    every_whole_token_is_found(raw, name, p);
    if before.len() > 0 {
        assert(raw[p - 1] == before.last());
    }
    if before.len() > 2 {
        assert(raw[p - 2] == before[p - 2] && raw[p - 3] == before[p - 3]);
    }
    if behind.len() > 0 {
        assert(raw[p + name.len()] == behind[0]);
    }
}

/// A bare token means a type of the file's own repo, a qualified one a type of the repo
/// that it names, and no other.
pub proof fn a_token_means_a_type_of_its_repo(
    raw: Seq<char>,
    name: Seq<char>,
    file_repo: Seq<char>,
    def_repo: Seq<char>,
    p: int,
)
    requires
        is_name(name),
    ensures
        targeted(raw, name, file_repo, def_repo).contains(p) == (token_positions(
            raw,
            name,
            0,
        ).contains(p) && (qualifier_at(raw, p + name.len()) == Some(def_repo) || (qualifier_at(
            raw,
            p + name.len(),
        ) is None && file_repo == def_repo))),
{
    let all = token_positions(raw, name, 0);
    let f = |p: int|
        crate::typerefs::targets(qualifier_at(raw, p + name.len()), file_repo, def_repo);
    let kept = all.filter(f);
    if kept.contains(p) {
        let k = choose|k: int| 0 <= k < kept.len() && kept[k] == p;
        all.lemma_filter_pred(f, k);
        crate::typerefs::tokens_are_whole(raw, name, 0);
        crate::typerefs::lemma_filter_keeps_tokens(raw, name, all, f);
        assert(all.contains(kept[k]));
    }
    if all.contains(p) && f(p) {
        let k = choose|k: int| 0 <= k < all.len() && all[k] == p;
        all.lemma_filter_contains(f, k);
    }
}

} // verus!
