//! Where links lead after a refactor.

use crate::mutation::edits::{rewritten, rewritten_upto, FoundLink, Rewriting};
use crate::mutation::links::{
    folded_cross_link, folded_local_link, mapped_from, promoted_link, renamed_block_link, IdChange,
    LinkView,
};
use crate::text::opt_view;
use vstd::prelude::*;

verus! {

/// Whether an id is given up for another.
pub open spec fn is_changed(changes: Seq<IdChange>, id: Seq<char>) -> bool {
    exists|k: int| 0 <= k < changes.len() && (#[trigger] changes[k]).from@ == id
}

proof fn lemma_unmapped(changes: Seq<IdChange>, id: Seq<char>, i: int)
    requires
        0 <= i,
        !is_changed(changes, id),
    ensures
        mapped_from(changes, id, i) == id,
    decreases changes.len() - i,
{
    if i < changes.len() {
        assert(changes[i].from@ != id);
        lemma_unmapped(changes, id, i + 1);
    }
}

proof fn lemma_mapped(changes: Seq<IdChange>, i: int, k: int)
    requires
        0 <= i <= k < changes.len(),
        forall|j: int|
            #![trigger changes[j]]
            0 <= j < changes.len() && changes[j].from@ == changes[k].from@ ==> j == k,
    ensures
        mapped_from(changes, changes[k].from@, i) == changes[k].to@,
    decreases k - i,
{
    if i < k {
        assert(changes[i].from@ != changes[k].from@);
        lemma_mapped(changes, i + 1, k);
    }
}

/// A link to a record nested in a folded file keeps the record's id and its own mode, where
/// that id was not given up, whether the link stands in the host or in another file.
pub proof fn a_nested_id_is_kept(
    w: LinkView,
    old: Seq<char>,
    referent: bool,
    host: Seq<char>,
    changes: Seq<IdChange>,
    id: Seq<char>,
)
    requires
        w.block_id == Some((old, referent)),
        !is_changed(changes, old),
    ensures
        folded_local_link(w, changes, id).block_id == Some((old, referent)),
        folded_cross_link(w, host, changes, id).block_id == Some((old, referent)),
{
    lemma_unmapped(changes, old, 0);
}

/// A link to a nested record whose id was given up names the id in its place, and keeps
/// its own mode.
pub proof fn a_changed_id_is_followed(
    w: LinkView,
    referent: bool,
    host: Seq<char>,
    changes: Seq<IdChange>,
    k: int,
    id: Seq<char>,
)
    requires
        0 <= k < changes.len(),
        w.block_id == Some((changes[k].from@, referent)),
        forall|j: int|
            #![trigger changes[j]]
            0 <= j < changes.len() && changes[j].from@ == changes[k].from@ ==> j == k,
    ensures
        folded_local_link(w, changes, id).block_id == Some((changes[k].to@, referent)),
        folded_cross_link(w, host, changes, id).block_id == Some((changes[k].to@, referent)),
{
    lemma_mapped(changes, 0, k);
}

/// A link to a whole file that was folded has the new record as its value.
pub proof fn a_link_to_the_file_gets_the_record(
    w: LinkView,
    host: Seq<char>,
    changes: Seq<IdChange>,
    id: Seq<char>,
)
    requires
        w.block_id is None,
    ensures
        folded_local_link(w, changes, id).block_id == Some((id, true)),
        folded_cross_link(w, host, changes, id).block_id == Some((id, true)),
{
}

/// A link to what was folded leads into the host: from within it names no file and no
/// repo, from outside it names the host in the repo that it named. It keeps its pin and
/// its field, and has no heading.
pub proof fn a_folded_link_leads_into_the_host(
    w: LinkView,
    host: Seq<char>,
    changes: Seq<IdChange>,
    id: Seq<char>,
)
    ensures
        ({
            let local = folded_local_link(w, changes, id);
            let cross = folded_cross_link(w, host, changes, id);
            &&& local.target.len() == 0 && local.repo is None && local.anchor is None
            &&& local.commit == w.commit && local.field == w.field
            &&& cross.target == host && cross.repo == w.repo && cross.anchor is None
            &&& cross.commit == w.commit && cross.field == w.field
        }),
{
}

/// A link to a promoted record leads to its file. The record itself is then the whole file;
/// a record nested in it keeps its id and the link its mode. The rest of the link stays,
/// but for a heading.
pub proof fn a_promoted_link_leads_to_the_file(
    w: LinkView,
    stem: Seq<char>,
    promoted_id: Option<Seq<char>>,
)
    ensures
        ({
            let now = promoted_link(w, stem, promoted_id);
            &&& now.target == stem && now.anchor is None
            &&& now.repo == w.repo && now.commit == w.commit && now.field == w.field
            &&& match w.block_id {
                None => now.block_id is None,
                Some((id, referent)) => if promoted_id == Some(id) {
                    now.block_id is None
                } else {
                    now.block_id == Some((id, referent))
                },
            }
        }),
{
}

/// A link to a block whose id changes names the new id in the same mode, and is otherwise
/// as it was.
pub proof fn a_renamed_block_keeps_the_mode_of_its_links(
    w: LinkView,
    old: Seq<char>,
    referent: bool,
    id: Seq<char>,
)
    requires
        w.block_id == Some((old, referent)),
    ensures
        ({
            let now = renamed_block_link(w, id);
            &&& now.block_id == Some((id, referent))
            &&& now.target == w.target && now.repo == w.repo && now.commit == w.commit
            &&& now.anchor == w.anchor && now.field == w.field
        }),
{
}

/// Renaming an id back restores every link to it.
pub proof fn renaming_an_id_back_restores_its_links(
    w: LinkView,
    old: Seq<char>,
    referent: bool,
    id: Seq<char>,
)
    requires
        w.block_id == Some((old, referent)),
    ensures
        renamed_block_link(renamed_block_link(w, id), old) == w,
{
}

/// Each verb rewrites a link as its own operation says: a promotion to the file of the
/// record, a fold to the record in the host, a rename to the new id.
pub proof fn a_rewriting_is_that_of_its_verb(
    w: LinkView,
    stem: String,
    promoted: Option<String>,
    changes: Vec<IdChange>,
    id: String,
)
    ensures
        rewritten(w, Rewriting::Promoted { stem, id: promoted }) == promoted_link(
            w,
            stem@,
            opt_view(promoted),
        ),
        rewritten(w, Rewriting::FoldedLocal { changes, id }) == folded_local_link(
            w,
            changes@,
            id@,
        ),
        rewritten(w, Rewriting::FoldedCross { host: stem, changes, id }) == folded_cross_link(
            w,
            stem@,
            changes@,
            id@,
        ),
        rewritten(w, Rewriting::RenamedBlock { id }) == renamed_block_link(w, id@),
{
}

/// Every link that no commit pins is rewritten at its place, and no other.
pub proof fn every_live_link_is_rewritten(found: Seq<FoundLink>, how: Rewriting, n: int, k: int)
    requires
        0 <= k < n <= found.len(),
        found[k].link.commit is None,
    ensures
        rewritten_upto(found, how, n).contains((found[k].span, rewritten(found[k].link@, how))),
    decreases n,
{
    let before = rewritten_upto(found, how, n - 1);
    let all = rewritten_upto(found, how, n);
    let e = (found[k].span, rewritten(found[k].link@, how));
    if k < n - 1 {
        every_live_link_is_rewritten(found, how, n - 1, k);
        let j = choose|j: int| 0 <= j < before.len() && before[j] == e;
        assert(all[j] == e);
    } else {
        assert(all[before.len() as int] == e);
    }
}

/// What is rewritten is a link of the file that no commit pins.
pub proof fn only_live_links_are_rewritten(found: Seq<FoundLink>, how: Rewriting, n: int, j: int)
    requires
        0 <= n <= found.len(),
        0 <= j < rewritten_upto(found, how, n).len(),
    ensures
        exists|k: int|
            0 <= k < n && (#[trigger] found[k]).link.commit is None && rewritten_upto(
                found,
                how,
                n,
            )[j] == (found[k].span, rewritten(found[k].link@, how)),
    decreases n,
{
    if n > 0 {
        let before = rewritten_upto(found, how, n - 1);
        if j < before.len() {
            only_live_links_are_rewritten(found, how, n - 1, j);
            assert(rewritten_upto(found, how, n)[j] == before[j]);
        } else {
            assert(found[n - 1].link.commit is None);
        }
    }
}

} // verus!
