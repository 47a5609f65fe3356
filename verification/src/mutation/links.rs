//! How a mutation rewrites the links that follow what it moves.

use crate::model::BlockRef;
use crate::text::{copy_opt, opt_view, same};
use vstd::prelude::*;

verus! {

/// A wikilink, taken apart.
#[derive(Debug)]
pub struct WikilinkRef {
    /// The file that the link names; empty for a link within its own file.
    pub target: String,
    pub repo: Option<String>,
    pub commit: Option<String>,
    pub block_id: Option<BlockRef>,
    pub anchor: Option<String>,
    pub field: Option<String>,
}

/// The contents of a block reference.
pub open spec fn block_view(b: Option<BlockRef>) -> Option<(Seq<char>, bool)> {
    match b {
        Some(x) => Some((x.id@, x.referent)),
        None => None,
    }
}

/// The contents of a [`WikilinkRef`].
pub struct LinkView {
    pub target: Seq<char>,
    pub repo: Option<Seq<char>>,
    pub commit: Option<Seq<char>>,
    pub block_id: Option<(Seq<char>, bool)>,
    pub anchor: Option<Seq<char>>,
    pub field: Option<Seq<char>>,
}

impl View for WikilinkRef {
    type V = LinkView;

    open spec fn view(&self) -> LinkView {
        LinkView {
            target: self.target@,
            repo: opt_view(self.repo),
            commit: opt_view(self.commit),
            block_id: block_view(self.block_id),
            anchor: opt_view(self.anchor),
            field: opt_view(self.field),
        }
    }
}

fn copy_block(b: &Option<BlockRef>) -> (r: Option<BlockRef>)
    ensures
        block_view(r) == block_view(*b),
{
    match b {
        Some(x) => Some(BlockRef { id: x.id.clone(), referent: x.referent }),
        None => None,
    }
}

/// The id in a block reference.
pub open spec fn id_of(b: Option<(Seq<char>, bool)>) -> Option<Seq<char>> {
    match b {
        Some((id, _)) => Some(id),
        None => None,
    }
}

/// The link to a record that moved out into the file `stem`: the moved record
/// itself becomes the whole file, a record nested in it keeps its id.
pub open spec fn promoted_link(
    w: LinkView,
    stem: Seq<char>,
    promoted_id: Option<Seq<char>>,
) -> LinkView {
    LinkView {
        target: stem,
        anchor: None,
        block_id: if id_of(w.block_id) == promoted_id {
            None
        } else {
            w.block_id
        },
        ..w
    }
}

/// Redirects a link to a record that moved out into a file of its own.
pub fn promote_link(w: &WikilinkRef, stem: &str, promoted_id: &Option<String>) -> (r: WikilinkRef)
    ensures
        r@ == promoted_link(w@, stem@, opt_view(*promoted_id)),
{
    let own = match (&w.block_id, promoted_id) {
        (Some(b), Some(p)) => same(b.id.as_str(), p.as_str()),
        (None, None) => true,
        _ => false,
    };
    WikilinkRef {
        target: stem.to_owned(),
        repo: copy_opt(&w.repo),
        commit: copy_opt(&w.commit),
        block_id: if own {
            None
        } else {
            copy_block(&w.block_id)
        },
        anchor: None,
        field: copy_opt(&w.field),
    }
}

/// An id that takes the place of another.
#[derive(Debug)]
pub struct IdChange {
    pub from: String,
    pub to: String,
}

/// The id that takes the place of `id`, or `id` itself, searching from `i` on.
pub open spec fn mapped_from(changes: Seq<IdChange>, id: Seq<char>, i: int) -> Seq<char>
    decreases changes.len() - i,
{
    if i < 0 || i >= changes.len() {
        id
    } else if changes[i].from@ == id {
        changes[i].to@
    } else {
        mapped_from(changes, id, i + 1)
    }
}

fn map_id(changes: &Vec<IdChange>, id: &str) -> (r: String)
    ensures
        r@ == mapped_from(changes@, id@, 0),
{
    for i in 0..changes.len()
        invariant
            mapped_from(changes@, id@, 0) == mapped_from(changes@, id@, i as int),
    {
        if same(changes[i].from.as_str(), id) {
            return changes[i].to.clone();
        }
    }
    id.to_owned()
}

/// The block that a link names once its file is folded into a host as the record
/// `id`: a nested id keeps its mode and follows its change; a link to the whole
/// file has the record as its value.
pub open spec fn folded_block(
    b: Option<(Seq<char>, bool)>,
    changes: Seq<IdChange>,
    id: Seq<char>,
) -> Option<(Seq<char>, bool)> {
    match b {
        Some((old, referent)) => Some((mapped_from(changes, old, 0), referent)),
        None => Some((id, true)),
    }
}

fn fold_block(b: &Option<BlockRef>, changes: &Vec<IdChange>, id: &str) -> (r: Option<BlockRef>)
    ensures
        block_view(r) == folded_block(block_view(*b), changes@, id@),
{
    match b {
        Some(x) => Some(BlockRef { id: map_id(changes, x.id.as_str()), referent: x.referent }),
        None => Some(BlockRef { id: id.to_owned(), referent: true }),
    }
}

/// A link within the host to the folded record: no file and no repo.
pub open spec fn folded_local_link(w: LinkView, changes: Seq<IdChange>, id: Seq<char>) -> LinkView {
    LinkView {
        target: Seq::empty(),
        repo: None,
        anchor: None,
        block_id: folded_block(w.block_id, changes, id),
        ..w
    }
}

/// Redirects a link that stands in the host, or in the folded content itself.
pub fn fold_local_link(w: &WikilinkRef, changes: &Vec<IdChange>, id: &str) -> (r: WikilinkRef)
    ensures
        r@ == folded_local_link(w@, changes@, id@),
{
    let target = String::new();
    assert(target@ =~= Seq::<char>::empty());
    WikilinkRef {
        target,
        repo: None,
        commit: copy_opt(&w.commit),
        block_id: fold_block(&w.block_id, changes, id),
        anchor: None,
        field: copy_opt(&w.field),
    }
}

/// A link from another file to the folded record, which now is in the host.
pub open spec fn folded_cross_link(
    w: LinkView,
    host: Seq<char>,
    changes: Seq<IdChange>,
    id: Seq<char>,
) -> LinkView {
    LinkView {
        target: host,
        anchor: None,
        block_id: folded_block(w.block_id, changes, id),
        ..w
    }
}

/// Redirects a link that stands in another file.
pub fn fold_cross_link(w: &WikilinkRef, host: &str, changes: &Vec<IdChange>, id: &str) -> (r:
    WikilinkRef)
    ensures
        r@ == folded_cross_link(w@, host@, changes@, id@),
{
    WikilinkRef {
        target: host.to_owned(),
        repo: copy_opt(&w.repo),
        commit: copy_opt(&w.commit),
        block_id: fold_block(&w.block_id, changes, id),
        anchor: None,
        field: copy_opt(&w.field),
    }
}

/// A link whose block has a new id: everything else stays, its mode too.
pub open spec fn renamed_block_link(w: LinkView, id: Seq<char>) -> LinkView {
    LinkView {
        block_id: Some(
            (
                id,
                match w.block_id {
                    Some((_, referent)) => referent,
                    None => false,
                },
            ),
        ),
        ..w
    }
}

/// Gives the block of a link its new id.
pub fn rename_block_link(w: &WikilinkRef, id: &str) -> (r: WikilinkRef)
    ensures
        r@ == renamed_block_link(w@, id@),
{
    let referent = match &w.block_id {
        Some(b) => b.referent,
        None => false,
    };
    WikilinkRef {
        target: w.target.clone(),
        repo: copy_opt(&w.repo),
        commit: copy_opt(&w.commit),
        block_id: Some(BlockRef { id: id.to_owned(), referent }),
        anchor: copy_opt(&w.anchor),
        field: copy_opt(&w.field),
    }
}

/// A rewritten link keeps the repo that it is qualified by, its pin and its field,
/// unless it becomes local to the host.
pub proof fn rewrites_keep_the_rest(
    w: LinkView,
    stem: Seq<char>,
    promoted_id: Option<Seq<char>>,
    changes: Seq<IdChange>,
    id: Seq<char>,
)
    ensures
        promoted_link(w, stem, promoted_id).repo == w.repo,
        promoted_link(w, stem, promoted_id).commit == w.commit,
        promoted_link(w, stem, promoted_id).field == w.field,
        folded_cross_link(w, stem, changes, id).repo == w.repo,
        folded_cross_link(w, stem, changes, id).commit == w.commit,
        folded_cross_link(w, stem, changes, id).field == w.field,
        folded_local_link(w, changes, id).commit == w.commit,
        folded_local_link(w, changes, id).field == w.field,
        folded_local_link(w, changes, id).repo is None,
        renamed_block_link(w, id).target == w.target,
        renamed_block_link(w, id).repo == w.repo,
        renamed_block_link(w, id).anchor == w.anchor,
{
}

/// Promoting a record and folding its file back into the host restores a link to
/// the record, when the fold gives the record its old id and the link had the
/// record as its value and no anchor.
pub proof fn folding_undoes_promoting(
    w: LinkView,
    host: Seq<char>,
    stem: Seq<char>,
    id: Seq<char>,
)
    requires
        w.target == host,
        w.block_id == Some((id, true)),
        w.anchor is None,
    ensures
        folded_cross_link(promoted_link(w, stem, Some(id)), host, Seq::empty(), id) == w,
{
}

} // verus!
