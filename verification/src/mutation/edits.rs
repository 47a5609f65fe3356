//! What a refactor writes into the files that it touches: which rewriting each reference
//! gets, and how the edits of a file are put together.

use crate::ast::ByteRange;
use crate::mutation::blocks::BlockIdGather;
use crate::mutation::inline::InlineGather;
use crate::mutation::links::{
    fold_cross_link, fold_local_link, folded_cross_link, folded_local_link, promote_link, promoted_link,
    rename_block_link, renamed_block_link, IdChange, LinkView, WikilinkRef,
};
use crate::mutation::promote::{reference_span, reference_text, trimmed_end, PromoteGather};
use crate::mutation::rename_type::FileEdits;
use crate::paths::{same_path, same_path_spec};
use crate::saga::plan::Reject;
use crate::text::{copy_opt, opt_view};
use vstd::prelude::*;

verus! {

/// A link as it stands in a file.
#[derive(Debug)]
pub struct FoundLink {
    pub span: ByteRange,
    pub link: WikilinkRef,
}

/// The contents of a list of links.
pub open spec fn found_views(v: Seq<FoundLink>) -> Seq<(ByteRange, LinkView)> {
    v.map_values(|l: FoundLink| (l.span, l.link@))
}

/// How the links to what moved are rewritten.
#[allow(inconsistent_fields)]
#[derive(Debug)]
pub enum Rewriting {
    /// To the file `stem` that the record `id` became.
    Promoted { stem: String, id: Option<String> },
    /// To the record `id`, within its own file.
    FoldedLocal { changes: Vec<IdChange>, id: String },
    /// To the record `id` of the file `host`.
    FoldedCross { host: String, changes: Vec<IdChange>, id: String },
    /// To the new id of their block.
    RenamedBlock { id: String },
}

/// A link under a rewriting.
pub open spec fn rewritten(w: LinkView, how: Rewriting) -> LinkView {
    match how {
        Rewriting::Promoted { stem, id } => promoted_link(w, stem@, opt_view(id)),
        Rewriting::FoldedLocal { changes, id } => folded_local_link(w, changes@, id@),
        Rewriting::FoldedCross { host, changes, id } => folded_cross_link(w, host@, changes@, id@),
        Rewriting::RenamedBlock { id } => renamed_block_link(w, id@),
    }
}

/// What the first `n` links become. A link that a commit pins speaks of the past and
/// stays.
pub open spec fn rewritten_upto(found: Seq<FoundLink>, how: Rewriting, n: int) -> Seq<
    (ByteRange, LinkView),
>
    decreases n,
{
    if n <= 0 {
        Seq::empty()
    } else {
        let before = rewritten_upto(found, how, n - 1);
        if found[n - 1].link.commit is Some {
            before
        } else {
            before.push((found[n - 1].span, rewritten(found[n - 1].link@, how)))
        }
    }
}

fn rewrite_one(w: &WikilinkRef, how: &Rewriting) -> (r: WikilinkRef)
    ensures
        r@ == rewritten(w@, *how),
{
    match how {
        Rewriting::Promoted { stem, id } => promote_link(w, stem.as_str(), id),
        Rewriting::FoldedLocal { changes, id } => fold_local_link(w, changes, id.as_str()),
        Rewriting::FoldedCross { host, changes, id } => fold_cross_link(
            w,
            host.as_str(),
            changes,
            id.as_str(),
        ),
        Rewriting::RenamedBlock { id } => rename_block_link(w, id.as_str()),
    }
}

/// What the links of a file become, in their order.
pub fn rewrite_links(found: &Vec<FoundLink>, how: &Rewriting) -> (r: Vec<FoundLink>)
    ensures
        found_views(r@) == rewritten_upto(found@, *how, found@.len() as int),
{
    let mut r: Vec<FoundLink> = Vec::new();
    assert(found_views(r@) =~= Seq::empty());
    for i in 0..found.len()
        invariant
            found_views(r@) == rewritten_upto(found@, *how, i as int),
    {
        if found[i].link.commit.is_none() {
            let ghost before = r@;
            let l = FoundLink { span: found[i].span, link: rewrite_one(&found[i].link, how) };
            r.push(l);
            assert(found_views(r@) =~= found_views(before).push((l.span, l.link@)));
        }
    }
    r
}

/// A file whose every link to what moved is pinned is not rewritten.
pub proof fn pinned_links_stay(found: Seq<FoundLink>, how: Rewriting, n: int)
    requires
        0 <= n <= found.len(),
        forall|k: int| #![trigger found[k]] 0 <= k < n ==> found[k].link.commit is Some,
    ensures
        rewritten_upto(found, how, n).len() == 0,
    decreases n,
{
    if n > 0 {
        pinned_links_stay(found, how, n - 1);
    }
}

/// How every link to a promoted record is rewritten: those in the record, those in the
/// host and those in other files.
pub fn promote_rewriting(g: &PromoteGather) -> (r: Rewriting)
    ensures
        r matches Rewriting::Promoted { stem, id } && stem@ == g.new_stem@ && opt_view(id)
            == opt_view(g.promoted_id),
{
    Rewriting::Promoted { stem: g.new_stem.clone(), id: copy_opt(&g.promoted_id) }
}

/// How the links to a folded file are rewritten: `within` the host and the folded content
/// itself they become local, in another file they name the host.
pub fn inline_rewriting(g: &InlineGather, within: bool, changes: Vec<IdChange>, id: String) -> (r:
    Rewriting)
    ensures
        if within {
            r == (Rewriting::FoldedLocal { changes, id })
        } else {
            r matches Rewriting::FoldedCross { host, changes: c, id: i } && host@ == g.into_stem@
                && c == changes && i == id
        },
{
    if within {
        Rewriting::FoldedLocal { changes, id }
    } else {
        Rewriting::FoldedCross { host: g.into_stem.clone(), changes, id }
    }
}

/// How the links to a block are rewritten when its id changes.
pub fn rename_block_rewriting(to_block_id: &str) -> (r: Rewriting)
    ensures
        r matches Rewriting::RenamedBlock { id } && id@ == to_block_id@,
{
    Rewriting::RenamedBlock { id: to_block_id.to_owned() }
}

/// The edit that a file gets first, and the others behind it.
fn led_by(first: (ByteRange, String), rest: Vec<(ByteRange, String)>) -> (r: Vec<(ByteRange, String)>)
    ensures
        r@ == seq![first] + rest@,
{
    let mut r: Vec<(ByteRange, String)> = Vec::new();
    r.push(first);
    let mut more = rest;
    r.append(&mut more);
    assert(r@ =~= seq![first] + rest@);
    r
}

/// The edits of the host of a promoted record: the reference in the record's place, then
/// those of its own links.
pub fn promote_host_edits(g: &PromoteGather, host: &[u8], own: Vec<(ByteRange, String)>) -> (r: Vec<
    (ByteRange, String),
>)
    ensures
        r@.len() == own@.len() + 1,
        r@.skip(1) == own@,
        r@[0].0.start == g.record_span.start,
        r@[0].0.end == trimmed_end(host@, g.record_span.start as int, g.record_span.end as int),
        r@[0].1@ == "\"[["@ + g.new_stem@ + "]]\""@,
{
    let first = (reference_span(host, g.record_span), reference_text(g.new_stem.as_str()));
    let r = led_by(first, own);
    assert(r@.skip(1) =~= own@);
    r
}

/// The edits of the host of a folded file: the record where the file was referenced, then
/// those of its other links.
pub fn inline_host_edits(fold: (ByteRange, String), own: Vec<(ByteRange, String)>) -> (r: Vec<
    (ByteRange, String),
>)
    ensures
        r@ == seq![fold] + own@,
{
    led_by(fold, own)
}

/// The edits of the folded file: the new ids of its records that the host has too, then
/// those of its own links.
pub fn folded_file_edits(
    renamed: Vec<(ByteRange, String)>,
    own: Vec<(ByteRange, String)>,
) -> (r: Vec<(ByteRange, String)>)
    ensures
        r@ == renamed@ + own@,
{
    let mut r = renamed;
    let mut more = own;
    r.append(&mut more);
    r
}

/// The edits of the host of a block with a new id: its declaration, then those of the
/// host's own links.
pub fn rename_block_host_edits(
    g: &BlockIdGather,
    to_block_id: &str,
    own: Vec<(ByteRange, String)>,
) -> (r: Vec<(ByteRange, String)>)
    ensures
        r@.len() == own@.len() + 1,
        r@.skip(1) == own@,
        r@[0].0 == g.decl_span,
        r@[0].1@ == to_block_id@,
{
    let r = led_by((g.decl_span, to_block_id.to_owned()), own);
    assert(r@.skip(1) =~= own@);
    r
}

/// The edits of the mentions in a file, searching from `i` on; none for a file without.
pub open spec fn mention_edits(files: Seq<FileEdits>, path: Seq<char>, i: int) -> Seq<
    (ByteRange, String),
>
    decreases files.len() - i,
{
    if i < 0 || i >= files.len() {
        Seq::empty()
    } else if same_path_spec(files[i].path@, path) {
        files[i].edits@
    } else {
        mention_edits(files, path, i + 1)
    }
}

/// The edits of a file that mentions a renamed type or links to its def: those of the
/// mentions, then those of the links.
pub fn rename_type_edits(
    files: &Vec<FileEdits>,
    path: &str,
    links: Vec<(ByteRange, String)>,
) -> (r: Vec<(ByteRange, String)>)
    ensures
        r@ == mention_edits(files@, path@, 0) + links@,
{
    let mut r: Vec<(ByteRange, String)> = Vec::new();
    let mut more = links;
    for i in 0..files.len()
        invariant
            r@.len() == 0,
            more@ == links@,
            mention_edits(files@, path@, 0) == mention_edits(files@, path@, i as int),
    {
        if same_path(files[i].path.as_str(), path) {
            let edits = &files[i].edits;
            for k in 0..edits.len()
                invariant
                    r@ == edits@.take(k as int),
            {
                r.push((edits[k].0, edits[k].1.clone()));
                assert(r@ =~= edits@.take(k + 1));
            }
            assert(edits@.take(edits@.len() as int) =~= edits@);
            r.append(&mut more);
            return r;
        }
    }
    assert(Seq::<(ByteRange, String)>::empty() + links@ =~= links@);
    more
}

/// Whether a file can be folded into a record, which has no body.
pub fn check_foldable(has_body: bool) -> (r: Result<(), Reject>)
    ensures
        if has_body {
            r matches Err(e) && e.detail is None && e.message@
                == "the file to inline has a non-empty body — a record has no body"@
        } else {
            r is Ok
        },
{
    if has_body {
        Err(
            Reject::new(
                "the file to inline has a non-empty body — a record has no body".to_owned(),
            ),
        )
    } else {
        Ok(())
    }
}

} // verus!
