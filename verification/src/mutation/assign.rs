//! Giving a record or a block an id.

use crate::ast::FileParse;
use crate::json::{json_text, jv, JsonView, Member};
use crate::model::{entry_of, find_entry, CatalogEntry, KnowledgeBase};
use crate::paths::{below_or_self, file_stem, file_stem_of, relative};
use crate::records::{enclosing_fields, last_of, record_at};
use crate::saga::plan::Reject;
use crate::text::{joined3, opt_view, same};
use vstd::prelude::*;

verus! {

/// What giving an id comes to.
#[derive(Debug)]
pub enum AssignPlan {
    /// There is an id already.
    Existing(String),
    /// The record that begins here gets an id as its first key.
    InsertRecord(usize),
    /// The block of the body gets a marker at its end.
    MarkdownMarker,
}

/// The contents of an [`AssignPlan`].
pub enum AssignView {
    Existing(Seq<char>),
    InsertRecord(usize),
    MarkdownMarker,
}

pub open spec fn assign_view(p: Option<AssignPlan>) -> Option<AssignView> {
    match p {
        None => None,
        Some(AssignPlan::Existing(id)) => Some(AssignView::Existing(id@)),
        Some(AssignPlan::InsertRecord(at)) => Some(AssignView::InsertRecord(at)),
        Some(AssignPlan::MarkdownMarker) => Some(AssignView::MarkdownMarker),
    }
}

/// What the block of the body at an offset gets: nothing when it has a marker.
pub open spec fn marker_plan(marker: Option<Seq<char>>) -> AssignView {
    match marker {
        Some(id) => AssignView::Existing(id),
        None => AssignView::MarkdownMarker,
    }
}

/// What an offset in a file gets. `marker` is the id of the block of the body
/// that the offset lies in, when it has one. In an instance the innermost record
/// around the offset comes first, then the body; in a note everything is body.
pub open spec fn assign_plan(entry: CatalogEntry, at: usize, marker: Option<Seq<char>>) -> Option<
    AssignView,
> {
    match entry.parse {
        FileParse::Instance(Some(inst)) => match last_of(
            enclosing_fields(inst.fields, at as int, inst.fields.len() as int),
        ) {
            Some((_, Some(id))) => Some(AssignView::Existing(id)),
            Some((span, None)) => Some(AssignView::InsertRecord(span.start)),
            None => match entry.body {
                Some(b) => if at >= b.offset {
                    Some(marker_plan(marker))
                } else {
                    None
                },
                None => None,
            },
        },
        FileParse::Note(_) => match entry.body {
            Some(b) => if at >= b.offset {
                Some(marker_plan(marker))
            } else {
                Some(AssignView::MarkdownMarker)
            },
            None => Some(AssignView::MarkdownMarker),
        },
        _ => None,
    }
}

fn from_marker(marker: &Option<String>) -> (r: AssignPlan)
    ensures
        assign_view(Some(r)) == Some(marker_plan(opt_view(*marker))),
{
    match marker {
        Some(id) => AssignPlan::Existing(id.clone()),
        None => AssignPlan::MarkdownMarker,
    }
}

fn plan_entry(entry: &CatalogEntry, at: usize, marker: &Option<String>) -> (r: Option<AssignPlan>)
    ensures
        assign_view(r) == assign_plan(*entry, at, opt_view(*marker)),
{
    match &entry.parse {
        FileParse::Instance(Some(inst)) => match record_at(&inst.fields, at) {
            Some(hit) => match hit.existing {
                Some(id) => Some(AssignPlan::Existing(id)),
                None => Some(AssignPlan::InsertRecord(hit.span.start)),
            },
            None => match &entry.body {
                Some(b) => if at >= b.offset {
                    Some(from_marker(marker))
                } else {
                    None
                },
                None => None,
            },
        },
        FileParse::Note(_) => match &entry.body {
            Some(b) => if at >= b.offset {
                Some(from_marker(marker))
            } else {
                Some(AssignPlan::MarkdownMarker)
            },
            None => Some(AssignPlan::MarkdownMarker),
        },
        _ => None,
    }
}

/// What giving an id comes to, or why nothing can get one.
pub fn locate_assign(kb: &KnowledgeBase, target: &str, at: usize, marker: &Option<String>) -> (r: Result<
    AssignPlan,
    Reject,
>)
    ensures
        ({
            let plan = match entry_of(kb.catalog@, target@) {
                Some(i) => assign_plan(kb.catalog@[i], at, opt_view(*marker)),
                None => None,
            };
            match plan {
                Some(p) => r matches Ok(got) && assign_view(Some(got)) == Some(p),
                None => r matches Err(e) && e.detail is None && e.message@
                    == "no addressable entity encloses the offset — pass an offset inside an inline record or a markdown block"@,
            }
        }),
{
    let plan = match find_entry(&kb.catalog, target) {
        Some(i) => plan_entry(&kb.catalog[i], at, marker),
        None => None,
    };
    match plan {
        Some(p) => Ok(p),
        None => Err(
            Reject::new(
                "no addressable entity encloses the offset — pass an offset inside an inline record or a markdown block".to_owned(),
            ),
        ),
    }
}

/// Whether there is nothing to write: the id is there, and no stamp rides along.
pub fn assign_is_done(plan: &AssignPlan, stamps: usize) -> (r: bool)
    ensures
        r == (plan is Existing && stamps == 0),
{
    match plan {
        AssignPlan::Existing(_) => stamps == 0,
        _ => false,
    }
}

/// Why the file cannot get the id, if it cannot: it cannot be read, or it is not
/// what the engine last read. `read` is the digest of what is on disk.
pub fn check_assign(path: &str, held: &Option<String>, read: &Result<String, String>) -> (r: Result<
    (),
    Reject,
>)
    ensures
        match read {
            Err(e) => r matches Err(reject) && reject.detail is None && reject.message@
                == "cannot read "@ + path@ + ": "@ + e@,
            Ok(digest) => if opt_view(*held) == Some(digest@) {
                r is Ok
            } else {
                r matches Err(reject) && reject.detail is None && reject.message@
                    == "the file changed since the engine last read it — wait for the rebuild and retry with a fresh offset"@
            },
        },
{
    match read {
        Err(e) => {
            let mut m = joined3("cannot read ", path, ": ");
            m.append(e.as_str());
            Err(Reject::new(m))
        },
        Ok(digest) => {
            let current = match held {
                Some(h) => same(h.as_str(), digest.as_str()),
                None => false,
            };
            if current {
                Ok(())
            } else {
                Err(
                    Reject::new(
                        "the file changed since the engine last read it — wait for the rebuild and retry with a fresh offset".to_owned(),
                    ),
                )
            }
        },
    }
}

/// What is written for an id.
#[derive(Debug, Clone, Copy, PartialEq, Eq, Structural)]
pub enum AssignEdit {
    /// Nothing: the id is there.
    Keep,
    /// The id as the first key of the record that begins here.
    Record(usize),
    /// A marker at the end of the block around this offset.
    Marker(usize),
}

/// The id that the answer tells, and what is written for it.
pub open spec fn assigned(plan: AssignPlan, at: usize, fresh: Seq<char>) -> (Seq<char>, AssignEdit) {
    match plan {
        AssignPlan::Existing(id) => (id@, AssignEdit::Keep),
        AssignPlan::InsertRecord(start) => (fresh, AssignEdit::Record(start)),
        AssignPlan::MarkdownMarker => (fresh, AssignEdit::Marker(at)),
    }
}

/// Gives an id to what stands at an offset: the one that is there, else the fresh one.
/// The file must be what the engine last read, or the offset means nothing.
pub fn assign_block_id(
    path: &str,
    held: &Option<String>,
    read: &Result<String, String>,
    plan: &AssignPlan,
    at: usize,
    fresh: &str,
) -> (r: Result<(String, AssignEdit), Reject>)
    ensures
        match read {
            Err(e) => r matches Err(reject) && reject.detail is None && reject.message@
                == "cannot read "@ + path@ + ": "@ + e@,
            Ok(digest) => if opt_view(*held) == Some(digest@) {
                r matches Ok((id, edit)) && (id@, edit) == assigned(*plan, at, fresh@)
            } else {
                r matches Err(reject) && reject.detail is None && reject.message@
                    == "the file changed since the engine last read it — wait for the rebuild and retry with a fresh offset"@
            },
        },
{
    match check_assign(path, held, read) {
        Err(e) => Err(e),
        Ok(_) => Ok(
            match plan {
                AssignPlan::Existing(id) => (id.clone(), AssignEdit::Keep),
                AssignPlan::InsertRecord(start) => (fresh.to_owned(), AssignEdit::Record(*start)),
                AssignPlan::MarkdownMarker => (fresh.to_owned(), AssignEdit::Marker(at)),
            },
        ),
    }
}

/// The link to a block: by the stem of its file where that names the file alone,
/// else by the file's path below the root.
pub open spec fn block_link(unique: bool, target: Seq<char>, root: Seq<char>, id: Seq<char>) -> Seq<
    char,
> {
    let name = if unique {
        file_stem_of(target)
    } else {
        below_or_self(target, root)
    };
    "[["@ + name + "^"@ + id + "]]"@
}

/// The link to a block. `unique` says whether the file's stem, in the file's own
/// repo, names this file and no other.
pub fn block_ref(unique: bool, target: &str, root: &str, id: &str) -> (r: String)
    ensures
        r@ == block_link(unique, target@, root@, id@),
{
    let name = if unique {
        file_stem(target)
    } else {
        relative(target, root)
    };
    let mut s = joined3("[[", name.as_str(), "^");
    s.append(id);
    s.append("]]");
    s
}

/// The members that tell the id and the link to it.
pub fn assign_extra(id: &str, link: &str) -> (r: Vec<Member>)
    ensures
        r@.len() == 2,
        r@[0].key@ == "id"@,
        jv(r@[0].value) == JsonView::Text(id@),
        r@[1].key@ == "ref"@,
        jv(r@[1].value) == JsonView::Text(link@),
{
    let mut extra: Vec<Member> = Vec::new();
    extra.push(Member { key: "id".to_owned(), value: json_text(id) });
    extra.push(Member { key: "ref".to_owned(), value: json_text(link) });
    extra
}

/// Giving an id twice gives the same id: a record that has one keeps it.
pub proof fn assigning_again_changes_nothing(
    entry: CatalogEntry,
    at: usize,
    marker: Option<Seq<char>>,
    id: Seq<char>,
)
    requires
        entry.parse matches FileParse::Instance(Some(_)),
        last_of(
            enclosing_fields(
                entry.parse->Instance_0->0.fields,
                at as int,
                entry.parse->Instance_0->0.fields.len() as int,
            ),
        ) matches Some((_, own)) && own == Some(id),
    ensures
        assign_plan(entry, at, marker) == Some(AssignView::Existing(id)),
{
}

} // verus!
