//! Moving an inline record out into a file of its own.

use crate::ast::{ByteRange, FileParse, Instance};
use crate::graph::nodes::{chosen, ints};
use crate::model::{entry_of, find_entry, inbound, Backlink, FileKind, KnowledgeBase};
use crate::mutation::refactor::{links_to, same_repo, shared_repo};
use crate::mutation::referrers::{collect_referrers, is_referrers, Referrer};
use crate::paths::{
    extension, file_stem, file_stem_of, path_extension, same_path, same_path_spec,
};
use crate::records::{
    enclosing_fields, fields_with_id, first_in, last_of, record_at, record_by_block_id, RecordHit,
};
use crate::saga::plan::Reject;
use crate::text::{debug_form, debug_text, joined, joined3, lower, lower_text, opt_view, same};
use vstd::prelude::*;

verus! {

/// How a record is found: by an offset inside it, or by its id.
pub enum Locator {
    At(usize),
    Block(String),
}

/// The way to find the record: exactly one of the two must be given.
pub fn promote_locator(at: Option<usize>, block_id: Option<String>) -> (r: Result<Locator, Reject>)
    ensures
        match (at, block_id) {
            (Some(_), Some(_)) => r matches Err(e) && e.detail is None && e.message@
                == "pass exactly one of `at` or `block_id`, not both"@,
            (None, None) => r matches Err(e) && e.detail is None && e.message@
                == "pass exactly one of `at` (a byte offset) or `block_id`"@,
            (Some(a), None) => r == Ok::<Locator, Reject>(Locator::At(a)),
            (None, Some(id)) => r == Ok::<Locator, Reject>(Locator::Block(id)),
        },
{
    match (at, block_id) {
        (Some(_), Some(_)) => Err(
            Reject::new("pass exactly one of `at` or `block_id`, not both".to_owned()),
        ),
        (None, None) => Err(
            Reject::new("pass exactly one of `at` (a byte offset) or `block_id`".to_owned()),
        ),
        (Some(a), None) => Ok(Locator::At(a)),
        (None, Some(id)) => Ok(Locator::Block(id)),
    }
}

/// Whether an extension is one that an instance is written with.
pub open spec fn instance_extension(ext: Seq<char>) -> bool {
    ext == "md"@ || ext == "markdown"@ || ext == "yaml"@ || ext == "yml"@
}

/// The extension of a path in lower case; empty for none.
pub open spec fn lower_extension(path: Seq<char>) -> Seq<char> {
    match path_extension(path) {
        Some(e) => lower(e),
        None => lower(Seq::empty()),
    }
}

/// Why a record cannot be promoted into the file `to`, if it cannot: the file
/// must be an instance in a format that the engine writes. `asked` is the path as
/// the caller gave it.
pub fn promote_target_reject(kind: Option<FileKind>, to: &str, asked: &str) -> (r: Option<Reject>)
    ensures
        if kind == Some(FileKind::TypeDef) {
            r matches Some(e) && e.detail is None && e.message@
                == "promote creates an instance file, not a type-def — `to` must not be a type-def path"@
        } else if !instance_extension(lower_extension(to@)) {
            r matches Some(e) && e.detail is None && e.message@
                == "promote target must be a .md, .markdown, .yaml, or .yml file, got "@
                + debug_form(asked@)
        } else {
            r is None
        },
{
    if let Some(FileKind::TypeDef) = kind {
        return Some(
            Reject::new(
                "promote creates an instance file, not a type-def — `to` must not be a type-def path".to_owned(),
            ),
        );
    }
    let ext = match extension(to) {
        Some(e) => lower_text(e.as_str()),
        None => lower_text(String::new().as_str()),
    };
    let known = same(ext.as_str(), "md") || same(ext.as_str(), "markdown") || same(
        ext.as_str(),
        "yaml",
    ) || same(ext.as_str(), "yml");
    if known {
        None
    } else {
        Some(
            Reject::new(
                joined(
                    "promote target must be a .md, .markdown, .yaml, or .yml file, got ",
                    debug_text(asked).as_str(),
                ),
            ),
        )
    }
}

/// The record that the locator finds in an instance.
pub open spec fn located_record(inst: Instance, locator: Locator) -> Option<(
    ByteRange,
    Option<Seq<char>>,
)> {
    let n = inst.fields.len() as int;
    match locator {
        Locator::At(at) => last_of(enclosing_fields(inst.fields, at as int, n)),
        Locator::Block(id) => match first_in(fields_with_id(inst.fields, id@, n)) {
            Some(span) => Some((span, Some(id@))),
            None => None,
        },
    }
}

/// The record to promote, or why there is none.
pub open spec fn promotable(
    kb: KnowledgeBase,
    from: Seq<char>,
    to: Seq<char>,
    locator: Locator,
) -> Result<(ByteRange, Option<Seq<char>>), Seq<char>> {
    match shared_repo(
        kb.repos@,
        from,
        to,
        "path or destination escapes the workspace"@,
        "promote into another repo is not supported — path and to must be in the same repo"@,
    ) {
        Err(m) => Err(m),
        Ok(_) => match entry_of(kb.catalog@, from) {
            None => Err("the host file is not in the knowledge base"@),
            Some(i) => match kb.catalog@[i].parse {
                FileParse::Instance(Some(inst)) => match located_record(inst, locator) {
                    Some(hit) => Ok(hit),
                    None => Err(
                        match locator {
                            Locator::At(_) => "no inline record encloses the offset — pass an offset inside a `^:` record"@,
                            Locator::Block(id) => "no inline record carries the block-id `"@ + id@
                                + "`"@,
                        },
                    ),
                },
                _ => Err("the host file is not a typed instance — nothing to promote"@),
            },
        },
    }
}

/// Finds the record to promote.
pub fn locate_promote(kb: &KnowledgeBase, from: &str, to: &str, locator: &Locator) -> (r: Result<
    RecordHit,
    String,
>)
    ensures
        match promotable(*kb, from@, to@, *locator) {
            Ok(hit) => r matches Ok(h) && (h.span, opt_view(h.existing)) == hit,
            Err(m) => r matches Err(e) && e@ == m,
        },
{
    if let Err(m) = same_repo(
        &kb.repos,
        from,
        to,
        "path or destination escapes the workspace",
        "promote into another repo is not supported — path and to must be in the same repo",
    ) {
        return Err(m);
    }
    let i: usize = match find_entry(&kb.catalog, from) {
        Some(i) => i,
        None => return Err("the host file is not in the knowledge base".to_owned()),
    };
    match &kb.catalog[i].parse {
        FileParse::Instance(Some(inst)) => match locator {
            Locator::At(at) => match record_at(&inst.fields, *at) {
                Some(h) => Ok(h),
                None => Err(
                    "no inline record encloses the offset — pass an offset inside a `^:` record".to_owned(),
                ),
            },
            Locator::Block(id) => match record_by_block_id(&inst.fields, id.as_str()) {
                Some(h) => Ok(h),
                None => Err(joined3("no inline record carries the block-id `", id.as_str(), "`")),
            },
        },
        _ => Err("the host file is not a typed instance — nothing to promote".to_owned()),
    }
}

/// A record with an id: where its whole value stands.
#[derive(Debug)]
pub struct RecordTarget {
    pub id: String,
    pub span: ByteRange,
}

/// Whether one range lies within another.
pub open spec fn lies_in(inner: ByteRange, outer: ByteRange) -> bool {
    inner.start >= outer.start && inner.end <= outer.end
}

/// Whether the id travels with the record: it is its own, or that of a record
/// inside it.
pub open spec fn travels(targets: Seq<RecordTarget>, record: ByteRange, id: Seq<char>) -> bool {
    exists|k: int|
        #![trigger targets[k]]
        0 <= k < targets.len() && targets[k].id@ == id && lies_in(targets[k].span, record)
}

fn is_travelling(targets: &Vec<RecordTarget>, record: ByteRange, id: &str) -> (r: bool)
    ensures
        r == travels(targets@, record, id@),
{
    for k in 0..targets.len()
        invariant
            forall|j: int|
                #![trigger targets@[j]]
                0 <= j < k ==> !(targets@[j].id@ == id@ && lies_in(targets@[j].span, record)),
    {
        let t = &targets[k];
        if same(t.id.as_str(), id) && t.span.start >= record.start && t.span.end <= record.end {
            return true;
        }
    }
    false
}

/// Whether a reference names an id that travels.
pub open spec fn follows(link: Backlink, targets: Seq<RecordTarget>, record: ByteRange) -> bool {
    link.block_id matches Some(b) && travels(targets, record, b.id@)
}

/// Whether a reference stands inside the record itself.
pub open spec fn inside(link: Backlink, from: Seq<char>, record: ByteRange) -> bool {
    same_path_spec(link.source@, from) && lies_in(link.span, record)
}

/// The references that follow the record from outside, by position.
pub open spec fn outer_links(
    links: Seq<Backlink>,
    targets: Seq<RecordTarget>,
    from: Seq<char>,
    record: ByteRange,
) -> Seq<int> {
    chosen(
        |j: int| follows(links[j], targets, record) && !inside(links[j], from, record),
        links.len() as int,
    )
}

/// The references that follow the record from inside it, by position.
pub open spec fn inner_links(
    links: Seq<Backlink>,
    targets: Seq<RecordTarget>,
    from: Seq<char>,
    record: ByteRange,
) -> Seq<int> {
    chosen(
        |j: int| follows(links[j], targets, record) && inside(links[j], from, record),
        links.len() as int,
    )
}

/// Whether following the record would change what the reference is: it fills a
/// slot, and has the file as its value.
pub open spec fn ambiguous(link: Backlink) -> bool {
    link.slot is Some && (link.block_id matches Some(b) && !b.referent)
}

/// The first of these references from `k` on whose value would change.
pub open spec fn first_ambiguous(links: Seq<Backlink>, at: Seq<int>, k: int) -> Option<int>
    decreases at.len() - k,
{
    if k < 0 || k >= at.len() {
        None
    } else if ambiguous(links[at[k]]) {
        Some(at[k])
    } else {
        first_ambiguous(links, at, k + 1)
    }
}

/// Why a reference keeps the record from being promoted.
pub open spec fn ambiguous_message(source: Seq<char>, slot: Seq<char>, id: Seq<char>) -> Seq<char> {
    "promote would silently change a reference's value: "@ + source + " fills slot `"@ + slot
        + "` with a bare `^"@ + id + "` (navigational — the host file is the value, `^"@ + id
        + "` a jump anchor). Change it to `^^"@ + id + "` to follow the promoted record, or drop the `^"@
        + id + "` anchor, then retry"@
}

fn make_ambiguous_message(source: &str, slot: &str, id: &str) -> (r: String)
    ensures
        r@ == ambiguous_message(source@, slot@, id@),
{
    let mut m = joined3(
        "promote would silently change a reference's value: ",
        source,
        " fills slot `",
    );
    m.append(slot);
    m.append("` with a bare `^");
    m.append(id);
    m.append("` (navigational — the host file is the value, `^");
    m.append(id);
    m.append("` a jump anchor). Change it to `^^");
    m.append(id);
    m.append("` to follow the promoted record, or drop the `^");
    m.append(id);
    m.append("` anchor, then retry");
    m
}

/// What promoting a record needs to know.
#[derive(Debug)]
pub struct PromoteGather {
    pub record_span: ByteRange,
    /// The record's own id, which becomes the whole file.
    pub promoted_id: Option<String>,
    pub host_hash: Option<String>,
    pub new_stem: String,
    /// The files whose references follow the record.
    pub referrers: Vec<Referrer>,
    /// The references inside the record to what travels with it.
    pub inner_self_pointers: Vec<ByteRange>,
}

/// Why a located record cannot be promoted, if it cannot. `admits` says whether
/// the record's slot can hold a reference, where a slot is declared.
pub open spec fn promote_refusal(
    links: Seq<Backlink>,
    targets: Seq<RecordTarget>,
    from: Seq<char>,
    record: ByteRange,
    admits: Option<bool>,
) -> Option<Seq<char>> {
    if admits == Some(false) {
        Some(
            "promote out of an inline-only slot: the slot holds an inline record but cannot hold the `[[newFile]]` reference promote writes — only an inline-or-reference (`&`) slot can be promoted"@,
        )
    } else {
        match first_ambiguous(links, outer_links(links, targets, from, record), 0) {
            Some(j) => Some(
                ambiguous_message(
                    links[j].source@,
                    links[j].slot->0@,
                    links[j].block_id->0.id@,
                ),
            ),
            None => None,
        }
    }
}

fn pick_links(
    links: &Vec<Backlink>,
    targets: &Vec<RecordTarget>,
    from: &str,
    record: ByteRange,
    want_inside: bool,
) -> (r: Vec<usize>)
    ensures
        ints(r@) == (if want_inside {
            inner_links(links@, targets@, from@, record)
        } else {
            outer_links(links@, targets@, from@, record)
        }),
        forall|k: int| #![trigger r@[k]] 0 <= k < r@.len() ==> r@[k] < links@.len(),
        forall|k: int|
            #![trigger r@[k]]
            0 <= k < r@.len() ==> links@[r@[k] as int].block_id is Some,
{
    let mut r: Vec<usize> = Vec::new();
    let ghost p = |j: int|
        follows(links@[j], targets@, record) && inside(links@[j], from@, record);
    let ghost q = |j: int|
        follows(links@[j], targets@, record) && !inside(links@[j], from@, record);
    assert(ints(r@) =~= chosen(p, 0));
    assert(ints(r@) =~= chosen(q, 0));
    for j in 0..links.len()
        invariant
            p == (|j: int|
                follows(links@[j], targets@, record) && inside(links@[j], from@, record)),
            q == (|j: int|
                follows(links@[j], targets@, record) && !inside(links@[j], from@, record)),
            want_inside ==> ints(r@) == chosen(p, j as int),
            !want_inside ==> ints(r@) == chosen(q, j as int),
            forall|k: int| #![trigger r@[k]] 0 <= k < r@.len() ==> r@[k] < links@.len(),
            forall|k: int|
                #![trigger r@[k]]
                0 <= k < r@.len() ==> links@[r@[k] as int].block_id is Some,
    {
        let link = &links[j];
        let follow = match &link.block_id {
            Some(b) => is_travelling(targets, record, b.id.as_str()),
            None => false,
        };
        let within_record = same_path(link.source.as_str(), from) && link.span.start
            >= record.start && link.span.end <= record.end;
        assert(p(j as int) == (follow && within_record));
        assert(q(j as int) == (follow && !within_record));
        if follow && within_record == want_inside {
            let ghost before = r@;
            r.push(j);
            assert(ints(r@) =~= ints(before).push(j as int));
        }
    }
    r
}

fn find_ambiguous(links: &Vec<Backlink>, at: &Vec<usize>) -> (r: Option<usize>)
    requires
        forall|k: int| #![trigger at@[k]] 0 <= k < at@.len() ==> at@[k] < links@.len(),
    ensures
        match r {
            Some(j) => j < links@.len() && first_ambiguous(links@, ints(at@), 0) == Some(j as int)
                && ambiguous(links@[j as int]),
            None => first_ambiguous(links@, ints(at@), 0) is None,
        },
{
    for k in 0..at.len()
        invariant
            forall|k: int| #![trigger at@[k]] 0 <= k < at@.len() ==> at@[k] < links@.len(),
            first_ambiguous(links@, ints(at@), 0) == first_ambiguous(links@, ints(at@), k as int),
    {
        let link = &links[at[k]];
        assert(ints(at@)[k as int] == at@[k as int]);
        let bad = match (&link.slot, &link.block_id) {
            (Some(_), Some(b)) => !b.referent,
            _ => false,
        };
        if bad {
            return Some(at[k]);
        }
    }
    None
}

fn spans_at(links: &Vec<Backlink>, at: &Vec<usize>) -> (r: Vec<ByteRange>)
    requires
        forall|k: int| #![trigger at@[k]] 0 <= k < at@.len() ==> at@[k] < links@.len(),
    ensures
        r@ == ints(at@).map_values(|j: int| links@[j].span),
{
    let mut r: Vec<ByteRange> = Vec::new();
    for k in 0..at.len()
        invariant
            forall|k: int| #![trigger at@[k]] 0 <= k < at@.len() ==> at@[k] < links@.len(),
            r@.len() == k,
            forall|j: int| #![trigger r@[j]] 0 <= j < k ==> r@[j] == links@[at@[j] as int].span,
    {
        r.push(links[at[k]].span);
    }
    assert(r@ =~= ints(at@).map_values(|j: int| links@[j].span));
    r
}

/// Gathers what promoting a located record needs to know: who follows it, and
/// who stands inside it.
pub fn gather_promote(
    kb: &KnowledgeBase,
    from: &str,
    to: &str,
    hit: RecordHit,
    admits: Option<bool>,
    targets: &Vec<RecordTarget>,
) -> (r: Result<PromoteGather, String>)
    ensures
        ({
            let links = inbound(kb.backlinks@, from@);
            match promote_refusal(links, targets@, from@, hit.span, admits) {
                Some(m) => r matches Err(e) && e@ == m,
                None => r matches Ok(g) && {
                    &&& g.record_span == hit.span
                    &&& g.promoted_id == hit.existing
                    &&& g.host_hash == crate::model::held_hash(kb.catalog@, from@)
                    &&& g.new_stem@ == file_stem_of(to@)
                    &&& is_referrers(
                        g.referrers@,
                        kb.catalog@,
                        links,
                        outer_links(links, targets@, from@, hit.span),
                    )
                    &&& g.inner_self_pointers@ == inner_links(
                        links,
                        targets@,
                        from@,
                        hit.span,
                    ).map_values(|j: int| links[j].span)
                },
            }
        }),
{
    let none: Vec<Backlink> = Vec::new();
    assert(none@ =~= Seq::empty());
    let links = match links_to(kb, from) {
        Some(l) => l,
        None => &none,
    };
    if let Some(can) = admits {
        if !can {
            return Err(
                "promote out of an inline-only slot: the slot holds an inline record but cannot hold the `[[newFile]]` reference promote writes — only an inline-or-reference (`&`) slot can be promoted".to_owned(),
            );
        }
    }
    let outer = pick_links(links, targets, from, hit.span, false);
    let inner = pick_links(links, targets, from, hit.span, true);
    if let Some(j) = find_ambiguous(links, &outer) {
        let link = &links[j];
        let slot = match &link.slot {
            Some(s) => s.as_str(),
            None => "",
        };
        let id = match &link.block_id {
            Some(b) => b.id.as_str(),
            None => "",
        };
        return Err(make_ambiguous_message(link.source.as_str(), slot, id));
    }
    Ok(
        PromoteGather {
            record_span: hit.span,
            promoted_id: hit.existing,
            host_hash: crate::model::hash_of(&kb.catalog, from),
            new_stem: file_stem(to),
            referrers: collect_referrers(&kb.catalog, links, &outer),
            inner_self_pointers: spans_at(links, &inner),
        },
    )
}

/// The end of the record without the line ends that it runs through.
pub open spec fn trimmed_end(bytes: Seq<u8>, start: int, end: int) -> int
    decreases end,
{
    if end > start && 0 <= end - 1 < bytes.len() && (bytes[end - 1] == 10 || bytes[end - 1] == 13) {
        trimmed_end(bytes, start, end - 1)
    } else {
        end
    }
}

/// The range that the reference takes the place of: the record without the line
/// ends behind it, so that the next line stays a line.
pub fn reference_span(bytes: &[u8], record: ByteRange) -> (r: ByteRange)
    ensures
        r.start == record.start,
        r.end == trimmed_end(bytes@, record.start as int, record.end as int),
{
    let mut end: usize = record.end;
    while end > record.start && end - 1 < bytes.len() && (bytes[end - 1] == 10 || bytes[end - 1]
        == 13)
        invariant
            trimmed_end(bytes@, record.start as int, record.end as int) == trimmed_end(
                bytes@,
                record.start as int,
                end as int,
            ),
        decreases end,
    {
        end -= 1;
    }
    ByteRange { start: record.start, end }
}

/// The reference that takes the place of the record.
pub fn reference_text(stem: &str) -> (r: String)
    ensures
        r@ == "\"[["@ + stem@ + "]]\""@,
{
    joined3("\"[[", stem, "]]\"")
}

/// The content of the new file: the record's YAML, between fences in a Markdown
/// file.
pub open spec fn promoted_content(raw: Seq<char>, to: Seq<char>) -> Seq<char> {
    if path_extension(to) == Some("md"@) || path_extension(to) == Some("markdown"@) {
        "---\n"@ + raw + "---\n"@
    } else {
        raw
    }
}

pub fn promoted_file(raw: String, to: &str) -> (r: String)
    ensures
        r@ == promoted_content(raw@, to@),
{
    let markdown = match extension(to) {
        Some(e) => same(e.as_str(), "md") || same(e.as_str(), "markdown"),
        None => false,
    };
    if markdown {
        joined3("---\n", raw.as_str(), "---\n")
    } else {
        raw
    }
}

/// A reference that follows a promoted record stands either inside or outside it,
/// so it is rewritten exactly once.
pub proof fn followers_are_rewritten_once(
    links: Seq<Backlink>,
    targets: Seq<RecordTarget>,
    from: Seq<char>,
    record: ByteRange,
    n: int,
)
    requires
        0 <= n,
    ensures
        chosen(|j: int| follows(links[j], targets, record), n).len() == chosen(
            |j: int| follows(links[j], targets, record) && !inside(links[j], from, record),
            n,
        ).len() + chosen(
            |j: int| follows(links[j], targets, record) && inside(links[j], from, record),
            n,
        ).len(),
    decreases n,
{
    if n > 0 {
        followers_are_rewritten_once(links, targets, from, record, n - 1);
    }
}

} // verus!
