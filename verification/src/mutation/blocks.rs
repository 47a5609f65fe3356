//! The ids in a file, and renaming one of them.

use crate::ast::{ByteRange, FileParse};
use crate::graph::nodes::{chosen, ints};
use crate::model::{
    entry_of, find_entry, held_hash, hash_of, inbound, owner, repo_of, Backlink, BodyEvent,
    CatalogEntry, KnowledgeBase, MarkdownBody,
};
use crate::mutation::promote::RecordTarget;
use crate::mutation::refactor::links_to;
use crate::mutation::referrers::{collect_referrers, is_referrers, Referrer};
use crate::records::{field_links, first_in, link_in_fields};
use crate::saga::plan::Reject;
use crate::saga::trees::{add_text, texts_ascend};
use crate::text::{chars_of, contains, debug_form, debug_text, holds, joined3, opt_view, same};
use vstd::prelude::*;

verus! {

/// Whether an event of the body carries the id `q`.
pub open spec fn event_has_id(e: BodyEvent, q: Seq<char>) -> bool {
    match e {
        BodyEvent::BlockIdMarker { id, .. } => id@ == q,
        BodyEvent::FencedBlock { block } => opt_view(block.trailing_block_id) == Some(q),
        _ => false,
    }
}

/// Whether one of the first `n` events carries the id `q`.
pub open spec fn body_has_id(events: Seq<BodyEvent>, q: Seq<char>, n: int) -> bool {
    exists|k: int| #![trigger events[k]] 0 <= k < n && event_has_id(events[k], q)
}

/// Whether one of the first `n` records has the id `q`.
pub open spec fn target_has_id(targets: Seq<RecordTarget>, q: Seq<char>, n: int) -> bool {
    exists|k: int| #![trigger targets[k]] 0 <= k < n && targets[k].id@ == q
}

/// Whether a file declares the id `q`, on a record or in its body.
pub open spec fn declares(
    targets: Seq<RecordTarget>,
    body: Option<MarkdownBody>,
    q: Seq<char>,
) -> bool {
    target_has_id(targets, q, targets.len() as int) || (body matches Some(b) && body_has_id(
        b.events@,
        q,
        b.events@.len() as int,
    ))
}

/// Every id that a file declares, each once and in order.
pub fn host_block_ids(targets: &Vec<RecordTarget>, body: &Option<MarkdownBody>) -> (r: Vec<String>)
    ensures
        texts_ascend(r@),
        forall|q: Seq<char>| #[trigger] holds(r@, q) == declares(targets@, *body, q),
{
    let mut ids: Vec<String> = Vec::new();
    for i in 0..targets.len()
        invariant
            texts_ascend(ids@),
            forall|q: Seq<char>| #[trigger] holds(ids@, q) == target_has_id(targets@, q, i as int),
    {
        let ghost had = ids@;
        add_text(&mut ids, targets[i].id.clone());
        assert forall|q: Seq<char>| #[trigger] holds(ids@, q) == target_has_id(
            targets@,
            q,
            i + 1,
        ) by {
            assert(holds(had, q) == target_has_id(targets@, q, i as int));
            if targets@[i as int].id@ == q {
                assert(target_has_id(targets@, q, i + 1));
            }
        }
    }
    if let Some(b) = body {
        for i in 0..b.events.len()
            invariant
                texts_ascend(ids@),
                forall|q: Seq<char>|
                    #[trigger] holds(ids@, q) == (target_has_id(
                        targets@,
                        q,
                        targets@.len() as int,
                    ) || body_has_id(b.events@, q, i as int)),
        {
            let ghost had = ids@;
            let id: Option<String> = match &b.events[i] {
                BodyEvent::BlockIdMarker { id, .. } => Some(id.clone()),
                BodyEvent::FencedBlock { block } => match &block.trailing_block_id {
                    Some(id) => Some(id.clone()),
                    None => None,
                },
                _ => None,
            };
            assert forall|q: Seq<char>| event_has_id(b.events@[i as int], q) == (opt_view(id)
                == Some(q)) by {}
            if let Some(id) = id {
                add_text(&mut ids, id);
            }
            assert forall|q: Seq<char>| #[trigger] holds(ids@, q) == (target_has_id(
                targets@,
                q,
                targets@.len() as int,
            ) || body_has_id(b.events@, q, i + 1)) by {
                assert(holds(had, q) == (target_has_id(targets@, q, targets@.len() as int)
                    || body_has_id(b.events@, q, i as int)));
                if event_has_id(b.events@[i as int], q) {
                    assert(body_has_id(b.events@, q, i + 1));
                }
            }
        }
    }
    ids
}

/// The links of the body at exactly this range of the file.
pub open spec fn body_links_at(body: MarkdownBody, span: ByteRange, n: int) -> Seq<Seq<char>>
    decreases n,
{
    if n <= 0 || n > body.events@.len() {
        Seq::empty()
    } else {
        let before = body_links_at(body, span, n - 1);
        match body.events@[n - 1] {
            BodyEvent::Wikilink { raw, span: s } => if s.start + body.offset == span.start && s.end
                + body.offset == span.end {
                before.push(raw@)
            } else {
                before
            },
            _ => before,
        }
    }
}

/// The fields of a file that has any.
pub open spec fn link_from_fields(parse: FileParse, span: ByteRange) -> Option<Seq<char>> {
    match parse {
        FileParse::Instance(Some(inst)) => first_in(
            field_links(inst.fields, span, inst.fields.len() as int),
        ),
        FileParse::Note(fields) => first_in(field_links(fields, span, fields.len() as int)),
        _ => None,
    }
}

/// The text of the link at exactly this range: one in the fields before one in
/// the body.
pub open spec fn link_at(entry: CatalogEntry, span: ByteRange) -> Option<Seq<char>> {
    match link_from_fields(entry.parse, span) {
        Some(t) => Some(t),
        None => match entry.body {
            Some(b) => first_in(body_links_at(b, span, b.events@.len() as int)),
            None => None,
        },
    }
}

proof fn lemma_body_links_prefix(body: MarkdownBody, span: ByteRange, i: int, n: int)
    requires
        0 <= i <= n <= body.events@.len(),
        body_links_at(body, span, i).len() > 0,
    ensures
        body_links_at(body, span, n).len() > 0,
        body_links_at(body, span, n)[0] == body_links_at(body, span, i)[0],
    decreases n,
{
    if i < n {
        lemma_body_links_prefix(body, span, i, n - 1);
    }
}

/// The text of the link at exactly this range of a file.
pub fn wikilink_inner_at(entry: &CatalogEntry, span: ByteRange) -> (r: Option<String>)
    ensures
        opt_view(r) == link_at(*entry, span),
{
    let found = match &entry.parse {
        FileParse::Instance(Some(inst)) => link_in_fields(&inst.fields, span),
        FileParse::Note(fields) => link_in_fields(fields, span),
        _ => None,
    };
    if found.is_some() {
        return found;
    }
    if let Some(b) = &entry.body {
        for i in 0..b.events.len()
            invariant
                entry.body == Some(*b),
                link_from_fields(entry.parse, span) is None,
                body_links_at(*b, span, i as int).len() == 0,
        {
            if let BodyEvent::Wikilink { raw, span: s } = &b.events[i] {
                if span.start >= b.offset && span.end >= b.offset && s.start == span.start
                    - b.offset && s.end == span.end - b.offset {
                    proof {
                        lemma_body_links_prefix(*b, span, i + 1, b.events@.len() as int);
                        assert(body_links_at(*b, span, i + 1) =~= seq![raw@]);
                    }
                    return Some(raw.clone());
                }
            }
        }
    }
    None
}

/// Whether a text can be an id: letters, digits, `_` and `-`, and not empty.
pub open spec fn valid_block_id(s: Seq<char>) -> bool {
    s.len() > 0 && forall|i: int| 0 <= i < s.len() ==> block_id_char(#[trigger] s[i])
}

pub open spec fn block_id_char(c: char) -> bool {
    ('a' <= c <= 'z') || ('A' <= c <= 'Z') || ('0' <= c <= '9') || c == '_' || c == '-'
}

pub fn is_valid_block_id(s: &str) -> (r: bool)
    ensures
        r == valid_block_id(s@),
{
    let cs = chars_of(s);
    for i in 0..cs.len()
        invariant
            cs@ == s@,
            forall|k: int| 0 <= k < i ==> block_id_char(#[trigger] s@[k]),
    {
        let c: char = cs[i];
        let good = ('a' <= c && c <= 'z') || ('A' <= c && c <= 'Z') || ('0' <= c && c <= '9') || c
            == '_' || c == '-';
        if !good {
            assert(!block_id_char(s@[i as int]));
            return false;
        }
    }
    cs.len() > 0
}

/// Why an id cannot be renamed, if that shows in the request alone.
pub fn rename_block_id_reject(block_id: &str, to_block_id: &str) -> (r: Option<Reject>)
    ensures
        if block_id@ == to_block_id@ {
            r matches Some(e) && e.detail is None && e.message@
                == "`block_id` and `to_block_id` are the same — nothing to rename"@
        } else if !valid_block_id(to_block_id@) {
            r matches Some(e) && e.detail is None && e.message@ == "`to_block_id` "@ + debug_form(
                to_block_id@,
            ) + " is not a valid block-id — ids are [A-Za-z0-9_-]+"@
        } else {
            r is None
        },
{
    if same(block_id, to_block_id) {
        return Some(
            Reject::new(
                "`block_id` and `to_block_id` are the same — nothing to rename".to_owned(),
            ),
        );
    }
    if !is_valid_block_id(to_block_id) {
        return Some(
            Reject::new(
                joined3(
                    "`to_block_id` ",
                    debug_text(to_block_id).as_str(),
                    " is not a valid block-id — ids are [A-Za-z0-9_-]+",
                ),
            ),
        );
    }
    None
}

/// What renaming an id needs to know: where it is declared, and who names it.
#[derive(Debug)]
pub struct BlockIdGather {
    pub decl_span: ByteRange,
    pub host_hash: Option<String>,
    pub referrers: Vec<Referrer>,
}

/// The range of the record with this id, searching from `i` on.
pub open spec fn target_span(targets: Seq<RecordTarget>, id: Seq<char>, i: int) -> Option<ByteRange>
    decreases targets.len() - i,
{
    if i < 0 || i >= targets.len() {
        None
    } else if targets[i].id@ == id {
        Some(targets[i].span)
    } else {
        target_span(targets, id, i + 1)
    }
}

pub fn find_target(targets: &Vec<RecordTarget>, id: &str) -> (r: Option<ByteRange>)
    ensures
        r == target_span(targets@, id@, 0),
{
    for i in 0..targets.len()
        invariant
            target_span(targets@, id@, 0) == target_span(targets@, id@, i as int),
    {
        if same(targets[i].id.as_str(), id) {
            return Some(targets[i].span);
        }
    }
    None
}

/// The references that name the block `id`, by position.
pub open spec fn naming(links: Seq<Backlink>, id: Seq<char>) -> Seq<int> {
    chosen(|j: int| names_block(links[j], id), links.len() as int)
}

/// Whether a reference names the block `id`.
pub open spec fn names_block(link: Backlink, id: Seq<char>) -> bool {
    link.block_id matches Some(b) && b.id@ == id
}

fn pick_naming(links: &Vec<Backlink>, id: &str) -> (r: Vec<usize>)
    ensures
        ints(r@) == naming(links@, id@),
        forall|k: int| #![trigger r@[k]] 0 <= k < r@.len() ==> r@[k] < links@.len(),
{
    let mut r: Vec<usize> = Vec::new();
    let ghost p = |j: int| names_block(links@[j], id@);
    assert(ints(r@) =~= chosen(p, 0));
    for j in 0..links.len()
        invariant
            p == (|j: int| names_block(links@[j], id@)),
            ints(r@) == chosen(p, j as int),
            forall|k: int| #![trigger r@[k]] 0 <= k < r@.len() ==> r@[k] < links@.len(),
    {
        let hit = match &links[j].block_id {
            Some(b) => same(b.id.as_str(), id),
            None => false,
        };
        assert(hit == p(j as int));
        if hit {
            let ghost before = r@;
            r.push(j);
            assert(ints(r@) =~= ints(before).push(j as int));
        }
    }
    r
}

/// Why an id cannot be renamed, if it cannot.
pub open spec fn block_id_refusal(
    kb: KnowledgeBase,
    host: Seq<char>,
    targets: Seq<RecordTarget>,
    block_id: Seq<char>,
    to_block_id: Seq<char>,
) -> Option<Seq<char>> {
    if owner(kb.repos@, host) is None {
        Some("path escapes the workspace"@)
    } else {
        match entry_of(kb.catalog@, host) {
            None => Some("the host file is not in the knowledge base"@),
            Some(i) => if !(kb.catalog@[i].parse matches FileParse::Instance(Some(_))) {
                Some("the host file is not a typed instance — no inline record to rename"@)
            } else if target_span(targets, block_id, 0) is None {
                Some(
                    "no inline record carries block-id `"@ + block_id + "` in "@ + host
                        + "; block-id rename covers inline `^:` records only"@,
                )
            } else if declares(targets, kb.catalog@[i].body, to_block_id) {
                Some(
                    "block-id `"@ + to_block_id + "` already exists in "@ + host
                        + " — pick a free id"@,
                )
            } else {
                None
            },
        }
    }
}

/// Gathers what renaming an id needs to know. `targets` are the host's records
/// with ids.
pub fn gather_rename_block_id(
    kb: &KnowledgeBase,
    host: &str,
    targets: &Vec<RecordTarget>,
    block_id: &str,
    to_block_id: &str,
) -> (r: Result<BlockIdGather, String>)
    ensures
        match block_id_refusal(*kb, host@, targets@, block_id@, to_block_id@) {
            Some(m) => r matches Err(e) && e@ == m,
            None => r matches Ok(g) && {
                let links = inbound(kb.backlinks@, host@);
                &&& Some(g.decl_span) == target_span(targets@, block_id@, 0)
                &&& g.host_hash == held_hash(kb.catalog@, host@)
                &&& is_referrers(g.referrers@, kb.catalog@, links, naming(links, block_id@))
            },
        },
{
    if repo_of(&kb.repos, host).is_none() {
        return Err("path escapes the workspace".to_owned());
    }
    let i: usize = match find_entry(&kb.catalog, host) {
        Some(i) => i,
        None => return Err("the host file is not in the knowledge base".to_owned()),
    };
    match &kb.catalog[i].parse {
        FileParse::Instance(Some(_)) => {},
        _ => return Err(
            "the host file is not a typed instance — no inline record to rename".to_owned(),
        ),
    }
    let decl_span = match find_target(targets, block_id) {
        Some(s) => s,
        None => {
            let mut m = joined3("no inline record carries block-id `", block_id, "` in ");
            m.append(host);
            m.append("; block-id rename covers inline `^:` records only");
            return Err(m);
        },
    };
    let ids = host_block_ids(targets, &kb.catalog[i].body);
    if contains(&ids, to_block_id) {
        let mut m = joined3("block-id `", to_block_id, "` already exists in ");
        m.append(host);
        m.append(" — pick a free id");
        return Err(m);
    }
    let none: Vec<Backlink> = Vec::new();
    assert(none@ =~= Seq::empty());
    let links = match links_to(kb, host) {
        Some(l) => l,
        None => &none,
    };
    let picked = pick_naming(links, block_id);
    Ok(
        BlockIdGather {
            decl_span,
            host_hash: hash_of(&kb.catalog, host),
            referrers: collect_referrers(&kb.catalog, links, &picked),
        },
    )
}

} // verus!
