//! Where a target leads, and what an id or a heading reaches.

use crate::ast::{ByteRange, FileParse};
use crate::json::{text_or_null, JsonView};
use crate::laws::json::tells;
use crate::model::{entry_of, BodyEvent, CatalogEntry, FileKind, MarkdownBody, Yaml, YamlPair};
use crate::mutation::links::LinkView;
use crate::navigation::{
    block_at, block_claim, body_entries, body_entry, claim_from, claim_texts, file_headings,
    first_in_body, headings, kind_label, navigation, occurrences, record_entry, target_json,
    yaml_texts, LookupView, RecordEntry,
};
use crate::text::{opt_view, trimmed};
use vstd::prelude::*;

verus! {

/// A link that names a file is looked up by that name: from the file that it stands in, in
/// the repo that it names, or in that of the file; from nowhere, in the repo that it names
/// or in every repo.
pub proof fn a_name_is_looked_up_where_it_says(
    text: Seq<char>,
    w: LinkView,
    origin: Option<Seq<char>>,
)
    requires
        w.commit is None,
        w.target.len() > 0,
    ensures
        match navigation(text, Some(w), origin) {
            LookupView::Across { origin: o, repo, name } => origin == Some(o) && w.repo == Some(repo)
                && name == w.target,
            LookupView::Beside { origin: o, name } => origin == Some(o) && w.repo is None && name
                == w.target,
            LookupView::InRepo { repo, name } => origin is None && w.repo == Some(repo) && name
                == w.target,
            LookupView::Anywhere(name) => origin is None && w.repo is None && name == w.target,
            _ => false,
        },
{
}

/// A target that is no link is a name of its own; one without any text is the file itself.
pub proof fn a_bare_target_is_a_name(text: Seq<char>, origin: Option<Seq<char>>)
    ensures
        trimmed(text).len() > 0 ==> match navigation(text, None, origin) {
            LookupView::Beside { origin: o, name } => origin == Some(o) && name == text,
            LookupView::Anywhere(name) => origin is None && name == text,
            _ => false,
        },
        trimmed(text).len() == 0 ==> match navigation(text, None, origin) {
            LookupView::Itself(o) => origin == Some(o),
            LookupView::Nothing => origin is None,
            _ => false,
        },
{
}

/// A target that was found is told with its path, its kind and its digest; where it is a
/// type-def that parsed, with its source too.
pub proof fn a_found_target_is_told_whole(
    catalog: Seq<CatalogEntry>,
    path: Seq<char>,
    source: JsonView,
    i: int,
)
    requires
        entry_of(catalog, path) == Some(i),
    ensures
        target_json(catalog, path, source) matches JsonView::Object(m) && {
            &&& tells(m, "path"@, JsonView::Text(path))
            &&& tells(m, "kind"@, JsonView::Text(kind_label(catalog[i].kind)))
            &&& tells(m, "hash"@, text_or_null(opt_view(catalog[i].hash)))
            &&& match catalog[i].parse {
                FileParse::TypeDef(Some(_)) => tells(m, "source"@, source),
                _ => tells(m, "source"@, JsonView::Null),
            }
        },
{
    let m = target_json(catalog, path, source)->Object_0;
    assert(m[0] == ("path"@, JsonView::Text(path)));
    assert(m[1] == ("kind"@, JsonView::Text(kind_label(catalog[i].kind))));
    assert(m[2] == ("hash"@, text_or_null(opt_view(catalog[i].hash))));
    assert(m[3].0 == "source"@);
    match catalog[i].parse {
        FileParse::TypeDef(Some(_)) => {
            assert(m[3] == ("source"@, source));
        },
        _ => {
            assert(m[3] == ("source"@, JsonView::Null));
        },
    }
}

/// Whether an element of a body carries this id.
pub open spec fn carries(e: BodyEvent, id: Seq<char>) -> bool {
    match e {
        BodyEvent::BlockIdMarker { id: i, .. } => i@ == id,
        BodyEvent::FencedBlock { block } => block.trailing_block_id matches Some(i) && i@ == id,
        _ => false,
    }
}

/// Where an element of a body that can carry an id stands in its body.
pub open spec fn place_of(e: BodyEvent) -> ByteRange {
    match e {
        BodyEvent::BlockIdMarker { span, .. } => span,
        BodyEvent::FencedBlock { block } => block.span,
        BodyEvent::Wikilink { span, .. } => span,
        BodyEvent::Heading { span, .. } => span,
    }
}

proof fn lemma_first(body: MarkdownBody, id: Seq<char>, i: int, k: int)
    requires
        0 <= i <= k < body.events@.len(),
        carries(body.events@[k], id),
        forall|j: int| #![trigger body.events@[j]] i <= j < k ==> !carries(body.events@[j], id),
    ensures
        first_in_body(body, id, i) == body_entry(body.events@[k], body.offset),
        body_entry(body.events@[k], body.offset) is Some,
    decreases k - i,
{
    if i < k {
        assert(!carries(body.events@[i], id));
        lemma_first(body, id, i + 1, k);
    }
}

proof fn lemma_first_none(body: MarkdownBody, id: Seq<char>, i: int)
    requires
        0 <= i,
        forall|j: int|
            #![trigger body.events@[j]]
            i <= j < body.events@.len() ==> !carries(body.events@[j], id),
    ensures
        first_in_body(body, id, i) is None,
    decreases body.events@.len() - i,
{
    if i < body.events@.len() {
        assert(!carries(body.events@[i], id));
        lemma_first_none(body, id, i + 1);
    }
}

/// An id in a body reaches the first element that carries it, at its place in the file: a
/// typed fence as what it claims, anything else as a marker.
pub proof fn an_id_reaches_the_first_that_carries_it(
    catalog: Seq<CatalogEntry>,
    path: Seq<char>,
    id: Seq<char>,
    i: int,
    body: MarkdownBody,
    k: int,
)
    requires
        entry_of(catalog, path) == Some(i),
        catalog[i].body == Some(body),
        0 <= k < body.events@.len(),
        carries(body.events@[k], id),
        forall|j: int| #![trigger body.events@[j]] 0 <= j < k ==> !carries(body.events@[j], id),
        place_of(body.events@[k]).start + body.offset <= usize::MAX,
        place_of(body.events@[k]).end + body.offset <= usize::MAX,
    ensures
        block_at(catalog, path, id, None) matches Some(e) && {
            &&& e.id == id
            &&& e.span.start == place_of(body.events@[k]).start + body.offset
            &&& e.span.end == place_of(body.events@[k]).end + body.offset
            &&& match body.events@[k] {
                BodyEvent::FencedBlock { block } => if block.field is Some {
                    e.kind == "typed_block"@ && e.type_claim == block_claim(block.docs@)
                } else {
                    e.kind == "marker"@ && e.type_claim.len() == 0
                },
                _ => e.kind == "marker"@ && e.type_claim.len() == 0,
            }
        },
{
    lemma_first(body, id, 0, k);
}

/// An id that no element of a file's body carries reaches nothing there.
pub proof fn an_unknown_id_reaches_nothing(
    catalog: Seq<CatalogEntry>,
    path: Seq<char>,
    id: Seq<char>,
    i: int,
)
    requires
        entry_of(catalog, path) == Some(i),
        catalog[i].body matches Some(body) ==> forall|j: int|
            #![trigger body.events@[j]]
            0 <= j < body.events@.len() ==> !carries(body.events@[j], id),
    ensures
        block_at(catalog, path, id, None) is None,
{
    if let Some(body) = catalog[i].body {
        lemma_first_none(body, id, 0);
    }
}

/// The record of an instance with an id is what the id reaches, before the body.
pub proof fn a_record_comes_before_the_body(
    catalog: Seq<CatalogEntry>,
    path: Seq<char>,
    id: Seq<char>,
    record: RecordEntry,
    i: int,
)
    requires
        entry_of(catalog, path) == Some(i),
        catalog[i].parse matches FileParse::Instance(Some(_)),
    ensures
        block_at(catalog, path, id, Some(record)) matches Some(e) && e.id == record.id@ && e.kind
            == "record"@ && e.span == record.span && e.type_claim.len() == record.claim@.len(),
{
}

proof fn lemma_listed(body: MarkdownBody, n: int, k: int)
    requires
        0 <= k < n <= body.events@.len(),
        body_entry(body.events@[k], body.offset) is Some,
    ensures
        body_entries(body, n).contains(body_entry(body.events@[k], body.offset)->0),
    decreases n,
{
    let e = body_entry(body.events@[k], body.offset)->0;
    let before = body_entries(body, n - 1);
    let now = body_entries(body, n);
    if k < n - 1 {
        lemma_listed(body, n - 1, k);
        let j = choose|j: int| 0 <= j < before.len() && before[j] == e;
        assert(now[j] == e);
    } else {
        assert(now[before.len() as int] == e);
    }
}

/// Every element of a body that carries an id is listed, and every record of an instance.
pub proof fn every_id_is_listed(
    catalog: Seq<CatalogEntry>,
    path: Seq<char>,
    records: Seq<RecordEntry>,
    i: int,
)
    requires
        entry_of(catalog, path) == Some(i),
    ensures
        catalog[i].body matches Some(body) ==> forall|k: int, id: Seq<char>|
            #![trigger carries(body.events@[k], id)]
            0 <= k < body.events@.len() && carries(body.events@[k], id) ==> exists|j: int|
                0 <= j < occurrences(catalog, path, records).len() && (#[trigger] occurrences(
                    catalog,
                    path,
                    records,
                )[j]).id == id,
        catalog[i].parse matches FileParse::Instance(Some(_)) ==> forall|k: int|
            #![trigger records[k]]
            0 <= k < records.len() ==> occurrences(catalog, path, records)[k].id == records[k].id@
                && occurrences(catalog, path, records)[k].span == records[k].span,
{
    let all = occurrences(catalog, path, records);
    if let Some(body) = catalog[i].body {
        let n = body.events@.len() as int;
        let front = if crate::navigation::parsed_instance(catalog[i]) {
            crate::navigation::record_entries(records)
        } else {
            Seq::empty()
        };
        assert(all == front + body_entries(body, n));
        assert forall|k: int, id: Seq<char>|
            #![trigger carries(body.events@[k], id)]
            0 <= k < body.events@.len() && carries(body.events@[k], id) implies exists|j: int|
            0 <= j < all.len() && (#[trigger] all[j]).id == id by {
            lemma_listed(body, n, k);
            let e = body_entry(body.events@[k], body.offset)->0;
            let j = choose|j: int| 0 <= j < body_entries(body, n).len() && body_entries(body, n)[j] == e;
            assert(all[front.len() + j].id == id);
        }
    }
}

/// Every heading of a file is listed, with its text, its level and its place in the file.
pub proof fn every_heading_is_listed(
    catalog: Seq<CatalogEntry>,
    path: Seq<char>,
    i: int,
    body: MarkdownBody,
    k: int,
)
    requires
        entry_of(catalog, path) == Some(i),
        catalog[i].body == Some(body),
        0 <= k < body.events@.len(),
        body.events@[k] is Heading,
        place_of(body.events@[k]).start + body.offset <= usize::MAX,
        place_of(body.events@[k]).end + body.offset <= usize::MAX,
    ensures
        body.events@[k] matches BodyEvent::Heading { text, level, span } && exists|j: int|
            0 <= j < file_headings(catalog, path).len() && {
                let h = #[trigger] file_headings(catalog, path)[j];
                h.0 == trimmed(text@) && h.1 == level && h.2.start == span.start + body.offset
                    && h.2.end == span.end + body.offset
            },
{
    lemma_heading(body, body.events@.len() as int, k);
    let hs = file_headings(catalog, path);
    match body.events@[k] {
        BodyEvent::Heading { text, level, span } => {
            let want = (trimmed(text@), level, crate::navigation::lifted(span, body.offset));
            let j = choose|j: int| 0 <= j < hs.len() && hs[j] == want;
            assert(hs[j] == want);
        },
        _ => {},
    }
}

proof fn lemma_heading(body: MarkdownBody, n: int, k: int)
    requires
        0 <= k < n <= body.events@.len(),
        body.events@[k] is Heading,
    ensures
        body.events@[k] matches BodyEvent::Heading { text, level, span } && headings(
            body,
            n,
        ).contains((trimmed(text@), level, crate::navigation::lifted(span, body.offset))),
    decreases n,
{
    match body.events@[k] {
        BodyEvent::Heading { text, level, span } => {
            let h = (trimmed(text@), level, crate::navigation::lifted(span, body.offset));
            let before = headings(body, n - 1);
            let now = headings(body, n);
            if k < n - 1 {
                lemma_heading(body, n - 1, k);
                let j = choose|j: int| 0 <= j < before.len() && before[j] == h;
                assert(now[j] == h);
            } else {
                assert(now[before.len() as int] == h);
            }
        },
        _ => {},
    }
}

proof fn lemma_texts(items: Seq<Yaml>, n: int, k: int, s: String)
    requires
        0 <= k < n <= items.len(),
        items[k] == Yaml::Text(s),
    ensures
        yaml_texts(items, n).contains(s@),
    decreases n,
{
    let before = yaml_texts(items, n - 1);
    let now = yaml_texts(items, n);
    if k < n - 1 {
        lemma_texts(items, n - 1, k, s);
        let j = choose|j: int| 0 <= j < before.len() && before[j] == s@;
        assert(now[j] == s@);
    } else {
        assert(now[before.len() as int] == s@);
    }
}

proof fn lemma_claim_at(pairs: Seq<YamlPair>, i: int, k: int, key: String)
    requires
        0 <= i <= k < pairs.len(),
        pairs[k].key == Yaml::Text(key),
        key@ == "type"@,
        forall|j: int|
            #![trigger pairs[j]]
            i <= j < k ==> !(pairs[j].key matches Yaml::Text(t) && t@ == "type"@),
    ensures
        claim_from(pairs, i) == claim_texts(pairs[k].value),
    decreases k - i,
{
    if i < k {
        assert(!(pairs[i].key matches Yaml::Text(t) && t@ == "type"@));
        lemma_claim_at(pairs, i + 1, k, key);
    }
}

/// A typed block claims the name, or every name of the list, under the first `type` key of
/// its first document.
pub proof fn a_typed_block_claims_what_its_type_key_says(
    docs: Seq<Yaml>,
    pairs: Vec<YamlPair>,
    k: int,
    key: String,
)
    requires
        docs.len() > 0,
        docs[0] == Yaml::Mapping(pairs),
        0 <= k < pairs@.len(),
        pairs@[k].key == Yaml::Text(key),
        key@ == "type"@,
        forall|j: int|
            #![trigger pairs@[j]]
            0 <= j < k ==> !(pairs@[j].key matches Yaml::Text(t) && t@ == "type"@),
    ensures
        match pairs@[k].value {
            Yaml::Text(s) => block_claim(docs) == seq![s@],
            Yaml::List(items) => forall|j: int, s: String|
                #![trigger items@[j], s@]
                0 <= j < items@.len() && items@[j] == Yaml::Text(s) ==> block_claim(docs).contains(
                    s@,
                ),
            _ => block_claim(docs).len() == 0,
        },
{
    lemma_claim_at(pairs@, 0, k, key);
    if let Yaml::List(items) = pairs@[k].value {
        assert forall|j: int, s: String|
            #![trigger items@[j], s@]
            0 <= j < items@.len() && items@[j] == Yaml::Text(s) implies block_claim(docs).contains(
            s@,
        ) by {
            lemma_texts(items@, items@.len() as int, j, s);
        }
    }
}

/// A link that a commit pins is looked up nowhere, and one that names a place in its own file
/// leads to the file that it stands in.
pub proof fn a_pin_leads_nowhere_and_a_local_link_home(
    text: Seq<char>,
    w: LinkView,
    origin: Option<Seq<char>>,
)
    ensures
        w.commit is Some ==> navigation(text, Some(w), origin) == LookupView::Nothing,
        w.commit is None && w.target.len() == 0 && w.repo is None && (w.block_id is Some
            || w.anchor is Some) ==> match origin {
            Some(o) => navigation(text, Some(w), origin) == LookupView::Itself(o),
            None => navigation(text, Some(w), origin) == LookupView::Nothing,
        },
{
}

/// A kind of file goes by its own name.
pub proof fn a_kind_of_file_has_its_name(k: FileKind)
    ensures
        k is TypeDef ==> kind_label(k) == "type-def"@,
        k is Instance ==> kind_label(k) == "instance"@,
        k is RepoRegistry ==> kind_label(k) == "repo-registry"@,
        k is Workspace ==> kind_label(k) == "workspace"@,
        k is RepoLock ==> kind_label(k) == "repo-lock"@,
        k is Unclassified ==> kind_label(k) == "unclassified"@,
{
}

/// A block is listed as typed where it fills a field, with what it claims, and as a marker
/// otherwise; a record as a record, with its claim.
pub proof fn a_block_is_listed_as_what_it_is(e: BodyEvent, offset: usize, r: RecordEntry)
    ensures
        e matches BodyEvent::FencedBlock { block } ==> (block.trailing_block_id matches Some(id)
            ==> (body_entry(e, offset) matches Some(b) && b.id == id@ && (block.field is Some
            ==> b.kind == "typed_block"@ && b.type_claim == block_claim(block.docs@)) && (
        block.field is None ==> b.kind == "marker"@ && b.type_claim.len() == 0))),
        e matches BodyEvent::FencedBlock { block } ==> (block.trailing_block_id is None
            ==> body_entry(e, offset) is None),
        e matches BodyEvent::BlockIdMarker { id, span } ==> (body_entry(e, offset) matches Some(b)
            && b.id == id@ && b.kind == "marker"@ && b.type_claim.len() == 0 && b.span.start == (
        span.start + offset) as usize && b.span.end == (span.end + offset) as usize),
        e is Wikilink || e is Heading ==> body_entry(e, offset) is None,
        record_entry(r).id == r.id@,
        record_entry(r).kind == "record"@,
        record_entry(r).span == r.span,
        record_entry(r).type_claim.len() == r.claim@.len(),
{
}

} // verus!
