//! Where a link leads: the lookup that it asks for, and what the file at the end
//! of it holds.

use crate::ast::{ByteRange, ClaimedName, FileParse};
use crate::instances::{authored_name, authored_names};
use crate::json::{copy_json, json_opt_text, jv, text_or_null, Json, JsonView, ObjectBuilder};
use crate::model::{
    entry_of, find_entry, BodyEvent, CatalogEntry, FencedBlock, FileKind, MarkdownBody, Yaml,
};
use crate::mutation::links::{LinkView, WikilinkRef};
use crate::sorting::{in_rank, sort, sorted, Ranked};
use crate::text::{copy_opt, lemma_views_push, opt_view, same, trim_text, trimmed, views};
use vstd::prelude::*;

verus! {

/// Whether a link is pinned to a commit. Such a link names a place in a past that
/// does not change: it leads to no file of today and is never broken.
pub open spec fn inert_pin(w: LinkView) -> bool {
    w.commit is Some
}

/// Whether a link names a commit and no file.
pub open spec fn commit_referent(w: LinkView) -> bool {
    w.commit is Some && w.target.len() == 0
}

/// Whether a link names a place in its own file.
pub open spec fn local(w: LinkView) -> bool {
    w.target.len() == 0 && w.commit is None && (w.block_id is Some || w.anchor is Some)
}

impl WikilinkRef {
    pub fn is_inert_pin(&self) -> (r: bool)
        ensures
            r == inert_pin(self@),
    {
        self.commit.is_some()
    }

    pub fn is_commit_referent(&self) -> (r: bool)
        ensures
            r == commit_referent(self@),
    {
        proof {
            reveal_strlit("");
            assert(self.target@.len() == 0 ==> self.target@ =~= ""@);
        }
        self.commit.is_some() && same(self.target.as_str(), "")
    }

    pub fn is_local(&self) -> (r: bool)
        ensures
            r == local(self@),
    {
        proof {
            reveal_strlit("");
            assert(self.target@.len() == 0 ==> self.target@ =~= ""@);
        }
        same(self.target.as_str(), "") && self.commit.is_none() && (self.block_id.is_some()
            || self.anchor.is_some())
    }
}

/// Where a name is looked up.
#[derive(Debug)]
pub enum Lookup {
    /// Nowhere: the link leads to no file.
    Nothing,
    /// The file that the link stands in.
    Itself(String),
    /// Among the files of the repo that owns `origin`.
    Beside { origin: String, name: String },
    /// Among the files of another repo, as seen from `origin`.
    Across { origin: String, repo: String, name: String },
    /// Among the files of the named repo.
    InRepo { repo: String, name: String },
    /// Among the files of every repo.
    Anywhere(String),
}

/// The contents of a [`Lookup`].
pub enum LookupView {
    Nothing,
    Itself(Seq<char>),
    Beside { origin: Seq<char>, name: Seq<char> },
    Across { origin: Seq<char>, repo: Seq<char>, name: Seq<char> },
    InRepo { repo: Seq<char>, name: Seq<char> },
    Anywhere(Seq<char>),
}

impl View for Lookup {
    type V = LookupView;

    open spec fn view(&self) -> LookupView {
        match self {
            Lookup::Nothing => LookupView::Nothing,
            Lookup::Itself(p) => LookupView::Itself(p@),
            Lookup::Beside { origin, name } => LookupView::Beside {
                origin: origin@,
                name: name@,
            },
            Lookup::Across { origin, repo, name } => LookupView::Across {
                origin: origin@,
                repo: repo@,
                name: name@,
            },
            Lookup::InRepo { repo, name } => LookupView::InRepo { repo: repo@, name: name@ },
            Lookup::Anywhere(name) => LookupView::Anywhere(name@),
        }
    }
}

/// The lookup for a name, with or without a repo, as seen from a file.
pub open spec fn name_lookup(
    name: Seq<char>,
    repo: Option<Seq<char>>,
    origin: Option<Seq<char>>,
) -> LookupView {
    match (origin, repo) {
        (Some(o), Some(r)) => LookupView::Across { origin: o, repo: r, name },
        (Some(o), None) => LookupView::Beside { origin: o, name },
        (None, Some(r)) => LookupView::InRepo { repo: r, name },
        (None, None) => LookupView::Anywhere(name),
    }
}

/// The lookup for a target. `parsed` is the target taken apart; a text that is no
/// link is a name.
pub open spec fn navigation(
    target: Seq<char>,
    parsed: Option<LinkView>,
    origin: Option<Seq<char>>,
) -> LookupView {
    let is_local = match parsed {
        Some(w) => local(w) && w.repo is None,
        None => trimmed(target).len() == 0,
    };
    if parsed is Some && inert_pin(parsed->0) {
        LookupView::Nothing
    } else if is_local {
        match origin {
            Some(o) => LookupView::Itself(o),
            None => LookupView::Nothing,
        }
    } else {
        match parsed {
            Some(w) => name_lookup(w.target, w.repo, origin),
            None => name_lookup(target, None, origin),
        }
    }
}

pub open spec fn link_view(w: Option<WikilinkRef>) -> Option<LinkView> {
    match w {
        Some(x) => Some(x@),
        None => None,
    }
}

fn look_up(name: String, repo: Option<String>, origin: &Option<String>) -> (r: Lookup)
    ensures
        r@ == name_lookup(name@, opt_view(repo), opt_view(*origin)),
{
    match (copy_opt(origin), repo) {
        (Some(origin), Some(repo)) => Lookup::Across { origin, repo, name },
        (Some(origin), None) => Lookup::Beside { origin, name },
        (None, Some(repo)) => Lookup::InRepo { repo, name },
        (None, None) => Lookup::Anywhere(name),
    }
}

/// Decides where the target of a navigation read is looked up. A pinned target is
/// looked up nowhere, whatever else it carries; one that names a place in its own
/// file leads to that file; any other is looked up by name, from the file that it
/// stands in when that is known.
pub fn resolve_navigation_target(
    target: &str,
    parsed: &Option<WikilinkRef>,
    origin: &Option<String>,
) -> (r: Lookup)
    ensures
        r@ == navigation(target@, link_view(*parsed), opt_view(*origin)),
{
    match parsed {
        Some(w) => {
            if w.is_inert_pin() {
                return Lookup::Nothing;
            }
            if w.is_local() && w.repo.is_none() {
                return match origin {
                    Some(o) => Lookup::Itself(o.clone()),
                    None => Lookup::Nothing,
                };
            }
            look_up(w.target.clone(), copy_opt(&w.repo), origin)
        },
        None => {
            let kept = trim_text(target);
            proof {
                reveal_strlit("");
                assert(kept@.len() == 0 ==> kept@ =~= ""@);
            }
            if same(kept.as_str(), "") {
                return match origin {
                    Some(o) => Lookup::Itself(o.clone()),
                    None => Lookup::Nothing,
                };
            }
            look_up(target.to_owned(), None, origin)
        },
    }
}

/// A link that is pinned to a commit leads to no file, from wherever it is followed.
pub proof fn a_pin_leads_nowhere(
    target: Seq<char>,
    parsed: LinkView,
    origin: Option<Seq<char>>,
)
    requires
        inert_pin(parsed),
    ensures
        navigation(target, Some(parsed), origin) == LookupView::Nothing,
{
}

/// A link to a place in its own file leads to that file, without a lookup by name,
/// so that it cannot break.
pub proof fn a_local_link_stays_in_its_file(
    target: Seq<char>,
    parsed: LinkView,
    origin: Seq<char>,
)
    requires
        local(parsed),
        parsed.repo is None,
    ensures
        navigation(target, Some(parsed), Some(origin)) == LookupView::Itself(origin),
{
}

/// The wire name of what a file is by its path.
pub open spec fn kind_label(k: FileKind) -> Seq<char> {
    match k {
        FileKind::TypeDef => "type-def"@,
        FileKind::Instance => "instance"@,
        FileKind::RepoRegistry => "repo-registry"@,
        FileKind::Workspace => "workspace"@,
        FileKind::RepoLock => "repo-lock"@,
        FileKind::Unclassified => "unclassified"@,
    }
}

fn kind_name(k: FileKind) -> (r: &'static str)
    ensures
        r@ == kind_label(k),
{
    match k {
        FileKind::TypeDef => "type-def",
        FileKind::Instance => "instance",
        FileKind::RepoRegistry => "repo-registry",
        FileKind::Workspace => "workspace",
        FileKind::RepoLock => "repo-lock",
        FileKind::Unclassified => "unclassified",
    }
}

/// Whether the catalogued file at a path is a parsed type-def.
pub open spec fn defines_type(catalog: Seq<CatalogEntry>, path: Seq<char>) -> bool {
    match entry_of(catalog, path) {
        Some(i) => catalog[i].parse matches FileParse::TypeDef(Some(_)),
        None => false,
    }
}

/// What a target resolved to, on the wire: a type-def is opened where it is
/// defined, any other file at its path.
pub open spec fn target_json(catalog: Seq<CatalogEntry>, path: Seq<char>, source: JsonView) -> JsonView {
    let (kind, hash) = match entry_of(catalog, path) {
        Some(i) => (kind_label(catalog[i].kind), opt_view(catalog[i].hash)),
        None => ("unclassified"@, None),
    };
    JsonView::Object(
        seq![
            ("path"@, JsonView::Text(path)),
            ("kind"@, JsonView::Text(kind)),
            ("hash"@, text_or_null(hash)),
            (
                "source"@,
                if defines_type(catalog, path) {
                    source
                } else {
                    JsonView::Null
                },
            ),
        ],
    )
}

/// The answer to a `resolve_target` read for the path that the lookup found.
/// `source` is where the type-def at the path stands.
pub fn resolve_target_view(catalog: &Vec<CatalogEntry>, path: &Option<String>, source: &Json) -> (r:
    Json)
    ensures
        jv(r) == (match *path {
            Some(p) => target_json(catalog@, p@, jv(*source)),
            None => JsonView::Null,
        }),
{
    let path = match path {
        Some(p) => p,
        None => {
            return Json::Null;
        },
    };
    let at = find_entry(catalog, path.as_str());
    let mut kind: &'static str = "unclassified";
    let mut hash: Option<String> = None;
    let mut is_def = false;
    if let Some(i) = at {
        kind = kind_name(catalog[i].kind);
        hash = copy_opt(&catalog[i].hash);
        is_def = matches!(&catalog[i].parse, FileParse::TypeDef(Some(_)));
    }
    let mut b = ObjectBuilder::new();
    b.put_text("path", path.as_str());
    b.put_text("kind", kind);
    b.put("hash", json_opt_text(&hash));
    if is_def {
        b.put("source", copy_json(source));
    } else {
        b.put("source", Json::Null);
    }
    let ghost want = target_json(catalog@, path@, jv(*source));
    assert(b@ =~= want->Object_0);
    b.done()
}

/// The text of a YAML value that is one.
pub open spec fn yaml_text(y: Yaml) -> Option<Seq<char>> {
    match y {
        Yaml::Text(s) => Some(s@),
        _ => None,
    }
}

/// The texts among the first `n` values of a list.
pub open spec fn yaml_texts(items: Seq<Yaml>, n: int) -> Seq<Seq<char>>
    decreases n,
{
    if n <= 0 {
        Seq::empty()
    } else {
        match yaml_text(items[n - 1]) {
            Some(s) => yaml_texts(items, n - 1).push(s),
            None => yaml_texts(items, n - 1),
        }
    }
}

/// The names in a `type:` value.
pub open spec fn claim_texts(value: Yaml) -> Seq<Seq<char>> {
    match value {
        Yaml::Text(s) => seq![s@],
        Yaml::List(items) => yaml_texts(items@, items@.len() as int),
        _ => Seq::empty(),
    }
}

/// The names that the first `type` key claims, searching from `i` on.
pub open spec fn claim_from(pairs: Seq<crate::model::YamlPair>, i: int) -> Seq<Seq<char>>
    decreases pairs.len() - i,
{
    if i < 0 || i >= pairs.len() {
        Seq::empty()
    } else if yaml_text(pairs[i].key) == Some("type"@) {
        claim_texts(pairs[i].value)
    } else {
        claim_from(pairs, i + 1)
    }
}

/// The names that a typed block claims: those under the `type` key of its first
/// document, when that is a mapping.
pub open spec fn block_claim(docs: Seq<Yaml>) -> Seq<Seq<char>> {
    if docs.len() == 0 {
        Seq::empty()
    } else {
        match docs[0] {
            Yaml::Mapping(pairs) => claim_from(pairs@, 0),
            _ => Seq::empty(),
        }
    }
}

fn claim_value(value: &Yaml) -> (r: Vec<String>)
    ensures
        views(r@) == claim_texts(*value),
{
    let mut out: Vec<String> = Vec::new();
    match value {
        Yaml::Text(s) => {
            out.push(s.clone());
            assert(views(out@) =~= seq![s@]);
        },
        Yaml::List(items) => {
            assert(views(out@) =~= Seq::empty());
            for i in 0..items.len()
                invariant
                    views(out@) == yaml_texts(items@, i as int),
            {
                if let Yaml::Text(s) = &items[i] {
                    let name = s.clone();
                    proof {
                        lemma_views_push(out@, name);
                    }
                    out.push(name);
                }
            }
        },
        _ => {
            assert(views(out@) =~= Seq::empty());
        },
    }
    out
}

/// The names that a typed block claims.
pub fn block_type_claim(docs: &Vec<Yaml>) -> (r: Vec<String>)
    ensures
        views(r@) == block_claim(docs@),
{
    if docs.len() > 0 {
        if let Yaml::Mapping(pairs) = &docs[0] {
            for i in 0..pairs.len()
                invariant
                    docs@.len() > 0,
                    docs@[0] == Yaml::Mapping(*pairs),
                    claim_from(pairs@, 0) == claim_from(pairs@, i as int),
            {
                if let Yaml::Text(key) = &pairs[i].key {
                    if same(key.as_str(), "type") {
                        return claim_value(&pairs[i].value);
                    }
                }
            }
        }
    }
    let none: Vec<String> = Vec::new();
    assert(views(none@) =~= Seq::empty());
    none
}

/// An inline record with an id.
#[derive(Debug)]
pub struct RecordEntry {
    pub id: String,
    /// The names that the record claims, written out or pinned by its slot.
    pub claim: Vec<ClaimedName>,
    pub span: ByteRange,
}

/// A place in a file that an id reaches.
#[derive(Debug)]
pub struct BlockEntry {
    pub id: String,
    /// `record`, `typed_block` or `marker`.
    pub kind: &'static str,
    pub type_claim: Vec<String>,
    pub span: ByteRange,
}

/// The contents of a [`BlockEntry`].
pub struct BlockEntryView {
    pub id: Seq<char>,
    pub kind: Seq<char>,
    pub type_claim: Seq<Seq<char>>,
    pub span: ByteRange,
}

impl View for BlockEntry {
    type V = BlockEntryView;

    open spec fn view(&self) -> BlockEntryView {
        BlockEntryView {
            id: self.id@,
            kind: self.kind@,
            type_claim: views(self.type_claim@),
            span: self.span,
        }
    }
}

pub open spec fn entry_views(v: Seq<BlockEntry>) -> Seq<BlockEntryView> {
    v.map_values(|e: BlockEntry| e@)
}

/// A span of a body as a span of the file.
pub open spec fn lifted(span: ByteRange, offset: usize) -> ByteRange {
    ByteRange { start: (span.start + offset) as usize, end: (span.end + offset) as usize }
}

/// The span of something in a body.
pub open spec fn event_span(e: BodyEvent) -> ByteRange {
    match e {
        BodyEvent::Wikilink { span, .. } => span,
        BodyEvent::BlockIdMarker { span, .. } => span,
        BodyEvent::FencedBlock { block } => block.span,
        BodyEvent::Heading { span, .. } => span,
    }
}

/// Whether the body ends before the offsets of its file run out.
pub open spec fn body_fits(body: MarkdownBody) -> bool {
    forall|i: int|
        #![trigger body.events@[i]]
        0 <= i < body.events@.len() ==> event_span(body.events@[i]).start + body.offset <= usize::MAX
            && event_span(body.events@[i]).end + body.offset <= usize::MAX
}

pub open spec fn opt_body_fits(body: Option<MarkdownBody>) -> bool {
    body matches Some(b) ==> body_fits(b)
}

/// The bytes of a body element in its file.
pub fn span_in_body(span: ByteRange, offset: usize) -> (r: ByteRange)
    requires
        span.start + offset <= usize::MAX,
        span.end + offset <= usize::MAX,
    ensures
        r == lifted(span, offset),
{
    ByteRange { start: span.start + offset, end: span.end + offset }
}

/// What an id in a body reaches: a typed fence, or a marker.
pub open spec fn body_entry(e: BodyEvent, offset: usize) -> Option<BlockEntryView> {
    match e {
        BodyEvent::FencedBlock { block } => match block.trailing_block_id {
            Some(id) => Some(
                BlockEntryView {
                    id: id@,
                    kind: if block.field is Some {
                        "typed_block"@
                    } else {
                        "marker"@
                    },
                    type_claim: if block.field is Some {
                        block_claim(block.docs@)
                    } else {
                        Seq::empty()
                    },
                    span: lifted(block.span, offset),
                },
            ),
            None => None,
        },
        BodyEvent::BlockIdMarker { id, span } => Some(
            BlockEntryView {
                id: id@,
                kind: "marker"@,
                type_claim: Seq::empty(),
                span: lifted(span, offset),
            },
        ),
        _ => None,
    }
}

pub open spec fn entry_view(e: Option<BlockEntry>) -> Option<BlockEntryView> {
    match e {
        Some(x) => Some(x@),
        None => None,
    }
}

fn make_body_entry(e: &BodyEvent, offset: usize) -> (r: Option<BlockEntry>)
    requires
        event_span(*e).start + offset <= usize::MAX,
        event_span(*e).end + offset <= usize::MAX,
    ensures
        entry_view(r) == body_entry(*e, offset),
{
    match e {
        BodyEvent::FencedBlock { block } => match &block.trailing_block_id {
            Some(id) => {
                let typed = block.field.is_some();
                let type_claim: Vec<String> = if typed {
                    block_type_claim(&block.docs)
                } else {
                    Vec::new()
                };
                assert(!typed ==> views(type_claim@) =~= Seq::empty());
                Some(
                    BlockEntry {
                        id: id.clone(),
                        kind: if typed {
                            "typed_block"
                        } else {
                            "marker"
                        },
                        type_claim,
                        span: span_in_body(block.span, offset),
                    },
                )
            },
            None => None,
        },
        BodyEvent::BlockIdMarker { id, span } => {
            let type_claim: Vec<String> = Vec::new();
            assert(views(type_claim@) =~= Seq::empty());
            Some(
                BlockEntry {
                    id: id.clone(),
                    kind: "marker",
                    type_claim,
                    span: span_in_body(*span, offset),
                },
            )
        },
        _ => None,
    }
}

pub open spec fn record_entry(r: RecordEntry) -> BlockEntryView {
    BlockEntryView {
        id: r.id@,
        kind: "record"@,
        type_claim: authored_names(r.claim@),
        span: r.span,
    }
}

fn make_record_entry(x: &RecordEntry) -> (r: BlockEntry)
    ensures
        r@ == record_entry(*x),
{
    let mut names: Vec<String> = Vec::new();
    let ghost all = authored_names(x.claim@);
    assert(views(names@) =~= all.take(0));
    for i in 0..x.claim.len()
        invariant
            all == authored_names(x.claim@),
            views(names@) == all.take(i as int),
    {
        let name = authored_name(&x.claim[i]);
        proof {
            lemma_views_push(names@, name);
        }
        names.push(name);
        assert(views(names@) =~= all.take(i + 1));
    }
    assert(all.take(all.len() as int) =~= all);
    BlockEntry { id: x.id.clone(), kind: "record", type_claim: names, span: x.span }
}

/// The first place in a body that an id reaches, searching from `i` on.
pub open spec fn first_in_body(body: MarkdownBody, id: Seq<char>, i: int) -> Option<BlockEntryView>
    decreases body.events@.len() - i,
{
    if i < 0 || i >= body.events@.len() {
        None
    } else {
        match body_entry(body.events@[i], body.offset) {
            Some(e) => if e.id == id {
                Some(e)
            } else {
                first_in_body(body, id, i + 1)
            },
            None => first_in_body(body, id, i + 1),
        }
    }
}

/// Whether the catalogued file is a parsed instance.
pub open spec fn parsed_instance(entry: CatalogEntry) -> bool {
    entry.parse matches FileParse::Instance(Some(_))
}

fn is_parsed_instance(entry: &CatalogEntry) -> (r: bool)
    ensures
        r == parsed_instance(*entry),
{
    matches!(&entry.parse, FileParse::Instance(Some(_)))
}

/// What an id reaches in a file: the record of an instance comes first, then the
/// body in its order.
pub open spec fn block_at(
    catalog: Seq<CatalogEntry>,
    path: Seq<char>,
    id: Seq<char>,
    record: Option<RecordEntry>,
) -> Option<BlockEntryView> {
    match entry_of(catalog, path) {
        Some(i) => if parsed_instance(catalog[i]) && record is Some {
            Some(record_entry(record->0))
        } else {
            match catalog[i].body {
                Some(body) => first_in_body(body, id, 0),
                None => None,
            }
        },
        None => None,
    }
}

/// Whether the bodies of all files end before their offsets run out.
pub open spec fn bodies_fit(catalog: Seq<CatalogEntry>) -> bool {
    forall|i: int| #![trigger catalog[i]] 0 <= i < catalog.len() ==> opt_body_fits(catalog[i].body)
}

/// Finds what an id reaches in the file at `path`. `record` is the record of the
/// file with this id.
pub fn resolve_block_id_view(
    catalog: &Vec<CatalogEntry>,
    path: &str,
    id: &str,
    record: &Option<RecordEntry>,
) -> (r: Option<BlockEntry>)
    requires
        bodies_fit(catalog@),
    ensures
        entry_view(r) == block_at(catalog@, path@, id@, *record),
{
    let at = match find_entry(catalog, path) {
        Some(i) => i,
        None => {
            return None;
        },
    };
    if is_parsed_instance(&catalog[at]) {
        if let Some(x) = record {
            return Some(make_record_entry(x));
        }
    }
    let ghost entry = catalog@[at as int];
    assert(opt_body_fits(entry.body));
    match &catalog[at].body {
        Some(body) => {
            for i in 0..body.events.len()
                invariant
                    entry == catalog@[at as int],
                    entry.body == Some(*body),
                    entry_of(catalog@, path@) == Some(at as int),
                    !(parsed_instance(entry) && *record is Some),
                    body_fits(*body),
                    first_in_body(*body, id@, 0) == first_in_body(*body, id@, i as int),
            {
                assert(event_span(body.events@[i as int]).start + body.offset <= usize::MAX);
                if let Some(e) = make_body_entry(&body.events[i], body.offset) {
                    if same(e.id.as_str(), id) {
                        return Some(e);
                    }
                }
            }
            None
        },
        None => None,
    }
}

/// Entries are ordered by where they begin.
impl Ranked for BlockEntry {
    open spec fn rank_le(&self, other: &Self) -> bool {
        self.span.start <= other.span.start
    }

    fn at_most(&self, other: &Self) -> (r: bool) {
        self.span.start <= other.span.start
    }

    proof fn rank_total(a: &Self, b: &Self) {
    }

    proof fn rank_transitive(a: &Self, b: &Self, c: &Self) {
    }
}

/// The records of a file.
pub open spec fn record_entries(records: Seq<RecordEntry>) -> Seq<BlockEntryView> {
    Seq::new(records.len(), |i: int| record_entry(records[i]))
}

/// The places among the first `n` elements of a body that an id reaches.
pub open spec fn body_entries(body: MarkdownBody, n: int) -> Seq<BlockEntryView>
    decreases n,
{
    if n <= 0 {
        Seq::empty()
    } else {
        match body_entry(body.events@[n - 1], body.offset) {
            Some(e) => body_entries(body, n - 1).push(e),
            None => body_entries(body, n - 1),
        }
    }
}

/// Every place of a file that an id reaches, a repeated id at each of its places:
/// the records of an instance, then the body.
pub open spec fn occurrences(
    catalog: Seq<CatalogEntry>,
    path: Seq<char>,
    records: Seq<RecordEntry>,
) -> Seq<BlockEntryView> {
    match entry_of(catalog, path) {
        Some(i) => {
            let front = if parsed_instance(catalog[i]) {
                record_entries(records)
            } else {
                Seq::empty()
            };
            match catalog[i].body {
                Some(body) => front + body_entries(body, body.events@.len() as int),
                None => front,
            }
        },
        None => Seq::empty(),
    }
}

/// Lists the ids of the file at `path`, in the order of the file. `records` are the
/// inline records of the file with an id.
pub fn block_ids_view(
    catalog: &Vec<CatalogEntry>,
    path: &str,
    records: &Vec<RecordEntry>,
) -> (r: Vec<BlockEntry>)
    requires
        bodies_fit(catalog@),
    ensures
        exists|listed: Seq<BlockEntry>|
            entry_views(listed) == occurrences(catalog@, path@, records@) && r@ == #[trigger] in_rank(
                listed,
            ),
        sorted(r@),
{
    let mut out: Vec<BlockEntry> = Vec::new();
    assert(entry_views(out@) =~= Seq::empty());
    if let Some(at) = find_entry(catalog, path) {
        let ghost entry = catalog@[at as int];
        assert(opt_body_fits(entry.body));
        if is_parsed_instance(&catalog[at]) {
            let ghost all = record_entries(records@);
            assert(entry_views(out@) =~= all.take(0));
            for i in 0..records.len()
                invariant
                    all == record_entries(records@),
                    entry_views(out@) == all.take(i as int),
            {
                let e = make_record_entry(&records[i]);
                let ghost before = out@;
                out.push(e);
                assert(entry_views(out@) =~= entry_views(before).push(e@));
                assert(entry_views(out@) =~= all.take(i + 1));
            }
            assert(all.take(all.len() as int) =~= all);
        }
        let ghost front = entry_views(out@);
        if let Some(body) = &catalog[at].body {
            assert(entry_views(out@) =~= front + body_entries(*body, 0));
            for i in 0..body.events.len()
                invariant
                    entry.body == Some(*body),
                    body_fits(*body),
                    entry_views(out@) == front + body_entries(*body, i as int),
            {
                assert(event_span(body.events@[i as int]).start + body.offset <= usize::MAX);
                if let Some(e) = make_body_entry(&body.events[i], body.offset) {
                    let ghost before = out@;
                    out.push(e);
                    assert(entry_views(out@) =~= entry_views(before).push(e@));
                    assert(entry_views(out@) =~= front + body_entries(*body, i + 1));
                }
            }
        }
    }
    let ghost listed = out@;
    sort(out)
}

/// The listing tells every id that can be resolved in a body.
pub proof fn what_resolves_is_listed(body: MarkdownBody, id: Seq<char>, i: int)
    requires
        0 <= i <= body.events@.len(),
        first_in_body(body, id, i) is Some,
    ensures
        body_entries(body, body.events@.len() as int).contains(first_in_body(body, id, i)->0),
    decreases body.events@.len() - i,
{
    if i < body.events@.len() {
        match body_entry(body.events@[i], body.offset) {
            Some(e) => if e.id == id {
                lemma_entry_listed(body, i, body.events@.len() as int);
            } else {
                what_resolves_is_listed(body, id, i + 1);
            },
            None => what_resolves_is_listed(body, id, i + 1),
        }
    }
}

proof fn lemma_entry_listed(body: MarkdownBody, i: int, n: int)
    requires
        0 <= i < n <= body.events@.len(),
        body_entry(body.events@[i], body.offset) is Some,
    ensures
        body_entries(body, n).contains(body_entry(body.events@[i], body.offset)->0),
    decreases n,
{
    let e = body_entry(body.events@[i], body.offset)->0;
    let now = body_entries(body, n);
    if i == n - 1 {
        assert(now.last() == e);
    } else {
        lemma_entry_listed(body, i, n - 1);
        let before = body_entries(body, n - 1);
        let k = before.index_of(e);
        assert(now[k] == e);
    }
}

/// A heading of a file.
#[derive(Debug)]
pub struct AnchorEntry {
    pub text: String,
    pub level: u8,
    pub span: ByteRange,
}

pub open spec fn anchor_view(a: AnchorEntry) -> (Seq<char>, u8, ByteRange) {
    (a.text@, a.level, a.span)
}

pub open spec fn anchor_views(v: Seq<AnchorEntry>) -> Seq<(Seq<char>, u8, ByteRange)> {
    v.map_values(|a: AnchorEntry| anchor_view(a))
}

/// The headings among the first `n` elements of a body, without the white space
/// around their texts.
pub open spec fn headings(body: MarkdownBody, n: int) -> Seq<(Seq<char>, u8, ByteRange)>
    decreases n,
{
    if n <= 0 {
        Seq::empty()
    } else {
        match body.events@[n - 1] {
            BodyEvent::Heading { text, level, span } => headings(body, n - 1).push(
                (trimmed(text@), level, lifted(span, body.offset)),
            ),
            _ => headings(body, n - 1),
        }
    }
}

/// The headings of a file; none for a file without a body.
pub open spec fn file_headings(catalog: Seq<CatalogEntry>, path: Seq<char>) -> Seq<
    (Seq<char>, u8, ByteRange),
> {
    match entry_of(catalog, path) {
        Some(i) => match catalog[i].body {
            Some(body) => headings(body, body.events@.len() as int),
            None => Seq::empty(),
        },
        None => Seq::empty(),
    }
}

/// Lists the headings of the file at `path`.
pub fn anchors_view(catalog: &Vec<CatalogEntry>, path: &str) -> (r: Vec<AnchorEntry>)
    requires
        bodies_fit(catalog@),
    ensures
        anchor_views(r@) == file_headings(catalog@, path@),
{
    let mut out: Vec<AnchorEntry> = Vec::new();
    assert(anchor_views(out@) =~= Seq::empty());
    if let Some(at) = find_entry(catalog, path) {
        let ghost entry = catalog@[at as int];
        assert(opt_body_fits(entry.body));
        if let Some(body) = &catalog[at].body {
            for i in 0..body.events.len()
                invariant
                    entry.body == Some(*body),
                    body_fits(*body),
                    anchor_views(out@) == headings(*body, i as int),
            {
                assert(event_span(body.events@[i as int]).start + body.offset <= usize::MAX);
                if let BodyEvent::Heading { text, level, span } = &body.events[i] {
                    let a = AnchorEntry {
                        text: trim_text(text.as_str()),
                        level: *level,
                        span: span_in_body(*span, body.offset),
                    };
                    let ghost before = out@;
                    out.push(a);
                    assert(anchor_views(out@) =~= anchor_views(before).push(anchor_view(a)));
                }
            }
        }
    }
    out
}

/// Where a heading of a file stands. `found` is the heading of the body that the
/// anchor names; a file without a body has none.
pub fn resolve_anchor_view(
    catalog: &Vec<CatalogEntry>,
    path: &str,
    found: Option<ByteRange>,
) -> (r: Option<ByteRange>)
    requires
        entry_of(catalog@, path@) matches Some(i) ==> (catalog@[i].body matches Some(b) ==> (
        found matches Some(s) ==> s.start + b.offset <= usize::MAX && s.end + b.offset
            <= usize::MAX)),
    ensures
        r == (match entry_of(catalog@, path@) {
            Some(i) => match (catalog@[i].body, found) {
                (Some(b), Some(s)) => Some(lifted(s, b.offset)),
                _ => None,
            },
            None => None,
        }),
{
    match find_entry(catalog, path) {
        Some(i) => match (&catalog[i].body, found) {
            (Some(b), Some(s)) => Some(span_in_body(s, b.offset)),
            _ => None,
        },
        None => None,
    }
}

} // verus!
