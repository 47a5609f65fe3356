//! The semantic tokens of a file: which of its ranges mean what.

use crate::ast::{
    claim_items, ByteRange, ClaimedName, FieldDef, FileParse, InlineValue, Instance, InstanceField,
    InstanceValue, NavLink, SequenceElement, TypeClaim, TypeDef,
};
use crate::instances::{authored, authored_name};
use crate::json::{copy_json, jv, opt_jv, Json, JsonView};
use crate::model::{BodyEvent, CatalogEntry, FencedBlock, MarkdownBody};
use crate::mutation::links::{LinkView, WikilinkRef};
use crate::mutation::promote::RecordTarget;
use crate::navigation::{body_fits, event_span, inert_pin, lifted, local, span_in_body};
use crate::sorting::{in_rank, sort, sorted, Ranked};
use crate::text::{byte_len, bytes_in, copy_opt, opt_view, same, views};
use vstd::prelude::*;

verus! {

/// The type that colours a value.
#[derive(Debug)]
pub enum ValueType {
    /// The declared shape, as it is served.
    Declared(Json),
    /// The primitive that the literal is, where no shape is declared.
    Literal(&'static str),
}

/// What a range of a file means.
#[derive(Debug)]
pub enum TokenKind {
    WikilinkResolved { target: String, repo: Option<String>, resolved: String },
    WikilinkBroken { target: String, repo: Option<String> },
    WikilinkPinned { target: String, repo: Option<String>, commit: String },
    FieldValue { field: String, value_type: ValueType },
    TypeClaim { name: String },
    TypedBlock { field: String },
    BlockId { id: String },
    Anchor { text: String },
    FieldShape { field: String, declared: Option<Json> },
    TypeRef { name: String },
    ShapeBuiltin { name: String },
    EnumMember { value: String },
}

/// A range of a file with its meaning.
#[derive(Debug)]
pub struct Token {
    pub range: ByteRange,
    pub kind: TokenKind,
}

/// The contents of a [`ValueType`].
pub enum ValueTypeView {
    Declared(JsonView),
    Literal(Seq<char>),
}

/// The contents of a [`TokenKind`].
pub enum KindView {
    WikilinkResolved { target: Seq<char>, repo: Option<Seq<char>>, resolved: Seq<char> },
    WikilinkBroken { target: Seq<char>, repo: Option<Seq<char>> },
    WikilinkPinned { target: Seq<char>, repo: Option<Seq<char>>, commit: Seq<char> },
    FieldValue { field: Seq<char>, value_type: ValueTypeView },
    TypeClaim { name: Seq<char> },
    TypedBlock { field: Seq<char> },
    BlockId { id: Seq<char> },
    Anchor { text: Seq<char> },
    FieldShape { field: Seq<char>, declared: Option<JsonView> },
    TypeRef { name: Seq<char> },
    ShapeBuiltin { name: Seq<char> },
    EnumMember { value: Seq<char> },
}

/// The contents of a [`Token`].
pub struct TokenView {
    pub range: ByteRange,
    pub kind: KindView,
}

impl View for TokenKind {
    type V = KindView;

    open spec fn view(&self) -> KindView {
        match self {
            TokenKind::WikilinkResolved { target, repo, resolved } => KindView::WikilinkResolved {
                target: target@,
                repo: opt_view(*repo),
                resolved: resolved@,
            },
            TokenKind::WikilinkBroken { target, repo } => KindView::WikilinkBroken {
                target: target@,
                repo: opt_view(*repo),
            },
            TokenKind::WikilinkPinned { target, repo, commit } => KindView::WikilinkPinned {
                target: target@,
                repo: opt_view(*repo),
                commit: commit@,
            },
            TokenKind::FieldValue { field, value_type } => KindView::FieldValue {
                field: field@,
                value_type: match value_type {
                    ValueType::Declared(j) => ValueTypeView::Declared(jv(*j)),
                    ValueType::Literal(s) => ValueTypeView::Literal(s@),
                },
            },
            TokenKind::TypeClaim { name } => KindView::TypeClaim { name: name@ },
            TokenKind::TypedBlock { field } => KindView::TypedBlock { field: field@ },
            TokenKind::BlockId { id } => KindView::BlockId { id: id@ },
            TokenKind::Anchor { text } => KindView::Anchor { text: text@ },
            TokenKind::FieldShape { field, declared } => KindView::FieldShape {
                field: field@,
                declared: opt_jv(*declared),
            },
            TokenKind::TypeRef { name } => KindView::TypeRef { name: name@ },
            TokenKind::ShapeBuiltin { name } => KindView::ShapeBuiltin { name: name@ },
            TokenKind::EnumMember { value } => KindView::EnumMember { value: value@ },
        }
    }
}

impl View for Token {
    type V = TokenView;

    open spec fn view(&self) -> TokenView {
        TokenView { range: self.range, kind: self.kind@ }
    }
}

pub open spec fn token_views(v: Seq<Token>) -> Seq<TokenView> {
    v.map_values(|t: Token| t@)
}

/// Adds a token.
fn emit(out: &mut Vec<Token>, range: ByteRange, kind: TokenKind)
    ensures
        token_views(final(out)@) == token_views(old(out)@).push(TokenView { range, kind: kind@ }),
{
    let ghost before = out@;
    out.push(Token { range, kind });
    assert(token_views(out@) =~= token_views(before).push(TokenView { range, kind: kind@ }));
}

/// A link that occurs in a file: what it says, if it is one, and the file that it
/// leads to.
#[derive(Debug)]
pub struct LinkFact {
    pub raw: String,
    pub parsed: Option<WikilinkRef>,
    pub resolved: Option<String>,
}

/// The form of a declared shape, as far as values are read by it.
#[derive(Debug)]
pub enum ShapeForm {
    /// A record of the named type.
    Record(String),
    /// A record of the named type, or a reference to one.
    InlineOrReference(String),
    List(Box<SlotShape>),
    Other,
}

/// The declared shape of a field.
#[derive(Debug)]
pub struct SlotShape {
    pub form: ShapeForm,
    /// The shape as it is served.
    pub served: Json,
}

/// A field of an effective shape. A shape that did not parse declares nothing.
#[derive(Debug)]
pub struct SlotField {
    pub name: String,
    pub shape: Option<SlotShape>,
}

/// The effective shape of the types with these names.
#[derive(Debug)]
pub struct NamedShape {
    pub names: Vec<String>,
    pub fields: Vec<SlotField>,
}

/// What is known of the links and the types that a file names.
#[derive(Debug)]
pub struct TokenFacts {
    /// The values that are links as a whole.
    pub whole: Vec<LinkFact>,
    /// The links inside texts, by what stands between their brackets.
    pub inner: Vec<LinkFact>,
    pub shapes: Vec<NamedShape>,
}

/// The link with this text, searching from `i` on.
pub open spec fn link_from(links: Seq<LinkFact>, raw: Seq<char>, i: int) -> Option<LinkFact>
    decreases links.len() - i,
{
    if i < 0 || i >= links.len() {
        None
    } else if links[i].raw@ == raw {
        if links[i].parsed is Some {
            Some(links[i])
        } else {
            None
        }
    } else {
        link_from(links, raw, i + 1)
    }
}

fn find_link<'a>(links: &'a Vec<LinkFact>, raw: &str) -> (r: Option<&'a LinkFact>)
    ensures
        match r {
            Some(f) => link_from(links@, raw@, 0) == Some(*f) && f.parsed is Some,
            None => link_from(links@, raw@, 0) is None,
        },
{
    for i in 0..links.len()
        invariant
            link_from(links@, raw@, 0) == link_from(links@, raw@, i as int),
    {
        if same(links[i].raw.as_str(), raw) {
            if links[i].parsed.is_some() {
                return Some(&links[i]);
            } else {
                return None;
            }
        }
    }
    None
}

/// The meaning of a link: pinned to a commit, leading to a file, or broken. A link
/// to a place in its own file always leads there.
pub open spec fn link_kind(source: Seq<char>, w: LinkView, resolved: Option<Seq<char>>) -> KindView {
    if inert_pin(w) {
        KindView::WikilinkPinned { target: w.target, repo: w.repo, commit: w.commit->0 }
    } else if local(w) && w.repo is None {
        KindView::WikilinkResolved { target: w.target, repo: w.repo, resolved: source }
    } else {
        match resolved {
            Some(p) => KindView::WikilinkResolved { target: w.target, repo: w.repo, resolved: p },
            None => KindView::WikilinkBroken { target: w.target, repo: w.repo },
        }
    }
}

/// Decides the meaning of a link.
pub fn wikilink_kind(source: &str, w: &WikilinkRef, resolved: &Option<String>) -> (r: TokenKind)
    ensures
        r@ == link_kind(source@, w@, opt_view(*resolved)),
{
    if w.is_inert_pin() {
        let commit = match &w.commit {
            Some(c) => c.clone(),
            None => String::new(),
        };
        return TokenKind::WikilinkPinned {
            target: w.target.clone(),
            repo: copy_opt(&w.repo),
            commit,
        };
    }
    if w.is_local() && w.repo.is_none() {
        return TokenKind::WikilinkResolved {
            target: w.target.clone(),
            repo: copy_opt(&w.repo),
            resolved: source.to_owned(),
        };
    }
    match resolved {
        Some(p) => TokenKind::WikilinkResolved {
            target: w.target.clone(),
            repo: copy_opt(&w.repo),
            resolved: p.clone(),
        },
        None => TokenKind::WikilinkBroken { target: w.target.clone(), repo: copy_opt(&w.repo) },
    }
}

/// A pin is neither resolved nor broken, whatever a lookup by its name would find.
pub proof fn a_pin_is_its_own_kind(source: Seq<char>, w: LinkView, resolved: Option<Seq<char>>)
    requires
        inert_pin(w),
    ensures
        link_kind(source, w, resolved) matches KindView::WikilinkPinned { .. },
{
}

pub open spec fn link_fact_kind(source: Seq<char>, f: LinkFact) -> KindView {
    link_kind(source, f.parsed->0@, opt_view(f.resolved))
}

fn emit_link(out: &mut Vec<Token>, range: ByteRange, source: &str, f: &LinkFact)
    requires
        f.parsed is Some,
    ensures
        token_views(final(out)@) == token_views(old(out)@).push(
            TokenView { range, kind: link_fact_kind(source@, *f) },
        ),
{
    if let Some(w) = &f.parsed {
        emit(out, range, wikilink_kind(source, w, &f.resolved));
    }
}

/// The field with this name, searching from `i` on.
pub open spec fn field_shape(fields: Seq<SlotField>, key: Seq<char>, i: int) -> Option<SlotShape>
    decreases fields.len() - i,
{
    if i < 0 || i >= fields.len() {
        None
    } else if fields[i].name@ == key {
        fields[i].shape
    } else {
        field_shape(fields, key, i + 1)
    }
}

pub open spec fn shape_at(s: Option<&SlotShape>) -> Option<SlotShape> {
    match s {
        Some(x) => Some(*x),
        None => None,
    }
}

fn find_field_shape<'a>(fields: &'a Vec<SlotField>, key: &str) -> (r: Option<&'a SlotShape>)
    ensures
        shape_at(r) == field_shape(fields@, key@, 0),
{
    for i in 0..fields.len()
        invariant
            field_shape(fields@, key@, 0) == field_shape(fields@, key@, i as int),
    {
        if same(fields[i].name.as_str(), key) {
            return match &fields[i].shape {
                Some(s) => Some(s),
                None => None,
            };
        }
    }
    None
}

/// The effective shape of the types with these names, searching from `i` on.
pub open spec fn shape_from(shapes: Seq<NamedShape>, names: Seq<Seq<char>>, i: int) -> Option<
    Seq<SlotField>,
>
    decreases shapes.len() - i,
{
    if i < 0 || i >= shapes.len() {
        None
    } else if views(shapes[i].names@) == names {
        Some(shapes[i].fields@)
    } else {
        shape_from(shapes, names, i + 1)
    }
}

fn same_names(a: &Vec<String>, b: &Vec<String>) -> (r: bool)
    ensures
        r == (views(a@) == views(b@)),
{
    assert(views(a@).len() == a@.len() && views(b@).len() == b@.len());
    if a.len() != b.len() {
        return false;
    }
    for i in 0..a.len()
        invariant
            a@.len() == b@.len(),
            forall|k: int| #![trigger a@[k]] 0 <= k < i ==> a@[k]@ == b@[k]@,
    {
        if !same(a[i].as_str(), b[i].as_str()) {
            assert(views(a@)[i as int] != views(b@)[i as int]);
            return false;
        }
    }
    assert(views(a@) =~= views(b@));
    true
}

pub open spec fn fields_at(f: Option<&Vec<SlotField>>) -> Option<Seq<SlotField>> {
    match f {
        Some(x) => Some(x@),
        None => None,
    }
}

fn find_shape<'a>(shapes: &'a Vec<NamedShape>, names: &Vec<String>) -> (r: Option<
    &'a Vec<SlotField>,
>)
    ensures
        fields_at(r) == shape_from(shapes@, views(names@), 0),
{
    for i in 0..shapes.len()
        invariant
            shape_from(shapes@, views(names@), 0) == shape_from(shapes@, views(names@), i as int),
    {
        if same_names(&shapes[i].names, names) {
            return Some(&shapes[i].fields);
        }
    }
    None
}

/// The bare names of a claim.
pub open spec fn bare_names(items: Seq<ClaimedName>) -> Seq<Seq<char>> {
    Seq::new(items.len(), |i: int| items[i].name@)
}

/// The type that a slot gives to a record that claims none.
pub open spec fn pinned_name(shape: SlotShape) -> Option<Seq<char>> {
    match shape.form {
        ShapeForm::Record(name) => Some(name@),
        ShapeForm::InlineOrReference(name) => Some(name@),
        _ => None,
    }
}

/// The names of the types of a record: those that it claims, else the one that its
/// slot gives it.
pub open spec fn record_names(inline: InlineValue, slot: Option<SlotShape>) -> Option<Seq<Seq<char>>> {
    match inline.type_claim {
        Some(claim) => Some(bare_names(claim_items(claim))),
        None => match slot {
            Some(s) => match pinned_name(s) {
                Some(name) => Some(seq![name]),
                None => None,
            },
            None => None,
        },
    }
}

/// The effective shape of a record; none when nothing says its type, or its type
/// does not resolve.
pub open spec fn record_shape(facts: TokenFacts, inline: InlineValue, slot: Option<SlotShape>) -> Option<
    Seq<SlotField>,
> {
    match record_names(inline, slot) {
        Some(names) => shape_from(facts.shapes@, names, 0),
        None => None,
    }
}

fn claim_names(claim: &TypeClaim) -> (r: Vec<String>)
    ensures
        views(r@) == bare_names(claim_items(*claim)),
{
    let mut out: Vec<String> = Vec::new();
    match claim {
        TypeClaim::Bare(c) => {
            out.push(c.name.clone());
        },
        TypeClaim::List(items) => {
            for i in 0..items.len()
                invariant
                    out@.len() == i,
                    forall|k: int| #![trigger out@[k]] 0 <= k < i ==> out@[k] == items@[k].name,
            {
                out.push(items[i].name.clone());
            }
        },
    }
    assert(views(out@) =~= bare_names(claim_items(*claim)));
    out
}

fn record_effective_shape<'a>(
    facts: &'a TokenFacts,
    inline: &InlineValue,
    slot: Option<&SlotShape>,
) -> (r: Option<&'a Vec<SlotField>>)
    ensures
        fields_at(r) == record_shape(*facts, *inline, shape_at(slot)),
{
    match &inline.type_claim {
        Some(claim) => find_shape(&facts.shapes, &claim_names(claim)),
        None => {
            let pinned: Option<String> = match slot {
                Some(s) => match &s.form {
                    ShapeForm::Record(name) => Some(name.clone()),
                    ShapeForm::InlineOrReference(name) => Some(name.clone()),
                    _ => None,
                },
                None => None,
            };
            match pinned {
                Some(name) => {
                    let mut names: Vec<String> = Vec::new();
                    names.push(name);
                    assert(views(names@) =~= seq![name@]);
                    find_shape(&facts.shapes, &names)
                },
                None => None,
            }
        },
    }
}

/// The meaning of a plain value: coloured by its declared shape, else by the
/// literal.
pub open spec fn value_kind(field: Seq<char>, shape: Option<SlotShape>, literal: Seq<char>) -> KindView {
    KindView::FieldValue {
        field,
        value_type: match shape {
            Some(s) => ValueTypeView::Declared(jv(s.served)),
            None => ValueTypeView::Literal(literal),
        },
    }
}

fn field_value_kind(field: &str, shape: Option<&SlotShape>, literal: &'static str) -> (r: TokenKind)
    ensures
        r@ == value_kind(field@, shape_at(shape), literal@),
{
    TokenKind::FieldValue {
        field: field.to_owned(),
        value_type: match shape {
            Some(s) => ValueType::Declared(copy_json(&s.served)),
            None => ValueType::Literal(literal),
        },
    }
}

/// Where the text behind the first `n` links of a value begins.
pub open spec fn run_start(span: ByteRange, links: Seq<NavLink>, n: int) -> usize {
    if n <= 0 {
        span.start
    } else {
        links[n - 1].span.end
    }
}

/// The tokens of a text up to its `n`-th link: one for each link, one for the text
/// before it.
pub open spec fn mixed_tokens(
    facts: TokenFacts,
    source: Seq<char>,
    span: ByteRange,
    links: Seq<NavLink>,
    run: KindView,
    n: int,
) -> Seq<TokenView>
    decreases n,
{
    if n <= 0 {
        Seq::empty()
    } else {
        let nl = links[n - 1];
        let before = mixed_tokens(facts, source, span, links, run, n - 1);
        let from = run_start(span, links, n - 1);
        let gapped = if nl.span.start > from {
            before.push(
                TokenView { range: ByteRange { start: from, end: nl.span.start }, kind: run },
            )
        } else {
            before
        };
        match link_from(facts.inner@, nl.raw@, 0) {
            Some(f) => gapped.push(
                TokenView { range: nl.span, kind: link_fact_kind(source, f) },
            ),
            None => gapped,
        }
    }
}

/// The tokens of a text with links in it.
pub open spec fn mixed(
    facts: TokenFacts,
    source: Seq<char>,
    span: ByteRange,
    links: Seq<NavLink>,
    run: KindView,
) -> Seq<TokenView> {
    let all = mixed_tokens(facts, source, span, links, run, links.len() as int);
    let from = run_start(span, links, links.len() as int);
    if from < span.end {
        all.push(TokenView { range: ByteRange { start: from, end: span.end }, kind: run })
    } else {
        all
    }
}

fn emit_mixed_string_tokens(
    facts: &TokenFacts,
    source: &str,
    span: ByteRange,
    links: &Vec<NavLink>,
    field: &str,
    shape: Option<&SlotShape>,
    out: &mut Vec<Token>,
)
    ensures
        token_views(final(out)@) == token_views(old(out)@) + mixed(
            *facts,
            source@,
            span,
            links@,
            value_kind(field@, shape_at(shape), "String"@),
        ),
{
    let ghost had = token_views(out@);
    let ghost run = value_kind(field@, shape_at(shape), "String"@);
    let mut cursor: usize = span.start;
    assert(token_views(out@) =~= had + mixed_tokens(*facts, source@, span, links@, run, 0));
    for i in 0..links.len()
        invariant
            run == value_kind(field@, shape_at(shape), "String"@),
            cursor == run_start(span, links@, i as int),
            token_views(out@) == had + mixed_tokens(
                *facts,
                source@,
                span,
                links@,
                run,
                i as int,
            ),
    {
        let nl = &links[i];
        if nl.span.start > cursor {
            let kind = field_value_kind(field, shape, "String");
            emit(out, ByteRange { start: cursor, end: nl.span.start }, kind);
        }
        if let Some(f) = find_link(&facts.inner, nl.raw.as_str()) {
            emit_link(out, nl.span, source, f);
        }
        cursor = nl.span.end;
        assert(token_views(out@) =~= had + mixed_tokens(
            *facts,
            source@,
            span,
            links@,
            run,
            i + 1,
        ));
    }
    if cursor < span.end {
        let kind = field_value_kind(field, shape, "String");
        emit(out, ByteRange { start: cursor, end: span.end }, kind);
    }
    assert(token_views(out@) =~= had + mixed(*facts, source@, span, links@, run));
}

/// Whether tokens follow each other without a gap from `from` to `to`.
pub open spec fn tiles(tokens: Seq<TokenView>, from: usize, to: usize) -> bool
    decreases tokens.len(),
{
    if tokens.len() == 0 {
        from == to
    } else {
        tokens.last().range.end == to && tokens.last().range.start < to && tiles(
            tokens.drop_last(),
            from,
            tokens.last().range.start,
        )
    }
}

/// Whether the links of a value stand in order within it, none of them empty, and
/// all of them are links.
pub open spec fn links_in_order(facts: TokenFacts, span: ByteRange, links: Seq<NavLink>) -> bool {
    &&& forall|i: int|
        #![trigger links[i]]
        0 <= i < links.len() ==> {
            &&& run_start(span, links, i) <= links[i].span.start < links[i].span.end <= span.end
            &&& link_from(facts.inner@, links[i].raw@, 0) is Some
        }
    &&& span.start <= span.end
}

proof fn lemma_tiles_push(tokens: Seq<TokenView>, from: usize, to: usize, next: TokenView)
    requires
        tiles(tokens, from, to),
        next.range.start == to,
        next.range.start < next.range.end,
    ensures
        tiles(tokens.push(next), from, next.range.end),
{
    assert(tokens.push(next).drop_last() =~= tokens);
}

proof fn lemma_mixed_tiles(
    facts: TokenFacts,
    source: Seq<char>,
    span: ByteRange,
    links: Seq<NavLink>,
    run: KindView,
    n: int,
)
    requires
        links_in_order(facts, span, links),
        0 <= n <= links.len(),
    ensures
        tiles(
            mixed_tokens(facts, source, span, links, run, n),
            span.start,
            run_start(span, links, n),
        ),
    decreases n,
{
    if n > 0 {
        lemma_mixed_tiles(facts, source, span, links, run, n - 1);
        let nl = links[n - 1];
        let before = mixed_tokens(facts, source, span, links, run, n - 1);
        let from = run_start(span, links, n - 1);
        let f = link_from(facts.inner@, nl.raw@, 0)->0;
        let link = TokenView { range: nl.span, kind: link_fact_kind(source, f) };
        if nl.span.start > from {
            let gap = TokenView { range: ByteRange { start: from, end: nl.span.start }, kind: run };
            lemma_tiles_push(before, span.start, from, gap);
            lemma_tiles_push(before.push(gap), span.start, nl.span.start, link);
        } else {
            lemma_tiles_push(before, span.start, from, link);
        }
    }
}

/// The tokens of a text with links in it cover the text without a gap and without
/// an overlap.
pub proof fn mixed_tokens_cover_the_text(
    facts: TokenFacts,
    source: Seq<char>,
    span: ByteRange,
    links: Seq<NavLink>,
    run: KindView,
)
    requires
        links_in_order(facts, span, links),
    ensures
        tiles(mixed(facts, source, span, links, run), span.start, span.end),
{
    let n = links.len() as int;
    lemma_mixed_tiles(facts, source, span, links, run, n);
    let from = run_start(span, links, n);
    let all = mixed_tokens(facts, source, span, links, run, n);
    if from < span.end {
        lemma_tiles_push(
            all,
            span.start,
            from,
            TokenView { range: ByteRange { start: from, end: span.end }, kind: run },
        );
    } else if n > 0 {
        assert(links[n - 1].span.end <= span.end);
    }
}

/// The claims of a type, on tokens.
pub open spec fn claim_tokens(items: Seq<ClaimedName>) -> Seq<TokenView> {
    Seq::new(
        items.len(),
        |i: int|
            TokenView {
                range: items[i].span,
                kind: KindView::TypeClaim { name: authored(items[i]) },
            },
    )
}

fn emit_claims(items: &Vec<ClaimedName>, out: &mut Vec<Token>)
    ensures
        token_views(final(out)@) == token_views(old(out)@) + claim_tokens(items@),
{
    let ghost had = token_views(out@);
    let ghost all = claim_tokens(items@);
    assert(token_views(out@) =~= had + all.take(0));
    for i in 0..items.len()
        invariant
            all == claim_tokens(items@),
            token_views(out@) == had + all.take(i as int),
    {
        emit(out, items[i].span, TokenKind::TypeClaim { name: authored_name(&items[i]) });
        assert(token_views(out@) =~= had + all.take(i + 1));
    }
    assert(all.take(all.len() as int) =~= all);
}

fn emit_claim(claim: &TypeClaim, out: &mut Vec<Token>)
    ensures
        token_views(final(out)@) == token_views(old(out)@) + claim_tokens(claim_items(*claim)),
{
    let ghost had = token_views(out@);
    match claim {
        TypeClaim::Bare(c) => {
            emit(out, c.span, TokenKind::TypeClaim { name: authored_name(c) });
            assert(token_views(out@) =~= had + claim_tokens(claim_items(*claim)));
        },
        TypeClaim::List(items) => {
            emit_claims(items, out);
        },
    }
}

/// The shape of the elements of a list.
pub open spec fn element_shape(shape: Option<SlotShape>) -> Option<SlotShape> {
    match shape {
        Some(s) => match s.form {
            ShapeForm::List(inner) => Some(*inner),
            _ => None,
        },
        None => None,
    }
}

fn element_shape_of<'a>(shape: Option<&'a SlotShape>) -> (r: Option<&'a SlotShape>)
    ensures
        shape_at(r) == element_shape(shape_at(shape)),
{
    match shape {
        Some(s) => match &s.form {
            ShapeForm::List(inner) => Some(&**inner),
            _ => None,
        },
        None => None,
    }
}

/// The tokens of a value in a field of this shape. A text that is a link as a whole
/// is one token; the elements of a list are read by the shape of its elements, the
/// fields of a record by the shape of its type.
pub open spec fn value_tokens(
    facts: TokenFacts,
    source: Seq<char>,
    v: InstanceValue,
    span: ByteRange,
    links: Seq<NavLink>,
    field: Seq<char>,
    shape: Option<SlotShape>,
) -> Seq<TokenView>
    decreases v, 0int,
{
    match v {
        InstanceValue::Text(s) => match link_from(facts.whole@, s@, 0) {
            Some(f) => seq![TokenView { range: span, kind: link_fact_kind(source, f) }],
            None => if links.len() == 0 {
                seq![TokenView { range: span, kind: value_kind(field, shape, "String"@) }]
            } else {
                mixed(facts, source, span, links, value_kind(field, shape, "String"@))
            },
        },
        InstanceValue::Integer(_) => seq![
            TokenView { range: span, kind: value_kind(field, shape, "Number"@) },
        ],
        InstanceValue::Float(_) => seq![
            TokenView { range: span, kind: value_kind(field, shape, "Number"@) },
        ],
        InstanceValue::Boolean(_) => seq![
            TokenView { range: span, kind: value_kind(field, shape, "Boolean"@) },
        ],
        InstanceValue::Null => Seq::empty(),
        InstanceValue::NotYetSupported => Seq::empty(),
        InstanceValue::Sequence(elems) => element_tokens(
            facts,
            source,
            elems,
            field,
            element_shape(shape),
            elems.len() as int,
        ),
        InstanceValue::Mapping(inline) => record_tokens(facts, source, inline, shape),
    }
}

/// The tokens of the first `n` elements of a list.
pub open spec fn element_tokens(
    facts: TokenFacts,
    source: Seq<char>,
    elems: Vec<SequenceElement>,
    field: Seq<char>,
    shape: Option<SlotShape>,
    n: int,
) -> Seq<TokenView>
    decreases elems, n,
{
    if n <= 0 || n > elems.len() {
        Seq::empty()
    } else {
        element_tokens(facts, source, elems, field, shape, n - 1) + value_tokens(
            facts,
            source,
            elems[n - 1].value,
            elems[n - 1].span,
            elems[n - 1].nav_links@,
            field,
            shape,
        )
    }
}

/// The tokens of an inline record: its claims, then its fields.
pub open spec fn record_tokens(
    facts: TokenFacts,
    source: Seq<char>,
    inline: InlineValue,
    slot: Option<SlotShape>,
) -> Seq<TokenView>
    decreases inline, 1int,
{
    (match inline.type_claim {
        Some(claim) => claim_tokens(claim_items(claim)),
        None => Seq::empty(),
    }) + field_tokens(
        facts,
        source,
        inline.fields,
        record_shape(facts, inline, slot),
        inline.fields.len() as int,
    )
}

/// The shape that an effective shape gives to a field.
pub open spec fn shape_of_key(shape: Option<Seq<SlotField>>, key: Seq<char>) -> Option<SlotShape> {
    match shape {
        Some(fields) => field_shape(fields, key, 0),
        None => None,
    }
}

/// The tokens of the first `n` fields.
pub open spec fn field_tokens(
    facts: TokenFacts,
    source: Seq<char>,
    fields: Vec<InstanceField>,
    shape: Option<Seq<SlotField>>,
    n: int,
) -> Seq<TokenView>
    decreases fields, n,
{
    if n <= 0 || n > fields.len() {
        Seq::empty()
    } else {
        let f = fields[n - 1];
        field_tokens(facts, source, fields, shape, n - 1) + value_tokens(
            facts,
            source,
            f.value,
            f.value_span,
            f.nav_links@,
            f.key@,
            shape_of_key(shape, f.key@),
        )
    }
}

fn walk_value_tokens(
    facts: &TokenFacts,
    source: &str,
    v: &InstanceValue,
    span: ByteRange,
    links: &Vec<NavLink>,
    field: &str,
    shape: Option<&SlotShape>,
    out: &mut Vec<Token>,
)
    ensures
        token_views(final(out)@) == token_views(old(out)@) + value_tokens(
            *facts,
            source@,
            *v,
            span,
            links@,
            field@,
            shape_at(shape),
        ),
    decreases *v, 0int,
{
    let ghost had = token_views(out@);
    let ghost want = value_tokens(*facts, source@, *v, span, links@, field@, shape_at(shape));
    assert(had + Seq::<TokenView>::empty() =~= had);
    match v {
        InstanceValue::Text(s) => {
            match find_link(&facts.whole, s.as_str()) {
                Some(f) => {
                    emit_link(out, span, source, f);
                    assert(token_views(out@) =~= had + want);
                },
                None => {
                    if links.len() == 0 {
                        emit(out, span, field_value_kind(field, shape, "String"));
                        assert(token_views(out@) =~= had + want);
                    } else {
                        emit_mixed_string_tokens(facts, source, span, links, field, shape, out);
                    }
                },
            }
        },
        InstanceValue::Integer(_) => {
            emit(out, span, field_value_kind(field, shape, "Number"));
            assert(token_views(out@) =~= had + want);
        },
        InstanceValue::Float(_) => {
            emit(out, span, field_value_kind(field, shape, "Number"));
            assert(token_views(out@) =~= had + want);
        },
        InstanceValue::Boolean(_) => {
            emit(out, span, field_value_kind(field, shape, "Boolean"));
            assert(token_views(out@) =~= had + want);
        },
        InstanceValue::Null => {},
        InstanceValue::NotYetSupported => {},
        InstanceValue::Sequence(elems) => {
            let inner = element_shape_of(shape);
            for i in 0..elems.len()
                invariant
                    *v == InstanceValue::Sequence(*elems),
                    token_views(out@) == had + element_tokens(
                        *facts,
                        source@,
                        *elems,
                        field@,
                        shape_at(inner),
                        i as int,
                    ),
            {
                assert(v->Sequence_0 == *elems);
                assert(decreases_to!(*v => *elems));
                assert(decreases_to!(*elems => elems[i as int]));
                walk_value_tokens(
                    facts,
                    source,
                    &elems[i].value,
                    elems[i].span,
                    &elems[i].nav_links,
                    field,
                    inner,
                    out,
                );
                assert(token_views(out@) =~= had + element_tokens(
                    *facts,
                    source@,
                    *elems,
                    field@,
                    shape_at(inner),
                    i + 1,
                ));
            }
        },
        InstanceValue::Mapping(inline) => {
            walk_record_tokens(facts, source, inline, shape, out);
        },
    }
}

fn walk_record_tokens(
    facts: &TokenFacts,
    source: &str,
    inline: &InlineValue,
    slot: Option<&SlotShape>,
    out: &mut Vec<Token>,
)
    ensures
        token_views(final(out)@) == token_views(old(out)@) + record_tokens(
            *facts,
            source@,
            *inline,
            shape_at(slot),
        ),
    decreases *inline, 1int,
{
    let ghost had = token_views(out@);
    assert(had + Seq::<TokenView>::empty() =~= had);
    if let Some(claim) = &inline.type_claim {
        emit_claim(claim, out);
    }
    let ghost claimed = token_views(out@);
    let shape = record_effective_shape(facts, inline, slot);
    walk_field_tokens(facts, source, &inline.fields, shape, out);
    assert(token_views(out@) =~= had + record_tokens(*facts, source@, *inline, shape_at(slot)));
}

fn walk_field_tokens(
    facts: &TokenFacts,
    source: &str,
    fields: &Vec<InstanceField>,
    shape: Option<&Vec<SlotField>>,
    out: &mut Vec<Token>,
)
    ensures
        token_views(final(out)@) == token_views(old(out)@) + field_tokens(
            *facts,
            source@,
            *fields,
            fields_at(shape),
            fields.len() as int,
        ),
    decreases *fields, 0int,
{
    let ghost had = token_views(out@);
    assert(had + Seq::<TokenView>::empty() =~= had);
    for i in 0..fields.len()
        invariant
            token_views(out@) == had + field_tokens(
                *facts,
                source@,
                *fields,
                fields_at(shape),
                i as int,
            ),
    {
        assert(decreases_to!(*fields => fields[i as int]));
        let f = &fields[i];
        let slot = match shape {
            Some(s) => find_field_shape(s, f.key.as_str()),
            None => None,
        };
        walk_value_tokens(
            facts,
            source,
            &f.value,
            f.value_span,
            &f.nav_links,
            f.key.as_str(),
            slot,
            out,
        );
        assert(token_views(out@) =~= had + field_tokens(
            *facts,
            source@,
            *fields,
            fields_at(shape),
            i + 1,
        ));
    }
}

/// The ids of the records of a file, on tokens.
pub open spec fn id_tokens(records: Seq<RecordTarget>) -> Seq<TokenView> {
    Seq::new(
        records.len(),
        |i: int|
            TokenView { range: records[i].span, kind: KindView::BlockId { id: records[i].id@ } },
    )
}

/// The tokens of the fields of an instance: its claims, its values, the ids of its
/// records.
pub open spec fn instance_tokens(
    facts: TokenFacts,
    source: Seq<char>,
    inst: Instance,
    shape: Option<Seq<SlotField>>,
    records: Seq<RecordTarget>,
) -> Seq<TokenView> {
    claim_tokens(claim_items(inst.type_claim)) + field_tokens(
        facts,
        source,
        inst.fields,
        shape,
        inst.fields.len() as int,
    ) + id_tokens(records)
}

fn frontmatter_tokens(
    facts: &TokenFacts,
    source: &str,
    inst: &Instance,
    shape: Option<&Vec<SlotField>>,
    records: &Vec<RecordTarget>,
    out: &mut Vec<Token>,
)
    ensures
        token_views(final(out)@) == token_views(old(out)@) + instance_tokens(
            *facts,
            source@,
            *inst,
            fields_at(shape),
            records@,
        ),
{
    let ghost had = token_views(out@);
    emit_claim(&inst.type_claim, out);
    walk_field_tokens(facts, source, &inst.fields, shape, out);
    let ghost mid = token_views(out@);
    let ghost all = id_tokens(records@);
    assert(token_views(out@) =~= mid + all.take(0));
    for i in 0..records.len()
        invariant
            all == id_tokens(records@),
            token_views(out@) == mid + all.take(i as int),
    {
        emit(out, records[i].span, TokenKind::BlockId { id: records[i].id.clone() });
        assert(token_views(out@) =~= mid + all.take(i + 1));
    }
    assert(all.take(all.len() as int) =~= all);
    assert(token_views(out@) =~= had + instance_tokens(
        *facts,
        source@,
        *inst,
        fields_at(shape),
        records@,
    ));
}

/// The range of the id behind a fence, with its caret.
pub open spec fn id_range(block: FencedBlock) -> ByteRange {
    ByteRange {
        start: (block.id_at - 1) as usize,
        end: (block.id_at + bytes_in(block.trailing_block_id->0@)) as usize,
    }
}

/// Whether the id behind a fence has a place in the file.
pub open spec fn id_fits(block: FencedBlock, offset: usize) -> bool {
    block.trailing_block_id is Some ==> block.id_at >= 1 && block.id_at + bytes_in(
        block.trailing_block_id->0@,
    ) + offset <= usize::MAX
}

/// Whether the ids behind the fences of a body have places in the file.
pub open spec fn ids_fit(body: MarkdownBody) -> bool {
    forall|i: int|
        #![trigger body.events@[i]]
        0 <= i < body.events@.len() ==> (body.events@[i] matches BodyEvent::FencedBlock { block }
            ==> id_fits(block, body.offset))
}

/// The shape that the values in a typed fence have: that of the field, or of its
/// elements when the field is a list.
pub open spec fn fence_shape(shape: Option<Seq<SlotField>>, field: Seq<char>) -> Option<SlotShape> {
    match shape_of_key(shape, field) {
        Some(s) => match s.form {
            ShapeForm::List(inner) => Some(*inner),
            _ => Some(s),
        },
        None => None,
    }
}

/// The tokens of a fence. A typed fence of an instance is a container, with the
/// tokens of the record in it.
pub open spec fn fence_tokens(
    facts: TokenFacts,
    source: Seq<char>,
    typed: bool,
    shape: Option<Seq<SlotField>>,
    block: FencedBlock,
    offset: usize,
) -> Seq<TokenView> {
    let ids = match block.trailing_block_id {
        Some(id) => seq![
            TokenView {
                range: lifted(id_range(block), offset),
                kind: KindView::BlockId { id: id@ },
            },
        ],
        None => Seq::empty(),
    };
    match block.field {
        Some(field) => if typed {
            let container = ids.push(
                TokenView {
                    range: lifted(block.span, offset),
                    kind: KindView::TypedBlock { field: field@ },
                },
            );
            match block.record {
                Some(inline) => container + record_tokens(
                    facts,
                    source,
                    inline,
                    fence_shape(shape, field@),
                ),
                None => container,
            }
        } else {
            ids
        },
        None => ids,
    }
}

fn fenced_block_tokens(
    facts: &TokenFacts,
    source: &str,
    typed: bool,
    shape: Option<&Vec<SlotField>>,
    block: &FencedBlock,
    offset: usize,
    out: &mut Vec<Token>,
)
    requires
        block.span.start + offset <= usize::MAX,
        block.span.end + offset <= usize::MAX,
        id_fits(*block, offset),
    ensures
        token_views(final(out)@) == token_views(old(out)@) + fence_tokens(
            *facts,
            source@,
            typed,
            fields_at(shape),
            *block,
            offset,
        ),
{
    let ghost had = token_views(out@);
    let ghost want = fence_tokens(*facts, source@, typed, fields_at(shape), *block, offset);
    if let Some(id) = &block.trailing_block_id {
        let marker = ByteRange {
            start: block.id_at - 1,
            end: block.id_at + byte_len(id.as_str()),
        };
        emit(out, span_in_body(marker, offset), TokenKind::BlockId { id: id.clone() });
    }
    if !typed || block.field.is_none() {
        assert(token_views(out@) =~= had + want);
        return;
    }
    if let Some(field) = &block.field {
        emit(out, span_in_body(block.span, offset), TokenKind::TypedBlock { field: field.clone() });
        if let Some(inline) = &block.record {
            let declared = match shape {
                Some(s) => find_field_shape(s, field.as_str()),
                None => None,
            };
            let slot = match declared {
                Some(s) => match &s.form {
                    ShapeForm::List(inner) => Some(&**inner),
                    _ => Some(s),
                },
                None => None,
            };
            walk_record_tokens(facts, source, inline, slot, out);
        }
        assert(token_views(out@) =~= had + want);
    }
}

/// The tokens of one element of a body.
pub open spec fn event_tokens(
    facts: TokenFacts,
    source: Seq<char>,
    typed: bool,
    shape: Option<Seq<SlotField>>,
    e: BodyEvent,
    offset: usize,
) -> Seq<TokenView> {
    match e {
        BodyEvent::Wikilink { raw, span } => match link_from(facts.inner@, raw@, 0) {
            Some(f) => seq![
                TokenView { range: lifted(span, offset), kind: link_fact_kind(source, f) },
            ],
            None => Seq::empty(),
        },
        BodyEvent::BlockIdMarker { id, span } => seq![
            TokenView { range: lifted(span, offset), kind: KindView::BlockId { id: id@ } },
        ],
        BodyEvent::Heading { text, span, .. } => seq![
            TokenView { range: lifted(span, offset), kind: KindView::Anchor { text: text@ } },
        ],
        BodyEvent::FencedBlock { block } => fence_tokens(facts, source, typed, shape, block, offset),
    }
}

/// The tokens of the first `n` elements of a body.
pub open spec fn body_tokens_of(
    facts: TokenFacts,
    source: Seq<char>,
    typed: bool,
    shape: Option<Seq<SlotField>>,
    body: MarkdownBody,
    n: int,
) -> Seq<TokenView>
    decreases n,
{
    if n <= 0 {
        Seq::empty()
    } else {
        body_tokens_of(facts, source, typed, shape, body, n - 1) + event_tokens(
            facts,
            source,
            typed,
            shape,
            body.events@[n - 1],
            body.offset,
        )
    }
}

fn body_tokens(
    facts: &TokenFacts,
    source: &str,
    typed: bool,
    shape: Option<&Vec<SlotField>>,
    body: &MarkdownBody,
    out: &mut Vec<Token>,
)
    requires
        body_fits(*body),
        ids_fit(*body),
    ensures
        token_views(final(out)@) == token_views(old(out)@) + body_tokens_of(
            *facts,
            source@,
            typed,
            fields_at(shape),
            *body,
            body.events@.len() as int,
        ),
{
    let ghost had = token_views(out@);
    assert(had + Seq::<TokenView>::empty() =~= had);
    for i in 0..body.events.len()
        invariant
            body_fits(*body),
            ids_fit(*body),
            token_views(out@) == had + body_tokens_of(
                *facts,
                source@,
                typed,
                fields_at(shape),
                *body,
                i as int,
            ),
    {
        let ghost e = body.events@[i as int];
        let ghost before = token_views(out@);
        assert(event_span(e).start + body.offset <= usize::MAX);
        match &body.events[i] {
            BodyEvent::Wikilink { raw, span } => {
                if let Some(f) = find_link(&facts.inner, raw.as_str()) {
                    emit_link(out, span_in_body(*span, body.offset), source, f);
                }
            },
            BodyEvent::BlockIdMarker { id, span } => {
                emit(
                    out,
                    span_in_body(*span, body.offset),
                    TokenKind::BlockId { id: id.clone() },
                );
            },
            BodyEvent::Heading { text, level: _, span } => {
                emit(
                    out,
                    span_in_body(*span, body.offset),
                    TokenKind::Anchor { text: text.clone() },
                );
            },
            BodyEvent::FencedBlock { block } => {
                fenced_block_tokens(facts, source, typed, shape, block, body.offset, out);
            },
        }
        assert(token_views(out@) =~= before + event_tokens(
            *facts,
            source@,
            typed,
            fields_at(shape),
            e,
            body.offset,
        ));
        assert(token_views(out@) =~= had + body_tokens_of(
            *facts,
            source@,
            typed,
            fields_at(shape),
            *body,
            i + 1,
        ));
    }
}

/// What a part of a shape expression is.
#[derive(Debug, Clone, Copy, PartialEq, Eq, Structural)]
pub enum ShapeRole {
    TypeName,
    Builtin,
    EnumMember,
}

/// A part of a shape expression.
#[derive(Debug)]
pub struct ShapePart {
    pub range: ByteRange,
    pub role: ShapeRole,
    pub text: String,
}

/// What the shape expression of a field says: the shape as it is served, when it
/// parses, and its parts.
#[derive(Debug)]
pub struct ParsedShape {
    pub served: Option<Json>,
    pub parts: Vec<ShapePart>,
}

/// Whether the parts lie within the expression.
pub open spec fn parts_lie_in(f: FieldDef, p: ParsedShape) -> bool {
    forall|i: int|
        #![trigger p.parts@[i]]
        0 <= i < p.parts@.len() ==> p.parts@[i].range.start <= bytes_in(f.raw_shape@)
            && p.parts@[i].range.end <= bytes_in(f.raw_shape@)
}

/// Whether the expression stands in the file as it is: a quoted one does not, and
/// its parts have no places of their own.
pub open spec fn stands_plain(f: FieldDef) -> bool {
    f.shape_span.start + bytes_in(f.raw_shape@) == f.shape_span.end
}

pub open spec fn part_token(f: FieldDef, part: ShapePart) -> TokenView {
    TokenView {
        range: lifted(part.range, f.shape_span.start),
        kind: match part.role {
            ShapeRole::TypeName => KindView::TypeRef { name: part.text@ },
            ShapeRole::Builtin => KindView::ShapeBuiltin { name: part.text@ },
            ShapeRole::EnumMember => KindView::EnumMember { value: part.text@ },
        },
    }
}

/// The tokens of a declared field: the whole expression, and its parts where they
/// have places.
pub open spec fn field_def_tokens(f: FieldDef, p: ParsedShape) -> Seq<TokenView> {
    seq![
        TokenView {
            range: f.shape_span,
            kind: KindView::FieldShape {
                field: f.name@,
                declared: opt_jv(p.served),
            },
        },
    ] + (if stands_plain(f) {
        Seq::new(p.parts@.len(), |i: int| part_token(f, p.parts@[i]))
    } else {
        Seq::empty()
    })
}

fn emit_field_def(f: &FieldDef, p: &ParsedShape, out: &mut Vec<Token>)
    requires
        parts_lie_in(*f, *p),
    ensures
        token_views(final(out)@) == token_views(old(out)@) + field_def_tokens(*f, *p),
{
    let ghost had = token_views(out@);
    let served = match &p.served {
        Some(j) => Some(copy_json(j)),
        None => None,
    };
    emit(out, f.shape_span, TokenKind::FieldShape { field: f.name.clone(), declared: served });
    let ghost container = token_views(out@);
    let size: usize = byte_len(f.raw_shape.as_str());
    let plain = f.shape_span.end >= f.shape_span.start && f.shape_span.end - f.shape_span.start
        == size;
    if plain {
        let ghost all = Seq::new(p.parts@.len(), |i: int| part_token(*f, p.parts@[i]));
        assert(token_views(out@) =~= container + all.take(0));
        for i in 0..p.parts.len()
            invariant
                parts_lie_in(*f, *p),
                size == bytes_in(f.raw_shape@),
                f.shape_span.start + size == f.shape_span.end,
                all == Seq::new(p.parts@.len(), |i: int| part_token(*f, p.parts@[i])),
                token_views(out@) == container + all.take(i as int),
        {
            let part = &p.parts[i];
            assert(p.parts@[i as int].range.start <= bytes_in(f.raw_shape@));
            let kind = match part.role {
                ShapeRole::TypeName => TokenKind::TypeRef { name: part.text.clone() },
                ShapeRole::Builtin => TokenKind::ShapeBuiltin { name: part.text.clone() },
                ShapeRole::EnumMember => TokenKind::EnumMember { value: part.text.clone() },
            };
            emit(out, span_in_body(part.range, f.shape_span.start), kind);
            assert(token_views(out@) =~= container + all.take(i + 1));
        }
        assert(all.take(all.len() as int) =~= all);
    }
    assert(token_views(out@) =~= had + field_def_tokens(*f, *p));
}

/// The claims of the metadata of a type-def.
pub open spec fn meta_tokens(def: TypeDef) -> Seq<TokenView> {
    match def.meta_blocks {
        Some(blocks) => claim_tokens(Seq::new(blocks@.len(), |i: int| blocks@[i].claim)),
        None => Seq::empty(),
    }
}

/// The branches of a sealed type. A branch is told by its bare name.
pub open spec fn sealed_tokens(items: Seq<ClaimedName>) -> Seq<TokenView> {
    Seq::new(
        items.len(),
        |i: int|
            TokenView { range: items[i].span, kind: KindView::TypeRef { name: items[i].name@ } },
    )
}

/// The tokens of the first `n` declared fields.
pub open spec fn field_defs_tokens(fields: Seq<FieldDef>, shapes: Seq<ParsedShape>, n: int) -> Seq<
    TokenView,
>
    decreases n,
{
    if n <= 0 {
        Seq::empty()
    } else {
        field_defs_tokens(fields, shapes, n - 1) + field_def_tokens(fields[n - 1], shapes[n - 1])
    }
}

/// The tokens of a type-def.
pub open spec fn type_tokens(def: TypeDef, shapes: Seq<ParsedShape>) -> Seq<TokenView> {
    claim_tokens(def.parents@) + meta_tokens(def) + sealed_tokens(def.sealed@) + field_defs_tokens(
        def.fields@,
        shapes,
        def.fields@.len() as int,
    )
}

/// Whether every declared field has a parsed shape whose parts lie within it.
pub open spec fn shapes_fit(def: TypeDef, shapes: Seq<ParsedShape>) -> bool {
    &&& shapes.len() == def.fields@.len()
    &&& forall|i: int|
        #![trigger shapes[i]]
        0 <= i < shapes.len() ==> parts_lie_in(def.fields@[i], shapes[i])
}

fn type_def_tokens(def: &TypeDef, shapes: &Vec<ParsedShape>, out: &mut Vec<Token>)
    requires
        shapes_fit(*def, shapes@),
    ensures
        token_views(final(out)@) == token_views(old(out)@) + type_tokens(*def, shapes@),
{
    let ghost had = token_views(out@);
    emit_claims(&def.parents, out);
    let ghost parents = token_views(out@);
    if let Some(blocks) = &def.meta_blocks {
        let ghost claims = Seq::new(blocks@.len(), |i: int| blocks@[i].claim);
        let ghost all = claim_tokens(claims);
        assert(token_views(out@) =~= parents + all.take(0));
        for i in 0..blocks.len()
            invariant
                claims == Seq::new(blocks@.len(), |i: int| blocks@[i].claim),
                all == claim_tokens(claims),
                token_views(out@) == parents + all.take(i as int),
        {
            let c = &blocks[i].claim;
            emit(out, c.span, TokenKind::TypeClaim { name: authored_name(c) });
            assert(claims[i as int] == *c);
            assert(token_views(out@) =~= parents + all.take(i + 1));
        }
        assert(all.take(all.len() as int) =~= all);
    }
    let ghost meta = token_views(out@);
    assert(meta =~= parents + meta_tokens(*def));
    let ghost all = sealed_tokens(def.sealed@);
    assert(token_views(out@) =~= meta + all.take(0));
    for i in 0..def.sealed.len()
        invariant
            all == sealed_tokens(def.sealed@),
            token_views(out@) == meta + all.take(i as int),
    {
        let c = &def.sealed[i];
        emit(out, c.span, TokenKind::TypeRef { name: c.name.clone() });
        assert(token_views(out@) =~= meta + all.take(i + 1));
    }
    assert(all.take(all.len() as int) =~= all);
    let ghost sealed = token_views(out@);
    assert(sealed =~= sealed + field_defs_tokens(def.fields@, shapes@, 0));
    for i in 0..def.fields.len()
        invariant
            shapes_fit(*def, shapes@),
            token_views(out@) == sealed + field_defs_tokens(def.fields@, shapes@, i as int),
    {
        assert(parts_lie_in(def.fields@[i as int], shapes@[i as int]));
        emit_field_def(&def.fields[i], &shapes[i], out);
        assert(token_views(out@) =~= sealed + field_defs_tokens(def.fields@, shapes@, i + 1));
    }
    assert(token_views(out@) =~= had + type_tokens(*def, shapes@));
}

/// Tokens are ordered by where they begin.
impl Ranked for Token {
    open spec fn rank_le(&self, other: &Self) -> bool {
        self.range.start <= other.range.start
    }

    fn at_most(&self, other: &Self) -> (r: bool) {
        self.range.start <= other.range.start
    }

    proof fn rank_total(a: &Self, b: &Self) {
    }

    proof fn rank_transitive(a: &Self, b: &Self, c: &Self) {
    }
}

/// What else is known of a file that is an instance or a type-def.
#[derive(Debug)]
pub struct FileFacts {
    pub links: TokenFacts,
    /// The effective shape of the instance, when its claim resolved.
    pub shape: Option<Vec<SlotField>>,
    /// The records with an id.
    pub records: Vec<RecordTarget>,
    /// The shapes that the fields of a type-def declare.
    pub declared: Vec<ParsedShape>,
}

pub open spec fn known_shape(shape: Option<Vec<SlotField>>) -> Option<Seq<SlotField>> {
    match shape {
        Some(s) => Some(s@),
        None => None,
    }
}

/// The tokens of a file: those of a type-def, or those of the body and then those of
/// the fields.
pub open spec fn file_tokens(entry: CatalogEntry, facts: FileFacts) -> Seq<TokenView> {
    let source = entry.path@;
    let shape = known_shape(facts.shape);
    match entry.parse {
        FileParse::TypeDef(Some(def)) => type_tokens(def, facts.declared@),
        _ => {
            let inst = match entry.parse {
                FileParse::Instance(i) => i,
                _ => None,
            };
            let body = match entry.body {
                Some(b) => body_tokens_of(
                    facts.links,
                    source,
                    inst is Some,
                    shape,
                    b,
                    b.events@.len() as int,
                ),
                None => Seq::empty(),
            };
            match inst {
                Some(i) => body + instance_tokens(facts.links, source, i, shape, facts.records@),
                None => body,
            }
        },
    }
}

/// Whether the ranges of a file fit its offsets, and a type-def has a parsed shape
/// for each field.
pub open spec fn file_fits(entry: CatalogEntry, facts: FileFacts) -> bool {
    &&& entry.body matches Some(b) ==> body_fits(b) && ids_fit(b)
    &&& entry.parse matches FileParse::TypeDef(Some(def)) ==> shapes_fit(def, facts.declared@)
}

/// The semantic tokens of a file, in the order in which they begin.
pub fn semantic_tokens_view(entry: &CatalogEntry, facts: &FileFacts) -> (r: Vec<Token>)
    requires
        file_fits(*entry, *facts),
    ensures
        exists|found: Seq<Token>|
            token_views(found) == file_tokens(*entry, *facts) && r@ == #[trigger] in_rank(found),
        sorted(r@),
{
    let mut out: Vec<Token> = Vec::new();
    assert(token_views(out@) =~= Seq::empty());
    let source = entry.path.as_str();
    let shape = match &facts.shape {
        Some(s) => Some(s),
        None => None,
    };
    if let FileParse::TypeDef(Some(def)) = &entry.parse {
        type_def_tokens(def, &facts.declared, &mut out);
        assert(token_views(out@) =~= file_tokens(*entry, *facts));
        return sort(out);
    }
    let typed = matches!(&entry.parse, FileParse::Instance(Some(_)));
    if let Some(body) = &entry.body {
        body_tokens(&facts.links, source, typed, shape, body, &mut out);
    }
    let ghost body = token_views(out@);
    if let FileParse::Instance(Some(inst)) = &entry.parse {
        frontmatter_tokens(&facts.links, source, inst, shape, &facts.records, &mut out);
    }
    assert(token_views(out@) =~= file_tokens(*entry, *facts));
    sort(out)
}

} // verus!
