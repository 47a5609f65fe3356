//! The knowledge base as the serving layer reads it: the mounted repos, the
//! catalogued files and the resolved references between them.

use crate::ast::{ByteRange, FileParse, InlineValue};
use crate::json::Json;
use crate::paths::{is_within, parts, parts_of, path_lt, same_path, same_path_spec, within};
use crate::text::{opt_view, same, views};
use vstd::prelude::*;

verus! {

/// What a catalogued file is, by its path.
#[derive(Debug, Clone, Copy, PartialEq, Eq, Structural)]
pub enum FileKind {
    TypeDef,
    Instance,
    RepoRegistry,
    Workspace,
    RepoLock,
    Unclassified,
}

/// Which mounted repos a read covers: every one, or only the primary editable
/// ones, without dependencies and built-in vocabulary.
#[derive(Debug, Clone, Copy, PartialEq, Eq, Structural)]
pub enum Scope {
    All,
    Own,
}

impl Scope {
    pub fn own_only(self) -> (r: bool)
        ensures
            r == (self == Scope::Own),
    {
        self == Scope::Own
    }

    /// The wire name.
    pub open spec fn label_spec(self) -> Seq<char> {
        match self {
            Scope::All => "all"@,
            Scope::Own => "own"@,
        }
    }

    pub fn label(self) -> (r: &'static str)
        ensures
            r@ == self.label_spec(),
    {
        match self {
            Scope::All => "all",
            Scope::Own => "own",
        }
    }
}

/// The scope that a read runs at: what the caller said, else every member when
/// the caller named a repo, else only the caller's own.
pub fn resolved_scope(scope: Option<Scope>, repo: &Option<String>) -> (r: Scope)
    ensures
        r == (match scope {
            Some(s) => s,
            None => if repo is Some {
                Scope::All
            } else {
                Scope::Own
            },
        }),
{
    match scope {
        Some(s) => s,
        None => if repo.is_some() {
            Scope::All
        } else {
            Scope::Own
        },
    }
}

/// A mounted repo.
#[derive(Debug)]
pub struct Repo {
    pub name: String,
    pub root: String,
    /// A primary, editable repo: neither a dependency nor built in.
    pub own: bool,
    /// Whether the repo is a vocabulary that comes with the engine, without files.
    pub builtin: bool,
    /// Whether the engine may write the repo's files.
    pub editable: bool,
    /// How the repo is mounted, by its wire name.
    pub role: &'static str,
}

/// The part of a file that a reference stands in.
#[derive(Debug, Clone, Copy, PartialEq, Eq, Structural)]
pub enum RefSurface {
    Frontmatter,
    Body,
    Docstring,
}

/// A resolved reference, seen from the file that it points at.
#[derive(Debug)]
pub struct Backlink {
    /// The file that holds the reference.
    pub source: String,
    /// The typed slot that the reference fills, when it fills one.
    pub slot: Option<String>,
    pub surface: RefSurface,
    /// The coarse class of the edge: `field`, `contributing` or `navigational`.
    pub kind: &'static str,
    /// Where the reference stands in its file.
    pub span: ByteRange,
    /// The block that the reference names, when it names one.
    pub block_id: Option<BlockRef>,
    /// The id of the inline record that the reference stands in.
    pub source_block_id: Option<String>,
    /// The lines and columns of the span, when the lines of its file are known.
    pub line_col: Option<Json>,
}

/// A block that a reference names. A referent reference (`^^id`) has the block as
/// its value; another (`^id`) has the file, and the block as a place to jump to.
#[derive(Debug)]
pub struct BlockRef {
    pub id: String,
    pub referent: bool,
}

/// Something that the body of a file holds, by its place in the body.
#[derive(Debug)]
pub enum BodyEvent {
    Wikilink { raw: String, span: ByteRange },
    BlockIdMarker { id: String, span: ByteRange },
    FencedBlock { block: FencedBlock },
    Heading { text: String, level: u8, span: ByteRange },
}

/// A fenced block.
#[derive(Debug)]
pub struct FencedBlock {
    pub span: ByteRange,
    /// The id behind the closing fence.
    pub trailing_block_id: Option<String>,
    /// The field that a typed fence fills.
    pub field: Option<String>,
    /// The documents that the block holds when it is read as YAML; none when it
    /// does not read as YAML.
    pub docs: Vec<Yaml>,
    /// Where the id begins in the body, for a block that has one.
    pub id_at: usize,
    /// The record that a typed fence holds, with its places in the file.
    pub record: Option<InlineValue>,
}

/// A YAML value, as far as the serving layer looks into one.
#[derive(Debug)]
pub enum Yaml {
    Text(String),
    List(Vec<Yaml>),
    Mapping(Vec<YamlPair>),
    Other,
}

#[derive(Debug)]
pub struct YamlPair {
    pub key: Yaml,
    pub value: Yaml,
}

/// The Markdown body of a file.
#[derive(Debug)]
pub struct MarkdownBody {
    /// Where the body begins in the file.
    pub offset: usize,
    /// Whether the body holds nothing but white space.
    pub blank: bool,
    pub events: Vec<BodyEvent>,
}

/// The references that reach one file.
#[derive(Debug)]
pub struct Inbound {
    pub target: String,
    pub edges: Vec<Backlink>,
}

/// A catalogued file.
#[derive(Debug)]
pub struct CatalogEntry {
    pub path: String,
    pub kind: FileKind,
    /// The role of the file on the wire: `instance`, `type-def`, `note` or
    /// `asset`.
    pub served: &'static str,
    pub parse: FileParse,
    /// For a type-def, the types that its field shapes name, one entry for each
    /// mention.
    pub field_refs: Vec<TypeMention>,
    /// The digest of the content that the engine holds.
    pub hash: Option<String>,
    pub body: Option<MarkdownBody>,
}

/// A type named with or without a repo.
#[derive(Debug)]
pub struct TypeMention {
    pub name: String,
    pub repo: Option<String>,
}

/// The file that defines a type.
#[derive(Debug)]
pub struct DefSource {
    pub name: String,
    pub source_path: String,
}

/// The types that a repo defines.
#[derive(Debug)]
pub struct RepoTypes {
    pub repo: String,
    pub defs: Vec<DefSource>,
}

/// The knowledge base.
#[derive(Debug)]
pub struct KnowledgeBase {
    pub repos: Vec<Repo>,
    pub catalog: Vec<CatalogEntry>,
    pub backlinks: Vec<Inbound>,
    pub types: Vec<RepoTypes>,
}

impl KnowledgeBase {
    /// A file is catalogued once, in the order of the paths, and has one list of inbound
    /// references.
    pub open spec fn wf(&self) -> bool {
        &&& forall|i: int, j: int|
            #![trigger self.catalog@[i], self.catalog@[j]]
            0 <= i < j < self.catalog@.len() ==> path_lt(
                self.catalog@[i].path@,
                self.catalog@[j].path@,
            )
        &&& forall|i: int, j: int|
            #![trigger self.catalog@[i], self.catalog@[j]]
            0 <= i < j < self.catalog@.len() ==> self.catalog@[i].path@ != self.catalog@[j].path@
        &&& forall|i: int, j: int|
            #![trigger self.backlinks@[i], self.backlinks@[j]]
            0 <= i < j < self.backlinks@.len() ==> self.backlinks@[i].target@
                != self.backlinks@[j].target@
    }
}

/// Among the first `n` repos, the one that owns `path`: the deepest that
/// contains it, the first of several as deep.
pub open spec fn owner_among(repos: Seq<Repo>, path: Seq<char>, n: int) -> Option<int>
    decreases n,
{
    if n <= 0 {
        None
    } else {
        let before = owner_among(repos, path, n - 1);
        if !within(path, repos[n - 1].root@) {
            before
        } else {
            match before {
                Some(b) => if parts(repos[b].root@).len() >= parts(repos[n - 1].root@).len() {
                    before
                } else {
                    Some(n - 1)
                },
                None => Some(n - 1),
            }
        }
    }
}

/// The repo that owns `path`.
pub open spec fn owner(repos: Seq<Repo>, path: Seq<char>) -> Option<int> {
    owner_among(repos, path, repos.len() as int)
}

/// The owner of a path contains it, and no deeper repo does.
pub proof fn owner_is_deepest(repos: Seq<Repo>, path: Seq<char>, n: int)
    requires
        0 <= n <= repos.len(),
    ensures
        match owner_among(repos, path, n) {
            Some(i) => {
                &&& 0 <= i < n
                &&& within(path, repos[i].root@)
                &&& forall|j: int|
                    #![trigger repos[j]]
                    0 <= j < n && within(path, repos[j].root@) ==> parts(repos[j].root@).len()
                        <= parts(repos[i].root@).len()
            },
            None => forall|j: int|
                #![trigger repos[j]]
                0 <= j < n ==> !within(path, repos[j].root@),
        },
    decreases n,
{
    if n > 0 {
        owner_is_deepest(repos, path, n - 1);
    }
}

/// The index of the repo that owns `path`.
pub fn repo_of(repos: &Vec<Repo>, path: &str) -> (r: Option<usize>)
    ensures
        match r {
            Some(i) => i < repos@.len() && owner(repos@, path@) == Some(i as int),
            None => owner(repos@, path@) is None,
        },
{
    let mut best: Option<usize> = None;
    let mut depth: usize = 0;
    for i in 0..repos.len()
        invariant
            match best {
                Some(b) => {
                    &&& b < i
                    &&& owner_among(repos@, path@, i as int) == Some(b as int)
                    &&& depth == parts(repos@[b as int].root@).len()
                },
                None => owner_among(repos@, path@, i as int) is None,
            },
    {
        if is_within(path, repos[i].root.as_str()) {
            let d = parts_of(repos[i].root.as_str());
            assert(views(d@).len() == d@.len());
            if best.is_none() || depth < d.len() {
                best = Some(i);
                depth = d.len();
            }
        }
    }
    best
}

/// Whether a file belongs to a read at `repo` and `scope`: every file does when
/// neither narrows, else its owner must be the named repo, and one of the
/// caller's own when the scope asks for that.
pub open spec fn in_scope(
    repos: Seq<Repo>,
    repo: Option<Seq<char>>,
    scope: Scope,
    path: Seq<char>,
) -> bool {
    if repo is None && scope == Scope::All {
        true
    } else {
        match owner(repos, path) {
            None => false,
            Some(i) => {
                &&& repo matches Some(want) ==> repos[i].name@ == want
                &&& scope == Scope::Own ==> repos[i].own
            },
        }
    }
}

/// Decides whether a file belongs to a read at `repo` and `scope`.
pub fn node_in_scope(repos: &Vec<Repo>, repo: &Option<String>, scope: Scope, path: &str) -> (r: bool)
    ensures
        r == in_scope(repos@, opt_view(*repo), scope, path@),
{
    if repo.is_none() && scope == Scope::All {
        return true;
    }
    match repo_of(repos, path) {
        None => false,
        Some(i) => {
            let named = match repo {
                Some(want) => same(repos[i].name.as_str(), want.as_str()),
                None => true,
            };
            named && (scope == Scope::All || repos[i].own)
        },
    }
}

/// Whether files of this kind are nodes of the knowledge graph. The engine's own
/// configuration files are not knowledge.
pub open spec fn graph_node_kind(kind: FileKind) -> bool {
    kind == FileKind::TypeDef || kind == FileKind::Instance || kind == FileKind::Unclassified
}

pub fn is_graph_node_kind(kind: FileKind) -> (r: bool)
    ensures
        r == graph_node_kind(kind),
{
    matches!(kind, FileKind::TypeDef | FileKind::Instance | FileKind::Unclassified)
}

/// The name of the repo that owns `path`.
pub open spec fn owner_name(repos: Seq<Repo>, path: Seq<char>) -> Option<Seq<char>> {
    match owner(repos, path) {
        Some(i) => Some(repos[i].name@),
        None => None,
    }
}

pub fn repo_name_of(repos: &Vec<Repo>, path: &str) -> (r: Option<String>)
    ensures
        opt_view(r) == owner_name(repos@, path@),
{
    match repo_of(repos, path) {
        Some(i) => Some(repos[i].name.clone()),
        None => None,
    }
}

/// The catalogued file with this path, searching from `i` on.
pub open spec fn entry_from(catalog: Seq<CatalogEntry>, path: Seq<char>, i: int) -> Option<int>
    decreases catalog.len() - i,
{
    if i < 0 || i >= catalog.len() {
        None
    } else if same_path_spec(catalog[i].path@, path) {
        Some(i)
    } else {
        entry_from(catalog, path, i + 1)
    }
}

/// The catalogued file that `path` names.
pub open spec fn entry_of(catalog: Seq<CatalogEntry>, path: Seq<char>) -> Option<int> {
    entry_from(catalog, path, 0)
}

pub fn find_entry(catalog: &Vec<CatalogEntry>, path: &str) -> (r: Option<usize>)
    ensures
        match r {
            Some(i) => i < catalog@.len() && entry_of(catalog@, path@) == Some(i as int),
            None => entry_of(catalog@, path@) is None,
        },
{
    for i in 0..catalog.len()
        invariant
            entry_of(catalog@, path@) == entry_from(catalog@, path@, i as int),
    {
        if same_path(catalog[i].path.as_str(), path) {
            return Some(i);
        }
    }
    None
}

/// The role of a file on the wire; a file that is not catalogued is an asset.
pub open spec fn served_kind(catalog: Seq<CatalogEntry>, path: Seq<char>) -> Seq<char> {
    match entry_of(catalog, path) {
        Some(i) => catalog[i].served@,
        None => "asset"@,
    }
}

pub fn served_file_kind(catalog: &Vec<CatalogEntry>, path: &str) -> (r: &'static str)
    ensures
        r@ == served_kind(catalog@, path@),
{
    match find_entry(catalog, path) {
        Some(i) => catalog[i].served,
        None => "asset",
    }
}

/// The list of inbound references of a path, searching from `i` on.
pub open spec fn inbound_from(backlinks: Seq<Inbound>, path: Seq<char>, i: int) -> Option<int>
    decreases backlinks.len() - i,
{
    if i < 0 || i >= backlinks.len() {
        None
    } else if same_path_spec(backlinks[i].target@, path) {
        Some(i)
    } else {
        inbound_from(backlinks, path, i + 1)
    }
}

/// The references that reach a path.
pub open spec fn inbound(backlinks: Seq<Inbound>, path: Seq<char>) -> Seq<Backlink> {
    match inbound_from(backlinks, path, 0) {
        Some(i) => backlinks[i].edges@,
        None => Seq::empty(),
    }
}

/// The position of the references that reach a path.
pub fn find_inbound(backlinks: &Vec<Inbound>, path: &str) -> (r: Option<usize>)
    ensures
        match r {
            Some(i) => i < backlinks@.len() && inbound_from(backlinks@, path@, 0) == Some(i as int),
            None => inbound_from(backlinks@, path@, 0) is None,
        },
{
    for i in 0..backlinks.len()
        invariant
            inbound_from(backlinks@, path@, 0) == inbound_from(backlinks@, path@, i as int),
    {
        if same_path(backlinks[i].target.as_str(), path) {
            return Some(i);
        }
    }
    None
}

/// The digest that the engine holds of a file.
pub open spec fn held_hash(catalog: Seq<CatalogEntry>, path: Seq<char>) -> Option<String> {
    match entry_of(catalog, path) {
        Some(i) => catalog[i].hash,
        None => None,
    }
}

pub fn hash_of(catalog: &Vec<CatalogEntry>, path: &str) -> (r: Option<String>)
    ensures
        r == held_hash(catalog@, path@),
{
    match find_entry(catalog, path) {
        Some(i) => match &catalog[i].hash {
            Some(h) => Some(h.clone()),
            None => None,
        },
        None => None,
    }
}

} // verus!
