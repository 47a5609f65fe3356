//! The reads: which are refused, which are answered from the knowledge base alone,
//! and what the others ask for.

use crate::channels::lifecycle::{lifecycle_result, make_lifecycle_result};
use crate::commits::meta::{
    check_commits, check_history, split_commit_from, CommitRef,
};
use crate::commits::recent::{effective_limit, DEFAULT_RECENT_COMMITS_LIMIT};
use crate::config_read::ConfigScope;
use crate::diagnostics::{
    abs_view, admitted, diagnostic_counts_view, is_count, scoped_diagnostics, serve_diagnostics,
    served_at, settled_scope, severity_label, Diagnostic, DiagnosticCountsView, DiagnosticsFilterArgs,
    DiagnosticsScope,
};
use crate::edges::{backlink_list, backlinks_view};
use crate::frames::{says_invalid, says_not_ready, says_ready, Response, SCHEMA_VERSION};
use crate::graph::hubs::{hub_ranking, is_hub_page, Hub};
use crate::graph::links::{link_graph_view, LinkGraphView};
use crate::graph::nodes::{edges_of, ints, nodes_of};
use crate::graph::shape::{graph_shape_view, is_shape, GraphShapeView};
use crate::graph::types::{type_graph_view, EdgeClass, EdgeClasses, TypeGraphView};
use crate::json::{jv, render_list, rendered_list, Json, JsonView, ObjectBuilder, Rendered};
use crate::listing::{
    children_view, child_dirs, child_files, dir_entries, dir_entry_views, files_in_scope, files_view,
    is_member_in_scope, lists_entry, top_level_dirs, top_level_dirs_view, top_level_views, DirEntry,
    FileEntry, TopLevelDir,
};
use crate::model::{inbound, resolved_scope, KnowledgeBase, Repo, Scope};
use crate::mutation::preview::PreviewMutationArgs;
use crate::neighborhood::{
    check_neighborhood, neighborhood_error, node_bound, NeighborhoodArgs, NEIGHBORHOOD_MAX_NODES,
};
use crate::paging::{limit_view, page, page_of};
use crate::paths::{abs_arg, absolute, joined_path};
use crate::text::{escaped, opt_view, same};
use vstd::prelude::*;

verus! {

/// The hubs that are told when the caller names no bound.
pub const HUB_LIMIT: usize = 20;

/// The arguments of the `config` read.
#[derive(Debug)]
pub struct ConfigArgs {
    pub scope: ConfigScope,
    pub consumer: String,
    pub file: String,
    pub ty: String,
    pub root: Option<String>,
}

/// The reads, with their arguments.
#[allow(inconsistent_fields)]
pub enum Request {
    Shutdown,
    Lifecycle,
    Diagnostics(DiagnosticsFilterArgs),
    DiagnosticCounts(DiagnosticsFilterArgs),
    Types {
        repo: Option<String>,
        summary: bool,
        scope: Scope,
        limit: Option<usize>,
        offset: Option<usize>,
    },
    TypeCounts { repo: Option<String>, scope: Scope },
    TypeTree { scope: Scope },
    Type { name: String },
    TypeBatch { names: Vec<String> },
    InstancesOf { ty: String, origins: Option<Vec<String>>, instance: bool, body: bool },
    Imports { scope: Scope },
    Subtypes { base: String, scope: Scope },
    Instances,
    Candidates { summary: bool, limit: Option<usize>, offset: Option<usize> },
    CandidateCounts,
    InstanceCounts { repo: Option<String>, scope: Scope },
    Instance { path: String },
    ReferencesIn { path: String },
    ReferencesOut { path: String },
    Pins { target: String, source_type: String },
    CommitMeta { commits: Vec<CommitRef> },
    FileHistory { path: String, repo: Option<String> },
    RecentCommits { members: Option<Vec<String>>, limit: Option<usize>, since: Option<String> },
    Neighborhood(NeighborhoodArgs),
    ResolveTarget { target: String, origin: Option<String> },
    ResolveBlockId { target: String, block_id: String, origin: Option<String> },
    ResolveAnchor { target: String, anchor: String, origin: Option<String> },
    Anchors { target: String, origin: Option<String> },
    BlockIds { target: String, origin: Option<String> },
    Files { repo: Option<String>, scope: Scope, limit: Option<usize>, offset: Option<usize> },
    DirEntries { dir: String },
    Frontmatter { path: String },
    Content { path: String },
    SemanticTokens { path: String },
    ValidateValue { ty: String, value: Json, repo: Option<String> },
    TopLevelDirs { repo: Option<String>, scope: Option<Scope> },
    Members { repo: Option<String> },
    Overview { repo: Option<String>, scope: Option<Scope> },
    TypeClosure { name: String, repo: Option<String> },
    Hubs {
        repo: Option<String>,
        scope: Option<Scope>,
        limit: Option<usize>,
        offset: Option<usize>,
    },
    GraphShape { repo: Option<String>, scope: Option<Scope>, orphan_paths: bool },
    LinkGraph { repo: Option<String>, scope: Option<Scope> },
    TypeGraph { repo: Option<String>, scope: Option<Scope>, edges: Option<Vec<EdgeClass>> },
    Ignores { repo: Option<String>, resolve: bool },
    ResolveMember { path: String },
    DeviceConfig,
    Config(ConfigArgs),
    PreviewMutation(PreviewMutationArgs),
}

/// A member by its name and root.
#[derive(Debug)]
pub struct MemberRoot {
    pub name: String,
    pub root: String,
}

/// What a read asks for that is not in the knowledge base as this layer holds it,
/// with its arguments settled: paths absolute, scopes and bounds decided.
pub enum Query {
    Types {
        repo: Option<String>,
        own: bool,
        summary: bool,
        limit: Option<usize>,
        offset: usize,
    },
    TypeCounts { repo: Option<String>, own: bool },
    TypeTree { own: bool },
    Type { name: String },
    TypeBatch { names: Vec<String> },
    InstancesOf { ty: String, origins: Option<Vec<String>>, instance: bool, body: bool },
    Imports { own: bool },
    Subtypes { base: String, own: bool },
    Instances,
    Candidates { summary: bool, limit: Option<usize>, offset: usize },
    CandidateCounts,
    InstanceCounts { repo: Option<String>, own: bool },
    Instance { path: String },
    ReferencesOut { path: String },
    Pins { target: String, source_type: String },
    CommitMeta { commits: Vec<CommitRef> },
    FileHistory { path: String, repo: Option<String> },
    RecentCommits { members: Option<Vec<String>>, limit: Option<usize>, since: Option<String> },
    Neighborhood { seed: String, args: NeighborhoodArgs, max_nodes: usize },
    ResolveTarget { target: String, origin: Option<String> },
    ResolveBlockId { target: String, block_id: String, origin: Option<String> },
    ResolveAnchor { target: String, anchor: String, origin: Option<String> },
    Anchors { target: String, origin: Option<String> },
    BlockIds { target: String, origin: Option<String> },
    Frontmatter { path: String },
    Content { path: String },
    SemanticTokens { path: String },
    ValidateValue { ty: String, value: Json, repo: Option<String> },
    Members { repo: Option<String> },
    Overview { repo: Option<String>, scope: Scope },
    TypeClosure { name: String, repo: Option<String> },
    Ignores { roots: Vec<MemberRoot>, resolve: bool },
    ResolveMember { path: String },
    DeviceConfig,
}

impl Query {
    /// The name under which the result holds the payload; none for a read whose
    /// payload is the result itself.
    pub open spec fn envelope_spec(self) -> Option<Seq<char>> {
        match self {
            Query::Types { .. } => Some("types"@),
            Query::TypeCounts { .. } => Some("type_counts"@),
            Query::TypeTree { .. } => Some("type_tree"@),
            Query::Type { .. } => Some("type"@),
            Query::TypeBatch { .. } => Some("type_batch"@),
            Query::InstancesOf { .. } => Some("instances_of"@),
            Query::Imports { .. } => Some("imports"@),
            Query::Subtypes { .. } => None,
            Query::Instances => None,
            Query::Candidates { .. } => None,
            Query::CandidateCounts => Some("candidate_counts"@),
            Query::InstanceCounts { .. } => Some("instance_counts"@),
            Query::Instance { .. } => Some("instance"@),
            Query::ReferencesOut { .. } => Some("references_out"@),
            Query::Pins { .. } => Some("pins"@),
            Query::CommitMeta { .. } => Some("commit_meta"@),
            Query::FileHistory { .. } => Some("file_history"@),
            Query::RecentCommits { .. } => Some("recent_commits"@),
            Query::Neighborhood { .. } => Some("neighborhood"@),
            Query::ResolveTarget { .. } => Some("resolve_target"@),
            Query::ResolveBlockId { .. } => Some("resolve_block_id"@),
            Query::ResolveAnchor { .. } => Some("resolve_anchor"@),
            Query::Anchors { .. } => Some("anchors"@),
            Query::BlockIds { .. } => Some("block_ids"@),
            Query::Frontmatter { .. } => Some("frontmatter"@),
            Query::Content { .. } => Some("content"@),
            Query::SemanticTokens { .. } => Some("semantic_tokens"@),
            Query::ValidateValue { .. } => Some("validate_value"@),
            Query::Members { .. } => Some("members"@),
            Query::Overview { .. } => Some("overview"@),
            Query::TypeClosure { .. } => Some("type_closure"@),
            Query::Ignores { .. } => None,
            Query::ResolveMember { .. } => Some("resolve_member"@),
            Query::DeviceConfig => Some("device_config"@),
        }
    }

    pub fn envelope(&self) -> (r: Option<&'static str>)
        ensures
            (match r {
                Some(s) => Some(s@),
                None => None,
            }) == self.envelope_spec(),
    {
        match self {
            Query::Types { .. } => Some("types"),
            Query::TypeCounts { .. } => Some("type_counts"),
            Query::TypeTree { .. } => Some("type_tree"),
            Query::Type { .. } => Some("type"),
            Query::TypeBatch { .. } => Some("type_batch"),
            Query::InstancesOf { .. } => Some("instances_of"),
            Query::Imports { .. } => Some("imports"),
            Query::Subtypes { .. } => None,
            Query::Instances => None,
            Query::Candidates { .. } => None,
            Query::CandidateCounts => Some("candidate_counts"),
            Query::InstanceCounts { .. } => Some("instance_counts"),
            Query::Instance { .. } => Some("instance"),
            Query::ReferencesOut { .. } => Some("references_out"),
            Query::Pins { .. } => Some("pins"),
            Query::CommitMeta { .. } => Some("commit_meta"),
            Query::FileHistory { .. } => Some("file_history"),
            Query::RecentCommits { .. } => Some("recent_commits"),
            Query::Neighborhood { .. } => Some("neighborhood"),
            Query::ResolveTarget { .. } => Some("resolve_target"),
            Query::ResolveBlockId { .. } => Some("resolve_block_id"),
            Query::ResolveAnchor { .. } => Some("resolve_anchor"),
            Query::Anchors { .. } => Some("anchors"),
            Query::BlockIds { .. } => Some("block_ids"),
            Query::Frontmatter { .. } => Some("frontmatter"),
            Query::Content { .. } => Some("content"),
            Query::SemanticTokens { .. } => Some("semantic_tokens"),
            Query::ValidateValue { .. } => Some("validate_value"),
            Query::Members { .. } => Some("members"),
            Query::Overview { .. } => Some("overview"),
            Query::TypeClosure { .. } => Some("type_closure"),
            Query::Ignores { .. } => None,
            Query::ResolveMember { .. } => Some("resolve_member"),
            Query::DeviceConfig => Some("device_config"),
        }
    }
}

/// The number, or another where there is none.
pub open spec fn or(n: Option<usize>, other: usize) -> usize {
    match n {
        Some(k) => k,
        None => other,
    }
}

/// A payload under the name of its read.
pub open spec fn under(verb: Seq<char>, payload: JsonView) -> JsonView {
    JsonView::Object(seq![(verb, payload)])
}

/// The reply with a payload under the name of its read: a read that finds nothing
/// carries `null` there, so that a miss is reached like a hit.
pub fn enveloped(version: u64, verb: &str, payload: Json) -> (r: Response)
    ensures
        says_ready(r, version, under(verb@, jv(payload))),
{
    let mut b = ObjectBuilder::new();
    b.put(verb, payload);
    assert(b@ =~= seq![(verb@, jv(payload))]);
    Response::ready(version, b.done())
}

/// The reply to a read whose payload was brought.
pub fn deliver(version: u64, query: &Query, payload: Json) -> (r: Response)
    ensures
        says_ready(
            r,
            version,
            match query.envelope_spec() {
                Some(verb) => under(verb, jv(payload)),
                None => jv(payload),
            },
        ),
{
    match query.envelope() {
        Some(verb) => enveloped(version, verb, payload),
        None => Response::ready(version, payload),
    }
}

/// The knowledge base with its version.
pub struct Held<'a> {
    pub version: u64,
    pub kb: &'a KnowledgeBase,
    pub diagnostics: &'a Vec<Diagnostic>,
}

/// What a read is answered from.
pub struct Standing<'a> {
    pub root: &'a str,
    /// The states of the engine and of the knowledge base, by name.
    pub engine: &'a str,
    pub base: &'a str,
    pub ready: bool,
    pub version: Option<u64>,
    /// The kinds of edges that a walk knows.
    pub walk_kinds: &'a Vec<String>,
    /// The knowledge base, when it is ready.
    pub held: Option<Held<'a>>,
}

/// What becomes of a read.
pub enum Handled {
    /// It is answered.
    Reply(Response),
    /// It is answered, and the daemon shuts down.
    ShutDown(Response),
    /// The payload is to be brought.
    Fetch { version: u64, query: Query },
    /// The shape of the graph is to be told with its density.
    Shape { version: u64, view: GraphShapeView },
    /// The read of a configuration file goes its own way.
    Config(ConfigArgs),
    /// The preview of a mutation goes its own way.
    Preview(PreviewMutationArgs),
}

/// Whether a reply tells a state that exists even while the knowledge base is not
/// ready.
pub open spec fn probes(r: Response, s: Standing, result: JsonView) -> bool {
    &&& r.kind@ == "response"@
    &&& r.schema_version == SCHEMA_VERSION
    &&& r.id is None
    &&& r.ready == s.ready
    &&& r.version == s.version
    &&& r.result is Some && jv(r.result->0) == result
    &&& r.error is None
}

fn probe(s: &Standing, result: Json) -> (r: Response)
    ensures
        probes(r, *s, jv(result)),
{
    Response {
        kind: "response",
        schema_version: SCHEMA_VERSION,
        id: None,
        ready: s.ready,
        version: s.version,
        result: Some(result),
        error: None,
    }
}

/// Why a read is refused, whether or not the knowledge base is ready.
pub open spec fn refusal(request: Request, walk_kinds: Seq<String>) -> Option<Seq<char>> {
    match request {
        Request::CommitMeta { commits } => match split_commit_from(commits@, 0) {
            Some(bad) => Some(
                "commit '"@ + escaped(bad)
                    + "' contains a newline; a commit-ish is a single line"@,
            ),
            None => None,
        },
        Request::FileHistory { path, repo } => if repo is Some && absolute(path@) {
            Some(
                "an absolute `path` cannot be combined with `repo`; `repo` names the root a relative `path` resolves against"@,
            )
        } else {
            None
        },
        Request::Neighborhood(args) => neighborhood_error(args, walk_kinds),
        _ => None,
    }
}

/// Checks the arguments of a read.
pub fn refuse(request: &Request, walk_kinds: &Vec<String>) -> (r: Option<String>)
    ensures
        opt_view(r) == refusal(*request, walk_kinds@),
{
    match request {
        Request::CommitMeta { commits } => check_commits(commits),
        Request::FileHistory { path, repo } => check_history(path.as_str(), repo),
        Request::Neighborhood(args) => check_neighborhood(args, walk_kinds),
        _ => None,
    }
}

/// Whether a scope is what the arguments of a diagnostics read settle on.
pub open spec fn settles(args: DiagnosticsFilterArgs, root: Seq<char>, scope: DiagnosticsScope) -> bool {
    &&& opt_view(scope.path) == abs_view(root, args.path)
    &&& opt_view(scope.path_prefix) == abs_view(root, args.path_prefix)
    &&& scope.severity == args.severity
    &&& scope.code == args.code
    &&& scope.repo == args.repo
    &&& scope.scope == settled_scope(args)
}

/// The scope of a read about what the caller can act on: as the caller said, else
/// everything once a repo is named, else the caller's own.
pub open spec fn acting_scope(scope: Option<Scope>, repo: Option<String>) -> Scope {
    match scope {
        Some(s) => s,
        None => if repo is Some {
            Scope::All
        } else {
            Scope::Own
        },
    }
}

/// Whether a path is an argument made absolute.
pub open spec fn made_absolute(p: String, root: Seq<char>, arg: Seq<char>) -> bool {
    p@ == joined_path(root, arg)
}

pub open spec fn origin_absolute(p: Option<String>, root: Seq<char>, arg: Option<String>) -> bool {
    match (p, arg) {
        (Some(a), Some(b)) => made_absolute(a, root, b@),
        (None, None) => true,
        _ => false,
    }
}

/// The members with files that a repo argument names, among the first `n`.
pub open spec fn member_roots(repos: Seq<Repo>, repo: Option<Seq<char>>, n: int) -> Seq<
    (Seq<char>, Seq<char>),
>
    decreases n,
{
    if n <= 0 {
        Seq::empty()
    } else if !repos[n - 1].builtin && (repo is None || repo == Some(repos[n - 1].name@)) {
        member_roots(repos, repo, n - 1).push((repos[n - 1].name@, repos[n - 1].root@))
    } else {
        member_roots(repos, repo, n - 1)
    }
}

pub open spec fn root_views(v: Seq<MemberRoot>) -> Seq<(Seq<char>, Seq<char>)> {
    v.map_values(|m: MemberRoot| (m.name@, m.root@))
}

fn ignores_members(repos: &Vec<Repo>, repo: &Option<String>) -> (r: Vec<MemberRoot>)
    ensures
        root_views(r@) == member_roots(repos@, opt_view(*repo), repos@.len() as int),
{
    let mut out: Vec<MemberRoot> = Vec::new();
    assert(root_views(out@) =~= Seq::empty());
    for i in 0..repos.len()
        invariant
            root_views(out@) == member_roots(repos@, opt_view(*repo), i as int),
    {
        if is_member_in_scope(&repos[i], repo, Scope::All) {
            let m = MemberRoot { name: repos[i].name.clone(), root: repos[i].root.clone() };
            let ghost before = out@;
            out.push(m);
            assert(root_views(out@) =~= root_views(before).push((m.name@, m.root@)));
        }
    }
    out
}

/// Whether a query is what a read asks for.
pub open spec fn asks(request: Request, s: Standing, repos: Seq<Repo>, q: Query) -> bool {
    let root = s.root@;
    match (request, q) {
        (
            Request::Types { repo, summary, scope, limit, offset },
            Query::Types { repo: r2, own, summary: s2, limit: l2, offset: o2 },
        ) => r2 == repo && own == (scope == Scope::Own) && s2 == summary && l2 == limit && o2
            == or(offset, 0),
        (Request::TypeCounts { repo, scope }, Query::TypeCounts { repo: r2, own }) => r2 == repo
            && own == (scope == Scope::Own),
        (Request::TypeTree { scope }, Query::TypeTree { own }) => own == (scope == Scope::Own),
        (Request::Type { name }, Query::Type { name: n2 }) => n2 == name,
        (Request::TypeBatch { names }, Query::TypeBatch { names: n2 }) => n2 == names,
        (
            Request::InstancesOf { ty, origins, instance, body },
            Query::InstancesOf { ty: t2, origins: o2, instance: i2, body: b2 },
        ) => t2 == ty && o2 == origins && i2 == instance && b2 == body,
        (Request::Imports { scope }, Query::Imports { own }) => own == (scope == Scope::Own),
        (Request::Subtypes { base, scope }, Query::Subtypes { base: b2, own }) => b2 == base && own
            == (scope == Scope::Own),
        (Request::Instances, Query::Instances) => true,
        (
            Request::Candidates { summary, limit, offset },
            Query::Candidates { summary: s2, limit: l2, offset: o2 },
        ) => s2 == summary && l2 == limit && o2 == or(offset, 0),
        (Request::CandidateCounts, Query::CandidateCounts) => true,
        (Request::InstanceCounts { repo, scope }, Query::InstanceCounts { repo: r2, own }) => r2
            == repo && own == (scope == Scope::Own),
        (Request::Instance { path }, Query::Instance { path: p2 }) => made_absolute(
            p2,
            root,
            path@,
        ),
        (Request::ReferencesOut { path }, Query::ReferencesOut { path: p2 }) => made_absolute(
            p2,
            root,
            path@,
        ),
        (
            Request::Pins { target, source_type },
            Query::Pins { target: t2, source_type: s2 },
        ) => t2 == target && s2 == source_type,
        (Request::CommitMeta { commits }, Query::CommitMeta { commits: c2 }) => c2 == commits,
        (Request::FileHistory { path, repo }, Query::FileHistory { path: p2, repo: r2 }) => p2
            == path && r2 == repo,
        (
            Request::RecentCommits { members, limit, since },
            Query::RecentCommits { members: m2, limit: l2, since: s2 },
        ) => m2 == members && s2 == since && l2 == (match limit {
            Some(n) => Some(n),
            None => if since is None {
                Some(DEFAULT_RECENT_COMMITS_LIMIT)
            } else {
                None
            },
        }),
        (
            Request::Neighborhood(args),
            Query::Neighborhood { seed, args: a2, max_nodes },
        ) => made_absolute(seed, root, args.path@) && a2 == args && max_nodes
            == or(args.max_nodes, NEIGHBORHOOD_MAX_NODES),
        (
            Request::ResolveTarget { target, origin },
            Query::ResolveTarget { target: t2, origin: o2 },
        ) => t2 == target && origin_absolute(o2, root, origin),
        (
            Request::ResolveBlockId { target, block_id, origin },
            Query::ResolveBlockId { target: t2, block_id: b2, origin: o2 },
        ) => t2 == target && b2 == block_id && origin_absolute(o2, root, origin),
        (
            Request::ResolveAnchor { target, anchor, origin },
            Query::ResolveAnchor { target: t2, anchor: a2, origin: o2 },
        ) => t2 == target && a2 == anchor && origin_absolute(o2, root, origin),
        (Request::Anchors { target, origin }, Query::Anchors { target: t2, origin: o2 }) => t2
            == target && origin_absolute(o2, root, origin),
        (Request::BlockIds { target, origin }, Query::BlockIds { target: t2, origin: o2 }) => t2
            == target && origin_absolute(o2, root, origin),
        (Request::Frontmatter { path }, Query::Frontmatter { path: p2 }) => made_absolute(
            p2,
            root,
            path@,
        ),
        (Request::Content { path }, Query::Content { path: p2 }) => made_absolute(p2, root, path@),
        (Request::SemanticTokens { path }, Query::SemanticTokens { path: p2 }) => made_absolute(
            p2,
            root,
            path@,
        ),
        (
            Request::ValidateValue { ty, value, repo },
            Query::ValidateValue { ty: t2, value: v2, repo: r2 },
        ) => t2 == ty && v2 == value && r2 == repo,
        (Request::Members { repo }, Query::Members { repo: r2 }) => r2 == repo,
        (Request::Overview { repo, scope }, Query::Overview { repo: r2, scope: s2 }) => r2 == repo
            && s2 == acting_scope(scope, repo),
        (Request::TypeClosure { name, repo }, Query::TypeClosure { name: n2, repo: r2 }) => n2
            == name && r2 == repo,
        (Request::Ignores { repo, resolve }, Query::Ignores { roots, resolve: v2 }) => v2
            == resolve && root_views(roots@) == member_roots(
            repos,
            opt_view(repo),
            repos.len() as int,
        ),
        (Request::ResolveMember { path }, Query::ResolveMember { path: p2 }) => made_absolute(
            p2,
            root,
            path@,
        ),
        (Request::DeviceConfig, Query::DeviceConfig) => true,
        _ => false,
    }
}

/// Whether a reply carries this payload under the name of its read.
pub open spec fn tells(r: Handled, version: u64, verb: Seq<char>, payload: JsonView) -> bool {
    r matches Handled::Reply(reply) && says_ready(reply, version, under(verb, payload))
}

/// Whether the counts are those of the diagnostics that a scope admits.
pub open spec fn counts_of(v: DiagnosticCountsView, repos: Seq<Repo>, all: Seq<Diagnostic>, scope: DiagnosticsScope) -> bool {
    let at = admitted(repos, all, scope);
    &&& v.total == at.len()
    &&& is_count(v.by_severity@, at.map_values(|i: int| severity_label(all[i].severity)))
    &&& is_count(v.by_code@, at.map_values(|i: int| all[i].code@))
}

/// Whether these are the catalogued files of a read.
pub open spec fn lists_files(
    v: Seq<FileEntry>,
    kb: KnowledgeBase,
    repo: Option<Seq<char>>,
    scope: Scope,
    limit: Option<usize>,
    offset: usize,
) -> bool {
    let at = page_of(
        files_in_scope(kb.repos@, kb.catalog@, repo, scope),
        offset as nat,
        limit_view(limit),
    );
    &&& v.len() == at.len()
    &&& forall|k: int|
        #![trigger v[k]]
        0 <= k < v.len() ==> lists_entry(
            v[k],
            kb.repos@,
            kb.catalog@[at[k]],
        )
}

/// Whether these are the hubs of a read.
pub open spec fn lists_hubs(
    v: Seq<Hub>,
    kb: KnowledgeBase,
    repo: Option<Seq<char>>,
    scope: Scope,
    limit: usize,
    offset: usize,
) -> bool {
    is_hub_page(v, kb, repo, scope, limit as nat, offset as nat)
}

/// Whether this is the reference graph of a read.
pub open spec fn is_link_graph(g: LinkGraphView, kb: KnowledgeBase, repo: Option<String>, scope: Scope) -> bool {
    let nodes = nodes_of(kb, opt_view(repo), scope);
    let edges = edges_of(kb, nodes);
    &&& g.repo == repo
    &&& g.scope@ == scope.label_spec()
    &&& crate::sorting::sorted(g.nodes@)
    &&& crate::sorting::sorted(g.edges@)
    &&& crate::graph::links::node_views(g.nodes@).to_multiset() == crate::graph::links::node_rows(
        kb,
        nodes,
        edges,
    ).to_multiset()
    &&& crate::graph::links::edge_views(g.edges@).to_multiset() == crate::graph::links::edge_rows(
        kb,
        nodes,
        edges,
    ).to_multiset()
}

/// Whether this is the type graph of a read.
pub open spec fn is_type_graph(
    g: TypeGraphView,
    kb: KnowledgeBase,
    repo: Option<String>,
    scope: Scope,
    classes: EdgeClasses,
) -> bool {
    &&& g.repo == repo
    &&& g.scope@ == scope.label_spec()
    &&& crate::sorting::sorted(g.nodes@)
    &&& crate::graph::types::type_node_views(g.nodes@).to_multiset()
        == crate::graph::types::type_node_rows(
        kb,
        crate::graph::types::all_nodes(kb, opt_view(repo), scope, classes),
    ).to_multiset()
    &&& crate::graph::types::folds(
        g.edges@,
        crate::graph::types::all_mentions(kb, opt_view(repo), scope, classes),
    )
}

/// Whether this is the shape of the graph of a read.
pub open spec fn is_graph_shape(
    v: GraphShapeView,
    kb: KnowledgeBase,
    repo: Option<String>,
    scope: Scope,
    orphan_paths: bool,
) -> bool {
    let nodes = nodes_of(kb, opt_view(repo), scope);
    &&& v.repo == repo
    &&& v.scope@ == scope.label_spec()
    &&& is_shape(v, kb, nodes, edges_of(kb, nodes), orphan_paths)
}

/// The classes of edges that a read draws.
pub open spec fn drawn_classes(edges: Option<Vec<EdgeClass>>) -> EdgeClasses {
    match edges {
        None => EdgeClasses { subtype: true, field_type: true, instance_of: false, meta: false },
        Some(list) => EdgeClasses {
            subtype: list@.contains(EdgeClass::Subtype),
            field_type: list@.contains(EdgeClass::FieldType),
            instance_of: list@.contains(EdgeClass::InstanceOf),
            meta: list@.contains(EdgeClass::Meta),
        },
    }
}

/// What becomes of a read that is not refused, once the knowledge base is ready.
pub open spec fn answered(request: Request, s: Standing, h: Held, r: Handled) -> bool {
    let kb = *h.kb;
    let root = s.root@;
    match request {
        Request::Diagnostics(args) => exists|scope: DiagnosticsScope| #[trigger]
            settles(args, root, scope) && tells(
                r,
                h.version,
                "diagnostics"@,
                served_at(
                    h.diagnostics@,
                    page_of(
                        admitted(kb.repos@, h.diagnostics@, scope),
                        or(args.offset, 0) as nat,
                        limit_view(args.limit),
                    ),
                ),
            ),
        Request::DiagnosticCounts(args) => exists|scope: DiagnosticsScope, v: DiagnosticCountsView|
            settles(args, root, scope) && #[trigger] counts_of(
                v,
                kb.repos@,
                h.diagnostics@,
                scope,
            ) && tells(r, h.version, "diagnostic_counts"@, v.rendered()),
        Request::ReferencesIn { path } => tells(
            r,
            h.version,
            "references_in"@,
            JsonView::List(
                backlink_list(
                    kb.repos@,
                    joined_path(root, path@),
                    inbound(kb.backlinks@, joined_path(root, path@)),
                ),
            ),
        ),
        Request::Files { repo, scope, limit, offset } => exists|v: Seq<FileEntry>| #[trigger]
            lists_files(v, kb, opt_view(repo), scope, limit, or(offset, 0)) && tells(
                r,
                h.version,
                "files"@,
                rendered_list(v),
            ),
        Request::DirEntries { dir } => exists|v: Seq<DirEntry>| #[trigger]
            dir_entry_views(v) == dir_entries(
                joined_path(root, dir@),
                child_dirs(kb.catalog@, joined_path(root, dir@), kb.catalog@.len() as int),
            ) + child_files(kb.catalog@, joined_path(root, dir@), kb.catalog@.len() as int) && tells(
                r,
                h.version,
                "dir_entries"@,
                rendered_list(v),
            ),
        Request::TopLevelDirs { repo, scope } => exists|v: Seq<TopLevelDir>| #[trigger]
            top_level_views(v) == top_level_dirs(
                kb.repos@,
                kb.catalog@,
                opt_view(repo),
                acting_scope(scope, repo),
                kb.repos@.len() as int,
            ) && tells(r, h.version, "top_level_dirs"@, rendered_list(v)),
        Request::Hubs { repo, scope, limit, offset } => exists|v: Seq<Hub>| #[trigger]
            lists_hubs(
                v,
                kb,
                opt_view(repo),
                acting_scope(scope, repo),
                or(limit, HUB_LIMIT),
                or(offset, 0),
            ) && tells(r, h.version, "hubs"@, rendered_list(v)),
        Request::GraphShape { repo, scope, orphan_paths } => r matches Handled::Shape {
            version,
            view,
        } && version == h.version && is_graph_shape(
            view,
            kb,
            repo,
            acting_scope(scope, repo),
            orphan_paths,
        ),
        Request::LinkGraph { repo, scope } => exists|g: LinkGraphView| #[trigger]
            is_link_graph(g, kb, repo, acting_scope(scope, repo)) && tells(
                r,
                h.version,
                "link_graph"@,
                g.rendered(),
            ),
        Request::TypeGraph { repo, scope, edges } => exists|g: TypeGraphView| #[trigger]
            is_type_graph(g, kb, repo, acting_scope(scope, repo), drawn_classes(edges)) && tells(
                r,
                h.version,
                "type_graph"@,
                g.rendered(),
            ),
        _ => r matches Handled::Fetch { version, query } && version == h.version && asks(
            request,
            s,
            kb.repos@,
            query,
        ),
    }
}

/// What becomes of a read. Shutting down and the lifecycle are told in any state;
/// arguments are judged before the knowledge base is looked at.
pub open spec fn handled(request: Request, s: Standing, r: Handled) -> bool {
    match request {
        Request::Shutdown => r matches Handled::ShutDown(reply) && probes(
            reply,
            s,
            under("shutting_down"@, JsonView::Bool(true)),
        ),
        Request::Lifecycle => r matches Handled::Reply(reply) && probes(
            reply,
            s,
            lifecycle_result(s.engine@, s.base@),
        ),
        Request::Config(args) => r == Handled::Config(args),
        Request::PreviewMutation(args) => r == Handled::Preview(args),
        _ => match refusal(request, s.walk_kinds@) {
            Some(m) => r matches Handled::Reply(reply) && says_invalid(reply, m),
            None => match s.held {
                None => r matches Handled::Reply(reply) && says_not_ready(reply),
                Some(h) => answered(request, s, h, r),
            },
        },
    }
}

fn absolute_origin(root: &str, origin: &Option<String>) -> (r: Option<String>)
    ensures
        origin_absolute(r, root@, *origin),
{
    match origin {
        Some(o) => Some(abs_arg(root, o.as_str())),
        None => None,
    }
}

fn or_zero(n: Option<usize>) -> (r: usize)
    ensures
        r == or(n, 0),
{
    match n {
        Some(k) => k,
        None => 0,
    }
}

fn fetch(h: &Held, query: Query) -> (r: Handled)
    ensures
        r == (Handled::Fetch { version: h.version, query }),
{
    Handled::Fetch { version: h.version, query }
}

/// Decides a read.
pub fn handle_request(request: Request, s: &Standing) -> (r: Handled)
    ensures
        handled(request, *s, r),
{
    match &request {
        Request::Shutdown => {
            let mut b = ObjectBuilder::new();
            b.put("shutting_down", Json::Bool(true));
            assert(b@ =~= seq![("shutting_down"@, JsonView::Bool(true))]);
            return Handled::ShutDown(probe(s, b.done()));
        },
        Request::Lifecycle => {
            return Handled::Reply(probe(s, make_lifecycle_result(s.engine, s.base)));
        },
        _ => {},
    }
    match request {
        Request::Config(args) => Handled::Config(args),
        Request::PreviewMutation(args) => Handled::Preview(args),
        other => {
            if let Some(m) = refuse(&other, s.walk_kinds) {
                return Handled::Reply(Response::invalid(m));
            }
            match &s.held {
                None => Handled::Reply(Response::not_ready()),
                Some(h) => answer(other, s, h),
            }
        },
    }
}

/// Answers a read from the knowledge base, or says what it asks for.
fn answer(request: Request, s: &Standing, h: &Held) -> (r: Handled)
    requires
        !(request is Shutdown) && !(request is Lifecycle) && !(request is Config) && !(
        request is PreviewMutation),
    ensures
        answered(request, *s, *h, r),
{
    let kb = h.kb;
    match request {
        Request::Diagnostics(args) => answer_diagnostics(args, s, h),
        Request::DiagnosticCounts(args) => {
            let scope = args.resolve(s.root);
            let v = diagnostic_counts_view(&kb.repos, h.diagnostics, &scope);
            assert(settles(args, s.root@, scope));
            assert(counts_of(v, kb.repos@, h.diagnostics@, scope));
            Handled::Reply(enveloped(h.version, "diagnostic_counts", v.render()))
        },
        Request::ReferencesIn { path } => {
            let target = abs_arg(s.root, path.as_str());
            let v = backlinks_view(&kb.repos, &kb.backlinks, target.as_str());
            Handled::Reply(enveloped(h.version, "references_in", v))
        },
        Request::Files { repo, scope, limit, offset } => answer_files(
            repo,
            scope,
            limit,
            offset,
            s,
            h,
        ),
        Request::DirEntries { dir } => {
            let at = abs_arg(s.root, dir.as_str());
            let v = children_view(&kb.catalog, at.as_str());
            Handled::Reply(enveloped(h.version, "dir_entries", render_list(&v)))
        },
        Request::TopLevelDirs { repo, scope } => {
            let own = resolved_scope(scope, &repo);
            let v = top_level_dirs_view(&kb.repos, &kb.catalog, &repo, own);
            Handled::Reply(enveloped(h.version, "top_level_dirs", render_list(&v)))
        },
        Request::Hubs { repo, scope, limit, offset } => {
            let own = resolved_scope(scope, &repo);
            let bound: usize = match limit {
                Some(n) => n,
                None => HUB_LIMIT,
            };
            let v = hub_ranking(kb, &repo, own, bound, or_zero(offset));
            assert(own == acting_scope(scope, repo));
            assert(bound == or(limit, HUB_LIMIT));
            assert(lists_hubs(v@, *kb, opt_view(repo), own, bound, or(offset, 0)));
            Handled::Reply(enveloped(h.version, "hubs", render_list(&v)))
        },
        Request::GraphShape { repo, scope, orphan_paths } => {
            let own = resolved_scope(scope, &repo);
            let view = graph_shape_view(kb, &repo, own, orphan_paths);
            Handled::Shape { version: h.version, view }
        },
        Request::LinkGraph { repo, scope } => {
            let own = resolved_scope(scope, &repo);
            let g = link_graph_view(kb, &repo, own);
            assert(is_link_graph(g, *kb, repo, own));
            Handled::Reply(enveloped(h.version, "link_graph", g.render()))
        },
        Request::TypeGraph { repo, scope, edges } => {
            let own = resolved_scope(scope, &repo);
            let ghost classes = drawn_classes(edges);
            let drawn = EdgeClasses::from_arg(edges);
            let g = type_graph_view(kb, &repo, own, drawn);
            assert(drawn == classes);
            assert(is_type_graph(g, *kb, repo, own, classes));
            Handled::Reply(enveloped(h.version, "type_graph", g.render()))
        },
        other => {
            let q = query_for(other, s, &kb.repos);
            fetch(h, q)
        },
    }
}

fn answer_files(
    repo: Option<String>,
    scope: Scope,
    limit: Option<usize>,
    offset: Option<usize>,
    s: &Standing,
    h: &Held,
) -> (r: Handled)
    ensures
        answered(Request::Files { repo, scope, limit, offset }, *s, *h, r),
{
    let kb = h.kb;
    let from: usize = or_zero(offset);
    let v = files_view(&kb.repos, &kb.catalog, &repo, scope, limit, from);
    assert(lists_files(v@, *kb, opt_view(repo), scope, limit, from));
    Handled::Reply(enveloped(h.version, "files", render_list(&v)))
}

fn answer_diagnostics(args: DiagnosticsFilterArgs, s: &Standing, h: &Held) -> (r: Handled)
    ensures
        answered(Request::Diagnostics(args), *s, *h, r),
{
    let kb = h.kb;
    let offset: usize = or_zero(args.offset);
    let limit = args.limit;
    let scope = args.resolve(s.root);
    assert(settles(args, s.root@, scope));
    let found = scoped_diagnostics(&kb.repos, h.diagnostics, &scope);
    let ghost all = found@;
    let at = page(found, offset, limit);
    proof {
        let want = page_of(ints(all), offset as nat, limit_view(limit));
        assert(ints(at@) =~= want);
        assert forall|k: int| #![trigger at@[k]] 0 <= k < at@.len() implies at@[k]
            < h.diagnostics@.len() by {
            assert(at@[k] == all[k + offset]);
        }
    }
    Handled::Reply(enveloped(h.version, "diagnostics", serve_diagnostics(h.diagnostics, &at)))
}

/// Whether a read is answered from elsewhere.
pub open spec fn asks_elsewhere(request: Request) -> bool {
    match request {
        Request::Shutdown | Request::Lifecycle | Request::Config(_) | Request::PreviewMutation(_)
        | Request::Diagnostics(_) | Request::DiagnosticCounts(_) | Request::ReferencesIn { .. }
        | Request::Files { .. } | Request::DirEntries { .. } | Request::TopLevelDirs { .. }
        | Request::Hubs { .. } | Request::GraphShape { .. } | Request::LinkGraph { .. }
        | Request::TypeGraph { .. } => false,
        _ => true,
    }
}

fn query_for(request: Request, s: &Standing, repos: &Vec<Repo>) -> (q: Query)
    requires
        asks_elsewhere(request),
    ensures
        asks(request, *s, repos@, q),
{
    match request {
        Request::Types { repo, summary, scope, limit, offset } => Query::Types {
            repo,
            own: scope.own_only(),
            summary,
            limit,
            offset: or_zero(offset),
        },
        Request::TypeCounts { repo, scope } => Query::TypeCounts { repo, own: scope.own_only() },
        Request::TypeTree { scope } => Query::TypeTree { own: scope.own_only() },
        Request::Type { name } => Query::Type { name },
        Request::TypeBatch { names } => Query::TypeBatch { names },
        Request::InstancesOf { ty, origins, instance, body } => Query::InstancesOf {
            ty,
            origins,
            instance,
            body,
        },
        Request::Imports { scope } => Query::Imports { own: scope.own_only() },
        Request::Subtypes { base, scope } => Query::Subtypes { base, own: scope.own_only() },
        Request::Instances => Query::Instances,
        Request::Candidates { summary, limit, offset } => Query::Candidates {
            summary,
            limit,
            offset: or_zero(offset),
        },
        Request::CandidateCounts => Query::CandidateCounts,
        Request::InstanceCounts { repo, scope } => Query::InstanceCounts {
            repo,
            own: scope.own_only(),
        },
        Request::Instance { path } => Query::Instance { path: abs_arg(s.root, path.as_str()) },
        Request::ReferencesOut { path } => Query::ReferencesOut {
            path: abs_arg(s.root, path.as_str()),
        },
        Request::Pins { target, source_type } => Query::Pins { target, source_type },
        Request::CommitMeta { commits } => Query::CommitMeta { commits },
        Request::FileHistory { path, repo } => Query::FileHistory { path, repo },
        Request::RecentCommits { members, limit, since } => {
            let bound = effective_limit(limit, &since);
            Query::RecentCommits { members, limit: bound, since }
        },
        Request::Neighborhood(args) => {
            let seed = abs_arg(s.root, args.path.as_str());
            let max_nodes: usize = node_bound(&args);
            Query::Neighborhood { seed, args, max_nodes }
        },
        Request::ResolveTarget { target, origin } => {
            let origin = absolute_origin(s.root, &origin);
            Query::ResolveTarget { target, origin }
        },
        Request::ResolveBlockId { target, block_id, origin } => {
            let origin = absolute_origin(s.root, &origin);
            Query::ResolveBlockId { target, block_id, origin }
        },
        Request::ResolveAnchor { target, anchor, origin } => {
            let origin = absolute_origin(s.root, &origin);
            Query::ResolveAnchor { target, anchor, origin }
        },
        Request::Anchors { target, origin } => {
            let origin = absolute_origin(s.root, &origin);
            Query::Anchors { target, origin }
        },
        Request::BlockIds { target, origin } => {
            let origin = absolute_origin(s.root, &origin);
            Query::BlockIds { target, origin }
        },
        Request::Frontmatter { path } => Query::Frontmatter {
            path: abs_arg(s.root, path.as_str()),
        },
        Request::Content { path } => Query::Content { path: abs_arg(s.root, path.as_str()) },
        Request::SemanticTokens { path } => Query::SemanticTokens {
            path: abs_arg(s.root, path.as_str()),
        },
        Request::ValidateValue { ty, value, repo } => Query::ValidateValue { ty, value, repo },
        Request::Members { repo } => Query::Members { repo },
        Request::Overview { repo, scope } => {
            let own = resolved_scope(scope, &repo);
            Query::Overview { repo, scope: own }
        },
        Request::TypeClosure { name, repo } => Query::TypeClosure { name, repo },
        Request::Ignores { repo, resolve } => Query::Ignores {
            roots: ignores_members(repos, &repo),
            resolve,
        },
        Request::ResolveMember { path } => Query::ResolveMember {
            path: abs_arg(s.root, path.as_str()),
        },
        _ => Query::DeviceConfig,
    }
}

/// A member as it is served.
#[derive(Debug)]
pub struct MemberRow {
    pub repo: String,
    pub served: Json,
}

/// The members that a repo argument keeps, among the first `n`.
pub open spec fn kept_members(rows: Seq<MemberRow>, repo: Option<Seq<char>>, n: int) -> Seq<JsonView>
    decreases n,
{
    if n <= 0 {
        Seq::empty()
    } else if repo is None || repo == Some(rows[n - 1].repo@) {
        kept_members(rows, repo, n - 1).push(jv(rows[n - 1].served))
    } else {
        kept_members(rows, repo, n - 1)
    }
}

/// The payload of the `members` read.
pub fn members_payload(rows: &Vec<MemberRow>, repo: &Option<String>) -> (r: Json)
    ensures
        jv(r) == JsonView::List(kept_members(rows@, opt_view(*repo), rows@.len() as int)),
{
    let mut list = crate::json::ListBuilder::new();
    for i in 0..rows.len()
        invariant
            list@ == kept_members(rows@, opt_view(*repo), i as int),
    {
        let kept = match repo {
            Some(want) => same(rows[i].repo.as_str(), want.as_str()),
            None => true,
        };
        if kept {
            list.put(crate::json::copy_json(&rows[i].served));
        }
    }
    list.done()
}

/// Whether the scope admits every diagnostic of a repo and a scope.
pub open spec fn overview_scope(repo: Option<String>, scope: Scope) -> DiagnosticsScope {
    DiagnosticsScope {
        path: None,
        path_prefix: None,
        severity: None,
        code: None,
        repo,
        scope,
    }
}

/// The parts of an overview that the knowledge base gives.
pub struct Overview {
    pub repo: Option<String>,
    pub scope: &'static str,
    pub top_level_dirs: Vec<TopLevelDir>,
    pub diagnostic_counts: DiagnosticCountsView,
    pub hubs: Vec<Hub>,
    pub graph_shape: GraphShapeView,
}

/// Gathers the parts of an overview. Each is what its own read gives with the same
/// repo and scope, which are echoed.
pub fn overview(kb: &KnowledgeBase, all: &Vec<Diagnostic>, repo: &Option<String>, scope: Scope) -> (r:
    Overview)
    ensures
        r.repo == *repo,
        r.scope@ == scope.label_spec(),
        top_level_views(r.top_level_dirs@) == top_level_dirs(
            kb.repos@,
            kb.catalog@,
            opt_view(*repo),
            scope,
            kb.repos@.len() as int,
        ),
        counts_of(r.diagnostic_counts, kb.repos@, all@, overview_scope(*repo, scope)),
        lists_hubs(r.hubs@, *kb, opt_view(*repo), scope, HUB_LIMIT, 0),
        is_graph_shape(r.graph_shape, *kb, *repo, scope, false),
{
    let admits = DiagnosticsScope {
        path: None,
        path_prefix: None,
        severity: None,
        code: None,
        repo: match repo {
            Some(n) => Some(n.clone()),
            None => None,
        },
        scope,
    };
    let dirs = top_level_dirs_view(&kb.repos, &kb.catalog, repo, scope);
    let counts = diagnostic_counts_view(&kb.repos, all, &admits);
    let hubs = hub_ranking(kb, repo, scope, HUB_LIMIT, 0);
    let shape = graph_shape_view(kb, repo, scope, false);
    assert(admits == overview_scope(*repo, scope));
    assert(counts_of(counts, kb.repos@, all@, admits));
    Overview {
        repo: match repo {
            Some(n) => Some(n.clone()),
            None => None,
        },
        scope: scope.label(),
        top_level_dirs: dirs,
        diagnostic_counts: counts,
        hubs,
        graph_shape: shape,
    }
}

/// The overview on the wire, with the members and the counts of types that other
/// reads give.
pub open spec fn overview_json(
    v: Overview,
    members: JsonView,
    type_counts: JsonView,
    density: JsonView,
) -> JsonView {
    JsonView::Object(
        seq![
            ("repo"@, crate::json::text_or_null(opt_view(v.repo))),
            ("scope"@, JsonView::Text(v.scope@)),
            ("members"@, members),
            ("top_level_dirs"@, rendered_list(v.top_level_dirs@)),
            ("type_counts"@, type_counts),
            ("diagnostic_counts"@, v.diagnostic_counts.rendered()),
            ("hubs"@, rendered_list(v.hubs@)),
            ("graph_shape"@, crate::render::shape_json(v.graph_shape, density)),
        ],
    )
}

pub fn render_overview(v: &Overview, members: Json, type_counts: Json, density: Json) -> (r: Json)
    ensures
        jv(r) == overview_json(*v, jv(members), jv(type_counts), jv(density)),
{
    let mut b = ObjectBuilder::new();
    b.put("repo", crate::json::json_opt_text(&v.repo));
    b.put_text("scope", v.scope);
    b.put("members", members);
    b.put("top_level_dirs", render_list(&v.top_level_dirs));
    b.put("type_counts", type_counts);
    b.put("diagnostic_counts", v.diagnostic_counts.render());
    b.put("hubs", render_list(&v.hubs));
    b.put("graph_shape", crate::render::render_shape(&v.graph_shape, density));
    let ghost want = overview_json(*v, jv(members), jv(type_counts), jv(density));
    assert(b@ =~= want->Object_0);
    b.done()
}

/// A scope that the caller names is kept, whatever else is asked for.
pub proof fn an_explicit_scope_wins(scope: Scope, repo: Option<String>)
    ensures
        acting_scope(Some(scope), repo) == scope,
{
}

/// A read that was refused stays refused in every state of the knowledge base.
pub proof fn refusals_do_not_wait(request: Request, s: Standing, r: Handled)
    requires
        handled(request, s, r),
        refusal(request, s.walk_kinds@) is Some,
    ensures
        r matches Handled::Reply(reply) && says_invalid(
            reply,
            refusal(request, s.walk_kinds@)->0,
        ),
{
}

} // verus!
