//! How a request is answered.

use crate::channels::lifecycle::Channel;
use crate::config_read::{config_place, ConfigScope};
use crate::connection::{action_for, kind_of, verb_of, ActionView, RequestKind};
use crate::diagnostics::{admitted, served_at, DiagnosticsScope};
use crate::edges::{backlink_list, EdgeKind};
use crate::frames::{
    ack_members, change_members, error_members, initial_members, not_ready_frame, ready_frame,
    reject_members, says_not_ready, stamped,
};
use crate::graph::links::LinkGraphView;
use crate::graph::types::{EdgeClass, EdgeClasses, TypeGraphView};
use crate::json::{jv, member, rendered_list, text_list, without_member, JsonView, Rendered};
use crate::laws::commits::a_commit_of_two_lines_is_refused;
use crate::laws::json::{lemma_push, tells};
use crate::model::{inbound, Repo, Scope};
use crate::mutation::config::config_member;
use crate::neighborhood::neighborhood_error;
use crate::paging::page_of;
use crate::paths::{absolute, joined_path};
use crate::requests::{
    asks, drawn_classes, handled, kept_members, member_roots, overview_json, refusal, root_views,
    Handled, MemberRow, Overview, Query, Request, Standing,
};
use crate::resolve::{
    failed_json, failed_list, first_tree, lock_commits, lock_errors, map_json, resolved_json,
    resolved_list, resolved_members, LockCommit, ResolveMemberSummary, ResolveSummary, WrittenLock,
};
use crate::text::{opt_view, views};
use crate::text_map::{map_of, TextEntry, TextMap};
use vstd::prelude::*;

verus! {

/// What a request comes to, with the knowledge base at hand.
pub open spec fn comes_to(request: Request, s: Standing, r: Handled) -> bool {
    handled(request, s, r) && s.held is Some && refusal(request, s.walk_kinds@) is None
}

/// A read of one file is of the file that the path names below the served root.
pub proof fn a_read_of_a_path_is_of_the_file_below_the_root(request: Request, s: Standing, r: Handled)
    requires
        comes_to(request, s, r),
    ensures
        request matches Request::Instance { path } ==> (r matches Handled::Fetch { version, query } && version
            == s.held->0.version && (query matches Query::Instance { path: p2 } && p2@ == joined_path(s.root@, path@))),
        request matches Request::ReferencesOut { path } ==> (r matches Handled::Fetch { version, query } && version
            == s.held->0.version && (query matches Query::ReferencesOut { path: p2 } && p2@ == joined_path(s.root@, path@))),
        request matches Request::Frontmatter { path } ==> (r matches Handled::Fetch { version, query } && version
            == s.held->0.version && (query matches Query::Frontmatter { path: p2 } && p2@ == joined_path(s.root@, path@))),
        request matches Request::Content { path } ==> (r matches Handled::Fetch { version, query } && version
            == s.held->0.version && (query matches Query::Content { path: p2 } && p2@ == joined_path(s.root@, path@))),
        request matches Request::SemanticTokens { path } ==> (r matches Handled::Fetch { version, query } && version
            == s.held->0.version && (query matches Query::SemanticTokens { path: p2 } && p2@ == joined_path(s.root@, path@))),
        request matches Request::ResolveMember { path } ==> (r matches Handled::Fetch { version, query } && version
            == s.held->0.version && (query matches Query::ResolveMember { path: p2 } && p2@ == joined_path(s.root@, path@))),
{
}

/// A target is looked up as it is written, from the file that it stands in, where one is given.
pub proof fn a_target_is_looked_up_from_its_origin(request: Request, s: Standing, r: Handled)
    requires
        comes_to(request, s, r),
    ensures
        request matches Request::ResolveTarget { target, origin } ==> (r matches Handled::Fetch { version, query } && version
            == s.held->0.version && (query matches Query::ResolveTarget { target: t2, origin: o2 } && t2 == target && (origin matches Some(o) ==> (o2 matches Some(p) && p@ == joined_path(s.root@, o@))) && (origin is None ==> o2 is None))),
        request matches Request::ResolveBlockId { target, block_id, origin } ==> (r matches Handled::Fetch { version, query } && version
            == s.held->0.version && (query matches Query::ResolveBlockId { target: t2, block_id: b2, origin: o2 } && t2 == target && b2 == block_id && (origin matches Some(o) ==> (o2 matches Some(p) && p@ == joined_path(s.root@, o@))) && (origin is None ==> o2 is None))),
        request matches Request::ResolveAnchor { target, anchor, origin } ==> (r matches Handled::Fetch { version, query } && version
            == s.held->0.version && (query matches Query::ResolveAnchor { target: t2, anchor: a2, origin: o2 } && t2 == target && a2 == anchor && (origin matches Some(o) ==> (o2 matches Some(p) && p@ == joined_path(s.root@, o@))) && (origin is None ==> o2 is None))),
        request matches Request::Anchors { target, origin } ==> (r matches Handled::Fetch { version, query } && version
            == s.held->0.version && (query matches Query::Anchors { target: t2, origin: o2 } && t2 == target && (origin matches Some(o) ==> (o2 matches Some(p) && p@ == joined_path(s.root@, o@))) && (origin is None ==> o2 is None))),
        request matches Request::BlockIds { target, origin } ==> (r matches Handled::Fetch { version, query } && version
            == s.held->0.version && (query matches Query::BlockIds { target: t2, origin: o2 } && t2 == target && (origin matches Some(o) ==> (o2 matches Some(p) && p@ == joined_path(s.root@, o@))) && (origin is None ==> o2 is None))),
{
}

/// A read of types covers the repo and the scope that it names, and the page that it asks for.
pub proof fn a_read_of_types_is_of_its_scope(request: Request, s: Standing, r: Handled)
    requires
        comes_to(request, s, r),
    ensures
        request matches Request::Types { repo, summary, scope, limit, offset } ==> (r matches Handled::Fetch { version, query } && version
            == s.held->0.version && (query matches Query::Types { repo: r2, own, summary: s2, limit: l2, offset: o2 } && r2 == repo && (own <==> scope == Scope::Own) && s2 == summary && l2 == limit && (offset matches Some(n) ==> o2 == n) && (offset is None ==> o2 == 0))),
        request matches Request::TypeCounts { repo, scope } ==> (r matches Handled::Fetch { version, query } && version
            == s.held->0.version && (query matches Query::TypeCounts { repo: r2, own } && r2 == repo && (own <==> scope == Scope::Own))),
        request matches Request::TypeTree { scope } ==> (r matches Handled::Fetch { version, query } && version
            == s.held->0.version && (query matches Query::TypeTree { own } && (own <==> scope == Scope::Own))),
        request matches Request::Imports { scope } ==> (r matches Handled::Fetch { version, query } && version
            == s.held->0.version && (query matches Query::Imports { own } && (own <==> scope == Scope::Own))),
        request matches Request::Subtypes { base, scope } ==> (r matches Handled::Fetch { version, query } && version
            == s.held->0.version && (query matches Query::Subtypes { base: b2, own } && b2 == base && (own <==> scope == Scope::Own))),
        request matches Request::InstanceCounts { repo, scope } ==> (r matches Handled::Fetch { version, query } && version
            == s.held->0.version && (query matches Query::InstanceCounts { repo: r2, own } && r2 == repo && (own <==> scope == Scope::Own))),
        request matches Request::Candidates { summary, limit, offset } ==> (r matches Handled::Fetch { version, query } && version
            == s.held->0.version && (query matches Query::Candidates { summary: s2, limit: l2, offset: o2 } && s2 == summary && l2 == limit && (offset matches Some(n) ==> o2 == n) && (offset is None ==> o2 == 0))),
{
}

/// A read by name is of what it names, with what it asks for.
pub proof fn a_read_by_name_is_of_that_name(request: Request, s: Standing, r: Handled)
    requires
        comes_to(request, s, r),
    ensures
        request matches Request::Type { name } ==> (r matches Handled::Fetch { version, query } && version
            == s.held->0.version && (query matches Query::Type { name: n2 } && n2 == name)),
        request matches Request::TypeBatch { names } ==> (r matches Handled::Fetch { version, query } && version
            == s.held->0.version && (query matches Query::TypeBatch { names: n2 } && n2 == names)),
        request matches Request::TypeClosure { name, repo } ==> (r matches Handled::Fetch { version, query } && version
            == s.held->0.version && (query matches Query::TypeClosure { name: n2, repo: r2 } && n2 == name && r2 == repo)),
        request matches Request::InstancesOf { ty, origins, instance, body } ==> (r matches Handled::Fetch { version, query } && version
            == s.held->0.version && (query matches Query::InstancesOf { ty: t2, origins: o2, instance: i2, body: b2 } && t2 == ty && o2 == origins && i2 == instance && b2 == body)),
        request matches Request::Pins { target, source_type } ==> (r matches Handled::Fetch { version, query } && version
            == s.held->0.version && (query matches Query::Pins { target: t2, source_type: s2 } && t2 == target && s2 == source_type)),
        request matches Request::ValidateValue { ty, value, repo } ==> (r matches Handled::Fetch { version, query } && version
            == s.held->0.version && (query matches Query::ValidateValue { ty: t2, value: v2, repo: r2 } && t2 == ty && v2 == value && r2 == repo)),
        request matches Request::Members { repo } ==> (r matches Handled::Fetch { version, query } && version
            == s.held->0.version && (query matches Query::Members { repo: r2 } && r2 == repo)),
{
}

/// A read of commits is of those that it names, and a read of the recent ones of at most a hundred where it sets no bound.
pub proof fn a_read_of_commits_is_of_those_named(request: Request, s: Standing, r: Handled)
    requires
        comes_to(request, s, r),
    ensures
        request matches Request::CommitMeta { commits } ==> (r matches Handled::Fetch { version, query } && version
            == s.held->0.version && (query matches Query::CommitMeta { commits: c2 } && c2 == commits)),
        request matches Request::FileHistory { path, repo } ==> (r matches Handled::Fetch { version, query } && version
            == s.held->0.version && (query matches Query::FileHistory { path: p2, repo: r2 } && p2 == path && r2 == repo)),
        request matches Request::RecentCommits { members, limit, since } ==> (r matches Handled::Fetch { version, query } && version
            == s.held->0.version && (query matches Query::RecentCommits { members: m2, limit: l2, since: s2 } && m2 == members && s2 == since && (limit is Some ==> l2 == limit) && (limit is None && since is Some ==> l2 is None) && (limit is None && since is None ==> l2 == Some(100usize)))),
{
}

/// A walk begins at the file that the path names below the root, and holds at most two
/// thousand nodes where it sets no bound.
pub proof fn a_walk_begins_at_the_file_that_is_named(request: Request, s: Standing, r: Handled)
    requires
        comes_to(request, s, r),
    ensures
        request matches Request::Neighborhood(args) ==> (r matches Handled::Fetch { version, query }
            && version == s.held->0.version && (query matches Query::Neighborhood {
            seed,
            args: a2,
            max_nodes,
        } && seed@ == joined_path(s.root@, args.path@) && a2 == args && (args.max_nodes is Some
            ==> max_nodes == args.max_nodes->0) && (args.max_nodes is None ==> max_nodes == 2000))),
        request matches Request::Overview { repo, scope } ==> (r matches Handled::Fetch {
            version,
            query,
        } && version == s.held->0.version && (query matches Query::Overview { repo: r2, scope: s2 }
            && r2 == repo && (scope is Some ==> s2 == scope->0) && (scope is None && repo is Some
            ==> s2 == Scope::All) && (scope is None && repo is None ==> s2 == Scope::Own))),
        request matches Request::Ignores { repo, resolve } ==> (r matches Handled::Fetch {
            version,
            query,
        } && version == s.held->0.version && (query matches Query::Ignores { roots, resolve: v2 }
            && v2 == resolve && root_views(roots@) == member_roots(
            s.held->0.kb.repos@,
            opt_view(repo),
            s.held->0.kb.repos@.len() as int,
        ))),
        request is Instances ==> (r matches Handled::Fetch { version, query } && query is Instances),
        request is CandidateCounts ==> (r matches Handled::Fetch { version, query }
            && query is CandidateCounts),
        request is DeviceConfig ==> (r matches Handled::Fetch { version, query }
            && query is DeviceConfig),
{
}

/// Until the knowledge base is there, a read that is not refused is told so.
pub proof fn a_read_waits_for_the_knowledge_base(request: Request, s: Standing, r: Handled)
    requires
        handled(request, s, r),
        s.held is None,
        refusal(request, s.walk_kinds@) is None,
        !(request is Shutdown || request is Lifecycle || request is Config
            || request is PreviewMutation),
    ensures
        r matches Handled::Reply(reply) && says_not_ready(reply),
{
}

/// A probe is answered in every state, and only a shutdown shuts down.
pub proof fn a_probe_is_always_answered(request: Request, s: Standing, r: Handled)
    requires
        handled(request, s, r),
    ensures
        r is ShutDown <==> request is Shutdown,
        request is Lifecycle ==> (r matches Handled::Reply(reply) && reply.ready == s.ready
            && reply.version == s.version && reply.error is None),
        request matches Request::Config(args) ==> r == Handled::Config(args),
        request matches Request::PreviewMutation(args) ==> r == Handled::Preview(args),
{
}

/// The members of an ignore read are those that are not built in, of the repo that is asked
/// for.
pub proof fn the_roots_are_those_of_the_members(
    repos: Seq<Repo>,
    repo: Option<Seq<char>>,
    n: int,
    name: Seq<char>,
    root: Seq<char>,
)
    requires
        0 <= n <= repos.len(),
    ensures
        member_roots(repos, repo, n).contains((name, root)) <==> (repo is None || repo == Some(name))
            && exists|i: int|
            0 <= i < n && !(#[trigger] repos[i]).builtin && repos[i].name@ == name && repos[i].root@
                == root,
    decreases n,
{
    if n > 0 {
        the_roots_are_those_of_the_members(repos, repo, n - 1, name, root);
        let before = member_roots(repos, repo, n - 1);
        let now = member_roots(repos, repo, n);
        let here = repos[n - 1];
        if before.contains((name, root)) {
            let j = choose|j: int| 0 <= j < before.len() && before[j] == (name, root);
            assert(now[j] == (name, root));
        }
        if now.contains((name, root)) && !before.contains((name, root)) {
            let j = choose|j: int| 0 <= j < now.len() && now[j] == (name, root);
            if j < before.len() {
                assert(before[j] == (name, root));
            }
        }
        if !here.builtin && here.name@ == name && here.root@ == root && (repo is None || repo
            == Some(name)) {
            assert(now[before.len() as int] == (name, root));
        }
    }
}

/// The members that are served are those of the repo that is asked for, or all of them.
pub proof fn the_members_are_those_asked_for(
    rows: Seq<MemberRow>,
    repo: Option<Seq<char>>,
    n: int,
    i: int,
)
    requires
        0 <= i < n <= rows.len(),
    ensures
        repo is None || repo == Some(rows[i].repo@) ==> kept_members(rows, repo, n).contains(
            jv(rows[i].served),
        ),
        repo is None ==> kept_members(rows, repo, n).len() == n,
        (forall|k: int| #![trigger rows[k]] 0 <= k < n ==> repo is Some && repo != Some(rows[k].repo@))
            ==> kept_members(rows, repo, n).len() == 0,
    decreases n,
{
    let before = kept_members(rows, repo, n - 1);
    let now = kept_members(rows, repo, n);
    if n > 1 {
        let k = if i < n - 1 {
            i
        } else {
            0
        };
        the_members_are_those_asked_for(rows, repo, n - 1, k);
    }
    if repo is None || repo == Some(rows[i].repo@) {
        if i < n - 1 {
            let j = choose|j: int| 0 <= j < before.len() && before[j] == jv(rows[i].served);
            assert(now[j] == jv(rows[i].served));
        } else {
            assert(now[before.len() as int] == jv(rows[i].served));
        }
    }
    let here = rows[n - 1];
}

/// The edges of a type graph are the classes that are asked for; without a word, subtypes and
/// field types.
pub proof fn the_classes_are_those_asked_for(edges: Option<Vec<EdgeClass>>)
    ensures
        edges is None ==> drawn_classes(edges) == (EdgeClasses {
            subtype: true,
            field_type: true,
            instance_of: false,
            meta: false,
        }),
        edges matches Some(list) ==> {
            &&& drawn_classes(edges).subtype <==> list@.contains(EdgeClass::Subtype)
            &&& drawn_classes(edges).field_type <==> list@.contains(EdgeClass::FieldType)
            &&& drawn_classes(edges).instance_of <==> list@.contains(EdgeClass::InstanceOf)
            &&& drawn_classes(edges).meta <==> list@.contains(EdgeClass::Meta)
        },
{
}

/// An overview tells each of its parts under its own key.
pub proof fn an_overview_tells_its_parts(
    v: Overview,
    members: JsonView,
    type_counts: JsonView,
    density: JsonView,
)
    ensures
        overview_json(v, members, type_counts, density) matches JsonView::Object(m) && {
            &&& v.repo matches Some(t) ==> tells(m, "repo"@, JsonView::Text(t@))
            &&& v.repo is None ==> tells(m, "repo"@, JsonView::Null)
            &&& tells(m, "scope"@, JsonView::Text(v.scope@))
            &&& tells(m, "members"@, members)
            &&& tells(m, "top_level_dirs"@, rendered_list(v.top_level_dirs@))
            &&& tells(m, "type_counts"@, type_counts)
            &&& tells(m, "diagnostic_counts"@, v.diagnostic_counts.rendered())
            &&& tells(m, "hubs"@, rendered_list(v.hubs@))
            &&& tells(m, "graph_shape"@, crate::render::shape_json(v.graph_shape, density))
        },
{
    let m = overview_json(v, members, type_counts, density)->Object_0;
    assert(m.contains(m[0]) && m.contains(m[1]) && m.contains(m[2]) && m.contains(m[3])
        && m.contains(m[4]) && m.contains(m[5]) && m.contains(m[6]) && m.contains(m[7]));
}

// Names.

/// Every kind of reference, scope, channel and request goes by its own name.
pub proof fn everything_goes_by_its_name(e: EdgeKind, s: Scope, c: Channel, k: RequestKind)
    ensures
        e is CommitReferent ==> e.label_spec() == "commit-referent"@,
        e is Contributing ==> e.label_spec() == "contributing"@,
        e is Navigational ==> e.label_spec() == "navigational"@,
        e is FieldReference ==> e.label_spec() == "field-reference"@,
        e is FieldStringWikilink ==> e.label_spec() == "field-string-wikilink"@,
        e is Unknown ==> e.label_spec() == "unknown"@,
        s is All ==> s.label_spec() == "all"@,
        s is Own ==> s.label_spec() == "own"@,
        c is Lifecycle ==> c.label_spec() == "lifecycle"@,
        c is Types ==> c.label_spec() == "types"@,
        c is Files ==> c.label_spec() == "files"@,
        c is Changes ==> c.label_spec() == "changes"@,
        c is Diagnostics ==> c.label_spec() == "diagnostics"@,
        c is LinkGraph ==> c.label_spec() == "link_graph"@,
        c is TypeGraph ==> c.label_spec() == "type_graph"@,
        c is RecentCommits ==> c.label_spec() == "recent_commits"@,
        k is Read ==> k.label_spec() == "read"@,
        k is Subscribe ==> k.label_spec() == "subscribe"@,
        k is Mutate ==> k.label_spec() == "mutate"@,
        k is Resolve ==> k.label_spec() == "resolve"@,
        k is Unknown ==> k.label_spec() == "unknown"@,
{
}

/// What is fetched is answered under the name of the read, but for the reads that bring their
/// own names.
pub proof fn a_payload_is_answered_under_its_name(q: Query)
    ensures
        q.envelope_spec() is None <==> q is Subtypes || q is Instances || q is Candidates
            || q is Ignores,
        q is Types ==> q.envelope_spec() == Some("types"@),
        q is TypeCounts ==> q.envelope_spec() == Some("type_counts"@),
        q is TypeTree ==> q.envelope_spec() == Some("type_tree"@),
        q is Type ==> q.envelope_spec() == Some("type"@),
        q is TypeBatch ==> q.envelope_spec() == Some("type_batch"@),
        q is InstancesOf ==> q.envelope_spec() == Some("instances_of"@),
        q is Imports ==> q.envelope_spec() == Some("imports"@),
        q is CandidateCounts ==> q.envelope_spec() == Some("candidate_counts"@),
        q is InstanceCounts ==> q.envelope_spec() == Some("instance_counts"@),
        q is Instance ==> q.envelope_spec() == Some("instance"@),
        q is ReferencesOut ==> q.envelope_spec() == Some("references_out"@),
        q is Pins ==> q.envelope_spec() == Some("pins"@),
        q is CommitMeta ==> q.envelope_spec() == Some("commit_meta"@),
        q is FileHistory ==> q.envelope_spec() == Some("file_history"@),
        q is RecentCommits ==> q.envelope_spec() == Some("recent_commits"@),
        q is Neighborhood ==> q.envelope_spec() == Some("neighborhood"@),
        q is ResolveTarget ==> q.envelope_spec() == Some("resolve_target"@),
        q is ResolveBlockId ==> q.envelope_spec() == Some("resolve_block_id"@),
        q is ResolveAnchor ==> q.envelope_spec() == Some("resolve_anchor"@),
        q is Anchors ==> q.envelope_spec() == Some("anchors"@),
        q is BlockIds ==> q.envelope_spec() == Some("block_ids"@),
        q is Frontmatter ==> q.envelope_spec() == Some("frontmatter"@),
        q is Content ==> q.envelope_spec() == Some("content"@),
        q is SemanticTokens ==> q.envelope_spec() == Some("semantic_tokens"@),
        q is ValidateValue ==> q.envelope_spec() == Some("validate_value"@),
        q is Members ==> q.envelope_spec() == Some("members"@),
        q is Overview ==> q.envelope_spec() == Some("overview"@),
        q is TypeClosure ==> q.envelope_spec() == Some("type_closure"@),
        q is ResolveMember ==> q.envelope_spec() == Some("resolve_member"@),
        q is DeviceConfig ==> q.envelope_spec() == Some("device_config"@),
{
}

// Connections.

/// A request is what the first of its words says: a read before a subscribe, a mutate and a
/// resolve; a request without any of them is refused.
pub proof fn a_request_is_what_it_names(request: JsonView)
    ensures
        member(request, "read"@) is Some ==> kind_of(request) == RequestKind::Read,
        member(request, "read"@) is None && member(request, "subscribe"@) is Some ==> kind_of(request)
            == RequestKind::Subscribe,
        member(request, "read"@) is None && member(request, "subscribe"@) is None && member(
            request,
            "mutate"@,
        ) is Some ==> kind_of(request) == RequestKind::Mutate,
        member(request, "read"@) is None && member(request, "subscribe"@) is None && member(
            request,
            "mutate"@,
        ) is None && member(request, "resolve"@) is Some ==> kind_of(request)
            == RequestKind::Resolve,
        kind_of(request) == RequestKind::Unknown <==> member(request, "read"@) is None && member(
            request,
            "subscribe"@,
        ) is None && member(request, "mutate"@) is None && member(request, "resolve"@) is None,
{
}

/// The verb of a request is the text under its kind.
pub proof fn the_verb_is_the_text_under_the_kind(request: JsonView, kind: Seq<char>)
    ensures
        member(request, kind) matches Some(JsonView::Text(t)) ==> verb_of(request, kind) == t,
        !(member(request, kind) matches Some(JsonView::Text(_))) ==> verb_of(request, kind) == kind,
{
}

/// An action answers to the id of its request and is handed the request without it; a
/// subscription gets the next number.
pub proof fn an_action_answers_to_its_request(request: JsonView, next: u64)
    ensures
        ({
            let id = member(request, "id"@);
            let rest = without_member(request, "id"@);
            match action_for(request, next) {
                ActionView::Read { id: i, verb, payload } => kind_of(rest) == RequestKind::Read && i
                    == id && payload == rest && verb == verb_of(rest, "read"@),
                ActionView::Subscribe { id: i, subscription_id, payload } => kind_of(rest)
                    == RequestKind::Subscribe && i == id && payload == rest && subscription_id
                    == next,
                ActionView::Mutate { id: i, verb, payload } => kind_of(rest) == RequestKind::Mutate
                    && i == id && payload == rest && verb == verb_of(rest, "mutate"@),
                ActionView::Resolve { id: i } => kind_of(rest) == RequestKind::Resolve && i == id,
                ActionView::Send(_) => kind_of(rest) == RequestKind::Unknown,
            }
        }),
{
}

/// A frame carries the id of its request, whatever else it tells.
pub proof fn a_frame_carries_the_id_of_its_request(
    m: Seq<(Seq<char>, JsonView)>,
    id: JsonView,
)
    ensures
        stamped(JsonView::Object(m), None) == JsonView::Object(m),
        stamped(JsonView::Object(m), Some(id)) matches JsonView::Object(n) && tells(n, "id"@, id) && (
        forall|k: Seq<char>, v: JsonView|
            #![trigger tells(n, k, v)]
            k != "id"@ && tells(m, k, v) ==> tells(n, k, v)),
{
    let rest = crate::json::without(m, "id"@);
    lemma_push(rest, "id"@, id);
    crate::laws::json::a_dropped_member_is_gone(m, "id"@);
}

/// A frame tells what it is about under the key for it.
pub proof fn a_frame_tells_what_it_is_about(
    message: Seq<char>,
    kind: Seq<char>,
    subscription: nat,
    channel: Seq<char>,
    version: nat,
    result: JsonView,
)
    ensures
        tells(error_members(message, kind), "type"@, JsonView::Text("error"@)),
        tells(error_members(message, kind), "error"@, JsonView::Text(message)),
        tells(error_members(message, kind), "for"@, JsonView::Text(kind)),
        tells(ack_members(subscription, channel), "type"@, JsonView::Text("ack"@)),
        tells(ack_members(subscription, channel), "subscription_id"@, JsonView::Int(subscription)),
        tells(ack_members(subscription, channel), "channel"@, JsonView::Text(channel)),
        tells(ack_members(subscription, channel), "accepted"@, JsonView::Bool(true)),
        tells(
            initial_members(subscription, version, result),
            "type"@,
            JsonView::Text("initial_value"@),
        ),
        tells(
            initial_members(subscription, version, result),
            "subscription_id"@,
            JsonView::Int(subscription),
        ),
        tells(initial_members(subscription, version, result), "at_version"@, JsonView::Int(version)),
        tells(initial_members(subscription, version, result), "result"@, result),
        tells(
            change_members(subscription, kind, version, result),
            "type"@,
            JsonView::Text("change_event"@),
        ),
        tells(
            change_members(subscription, kind, version, result),
            "subscription_id"@,
            JsonView::Int(subscription),
        ),
        tells(change_members(subscription, kind, version, result), "kind"@, JsonView::Text(kind)),
        tells(
            change_members(subscription, kind, version, result),
            "at_version"@,
            JsonView::Int(version),
        ),
        tells(change_members(subscription, kind, version, result), "scope_hint"@, result),
{
    let e = error_members(message, kind);
    assert(e.contains(e[0]) && e.contains(e[2]) && e.contains(e[3]));
    let a = ack_members(subscription, channel);
    assert(a.contains(a[0]) && a.contains(a[2]) && a.contains(a[3]) && a.contains(a[4]));
    let i = initial_members(subscription, version, result);
    assert(i.contains(i[0]) && i.contains(i[2]) && i.contains(i[3]) && i.contains(i[4]));
    let c = change_members(subscription, kind, version, result);
    assert(c.contains(c[0]) && c.contains(c[2]) && c.contains(c[3]) && c.contains(c[4])
        && c.contains(c[5]));
}

/// An answer tells whether the knowledge base is there, at which version, and the result; a
/// refusal tells why.
pub proof fn an_answer_tells_the_version_and_the_result(
    version: nat,
    result: JsonView,
    message: Seq<char>,
    detail: Option<JsonView>,
)
    ensures
        ready_frame(version, result) matches JsonView::Object(m) && tells(
            m,
            "ready"@,
            JsonView::Bool(true),
        ) && tells(m, "version"@, JsonView::Int(version)) && tells(m, "result"@, result),
        not_ready_frame() matches JsonView::Object(m) && tells(m, "ready"@, JsonView::Bool(false))
            && m.len() == 3,
        tells(reject_members(message, detail), "error"@, JsonView::Text(message)),
        detail matches Some(d) ==> tells(reject_members(message, detail), "detail"@, d),
        detail is None ==> reject_members(message, detail).len() == 3,
{
    let m = ready_frame(version, result)->Object_0;
    assert(m.contains(m[2]) && m.contains(m[3]) && m.contains(m[4]));
    let n = not_ready_frame()->Object_0;
    assert(n.contains(n[2]));
    let r = reject_members(message, detail);
    assert(r.contains(r[2]));
    if detail is Some {
        assert(r.contains(r[3]));
    }
}

// Dependencies.

/// The tree round a directory is the first, going up, that is one.
pub proof fn the_tree_is_the_nearest(dirs: Seq<String>, is_tree: Seq<bool>, i: int)
    requires
        0 <= i,
        is_tree.len() == dirs.len(),
    ensures
        match first_tree(dirs, is_tree, i) {
            Some(d) => exists|k: int|
                i <= k < dirs.len() && #[trigger] dirs[k] == d && is_tree[k] && forall|j: int|
                    #![trigger is_tree[j]]
                    i <= j < k ==> !is_tree[j],
            None => forall|j: int| #![trigger is_tree[j]] i <= j < dirs.len() ==> !is_tree[j],
        },
    decreases dirs.len() - i,
{
    if i < dirs.len() {
        if is_tree[i] {
            assert(dirs[i] == first_tree(dirs, is_tree, i)->0);
        } else {
            the_tree_is_the_nearest(dirs, is_tree, i + 1);
        }
    }
}

/// A dependency that was brought is told with its commit, where it came from and where it
/// lies; one that was not, with the reason.
pub proof fn a_dependency_is_told_as_what_became_of_it(
    members: Seq<ResolveMemberSummary>,
    code: Seq<char>,
    n: int,
    i: int,
)
    requires
        0 <= i < n <= members.len(),
    ensures
        members[i].outcome is Ok ==> resolved_list(members, n).contains(resolved_json(members[i])),
        members[i].outcome is Err ==> failed_list(members, code, n).contains(
            failed_json(members[i], code),
        ),
    decreases n,
{
    let a = resolved_list(members, n - 1);
    let b = failed_list(members, code, n - 1);
    if i < n - 1 {
        a_dependency_is_told_as_what_became_of_it(members, code, n - 1, i);
        if members[i].outcome is Ok {
            let j = choose|j: int| 0 <= j < a.len() && a[j] == resolved_json(members[i]);
            assert(resolved_list(members, n)[j] == resolved_json(members[i]));
        } else {
            let j = choose|j: int| 0 <= j < b.len() && b[j] == failed_json(members[i], code);
            assert(failed_list(members, code, n)[j] == failed_json(members[i], code));
        }
    } else if members[i].outcome is Ok {
        assert(resolved_list(members, n)[a.len() as int] == resolved_json(members[i]));
    } else {
        assert(failed_list(members, code, n)[b.len() as int] == failed_json(members[i], code));
    }
}

/// A dependency is told by its name, with its commit and its places or with the reason.
pub proof fn a_dependency_is_told_whole(m: ResolveMemberSummary, code: Seq<char>)
    ensures
        m.outcome matches Ok(sha) ==> (resolved_json(m) matches JsonView::Object(o) && tells(
            o,
            "name"@,
            JsonView::Text(m.name@),
        ) && tells(o, "sha"@, JsonView::Text(sha@)) && (m.remote matches Some(u) ==> tells(
            o,
            "remote"@,
            JsonView::Text(u@),
        )) && (m.path matches Some(p) ==> tells(o, "path"@, JsonView::Text(p@)))),
        m.outcome matches Err(why) ==> (failed_json(m, code) matches JsonView::Object(o) && tells(
            o,
            "name"@,
            JsonView::Text(m.name@),
        ) && tells(o, "reason"@, JsonView::Text(why@)) && tells(o, "code"@, JsonView::Text(code))),
{
    let o = resolved_json(m)->Object_0;
    assert(o.contains(o[0]) && o.contains(o[1]) && o.contains(o[2]) && o.contains(o[3]));
    let f = failed_json(m, code)->Object_0;
    assert(f.contains(f[0]) && f.contains(f[1]) && f.contains(f[2]));
}

/// A lock that was committed is told with its commit, and one that could not be with the
/// reason; a lock that was not committed is told with neither.
pub proof fn a_lock_is_told_as_what_became_of_it(locks: Seq<WrittenLock>, n: int, i: int)
    requires
        0 <= i < n <= locks.len(),
        forall|j: int|
            #![trigger locks[j]]
            0 <= j < locks.len() && j != i ==> locks[j].repo@ != locks[i].repo@,
    ensures
        locks[i].commit matches LockCommit::Committed(sha) ==> lock_commits(locks, n).dom().contains(
            locks[i].repo@,
        ) && lock_commits(locks, n)[locks[i].repo@] == sha@,
        locks[i].commit matches LockCommit::Failed(e) ==> lock_errors(locks, n).dom().contains(
            locks[i].repo@,
        ) && lock_errors(locks, n)[locks[i].repo@] == e@,
        !(locks[i].commit is Committed) ==> !lock_commits(locks, n).dom().contains(locks[i].repo@),
        !(locks[i].commit is Failed) ==> !lock_errors(locks, n).dom().contains(locks[i].repo@),
    decreases n,
{
    if i < n - 1 {
        a_lock_is_told_as_what_became_of_it(locks, n - 1, i);
        let here = locks[n - 1];
    } else {
        lemma_no_lock(locks, n - 1, locks[i].repo@);
    }
}

proof fn lemma_no_lock(locks: Seq<WrittenLock>, n: int, repo: Seq<char>)
    requires
        0 <= n <= locks.len(),
        forall|j: int| #![trigger locks[j]] 0 <= j < n ==> locks[j].repo@ != repo,
    ensures
        !lock_commits(locks, n).dom().contains(repo),
        !lock_errors(locks, n).dom().contains(repo),
    decreases n,
{
    if n > 0 {
        lemma_no_lock(locks, n - 1, repo);
        let here = locks[n - 1];
    }
}

/// What came of a resolve is told list by list, each under its own key.
pub proof fn a_resolve_tells_each_list(s: ResolveSummary, code: Seq<char>, version: Option<u64>)
    ensures
        ({
            let m = resolved_members(s, code, version);
            let n = s.members@.len() as int;
            &&& tells(m, "resolved"@, JsonView::List(resolved_list(s.members@, n)))
            &&& tells(m, "failed"@, JsonView::List(failed_list(s.members@, code, n)))
            &&& tells(m, "conflicts"@, text_list(views(s.conflicts@)))
            &&& tells(m, "commits"@, crate::resolve::map_json(s.commits))
            &&& tells(m, "commit_errors"@, crate::resolve::map_json(s.commit_errors))
            &&& version matches Some(v) ==> tells(m, "version"@, JsonView::Int(v as nat))
            &&& version is None ==> tells(m, "version"@, JsonView::Null)
        }),
{
    let m = resolved_members(s, code, version);
    assert(m.contains(m[2]) && m.contains(m[3]) && m.contains(m[4]) && m.contains(m[5])
        && m.contains(m[6]) && m.contains(m[7]));
}

/// A consumer's file of the device lies in the device's directory and is read with the types
/// of the entry; one of a member lies below the member's root and is read with its types.
pub proof fn a_config_lies_where_its_scope_says(
    repos: Seq<Repo>,
    entry: Option<usize>,
    served_root: Seq<char>,
    asked: Option<Seq<char>>,
    base: Option<Seq<char>>,
)
    ensures
        base is None ==> config_place(
            repos,
            entry,
            served_root,
            ConfigScope::Machine,
            asked,
            base,
        ) is None,
        base is Some && entry is Some ==> config_place(
            repos,
            entry,
            served_root,
            ConfigScope::Machine,
            asked,
            base,
        ) == Some((base->0, repos[entry->0 as int].name@)),
        config_member(repos, entry, served_root, asked) matches Some(i) ==> config_place(
            repos,
            entry,
            served_root,
            ConfigScope::Repo,
            asked,
            base,
        ) == Some((joined_path(repos[i].root@, ".arsumbris"@), repos[i].name@)),
        config_member(repos, entry, served_root, asked) is None ==> config_place(
            repos,
            entry,
            served_root,
            ConfigScope::Repo,
            asked,
            base,
        ) is None,
{
}

/// Whether a request is answered at once, with this under this name.
pub open spec fn replies_with(r: Handled, version: u64, verb: Seq<char>, payload: JsonView) -> bool {
    r matches Handled::Reply(reply) && reply.ready && reply.version == Some(version)
        && reply.error is None && (reply.result matches Some(j) && jv(j) == JsonView::Object(
        seq![(verb, payload)],
    ))
}

/// The graphs are answered under their own names, of the repo and in the scope that is asked
/// for: every file in a repo that is named, the caller's own without one.
pub proof fn a_graph_is_answered_as_asked(request: Request, s: Standing, r: Handled)
    requires
        comes_to(request, s, r),
    ensures
        request matches Request::LinkGraph { repo, scope } ==> exists|g: LinkGraphView|
            #![trigger g.rendered()]
            g.repo == repo && (scope is None && repo is Some ==> g.scope@ == "all"@) && (
            scope is None && repo is None ==> g.scope@ == "own"@) && replies_with(
                r,
                s.held->0.version,
                "link_graph"@,
                g.rendered(),
            ),
        request matches Request::TypeGraph { repo, scope, edges } ==> exists|g: TypeGraphView|
            #![trigger g.rendered()]
            g.repo == repo && (scope is None && repo is Some ==> g.scope@ == "all"@) && (
            scope is None && repo is None ==> g.scope@ == "own"@) && replies_with(
                r,
                s.held->0.version,
                "type_graph"@,
                g.rendered(),
            ),
        request matches Request::GraphShape { repo, scope, orphan_paths } ==> (
        r matches Handled::Shape { version, view } && version == s.held->0.version && view.repo
            == repo && (view.orphans.paths is Some <==> orphan_paths)),
{
    let kb = *s.held->0.kb;
    if let Request::LinkGraph { repo, scope } = request {
        let g = choose|g: LinkGraphView| #[trigger]
            crate::requests::is_link_graph(
                g,
                kb,
                repo,
                crate::requests::acting_scope(scope, repo),
            ) && crate::requests::tells(r, s.held->0.version, "link_graph"@, g.rendered());
        assert(g.repo == repo);
    }
    if let Request::TypeGraph { repo, scope, edges } = request {
        let g = choose|g: TypeGraphView| #[trigger]
            crate::requests::is_type_graph(
                g,
                kb,
                repo,
                crate::requests::acting_scope(scope, repo),
                drawn_classes(edges),
            ) && crate::requests::tells(r, s.held->0.version, "type_graph"@, g.rendered());
        assert(g.repo == repo);
    }
}

/// The references into a file are those of the file that the path names below the root.
pub proof fn the_references_into_a_file_are_answered(request: Request, s: Standing, r: Handled)
    requires
        comes_to(request, s, r),
    ensures
        request matches Request::ReferencesIn { path } ==> replies_with(
            r,
            s.held->0.version,
            "references_in"@,
            JsonView::List(
                backlink_list(
                    s.held->0.kb.repos@,
                    joined_path(s.root@, path@),
                    inbound(s.held->0.kb.backlinks@, joined_path(s.root@, path@)),
                ),
            ),
        ),
{
}

/// The diagnostics are those that pass the filters of the request, with its paths taken below
/// the root, and of those the page that it asks for.
pub proof fn the_diagnostics_are_those_asked_for(request: Request, s: Standing, r: Handled)
    requires
        comes_to(request, s, r),
    ensures
        request matches Request::Diagnostics(args) ==> exists|scope: DiagnosticsScope, at: Seq<int>|
            #![trigger served_at(s.held->0.diagnostics@, at), admitted(
                s.held->0.kb.repos@,
                s.held->0.diagnostics@,
                scope,
            )]
            {
                &&& args.path matches Some(p) ==> (scope.path matches Some(q) && q@ == joined_path(
                    s.root@,
                    p@,
                ))
                &&& args.path is None ==> scope.path is None
                &&& args.path_prefix matches Some(p) ==> (scope.path_prefix matches Some(q) && q@
                    == joined_path(s.root@, p@))
                &&& args.path_prefix is None ==> scope.path_prefix is None
                &&& scope.severity == args.severity && scope.code == args.code && scope.repo
                    == args.repo
                &&& args.scope is Some ==> scope.scope == args.scope->0
                &&& at == page_of(
                    admitted(s.held->0.kb.repos@, s.held->0.diagnostics@, scope),
                    (if args.offset is Some {
                        args.offset->0
                    } else {
                        0
                    }) as nat,
                    if args.limit is Some {
                        Some(args.limit->0 as nat)
                    } else {
                        None
                    },
                )
                &&& replies_with(
                    r,
                    s.held->0.version,
                    "diagnostics"@,
                    served_at(s.held->0.diagnostics@, at),
                )
            },
{
    if let Request::Diagnostics(args) = request {
        let scope = choose|scope: DiagnosticsScope| #[trigger]
            crate::requests::settles(args, s.root@, scope) && crate::requests::tells(
                r,
                s.held->0.version,
                "diagnostics"@,
                served_at(
                    s.held->0.diagnostics@,
                    page_of(
                        admitted(s.held->0.kb.repos@, s.held->0.diagnostics@, scope),
                        crate::requests::or(args.offset, 0) as nat,
                        crate::paging::limit_view(args.limit),
                    ),
                ),
            );
        let at = page_of(
            admitted(s.held->0.kb.repos@, s.held->0.diagnostics@, scope),
            crate::requests::or(args.offset, 0) as nat,
            crate::paging::limit_view(args.limit),
        );
        assert(replies_with(
            r,
            s.held->0.version,
            "diagnostics"@,
            served_at(s.held->0.diagnostics@, at),
        ));
    }
}

/// A read is refused for a commit of two lines, for an absolute path beside a repo, and for a
/// walk that is refused; no other read is.
pub proof fn a_read_is_refused_for_these_reasons(request: Request, kinds: Seq<String>)
    ensures
        refusal(request, kinds) is Some <==> {
            ||| (request matches Request::CommitMeta { commits } && exists|k: int|
                #![trigger commits@[k]]
                0 <= k < commits@.len() && commits@[k].commit@.contains('\n'))
            ||| (request matches Request::FileHistory { path, repo } && repo is Some && absolute(
                path@,
            ))
            ||| (request matches Request::Neighborhood(args) && neighborhood_error(args, kinds)
                is Some)
        },
{
    if let Request::CommitMeta { commits } = request {
        a_commit_of_two_lines_is_refused(commits@, 0);
    }
}

proof fn lemma_entry_of(v: Seq<TextEntry>, k: Seq<char>)
    requires
        map_of(v).dom().contains(k),
    ensures
        exists|i: int| 0 <= i < v.len() && (#[trigger] v[i]).key@ == k && v[i].value@ == map_of(v)[k],
    decreases v.len(),
{
    if v.len() > 0 {
        let front = v.drop_last();
        if v.last().key@ == k {
            assert(v[v.len() - 1].key@ == k);
        } else {
            lemma_entry_of(front, k);
            let i = choose|i: int|
                0 <= i < front.len() && (#[trigger] front[i]).key@ == k && front[i].value@ == map_of(
                    front,
                )[k];
            assert(v[i] == front[i]);
        }
    }
}

/// A map is told with each of its entries under its key.
pub proof fn a_map_tells_each_entry(m: TextMap, k: Seq<char>)
    requires
        m.wf(),
        m@.dom().contains(k),
    ensures
        map_json(m) matches JsonView::Object(o) && tells(o, k, JsonView::Text(m@[k])),
{
    m.listed_is_the_map();
    let v = m.listed();
    lemma_entry_of(v, k);
    let i = choose|i: int|
        0 <= i < v.len() && (#[trigger] v[i]).key@ == k && v[i].value@ == map_of(v)[k];
    let o = map_json(m)->Object_0;
    assert(o[i] == (k, JsonView::Text(m@[k])));
}

} // verus!
