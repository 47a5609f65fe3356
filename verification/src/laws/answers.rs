//! What the functions themselves answer.

use crate::ast::{ByteRange, FileParse, Instance};
use crate::channels::files::FilesWatch;
use crate::channels::graphs::{LinkGraphWatch, TypeGraphWatch};
use crate::codec::{frame_length, take_frame, Arrived};
use crate::commits::meta::{
    check_history, history_query, route_commits, store_of, CommitRef, HistoryQuery, MemberTree,
    StoreRequest,
};
use crate::commits::recent::effective_limit;
use crate::config_read::{config_place, config_response, ConfigRead, ConfigScope};
use crate::connection::{action_for, Action, ActionView, Connection};
use crate::diagnostics::{Diagnostic, Severity};
use crate::frames::{initial_members, Response};
use crate::instances::{resolved_view, HeldInstance};
use crate::json::{jv, rendered_list, Json, JsonView, Member, Rendered};
use crate::laws::json::tells;
use crate::laws::links::{
    a_folded_link_leads_into_the_host, a_link_to_the_file_gets_the_record, a_nested_id_is_kept,
    every_live_link_is_rewritten, is_changed, only_live_links_are_rewritten,
};
use crate::laws::moving::{
    names_what_travels, stands_inside, the_errors_are_those_of_that_severity,
    what_names_the_record_follows_it,
};
use crate::laws::refactors::every_picked_reference_is_told;
use crate::model::{entry_of, inbound, CatalogEntry, FileKind, KnowledgeBase, Repo};
use crate::mutation::assign::{assign_block_id, assign_is_done, AssignEdit, AssignPlan};
use crate::mutation::blocks::{rename_block_id_reject, valid_block_id, BlockIdGather};
use crate::mutation::config::{
    config_form, config_member, config_path, ignores_content, ignores_path, produce_config_content,
    register, repo_rooted, resolve_config_member, resolve_ignores_member, ConfigForm, ConfigText,
    RegisterOutcome,
};
use crate::mutation::edits::{
    check_foldable, folded_file_edits, found_views, inline_host_edits, inline_rewriting,
    promote_host_edits, promote_rewriting, rename_block_host_edits, rename_block_rewriting,
    rewrite_links, FoundLink, Rewriting,
};
use crate::mutation::handle::{answer_mutation, Landed};
use crate::mutation::inline::{inline_same_file_reject, rename_colliding, InlineGather};
use crate::mutation::links::IdChange;
use crate::mutation::nested::{check_expected, gate_invalid, OnInvalid};
use crate::mutation::preview::{preview_mutation, PreviewOp, PreviewStamp, PreviewStep};
use crate::mutation::promote::{
    gather_promote, inner_links, outer_links, promote_locator, promote_target_reject, Locator,
    PromoteGather, RecordTarget,
};
use crate::mutation::refactor::{check_referrer, check_unchanged};
use crate::mutation::rename::rename_kind_reject;
use crate::mutation::response::{last_live_extra, told};
use crate::mutation::riders::fold_write_stamps;
use crate::mutation::script::{requires_git, Verb};
use crate::mutation::target::{resolve_editable_target, rider_target_reject};
use crate::navigation::resolve_anchor_view;
use crate::neighborhood::{node_bound, NeighborhoodArgs};
use crate::paths::{absolute, file_name_of, joined_path, parent_of, same_path_spec};
use crate::records::RecordHit;
use crate::requests::{deliver, Query};
use crate::resolve::{handle_resolve, open_resolve, ResolveOutcome};
use crate::saga::commit::{
    commit_message, moves_for, onto_tree, CommitMessage, RepoCommit, TreeMoves,
};
use crate::saga::plan::{Reject, SagaPlan};
use crate::saga::recovery::{undo_of, Undo};
use crate::text::opt_view;
use crate::values::{
    line_source, reaches_validation, validate_device_file, validate_instance_content,
    validate_scoped_instance, validate_value_verdicts, value_vocabulary, BuildOutcome, ContentRead,
    DeviceRead, Fit, LineSource, VerdictPlan, Vocabulary,
};
use vstd::prelude::*;

verus! {

/// The resolved view of an instance has the values, the sections and the events of the layer
/// that is held for it.
pub proof fn a_resolved_view_is_that_of_the_layer(
    catalog: Vec<CatalogEntry>,
    all: Vec<Diagnostic>,
    path: &str,
    held: HeldInstance,
    i: int,
    inst: Instance,
    r: Json,
)
    requires
        call_ensures(resolved_view, (&catalog, &all, path, &Some(held)), r),
        entry_of(catalog@, path@) == Some(i),
        catalog@[i].parse == FileParse::Instance(Some(inst)),
    ensures
        jv(r) matches JsonView::Object(m) && match held.layer {
            Some(l) => {
                &&& tells(m, "effective_values"@, jv(l.effective_values))
                &&& l.section_presence matches Some(s) ==> tells(m, "section_presence"@, jv(s))
                &&& l.section_presence is None ==> tells(m, "section_presence"@, JsonView::Null)
                &&& l.body_events matches Some(e) ==> tells(m, "body_events"@, jv(e))
                &&& l.body_events is None ==> tells(m, "body_events"@, JsonView::Null)
            },
            None => {
                &&& tells(m, "effective_values"@, JsonView::List(Seq::empty()))
                &&& tells(m, "section_presence"@, JsonView::Null)
                &&& tells(m, "body_events"@, JsonView::Null)
            },
        },
{
    let m = jv(r)->Object_0;
    assert(m.contains(m[4]) && m.contains(m[5]) && m.contains(m[6]));
}

/// The live link at a place of a file.
pub open spec fn is_live(l: FoundLink) -> bool {
    l.link.commit is None
}

/// Renaming an id changes the id of every live link to it and nothing else of it: the place,
/// the mode, the file, the repo, the anchor and the field stay.
pub proof fn renaming_an_id_changes_only_the_id(
    found: Vec<FoundLink>,
    how: Rewriting,
    id: String,
    r: Vec<FoundLink>,
    k: int,
)
    requires
        call_ensures(rewrite_links, (&found, &how), r),
        how == (Rewriting::RenamedBlock { id }),
        0 <= k < found@.len(),
        is_live(found@[k]),
        found@[k].link.block_id is Some,
    ensures
        exists|j: int|
            0 <= j < r@.len() && (#[trigger] r@[j]).span == found@[k].span && {
                let was = found@[k].link;
                let now = r@[j].link@;
                &&& now.block_id == Some((id@, was.block_id->0.referent))
                &&& now.target == was.target@
                &&& now.repo == opt_view(was.repo)
                &&& now.commit is None
                &&& now.anchor == opt_view(was.anchor)
                &&& now.field == opt_view(was.field)
            },
{
    lemma_rewritten(found, how, r, k);
}

proof fn lemma_rewritten(found: Vec<FoundLink>, how: Rewriting, r: Vec<FoundLink>, k: int)
    requires
        call_ensures(rewrite_links, (&found, &how), r),
        0 <= k < found@.len(),
        is_live(found@[k]),
    ensures
        exists|j: int|
            0 <= j < r@.len() && (#[trigger] r@[j]).span == found@[k].span && r@[j].link@
                == crate::mutation::edits::rewritten(found@[k].link@, how),
{
    every_live_link_is_rewritten(found@, how, found@.len() as int, k);
    let v = found_views(r@);
    let e = (found@[k].span, crate::mutation::edits::rewritten(found@[k].link@, how));
    let j = choose|j: int| 0 <= j < v.len() && v[j] == e;
    assert(v[j] == (r@[j].span, r@[j].link@));
}

/// A live link to a file that is folded into another leads to the record in the host; one to
/// a record nested in the file keeps its mode, and its id where that was not given up.
pub proof fn folding_a_file_keeps_its_nested_ids(
    found: Vec<FoundLink>,
    how: Rewriting,
    host: String,
    changes: Vec<IdChange>,
    id: String,
    r: Vec<FoundLink>,
    k: int,
)
    requires
        call_ensures(rewrite_links, (&found, &how), r),
        how == (Rewriting::FoldedLocal { changes, id }) || how == (Rewriting::FoldedCross {
            host,
            changes,
            id,
        }),
        0 <= k < found@.len(),
        is_live(found@[k]),
    ensures
        exists|j: int|
            0 <= j < r@.len() && (#[trigger] r@[j]).span == found@[k].span && {
                let was = found@[k].link;
                let now = r@[j].link@;
                &&& was.block_id is None ==> now.block_id == Some((id@, true))
                &&& was.block_id matches Some(b) ==> (!is_changed(changes@, b.id@)
                    ==> now.block_id == Some((b.id@, b.referent)))
                &&& now.field == opt_view(was.field)
                &&& now.anchor is None
                &&& how is FoldedLocal ==> now.target.len() == 0 && now.repo is None
                &&& how is FoldedCross ==> now.target == host@ && now.repo == opt_view(was.repo)
            },
{
    lemma_rewritten(found, how, r, k);
    let w = found@[k].link@;
    if let Some(b) = found@[k].link.block_id {
        if !is_changed(changes@, b.id@) {
            a_nested_id_is_kept(w, b.id@, b.referent, host@, changes@, id@);
        }
    }
    a_folded_link_leads_into_the_host(w, host@, changes@, id@);
    if w.block_id is None {
        a_link_to_the_file_gets_the_record(w, host@, changes@, id@);
    }
}

/// A link that a commit pins is left alone, whatever else changes.
pub proof fn a_pinned_link_is_left_alone(
    found: Vec<FoundLink>,
    how: Rewriting,
    r: Vec<FoundLink>,
    j: int,
)
    requires
        call_ensures(rewrite_links, (&found, &how), r),
        0 <= j < r@.len(),
    ensures
        exists|k: int|
            0 <= k < found@.len() && is_live(#[trigger] found@[k]) && r@[j].span == found@[k].span,
{
    let v = found_views(r@);
    assert(v[j] == (r@[j].span, r@[j].link@));
    only_live_links_are_rewritten(found@, how, found@.len() as int, j);
}

/// The links to a promoted record go to the file that it became, those to an inlined file to
/// the record in its host, and those to a renamed id to the new one.
pub proof fn links_are_rewritten_for_their_verb(
    p: PromoteGather,
    i: InlineGather,
    within: bool,
    changes: Vec<IdChange>,
    id: String,
    to: &str,
    a: Rewriting,
    b: Rewriting,
    c: Rewriting,
)
    requires
        call_ensures(promote_rewriting, (&p,), a),
        call_ensures(inline_rewriting, (&i, within, changes, id), b),
        call_ensures(rename_block_rewriting, (to,), c),
    ensures
        a matches Rewriting::Promoted { stem, id: x } && stem@ == p.new_stem@ && opt_view(x)
            == opt_view(p.promoted_id),
        within ==> b == (Rewriting::FoldedLocal { changes, id }),
        !within ==> (b matches Rewriting::FoldedCross { host, changes: x, id: y } && host@
            == i.into_stem@ && x == changes && y == id),
        c matches Rewriting::RenamedBlock { id: x } && x@ == to@,
{
}

/// The record in its host becomes a reference to the new file, and the edits of the host
/// follow.
pub proof fn the_record_becomes_a_reference(
    g: PromoteGather,
    host: &[u8],
    own: Vec<(ByteRange, String)>,
    r: Vec<(ByteRange, String)>,
)
    requires
        call_ensures(promote_host_edits, (&g, host, own), r),
    ensures
        r@.len() == own@.len() + 1,
        r@.skip(1) == own@,
        r@[0].0.start == g.record_span.start,
        r@[0].1@ == "\"[["@ + g.new_stem@ + "]]\""@,
{
}

/// Where a file is folded in, its text comes first and the edits of the host follow; a
/// renamed id is written where it is declared.
pub proof fn the_edits_of_the_host_follow(
    fold: (ByteRange, String),
    own: Vec<(ByteRange, String)>,
    a: Vec<(ByteRange, String)>,
    g: BlockIdGather,
    to: &str,
    b: Vec<(ByteRange, String)>,
    renamed: Vec<(ByteRange, String)>,
    c: Vec<(ByteRange, String)>,
)
    requires
        call_ensures(inline_host_edits, (fold, own), a),
        call_ensures(rename_block_host_edits, (&g, to, own), b),
        call_ensures(folded_file_edits, (renamed, own), c),
    ensures
        a@.len() == own@.len() + 1 && a@[0] == fold && a@.skip(1) == own@,
        b@.len() == own@.len() + 1 && b@[0].0 == g.decl_span && b@[0].1@ == to@ && b@.skip(1)
            == own@,
        c@ == renamed@ + own@,
{
    assert(a@.skip(1) =~= own@);
}

/// An id that both files declare is changed to a fresh one, where it is declared.
pub proof fn a_colliding_id_gets_the_fresh_one(
    colliding: Vec<RecordTarget>,
    fresh: Vec<String>,
    r: (Vec<IdChange>, Vec<(ByteRange, String)>),
    k: int,
)
    requires
        call_ensures(rename_colliding, (&colliding, &fresh), r),
        0 <= k < colliding@.len() <= fresh@.len(),
    ensures
        r.0@.len() == colliding@.len(),
        r.1@.len() == colliding@.len(),
        r.0@[k].from == colliding@[k].id,
        r.0@[k].to == fresh@[k],
        r.1@[k].0 == colliding@[k].span,
        r.1@[k].1 == fresh@[k],
{
}

/// A record is located by its offset or by its id: by one of them, not by both and not by
/// neither.
pub proof fn a_record_is_located_one_way(
    at: Option<usize>,
    id: Option<String>,
    r: Result<Locator, Reject>,
)
    requires
        call_ensures(promote_locator, (at, id), r),
    ensures
        r is Ok <==> (at is Some) != (id is Some),
        at is Some && id is None ==> r == Ok::<Locator, Reject>(Locator::At(at->0)),
        at is None && id is Some ==> r == Ok::<Locator, Reject>(Locator::Block(id->0)),
{
}

/// A type-def is neither moved, promoted to nor stamped.
pub proof fn a_type_def_is_not_moved_like_a_file(
    from: Option<FileKind>,
    to: Option<FileKind>,
    path: &str,
    asked: &str,
    a: Option<Reject>,
    b: Option<Reject>,
    c: Option<Reject>,
)
    requires
        call_ensures(rename_kind_reject, (from, to), a),
        call_ensures(promote_target_reject, (to, path, asked), b),
        call_ensures(rider_target_reject, (to,), c),
    ensures
        a is Some <==> from == Some(FileKind::TypeDef) || to == Some(FileKind::TypeDef),
        to == Some(FileKind::TypeDef) ==> b is Some && c is Some,
        c is Some ==> to == Some(FileKind::TypeDef),
        b is None <==> to != Some(FileKind::TypeDef)
            && crate::mutation::promote::instance_extension(
            crate::mutation::promote::lower_extension(path@),
        ),
{
}

/// A file is not inlined into itself, nor with a body, and an id is not renamed to itself or
/// to what is no id.
pub proof fn a_refactor_changes_something(
    file: &str,
    into: &str,
    a: Option<Reject>,
    id: &str,
    to: &str,
    b: Option<Reject>,
    has_body: bool,
    c: Result<(), Reject>,
)
    requires
        call_ensures(inline_same_file_reject, (file, into), a),
        call_ensures(rename_block_id_reject, (id, to), b),
        call_ensures(check_foldable, (has_body,), c),
    ensures
        a is Some <==> same_path_spec(file@, into@),
        b is None <==> id@ != to@ && valid_block_id(to@),
        c is Err <==> has_body,
{
}

/// A file is written where it reads as the engine last read it; where it does not, or cannot
/// be read, the mutation is refused.
pub proof fn a_file_is_written_where_it_is_unchanged(
    path: &str,
    what: &str,
    held: Option<String>,
    read: Result<String, String>,
    plan: AssignPlan,
    at: usize,
    fresh: &str,
    a: Result<(), Reject>,
    b: Result<(), Reject>,
    c: Result<(String, AssignEdit), Reject>,
)
    requires
        call_ensures(check_referrer, (path, &held, &read), a),
        call_ensures(check_unchanged, (path, what, &held, &read), b),
        call_ensures(assign_block_id, (path, &held, &read, &plan, at, fresh), c),
    ensures
        ({
            let unchanged = read matches Ok(digest) && opt_view(held) == Some(digest@);
            &&& a is Ok <==> unchanged
            &&& b is Ok <==> unchanged
            &&& c is Ok <==> unchanged
        }),
        c is Ok ==> (plan matches AssignPlan::Existing(id) ==> c->Ok_0.0@ == id@ && c->Ok_0.1
            == AssignEdit::Keep),
        c is Ok && !(plan is Existing) ==> c->Ok_0.0@ == fresh@ && c->Ok_0.1 != AssignEdit::Keep,
{
}

/// An id that is there and nothing to stamp leave nothing to write.
pub proof fn an_id_that_is_there_leaves_nothing_to_write(plan: AssignPlan, stamps: usize, r: bool)
    requires
        call_ensures(assign_is_done, (&plan, stamps), r),
    ensures
        r <==> plan is Existing && stamps == 0,
{
}

/// A file that is not as the caller expects is not written; without an expectation it is.
pub proof fn an_expectation_is_kept(
    expected: Option<String>,
    current: &str,
    r: Result<(), Reject>,
)
    requires
        call_ensures(check_expected, (&expected, current), r),
    ensures
        expected is None ==> r is Ok,
        expected matches Some(e) ==> (r is Ok <==> e@ == current@),
{
}

/// A write that adds an error is refused where the caller asks for that; one that adds none,
/// or is only to be advised, is not.
pub proof fn a_new_error_is_refused_where_that_is_asked(
    mode: OnInvalid,
    before: Vec<Diagnostic>,
    after: Vec<Diagnostic>,
    r: Result<(), Reject>,
)
    requires
        call_ensures(gate_invalid, (mode, &before, &after), r),
    ensures
        mode == OnInvalid::Advise ==> r is Ok,
        (forall|k: int|
            #![trigger after@[k]]
            0 <= k < after@.len() ==> after@[k].severity != Severity::Error) ==> r is Ok,
        mode == OnInvalid::Reject && (forall|k: int|
            #![trigger before@[k]]
            0 <= k < before@.len() ==> before@[k].severity != Severity::Error) && (exists|k: int|
            #![trigger after@[k]]
            0 <= k < after@.len() && after@[k].severity == Severity::Error) ==> r is Err,
{
    lemma_no_errors(before@, before@.len() as int);
    lemma_no_errors(after@, after@.len() as int);
    if exists|k: int|
        #![trigger after@[k]]
        0 <= k < after@.len() && after@[k].severity == Severity::Error {
        let k = choose|k: int|
            #![trigger after@[k]]
            0 <= k < after@.len() && after@[k].severity == Severity::Error;
        the_errors_are_those_of_that_severity(after@, after@.len() as int, after@[k].code@);
        let codes = crate::mutation::nested::error_codes(after@, after@.len() as int);
        assert(codes.contains(after@[k].code@));
        assert(codes.len() > 0);
    }
}

proof fn lemma_no_errors(ds: Seq<Diagnostic>, n: int)
    requires
        0 <= n <= ds.len(),
    ensures
        (forall|k: int| #![trigger ds[k]] 0 <= k < n ==> ds[k].severity != Severity::Error)
            ==> crate::mutation::nested::error_codes(ds, n).len() == 0,
    decreases n,
{
    if n > 0 {
        lemma_no_errors(ds, n - 1);
        let here = ds[n - 1];
    }
}

/// A tree that carries the commit is reverted, one that does not is restored, and one of
/// which that is not known is left alone.
pub proof fn a_tree_is_undone_as_it_stands(committed: Result<bool, String>, r: Undo)
    requires
        call_ensures(undo_of, (&committed,), r),
    ensures
        committed == Ok::<bool, String>(true) ==> r == Undo::Revert,
        committed == Ok::<bool, String>(false) ==> r == Undo::Restore,
        committed is Err ==> r == Undo::Leave,
{
}

/// The refactors that change other files need git, and no other mutation does.
pub proof fn a_refactor_of_other_files_needs_git(verb: Verb, r: bool)
    requires
        call_ensures(requires_git, (verb,), r),
    ensures
        r <==> verb is Rename || verb is RenameType || verb is Promote || verb is Inline
            || verb is RenameBlockId,
{
}

/// What a mutation answers beside the file: a deletion the last commit that had it, an
/// assigned id the id, and every other its riders.
pub proof fn a_mutation_answers_for_its_verb(
    verb: Verb,
    written: Option<String>,
    riders: Vec<Member>,
    last_live: Vec<Member>,
    assigned: Vec<Member>,
    r: (Option<String>, Vec<Member>),
)
    requires
        call_ensures(told, (verb, written, riders, last_live, assigned), r),
    ensures
        verb is DeleteFile ==> r.0 is None && r.1@ == last_live@,
        verb is AssignBlockId ==> r.0 == written && r.1@ == assigned@,
        verb is WriteFile || verb is EditFile || verb is Rename || verb is RenameType
            || verb is Promote || verb is Inline || verb is RenameBlockId || verb is EditRecord
            || verb is AppendRecord ==> r.0 == written && r.1@ == riders@,
        verb is SetIgnores ==> r.0 is None && r.1@.len() == 0,
        verb is SetConfig && written is Some ==> r.1@.len() == 1 && r.1@[0].key@ == "hash"@ && jv(
            r.1@[0].value,
        ) == JsonView::Text(written->0@),
{
}

/// The last commit that had a deleted file is told where the deletion was committed.
pub proof fn the_last_live_commit_is_told(
    commits: Vec<RepoCommit>,
    last_live: Option<String>,
    r: Vec<Member>,
)
    requires
        call_ensures(last_live_extra, (&commits, &last_live), r),
    ensures
        r@.len() == 1 <==> commits@.len() > 0 && last_live is Some,
        r@.len() <= 1,
        r@.len() == 1 ==> r@[0].key@ == "last_live_commit"@ && jv(r@[0].value) == JsonView::Text(
            last_live->0@,
        ),
{
}

/// A target goes ahead where its repo may be edited.
pub proof fn a_target_goes_ahead_where_its_repo_may_be_edited(
    repos: Vec<Repo>,
    resolved: Result<String, Reject>,
    i: int,
    r: Result<String, Reject>,
)
    requires
        call_ensures(resolve_editable_target, (&repos, resolved), r),
        resolved matches Ok(t) ==> crate::model::owner(repos@, t@) == Some(i),
    ensures
        resolved is Err ==> r == resolved,
        resolved is Ok && repos@[i].editable ==> r == resolved,
        resolved is Ok && !repos@[i].editable ==> r is Err,
{
}

/// A preview is simulated on a file that may be edited, with its own change and stamps.
pub proof fn a_preview_is_of_the_change_that_is_asked(
    ready: bool,
    repos: Vec<Repo>,
    resolved: Result<String, Reject>,
    op: PreviewOp,
    stamps: Vec<PreviewStamp>,
    i: int,
    r: PreviewStep,
)
    requires
        call_ensures(preview_mutation, (ready, &repos, resolved, op, stamps), r),
        resolved matches Ok(t) ==> crate::model::owner(repos@, t@) == Some(i),
    ensures
        r is Reply <==> !ready,
        ready && resolved is Err ==> r == PreviewStep::Refused(resolved->Err_0),
        ready && resolved is Ok && repos@[i].editable ==> r == (PreviewStep::Simulate {
            target: resolved->Ok_0,
            op,
            stamps,
        }),
        ready && resolved is Ok && !repos@[i].editable ==> r is Refused,
{
}

/// The bound of a read is the one that it sets, or the one that it has without.
pub proof fn a_bound_is_the_one_that_is_set(
    limit: Option<usize>,
    since: Option<String>,
    a: Option<usize>,
    args: NeighborhoodArgs,
    b: usize,
)
    requires
        call_ensures(effective_limit, (limit, &since), a),
        call_ensures(node_bound, (&args,), b),
    ensures
        limit is Some ==> a == limit,
        limit is None && since is Some ==> a is None,
        limit is None && since is None ==> a == Some(100usize),
        args.max_nodes is Some ==> b == args.max_nodes->0,
        args.max_nodes is None ==> b == 2000,
{
}

/// Dependencies are brought in where the knowledge base is there and there is a place for
/// them.
pub proof fn a_resolve_goes_ahead_where_it_can(
    version: Option<u64>,
    cache: Option<String>,
    r: Option<ResolveOutcome>,
)
    requires
        call_ensures(open_resolve, (version, &cache), r),
    ensures
        r is None <==> version is Some && cache is Some,
        version is None ==> (r matches Some(o) && o is NotReady),
        version is Some && cache is None ==> (r matches Some(o) && o is NoCacheRoot),
{
}

/// A consumer's file comes from the content that is given, or from what it holds with one
/// record changed; either way it declares its type.
pub proof fn a_config_comes_from_what_is_given(
    has_content: bool,
    has_edit: bool,
    f: Result<ConfigForm, Reject>,
    form: ConfigForm,
    content: &str,
    current: Option<String>,
    declares: bool,
    ty: &str,
    r: Result<ConfigText, Reject>,
)
    requires
        call_ensures(config_form, (has_content, has_edit), f),
        call_ensures(produce_config_content, (form, content, &current, declares, ty), r),
    ensures
        f is Ok <==> has_content != has_edit,
        has_content && !has_edit ==> f == Ok::<ConfigForm, Reject>(ConfigForm::Content),
        has_edit && !has_content ==> f == Ok::<ConfigForm, Reject>(ConfigForm::Edit),
        form is Content && declares ==> (r matches Ok(ConfigText::Whole(s)) && s@ == content@),
        form is Content && !declares ==> (r matches Ok(ConfigText::Whole(s)) && s@ == "type: "@
            + ty@ + "\n"@ + content@),
        form is Edit && current is None ==> r is Err,
        form is Edit && current is Some && declares ==> (r matches Ok(ConfigText::Base(s)) && s@
            == current->0@),
        form is Edit && current is Some && !declares ==> (r matches Ok(ConfigText::Base(s)) && s@
            == "type: "@ + ty@ + "\n"@ + current->0@),
{
}

/// A consumer's file lies in the consumer's directory under the file's own name, and the
/// patterns of a member below its root; without patterns there is no file.
pub proof fn a_config_lies_in_the_directory_of_its_consumer(
    dir: &str,
    consumer: &str,
    file: &str,
    a: String,
    b: String,
    patterns: Vec<String>,
    c: Option<String>,
)
    requires
        call_ensures(config_path, (dir, consumer, file), a),
        call_ensures(ignores_path, (dir,), b),
        call_ensures(ignores_content, (&patterns,), c),
    ensures
        a@ == joined_path(joined_path(joined_path(dir@, consumer@), "config"@), file@),
        b@ == joined_path(joined_path(dir@, ".arsumbris"@), ".auignore"@),
        c is None <==> patterns@.len() == 0,
        patterns@.len() == 1 ==> (c matches Some(t) && t@ == patterns@[0]@ + "\n"@),
{
    if patterns@.len() == 1 {
        assert(crate::text::views(patterns@)[0] == patterns@[0]@);
    }
}

/// A value is checked with the types of the repo that it names, of the root where it names
/// none, and with none at all where the repo is not there.
pub proof fn a_value_is_checked_with_the_types_of_its_repo(
    repo: Option<String>,
    known: bool,
    r: Vocabulary,
)
    requires
        call_ensures(value_vocabulary, (&repo, known), r),
    ensures
        repo is None ==> r is Root,
        repo matches Some(name) ==> (known ==> r == Vocabulary::Repo(name)) && (!known
            ==> r is Empty),
{
}

/// A value that parsed is validated, unless the build of its types was broken off; what the
/// parse itself found is told in every case.
pub proof fn a_value_that_parsed_is_validated(
    structural: Vec<Diagnostic>,
    parsed: bool,
    outcome: Option<BuildOutcome>,
    validated: Vec<Diagnostic>,
    a: bool,
    b: Vec<Diagnostic>,
)
    requires
        call_ensures(reaches_validation, (parsed, outcome), a),
        call_ensures(validate_scoped_instance, (structural, parsed, outcome, validated), b),
    ensures
        a <==> parsed && outcome != Some(BuildOutcome::Aborted),
        a ==> b@ == structural@ + validated@,
        !a ==> b@ == structural@,
{
    match outcome {
        None => {},
        Some(BuildOutcome::Complete) => {},
        Some(BuildOutcome::Aborted) => {},
    }
}

/// A file that is no instance is not validated as one.
pub proof fn only_an_instance_is_validated(
    read: ContentRead,
    device: DeviceRead,
    outcome: Option<BuildOutcome>,
    validated: Vec<Diagnostic>,
    a: Vec<Diagnostic>,
    b: Vec<Diagnostic>,
)
    requires
        call_ensures(validate_instance_content, (read, outcome, validated), a),
        call_ensures(validate_device_file, (device, outcome, validated), b),
        outcome is None,
    ensures
        read is Broken ==> a@.len() == 0,
        read matches ContentRead::Instance { duplicates, own, parsed } ==> (parsed ==> a@
            == duplicates@ + own@ + validated@) && (!parsed ==> a@ == duplicates@ + own@),
        device matches DeviceRead::Instance { own, parsed } ==> (parsed ==> b@ == own@ + validated@)
            && (!parsed ==> b@ == own@),
        device matches DeviceRead::Unparsed { own } ==> b@ == own@,
        device is Other ==> b@.len() == 0,
{
    if let ContentRead::Instance { duplicates, own, parsed } = read {
        if !parsed {
            assert(duplicates@ + own@ + Seq::<Diagnostic>::empty() =~= duplicates@ + own@);
        }
    }
}

/// The lines of a diagnostic are counted in its own file: in the document, or in the
/// catalogued file.
pub proof fn lines_are_counted_in_the_own_file(
    catalog: Vec<CatalogEntry>,
    document: &str,
    file: &str,
    r: LineSource,
)
    requires
        call_ensures(line_source, (&catalog, document, file), r),
    ensures
        same_path_spec(file@, document@) <==> r is Document,
        r matches LineSource::Catalogued(i) ==> entry_of(catalog@, file@) is Some,
        !same_path_spec(file@, document@) && entry_of(catalog@, file@) is None ==> r is Unknown,
{
}

/// A commit is made with the summary and the id of its mutation and what it is attributed to.
pub proof fn a_commit_says_what_it_is_of(
    plan: SagaPlan,
    summary: &str,
    moves: Vec<TreeMoves>,
    m: usize,
    r: CommitMessage,
)
    requires
        m < plan.members@.len(),
        call_ensures(commit_message, (&plan, summary, &moves, m), r),
    ensures
        r.summary@ == summary@,
        r.mutation_id == plan.mutation_id,
        r.attribution@ == plan.attribution@,
{
}

/// A promote goes to the file that is asked for, is held to the digest of its host, and
/// follows every reference to what travels.
pub proof fn a_promote_gathers_what_follows_the_record(
    kb: KnowledgeBase,
    from: &str,
    to: &str,
    hit: RecordHit,
    admits: Option<bool>,
    targets: Vec<RecordTarget>,
    r: Result<PromoteGather, String>,
    j: int,
)
    requires
        call_ensures(gather_promote, (&kb, from, to, hit, admits, &targets), r),
        r is Ok,
        0 <= j < inbound(kb.backlinks@, from@).len(),
    ensures
        r matches Ok(g) && {
            let link = inbound(kb.backlinks@, from@)[j];
            &&& g.record_span == hit.span
            &&& g.promoted_id == hit.existing
            &&& g.host_hash == crate::model::held_hash(kb.catalog@, from@)
            &&& g.new_stem@ == crate::paths::file_stem_of(to@)
            &&& names_what_travels(link, targets@, hit.span) && stands_inside(
                link,
                from@,
                hit.span,
            ) ==> g.inner_self_pointers@.contains(link.span)
            &&& names_what_travels(link, targets@, hit.span) && !stands_inside(
                link,
                from@,
                hit.span,
            ) ==> exists|x: int|
                0 <= x < g.referrers@.len() && same_path_spec(
                    (#[trigger] g.referrers@[x]).path@,
                    link.source@,
                ) && g.referrers@[x].spans@.contains(link.span)
        },
{
    let links = inbound(kb.backlinks@, from@);
    let g = r->Ok_0;
    what_names_the_record_follows_it(links, targets@, from@, hit.span, j);
    let outer = outer_links(links, targets@, from@, hit.span);
    let inner = inner_links(links, targets@, from@, hit.span);
    if outer.contains(j) {
        let k = choose|k: int| 0 <= k < outer.len() && outer[k] == j;
        every_picked_reference_is_told(g.referrers@, kb.catalog@, links, outer, k);
    }
    if inner.contains(j) {
        let k = choose|k: int| 0 <= k < inner.len() && inner[k] == j;
        assert(g.inner_self_pointers@[k] == links[j].span);
    }
}

/// A move is recorded in the tree round the repo, or in the repo's own root, from the old
/// path to the new one.
pub proof fn a_move_is_recorded_in_its_tree(
    repo_root: &str,
    tree: Option<String>,
    old_rel: &str,
    new_rel: &str,
    r: TreeMoves,
)
    requires
        call_ensures(moves_for, (repo_root, &tree, old_rel, new_rel), r),
    ensures
        tree matches Some(t) ==> r.tree@ == t@,
        tree is None ==> r.tree@ == repo_root@,
        r.records@.len() == 1,
        r.records@[0].from@ == onto_tree(repo_root@, r.tree@, old_rel@),
        r.records@[0].to@ == onto_tree(repo_root@, r.tree@, new_rel@),
{
}

/// A value is checked against every type that its claim fits, each under its own name and
/// repo; where none fits there is one verdict, under the name of the claim.
pub proof fn a_value_gets_a_verdict_for_each_fit(
    name: &str,
    claim_repo: Option<String>,
    repo: Option<String>,
    value: Json,
    fits: Vec<Fit>,
    r: Vec<VerdictPlan>,
    i: int,
)
    requires
        call_ensures(validate_value_verdicts, (name, &claim_repo, &repo, &value, &fits), r),
    ensures
        fits@.len() > 0 ==> r@.len() == fits@.len(),
        0 <= i < fits@.len() ==> r@[i].fit == Some(i as usize) && r@[i].name == fits@[i].name
            && r@[i].repo == Some(fits@[i].member) && (fits@[i].declared is None
            ==> r@[i].undeclared@.len() == 0),
        fits@.len() == 0 ==> r@.len() == 1 && r@[0].fit is None && r@[0].name@ == name@,
        fits@.len() == 0 && claim_repo is Some ==> opt_view(r@[0].repo) == opt_view(claim_repo),
        fits@.len() == 0 && claim_repo is None ==> opt_view(r@[0].repo) == opt_view(repo),
{
    if 0 <= i < fits@.len() {
        let here = r@[i];
    }
}

/// What a resolve came to is answered as it is: not ready, refused with the reason, or told.
pub proof fn a_resolve_is_answered_as_it_came_out(
    outcome: ResolveOutcome,
    code: &str,
    version: Option<u64>,
    r: Json,
)
    requires
        call_ensures(handle_resolve, (&outcome, code, version), r),
    ensures
        jv(r) matches JsonView::Object(m) && {
            &&& outcome is NotReady ==> tells(m, "ready"@, JsonView::Bool(false))
            &&& outcome matches ResolveOutcome::Failed(e) ==> tells(
                m,
                "error"@,
                JsonView::Text("resolve failed: "@ + e@),
            )
            &&& outcome is NoCacheRoot ==> tells(m, "type"@, JsonView::Text("error"@))
            &&& outcome is Done ==> tells(m, "type"@, JsonView::Text("resolved"@))
        },
{
    let m = jv(r)->Object_0;
    assert(m.contains(m[0]) && m.contains(m[2]));
}

/// A mutation that was refused is answered with the reason, and one that landed with the
/// version of the knowledge base that shows it.
pub proof fn a_mutation_is_answered_as_it_came_out(
    outcome: Result<Landed, Reject>,
    version: u64,
    kb: KnowledgeBase,
    diagnostics: Vec<Diagnostic>,
    target: String,
    head: Option<String>,
    r: Json,
)
    requires
        call_ensures(
            answer_mutation,
            (outcome, Some((version, &kb, &diagnostics)), &target, &head),
            r,
        ),
    ensures
        jv(r) matches JsonView::Object(m) && {
            &&& outcome matches Err(e) ==> tells(m, "error"@, JsonView::Text(e.message@)) && tells(
                m,
                "type"@,
                JsonView::Text("error"@),
            )
            &&& outcome is Ok ==> tells(m, "ready"@, JsonView::Bool(true)) && tells(
                m,
                "version"@,
                JsonView::Int(version as nat),
            )
        },
{
    let m = jv(r)->Object_0;
    assert(m.contains(m[0]) && m.contains(m[2]));
    if outcome is Ok {
        assert(m.contains(m[3]));
    }
}

/// A frame of a subscription carries the number of the subscription, the version, and what is
/// held.
pub proof fn a_first_frame_carries_what_is_held(
    w: FilesWatch,
    g: LinkGraphWatch,
    t: TypeGraphWatch,
    version: u64,
    a: Json,
    b: Json,
    c: Json,
)
    requires
        call_ensures(FilesWatch::initial_frame, (&w, version), a),
        call_ensures(LinkGraphWatch::initial_frame, (&g, version), b),
        call_ensures(TypeGraphWatch::initial_frame, (&t, version), c),
    ensures
        jv(a) == JsonView::Object(
            initial_members(w.id as nat, version as nat, rendered_list(w.last@)),
        ),
        jv(b) == JsonView::Object(
            initial_members(g.id as nat, version as nat, g.last.rendered()),
        ),
        jv(c) == JsonView::Object(
            initial_members(t.id as nat, version as nat, t.last.rendered()),
        ),
{
}

/// A frame that cannot be read is answered with the reason, and any other is acted on.
pub proof fn a_frame_that_cannot_be_read_is_refused(
    c: Connection,
    request: Result<Json, String>,
    r: Action,
)
    requires
        call_ensures(Connection::on_frame, (&c, request), r),
    ensures
        request matches Ok(j) ==> r@ == action_for(jv(j), c.next_subscription_id),
        request matches Err(e) ==> (r@ matches ActionView::Send(f) && (f matches JsonView::Object(m)
            && tells(m, "error"@, JsonView::Text("malformed request: "@ + e@)))),
{
    if let Err(e) = request {
        let m = (r@)->Send_0->Object_0;
        assert(m.contains(m[2]));
    }
}

/// The root of a member is where its configuration is written, where it may be edited.
pub proof fn a_config_is_written_to_a_member_that_may_be_edited(
    repos: Vec<Repo>,
    entry: Option<usize>,
    served_root: &str,
    asked: Option<String>,
    root: &str,
    a: Result<String, Reject>,
    b: Result<String, Reject>,
    i: int,
)
    requires
        call_ensures(resolve_config_member, (&repos, entry, served_root, &asked), a),
        call_ensures(resolve_ignores_member, (&repos, served_root, root), b),
    ensures
        config_member(repos@, entry, served_root@, opt_view(asked)) is None ==> a is Err,
        config_member(repos@, entry, served_root@, opt_view(asked)) == Some(i) ==> (a is Ok
            <==> repos@[i].editable) && (a is Ok ==> a == Ok::<String, Reject>(repos@[i].root)),
        repo_rooted(repos@, joined_path(served_root@, root@), 0) is None ==> b is Err,
        repo_rooted(repos@, joined_path(served_root@, root@), 0) == Some(i) ==> (b is Ok
            <==> repos@[i].editable) && (b matches Ok(p) ==> p@ == joined_path(
            served_root@,
            root@,
        )),
{
}

/// A read of a consumer's file is refused, then waits for the knowledge base, and then reads
/// the file where it lies.
pub proof fn a_config_is_read_where_it_lies(
    refused: Option<String>,
    ready: bool,
    repos: Vec<Repo>,
    entry: Option<usize>,
    served_root: &str,
    scope: ConfigScope,
    asked: Option<String>,
    base: Option<String>,
    r: ConfigRead,
)
    requires
        call_ensures(
            config_response,
            (refused, ready, &repos, entry, served_root, scope, &asked, &base),
            r,
        ),
    ensures
        refused matches Some(m) ==> (r matches ConfigRead::Reply(reply) && reply.error matches Some(e)
            && e@ == m@),
        refused is None && !ready ==> (r matches ConfigRead::Reply(reply) && !reply.ready
            && reply.error is None),
        refused is None && ready ==> ({
            let at = config_place(
                repos@,
                entry,
                served_root@,
                scope,
                opt_view(asked),
                opt_view(base),
            );
            &&& at matches Some(place) ==> (r matches ConfigRead::Read { dir, repo } && dir@
                == place.0 && repo@ == place.1)
            &&& at is None && scope is Machine ==> (r matches ConfigRead::Nowhere(v) && !v.exists)
            &&& at is None && scope is Repo ==> (r matches ConfigRead::Reply(reply)
                && reply.error is Some)
        }),
{
    match scope {
        ConfigScope::Machine => {},
        ConfigScope::Repo => {},
    }
}

/// A registration is answered with the entry, its path taken below the root, or refused with
/// the reason.
pub proof fn a_registration_is_answered(
    outcome: RegisterOutcome,
    name: &str,
    served_root: &str,
    path: &str,
    version: Option<u64>,
    r: Json,
)
    requires
        call_ensures(register, (outcome, name, served_root, path, version), r),
    ensures
        jv(r) matches JsonView::Object(m) && {
            &&& outcome is Written ==> tells(m, "name"@, JsonView::Text(name@)) && tells(
                m,
                "path"@,
                JsonView::Text(joined_path(served_root@, path@)),
            )
            &&& outcome matches RegisterOutcome::Conflict(e) ==> tells(
                m,
                "error"@,
                JsonView::Text(e@),
            )
            &&& !(outcome is Written) ==> tells(m, "type"@, JsonView::Text("error"@))
        },
{
    let m = jv(r)->Object_0;
    assert(m.contains(m[0]) && m.contains(m[2]));
    if outcome is Written {
        assert(m.contains(m[3]));
    }
}

/// Commits are asked of the repositories that they go to, one for one and in order.
pub proof fn commits_are_routed_in_order(
    commits: Vec<CommitRef>,
    members: Vec<MemberTree>,
    entry_root: &str,
    r: Vec<StoreRequest>,
    i: int,
)
    requires
        call_ensures(route_commits, (&commits, &members, entry_root), r),
        0 <= i < commits@.len(),
    ensures
        r@.len() == commits@.len(),
        r@[i].commit == commits@[i].commit,
        opt_view(r@[i].store) == store_of(commits@[i], members@, entry_root@),
{
    if r@.len() > i {
        let here = r@[i];
    }
}

/// The history of a path is asked for in its directory, under its name; a path is not taken
/// with a repo where it is absolute.
pub proof fn a_history_is_asked_for_in_its_directory(
    path: Option<String>,
    r: Option<HistoryQuery>,
    asked: &str,
    repo: Option<String>,
    e: Option<String>,
)
    requires
        call_ensures(history_query, (&path,), r),
        call_ensures(check_history, (asked, &repo), e),
    ensures
        path is None ==> r is None,
        path matches Some(p) ==> {
            &&& r is Some <==> parent_of(p@) is Some && file_name_of(p@) is Some
            &&& r matches Some(q) ==> parent_of(p@) == Some(q.dir@) && file_name_of(p@) == Some(
                q.name@,
            )
        },
        e is Some <==> repo is Some && absolute(asked@),
{
}

/// The stamps and the mixins of a write come to the digest of the last that wrote; the first
/// that fails stops it with its own reason.
pub proof fn the_first_failure_stops_a_write(
    primary: String,
    stamps: Vec<Result<Option<String>, Reject>>,
    r: Result<String, Reject>,
    k: int,
    e: Reject,
)
    requires
        call_ensures(fold_write_stamps, (primary, stamps), r),
    ensures
        (forall|j: int| #![trigger stamps@[j]] 0 <= j < stamps@.len() ==> stamps@[j] is Ok)
            ==> r is Ok,
        0 <= k < stamps@.len() && stamps@[k] == Err::<Option<String>, Reject>(e) && (forall|j: int|
            #![trigger stamps@[j]]
            0 <= j < k ==> stamps@[j] is Ok) ==> r == Err::<String, Reject>(e),
{
    if let Err(x) = r {
        let q = choose|q: int|
            #![trigger stamps@[q]]
            0 <= q < stamps@.len() && crate::mutation::riders::folded(stamps@, q) && stamps@[q]
                == Err::<Option<String>, Reject>(x);
        if 0 <= k < stamps@.len() && stamps@[k] == Err::<Option<String>, Reject>(e) && (forall|j: int|
            #![trigger stamps@[j]]
            0 <= j < k ==> stamps@[j] is Ok) {
            let a = stamps@[q];
            let b = stamps@[k];
            if k < q {
                assert(stamps@[k] is Ok);
            }
            assert(q == k);
        }
    } else if 0 <= k < stamps@.len() {
        let b = stamps@[k];
    }
}

/// A header says how long its frame is, and one that is too long is refused.
pub proof fn a_frame_that_is_too_long_is_refused(
    header: [u8; 4],
    a: Result<usize, String>,
    bytes: Vec<u8>,
    b: Arrived,
)
    requires
        call_ensures(frame_length, (header,), a),
        call_ensures(take_frame, (&bytes,), b),
    ensures
        a is Ok <==> header@[0] as int * 16777216 + header@[1] as int * 65536 + header@[2] as int
            * 256 + header@[3] as int <= 16777216,
        a matches Ok(n) ==> n == header@[0] as int * 16777216 + header@[1] as int * 65536
            + header@[2] as int * 256 + header@[3] as int,
        bytes@.len() < 4 ==> b is Partial,
        b matches Arrived::Frame { payload, taken } ==> taken == payload@.len() + 4 && payload@
            == bytes@.subrange(4, taken as int),
{
    if let Arrived::Frame { payload, taken } = b {
        assert(payload@.len() == taken - 4);
    }
}

/// A heading is reached where it stands in its file: in the body, counted from the start of
/// the file.
pub proof fn a_heading_is_reached_where_it_stands(
    catalog: Vec<CatalogEntry>,
    path: &str,
    found: Option<ByteRange>,
    r: Option<ByteRange>,
    i: int,
)
    requires
        call_ensures(resolve_anchor_view, (&catalog, path, found), r),
    ensures
        entry_of(catalog@, path@) is None ==> r is None,
        found is None ==> r is None,
        entry_of(catalog@, path@) == Some(i) ==> (catalog@[i].body is None ==> r is None) && (
        catalog@[i].body matches Some(b) ==> (found matches Some(s) ==> (r matches Some(t)
            && t.start == (s.start + b.offset) as usize && t.end == (s.end + b.offset) as usize))),
{
}

/// What is fetched is answered as ready, at the version that it was asked at.
pub proof fn what_is_fetched_is_answered_as_ready(
    version: u64,
    query: Query,
    payload: Json,
    r: Response,
)
    requires
        call_ensures(deliver, (version, &query, payload), r),
    ensures
        r.ready,
        r.version == Some(version),
        r.error is None,
        query is Type ==> (r.result matches Some(j) && jv(j) == JsonView::Object(
            seq![("type"@, jv(payload))],
        )),
        query is Subtypes ==> (r.result matches Some(j) && jv(j) == jv(payload)),
{
}

} // verus!
