//! The start and the end of a mutation: what is judged before anything is written,
//! in which order, and how the outcome is answered.

use crate::config_read::ConfigScope;
use crate::diagnostics::Diagnostic;
use crate::frames::{
    make_not_ready_frame, mutation_reject_frame, not_ready_frame, ready_frame, reject_members,
};
use crate::json::{jv, members_view, opt_jv, Json, JsonView, Member};
use crate::model::{inbound, owner, FileKind, KnowledgeBase, Repo};
use crate::mutation::assign::{assign_plan, assign_view, locate_assign, AssignPlan};
use crate::mutation::blocks::{
    block_id_refusal, gather_rename_block_id, naming, rename_block_id_reject, target_span,
    valid_block_id, BlockIdGather,
};
use crate::mutation::config::{
    config_form, config_member, ignores_path, malformed_pattern_reject, repo_rooted,
    resolve_config_member, resolve_ignores_member, ConfigForm,
};
use crate::mutation::inline::{inline_same_file_reject, inline_spot, locate_inline, InlineSpot};
use crate::mutation::promote::{
    instance_extension, locate_promote, lower_extension, promotable, promote_locator,
    promote_target_reject, Locator, RecordTarget,
};
use crate::mutation::refactor::everything;
use crate::mutation::referrers::is_referrers;
use crate::mutation::rename::{gather_rename, rename_kind_reject, rename_repo, RenameGather};
use crate::mutation::rename_type::{
    catalog_fits, gather_rename_type, is_rename_type_gather, rename_type_refusal, split_type,
    split_type_name, RenameTypeGather,
};
use crate::mutation::response::{mutation_response_extra, mutation_result};
use crate::mutation::target::{
    not_editable_message, resolve_editable_target, rider_message, rider_target_reject,
};
use crate::paths::{abs_arg, below_or_self, joined_path, same_path_spec};
use crate::records::RecordHit;
use crate::saga::commit::{commit_views, RepoCommit};
use crate::saga::plan::{CommitTrailer, Reject};
use crate::text::{debug_form, opt_view};
use vstd::prelude::*;

verus! {

/// A path argument within the mounted repos, or why it is none.
pub type Resolved = Result<String, Reject>;

/// A mutation as it arrives, with what its paths resolve to and what the files at
/// them are by their paths.
#[allow(inconsistent_fields)]
pub enum Opening {
    /// A file is written, edited or deleted. `riders` says whether stamps or mixins
    /// ride the write.
    Write {
        target: Resolved,
        kind: Option<FileKind>,
        riders: bool,
        attribution: Result<Vec<CommitTrailer>, String>,
    },
    /// A file moves.
    Rename {
        from: Resolved,
        to: Resolved,
        from_kind: Option<FileKind>,
        to_kind: Option<FileKind>,
    },
    /// A type gets another name. `valid` says whether the new name may be one.
    RenameType { stamps: usize, old_name: String, new_name: String, valid: bool },
    /// A record becomes a file.
    Promote {
        from: Resolved,
        to: Resolved,
        to_kind: Option<FileKind>,
        asked: String,
        at: Option<usize>,
        block_id: Option<String>,
    },
    /// A file becomes a record.
    Inline { file: Resolved, into: Resolved, at: Option<usize> },
    /// A record gets another id. `targets` are the records of the host.
    RenameBlockId {
        host: Resolved,
        targets: Vec<RecordTarget>,
        block_id: String,
        to_block_id: String,
    },
    /// The entity at an offset gets an id. `marker` is the id that the block of the
    /// body there has.
    AssignBlockId { target: Resolved, at: usize, marker: Option<String> },
    /// A record inside a file is changed, or one is added to a list.
    Nested { target: Resolved },
    /// The ignore patterns of a member are replaced. `malformed` says what is wrong
    /// with one of them.
    SetIgnores { served_root: String, root: String, malformed: Option<String> },
    /// The file of a consumer is written. `refused` says why its names may not be used
    /// in a path, `base` is the device's directory.
    SetConfig {
        refused: Option<String>,
        has_content: bool,
        has_edit: bool,
        scope: ConfigScope,
        entry: Option<usize>,
        served_root: String,
        root: Option<String>,
        base: Option<String>,
    },
}

/// A mutation that may go on, with what was gathered for it.
#[allow(inconsistent_fields)]
pub enum Opened {
    /// It does not go on: this is the answer.
    Reply(Json),
    Write { target: String, attribution: Vec<CommitTrailer> },
    Rename { from: String, to: String, gather: RenameGather },
    RenameType { gather: RenameTypeGather },
    Promote { from: String, to: String, hit: RecordHit },
    Inline { file: String, into: String, spot: InlineSpot },
    RenameBlockId { host: String, gather: BlockIdGather },
    AssignBlockId { target: String, plan: AssignPlan },
    Nested { target: String },
    /// The file of the patterns is at `path`.
    SetIgnores { path: String },
    /// The file lies under `dir`.
    SetConfig { form: ConfigForm, dir: String },
}

/// The answer that refuses with this message.
pub open spec fn refused(message: Seq<char>) -> JsonView {
    JsonView::Object(reject_members(message, None))
}

/// Why a path may not be written: it resolves to none, or its repo is not editable.
pub open spec fn target_refusal(repos: Seq<Repo>, resolved: Resolved) -> Option<JsonView> {
    match resolved {
        Err(e) => Some(JsonView::Object(reject_members(e.message@, opt_jv(e.detail)))),
        Ok(t) => {
            let repo = repos[owner(repos, t@)->0];
            if repo.editable {
                None
            } else {
                Some(refused(not_editable_message(repo.name@, repo.role@)))
            }
        },
    }
}

/// Whether a path that resolved lies in a mounted repo.
pub open spec fn lands(repos: Seq<Repo>, resolved: Resolved) -> bool {
    resolved matches Ok(t) ==> owner(repos, t@) is Some
}

/// The path that a mutation writes, or the answer that refuses it.
pub fn resolve_mutation_target(repos: &Vec<Repo>, resolved: Resolved) -> (r: Result<String, Json>)
    requires
        lands(repos@, resolved),
    ensures
        match target_refusal(repos@, resolved) {
            Some(f) => r matches Err(j) && jv(j) == f,
            None => resolved matches Ok(t) && r == Ok::<String, Json>(t),
        },
{
    match resolve_editable_target(repos, resolved) {
        Ok(t) => Ok(t),
        Err(e) => Err(mutation_reject_frame(e)),
    }
}

fn refuse_text(message: String) -> (r: Opened)
    ensures
        r matches Opened::Reply(j) && jv(j) == refused(message@),
{
    Opened::Reply(mutation_reject_frame(Reject::new(message)))
}

/// The first refusal of two paths.
pub open spec fn either_refusal(repos: Seq<Repo>, a: Resolved, b: Resolved) -> Option<JsonView> {
    match target_refusal(repos, a) {
        Some(f) => Some(f),
        None => target_refusal(repos, b),
    }
}

fn resolve_two(repos: &Vec<Repo>, a: Resolved, b: Resolved) -> (r: Result<(String, String), Json>)
    requires
        lands(repos@, a),
        lands(repos@, b),
    ensures
        match either_refusal(repos@, a, b) {
            Some(f) => r matches Err(j) && jv(j) == f,
            None => a is Ok && b is Ok && r == Ok::<(String, String), Json>((a->Ok_0, b->Ok_0)),
        },
{
    match resolve_mutation_target(repos, a) {
        Err(j) => Err(j),
        Ok(x) => match resolve_mutation_target(repos, b) {
            Err(j) => Err(j),
            Ok(y) => Ok((x, y)),
        },
    }
}

/// Whether a reply is this answer.
pub open spec fn replies(r: Opened, frame: JsonView) -> bool {
    r matches Opened::Reply(j) && jv(j) == frame
}

/// How the write of one file starts: the path, then the riders, then the
/// attribution.
pub open spec fn write_opened(
    repos: Seq<Repo>,
    target: Resolved,
    kind: Option<FileKind>,
    riders: bool,
    attribution: Result<Vec<CommitTrailer>, String>,
    r: Opened,
) -> bool {
    match target_refusal(repos, target) {
        Some(f) => replies(r, f),
        None => if riders && kind == Some(FileKind::TypeDef) {
            replies(r, refused(rider_message()))
        } else {
            match attribution {
                Err(m) => replies(r, refused(m@)),
                Ok(trailers) => r == (Opened::Write { target: target->Ok_0, attribution: trailers }),
            }
        },
    }
}

fn open_write(
    repos: &Vec<Repo>,
    target: Resolved,
    kind: Option<FileKind>,
    riders: bool,
    attribution: Result<Vec<CommitTrailer>, String>,
) -> (r: Opened)
    requires
        lands(repos@, target),
    ensures
        write_opened(repos@, target, kind, riders, attribution, r),
{
    let path = match resolve_mutation_target(repos, target) {
        Ok(t) => t,
        Err(j) => return Opened::Reply(j),
    };
    if riders {
        if let Some(e) = rider_target_reject(kind) {
            return Opened::Reply(mutation_reject_frame(e));
        }
    }
    match attribution {
        Err(m) => refuse_text(m),
        Ok(trailers) => Opened::Write { target: path, attribution: trailers },
    }
}

/// Whether this is what the move of a file needs to know.
pub open spec fn is_rename_gather(g: RenameGather, kb: KnowledgeBase, from: Seq<char>, to: Seq<char>, repo: int) -> bool {
    let links = inbound(kb.backlinks@, from);
    &&& g.move_repo_root == kb.repos@[repo].root
    &&& g.old_rel@ == below_or_self(from, kb.repos@[repo].root@)
    &&& g.new_rel@ == below_or_self(to, kb.repos@[repo].root@)
    &&& is_referrers(g.referrers@, kb.catalog@, links, everything(links.len()))
}

/// What is told of a move that concerns a type-def.
pub open spec fn rename_kind_message() -> Seq<char> {
    "rename does not move type-def files — a type-def's name derives from its filename; use rename_type"@
}

/// How the move of a file starts: both paths, then what they are, then their repos.
pub open spec fn rename_opened(
    kb: KnowledgeBase,
    from: Resolved,
    to: Resolved,
    from_kind: Option<FileKind>,
    to_kind: Option<FileKind>,
    r: Opened,
) -> bool {
    match either_refusal(kb.repos@, from, to) {
        Some(f) => replies(r, f),
        None => if from_kind == Some(FileKind::TypeDef) || to_kind == Some(FileKind::TypeDef) {
            replies(r, refused(rename_kind_message()))
        } else {
            match rename_repo(kb, from->Ok_0@, to->Ok_0@) {
                Err(m) => replies(r, refused(m)),
                Ok(i) => r matches Opened::Rename { from: a, to: b, gather } && a == from->Ok_0 && b
                    == to->Ok_0 && is_rename_gather(gather, kb, a@, b@, i),
            }
        },
    }
}

fn open_rename(
    kb: &KnowledgeBase,
    from: Resolved,
    to: Resolved,
    from_kind: Option<FileKind>,
    to_kind: Option<FileKind>,
) -> (r: Opened)
    requires
        lands(kb.repos@, from),
        lands(kb.repos@, to),
    ensures
        rename_opened(*kb, from, to, from_kind, to_kind, r),
{
    let (a, b) = match resolve_two(&kb.repos, from, to) {
        Ok(x) => x,
        Err(j) => return Opened::Reply(j),
    };
    if let Some(e) = rename_kind_reject(from_kind, to_kind) {
        return Opened::Reply(mutation_reject_frame(e));
    }
    match gather_rename(kb, a.as_str(), b.as_str()) {
        Err(m) => refuse_text(m),
        Ok(gather) => Opened::Rename { from: a, to: b, gather },
    }
}

/// What is told of a stamp on the renaming of a type.
pub open spec fn stamp_on_type_message() -> Seq<char> {
    "rename_type has no single target file for a stamp — it rewrites the def and every referrer; stamping a specific file needs the deferred multi-file stamp target"@
}

/// How the renaming of a type starts: no stamp may ride it; the old name may say
/// which repo's type is meant.
pub open spec fn rename_type_opened(
    kb: KnowledgeBase,
    stamps: usize,
    old_name: Seq<char>,
    new_name: Seq<char>,
    valid: bool,
    r: Opened,
) -> bool {
    let (base, repo) = split_type(old_name);
    if stamps > 0 {
        replies(r, refused(stamp_on_type_message()))
    } else {
        match rename_type_refusal(kb, base, repo, new_name, valid) {
            Some(m) => replies(r, refused(m)),
            None => r matches Opened::RenameType { gather } && is_rename_type_gather(
                gather,
                kb,
                base,
                repo,
                new_name,
            ),
        }
    }
}

fn open_rename_type(
    kb: &KnowledgeBase,
    stamps: usize,
    old_name: &str,
    new_name: &str,
    valid: bool,
) -> (r: Opened)
    requires
        catalog_fits(kb.catalog@),
    ensures
        rename_type_opened(*kb, stamps, old_name@, new_name@, valid, r),
{
    if stamps > 0 {
        return refuse_text(
            "rename_type has no single target file for a stamp — it rewrites the def and every referrer; stamping a specific file needs the deferred multi-file stamp target".to_owned(),
        );
    }
    let (base, repo) = split_type_name(old_name);
    match gather_rename_type(kb, base.as_str(), &repo, new_name, valid) {
        Err(m) => refuse_text(m),
        Ok(gather) => Opened::RenameType { gather },
    }
}

/// Why a record cannot become the file that was asked for.
pub open spec fn promote_target_message(kind: Option<FileKind>, to: Seq<char>, asked: Seq<char>) -> Option<
    Seq<char>,
> {
    if kind == Some(FileKind::TypeDef) {
        Some(
            "promote creates an instance file, not a type-def — `to` must not be a type-def path"@,
        )
    } else if !instance_extension(lower_extension(to)) {
        Some(
            "promote target must be a .md, .markdown, .yaml, or .yml file, got "@ + debug_form(
                asked,
            ),
        )
    } else {
        None
    }
}

/// The record that is meant, or why the arguments mean none.
pub open spec fn locator_of(at: Option<usize>, block_id: Option<String>) -> Result<Locator, Seq<char>> {
    match (at, block_id) {
        (Some(_), Some(_)) => Err("pass exactly one of `at` or `block_id`, not both"@),
        (None, None) => Err("pass exactly one of `at` (a byte offset) or `block_id`"@),
        (Some(a), None) => Ok(Locator::At(a)),
        (None, Some(id)) => Ok(Locator::Block(id)),
    }
}

/// How making a record a file starts: both paths, what the new file would be, which
/// record is meant, and whether it is there.
pub open spec fn promote_opened(
    kb: KnowledgeBase,
    from: Resolved,
    to: Resolved,
    to_kind: Option<FileKind>,
    asked: Seq<char>,
    at: Option<usize>,
    block_id: Option<String>,
    r: Opened,
) -> bool {
    match either_refusal(kb.repos@, from, to) {
        Some(f) => replies(r, f),
        None => match promote_target_message(to_kind, to->Ok_0@, asked) {
            Some(m) => replies(r, refused(m)),
            None => match locator_of(at, block_id) {
                Err(m) => replies(r, refused(m)),
                Ok(locator) => match promotable(kb, from->Ok_0@, to->Ok_0@, locator) {
                    Err(m) => replies(r, refused(m)),
                    Ok(found) => r matches Opened::Promote { from: a, to: b, hit } && a == from->Ok_0
                        && b == to->Ok_0 && (hit.span, opt_view(hit.existing)) == found,
                },
            },
        },
    }
}

fn open_promote(
    kb: &KnowledgeBase,
    from: Resolved,
    to: Resolved,
    to_kind: Option<FileKind>,
    asked: &str,
    at: Option<usize>,
    block_id: Option<String>,
) -> (r: Opened)
    requires
        lands(kb.repos@, from),
        lands(kb.repos@, to),
    ensures
        promote_opened(*kb, from, to, to_kind, asked@, at, block_id, r),
{
    let (a, b) = match resolve_two(&kb.repos, from, to) {
        Ok(x) => x,
        Err(j) => return Opened::Reply(j),
    };
    if let Some(e) = promote_target_reject(to_kind, b.as_str(), asked) {
        return Opened::Reply(mutation_reject_frame(e));
    }
    let locator = match promote_locator(at, block_id) {
        Ok(l) => l,
        Err(e) => return Opened::Reply(mutation_reject_frame(e)),
    };
    match locate_promote(kb, a.as_str(), b.as_str(), &locator) {
        Err(m) => refuse_text(m),
        Ok(hit) => Opened::Promote { from: a, to: b, hit },
    }
}

/// What is told of a file that would be folded into itself.
pub open spec fn same_file_message() -> Seq<char> {
    "inline needs a file and a distinct host — `path` and `into` are the same file"@
}

/// How folding a file in starts: both paths, that they differ, and where the file is
/// referenced.
pub open spec fn inline_opened(kb: KnowledgeBase, file: Resolved, into: Resolved, at: Option<usize>, r: Opened) -> bool {
    match either_refusal(kb.repos@, file, into) {
        Some(f) => replies(r, f),
        None => if same_path_spec(file->Ok_0@, into->Ok_0@) {
            replies(r, refused(same_file_message()))
        } else {
            match inline_spot(kb, file->Ok_0@, into->Ok_0@, at) {
                Err(m) => replies(r, refused(m)),
                Ok((s, v)) => r matches Opened::Inline { file: a, into: b, spot } && a == file->Ok_0
                    && b == into->Ok_0 && spot.chosen == s && spot.value_span == v,
            }
        },
    }
}

fn open_inline(kb: &KnowledgeBase, file: Resolved, into: Resolved, at: Option<usize>) -> (r: Opened)
    requires
        lands(kb.repos@, file),
        lands(kb.repos@, into),
    ensures
        inline_opened(*kb, file, into, at, r),
{
    let (a, b) = match resolve_two(&kb.repos, file, into) {
        Ok(x) => x,
        Err(j) => return Opened::Reply(j),
    };
    if let Some(e) = inline_same_file_reject(a.as_str(), b.as_str()) {
        return Opened::Reply(mutation_reject_frame(e));
    }
    match locate_inline(kb, a.as_str(), b.as_str(), at) {
        Err(m) => refuse_text(m),
        Ok(spot) => Opened::Inline { file: a, into: b, spot },
    }
}

/// Why an id cannot take the place of another.
pub open spec fn block_id_message(block_id: Seq<char>, to_block_id: Seq<char>) -> Option<Seq<char>> {
    if block_id == to_block_id {
        Some("`block_id` and `to_block_id` are the same — nothing to rename"@)
    } else if !valid_block_id(to_block_id) {
        Some(
            "`to_block_id` "@ + debug_form(to_block_id)
                + " is not a valid block-id — ids are [A-Za-z0-9_-]+"@,
        )
    } else {
        None
    }
}

/// How giving a record another id starts: the path, the two ids, the record.
pub open spec fn block_id_opened(
    kb: KnowledgeBase,
    host: Resolved,
    targets: Seq<RecordTarget>,
    block_id: Seq<char>,
    to_block_id: Seq<char>,
    r: Opened,
) -> bool {
    match target_refusal(kb.repos@, host) {
        Some(f) => replies(r, f),
        None => match block_id_message(block_id, to_block_id) {
            Some(m) => replies(r, refused(m)),
            None => match block_id_refusal(kb, host->Ok_0@, targets, block_id, to_block_id) {
                Some(m) => replies(r, refused(m)),
                None => r matches Opened::RenameBlockId { host: h, gather } && h == host->Ok_0 && {
                    let links = inbound(kb.backlinks@, h@);
                    &&& Some(gather.decl_span) == target_span(targets, block_id, 0)
                    &&& gather.host_hash == crate::model::held_hash(kb.catalog@, h@)
                    &&& is_referrers(
                        gather.referrers@,
                        kb.catalog@,
                        links,
                        naming(links, block_id),
                    )
                },
            },
        },
    }
}

fn open_rename_block_id(
    kb: &KnowledgeBase,
    host: Resolved,
    targets: &Vec<RecordTarget>,
    block_id: &str,
    to_block_id: &str,
) -> (r: Opened)
    requires
        lands(kb.repos@, host),
    ensures
        block_id_opened(*kb, host, targets@, block_id@, to_block_id@, r),
{
    let h = match resolve_mutation_target(&kb.repos, host) {
        Ok(t) => t,
        Err(j) => return Opened::Reply(j),
    };
    if let Some(e) = rename_block_id_reject(block_id, to_block_id) {
        return Opened::Reply(mutation_reject_frame(e));
    }
    match gather_rename_block_id(kb, h.as_str(), targets, block_id, to_block_id) {
        Err(m) => refuse_text(m),
        Ok(gather) => Opened::RenameBlockId { host: h, gather },
    }
}

/// What is told of an offset where nothing can have an id.
pub open spec fn nothing_there_message() -> Seq<char> {
    "no addressable entity encloses the offset — pass an offset inside an inline record or a markdown block"@
}

/// How giving an id starts: the path, then what stands at the offset.
pub open spec fn assign_opened(kb: KnowledgeBase, target: Resolved, at: usize, marker: Option<Seq<char>>, r: Opened) -> bool {
    match target_refusal(kb.repos@, target) {
        Some(f) => replies(r, f),
        None => {
            let plan = match crate::model::entry_of(kb.catalog@, target->Ok_0@) {
                Some(i) => assign_plan(kb.catalog@[i], at, marker),
                None => None,
            };
            match plan {
                None => replies(r, refused(nothing_there_message())),
                Some(p) => r matches Opened::AssignBlockId { target: t, plan: got } && t
                    == target->Ok_0 && assign_view(Some(got)) == Some(p),
            }
        },
    }
}

fn open_assign(kb: &KnowledgeBase, target: Resolved, at: usize, marker: &Option<String>) -> (r: Opened)
    requires
        lands(kb.repos@, target),
    ensures
        assign_opened(*kb, target, at, opt_view(*marker), r),
{
    let t = match resolve_mutation_target(&kb.repos, target) {
        Ok(t) => t,
        Err(j) => return Opened::Reply(j),
    };
    match locate_assign(kb, t.as_str(), at, marker) {
        Err(e) => Opened::Reply(mutation_reject_frame(e)),
        Ok(plan) => Opened::AssignBlockId { target: t, plan },
    }
}

/// How replacing the patterns of a member starts: the root must be that of an editable
/// member, then the patterns must be well formed.
pub open spec fn ignores_opened(
    kb: KnowledgeBase,
    served_root: Seq<char>,
    root: Seq<char>,
    malformed: Option<Seq<char>>,
    r: Opened,
) -> bool {
    match repo_rooted(kb.repos@, joined_path(served_root, root), 0) {
        None => replies(
            r,
            refused(
                "root must name a declared member root (the `ignores` read surfaces it): "@ + root,
            ),
        ),
        Some(i) => if !kb.repos@[i].editable {
            replies(r, refused(not_editable_message(kb.repos@[i].name@, kb.repos@[i].role@)))
        } else {
            match malformed {
                Some(m) => replies(
                    r,
                    refused("malformed .auignore pattern, nothing written: "@ + m),
                ),
                None => r matches Opened::SetIgnores { path } && path@ == joined_path(
                    joined_path(joined_path(served_root, root), ".arsumbris"@),
                    ".auignore"@,
                ),
            }
        },
    }
}

fn open_ignores(
    kb: &KnowledgeBase,
    served_root: &str,
    root: &str,
    malformed: &Option<String>,
) -> (r: Opened)
    ensures
        ignores_opened(*kb, served_root@, root@, opt_view(*malformed), r),
{
    match resolve_ignores_member(&kb.repos, served_root, root) {
        Err(e) => Opened::Reply(mutation_reject_frame(e)),
        Ok(member) => match malformed {
            Some(m) => Opened::Reply(
                mutation_reject_frame(malformed_pattern_reject(m.as_str())),
            ),
            None => Opened::SetIgnores { path: ignores_path(member.as_str()) },
        },
    }
}

/// Which way a configuration file is written, or why none is meant.
pub open spec fn form_of(has_content: bool, has_edit: bool) -> Result<ConfigForm, Seq<char>> {
    match (has_content, has_edit) {
        (true, false) => Ok(ConfigForm::Content),
        (false, true) => Ok(ConfigForm::Edit),
        (true, true) => Err("set_config takes `content` OR `edit`, not both"@),
        (false, false) => Err("set_config needs `content` or `edit`"@),
    }
}

/// The directory of a configuration file, or why there is none.
pub open spec fn config_dir(
    kb: KnowledgeBase,
    scope: ConfigScope,
    entry: Option<usize>,
    served_root: Seq<char>,
    root: Option<Seq<char>>,
    base: Option<Seq<char>>,
) -> Result<Seq<char>, Seq<char>> {
    match scope {
        ConfigScope::Machine => match base {
            Some(dir) => Ok(dir),
            None => Err("no device root (set $HOME) to write machine-scope config into"@),
        },
        ConfigScope::Repo => match config_member(kb.repos@, entry, served_root, root) {
            None => Err(
                "repo scope needs a declared member root; `"@ + (match root {
                    Some(a) => a,
                    None => "<entry>"@,
                }) + "` names none"@,
            ),
            Some(i) => if kb.repos@[i].editable {
                Ok(joined_path(kb.repos@[i].root@, ".arsumbris"@))
            } else {
                Err(not_editable_message(kb.repos@[i].name@, kb.repos@[i].role@))
            },
        },
    }
}

/// How writing a configuration file starts: its names, which way it is written, and
/// where it lies.
pub open spec fn config_opened(
    kb: KnowledgeBase,
    refused_names: Option<Seq<char>>,
    form: Result<ConfigForm, Seq<char>>,
    dir: Result<Seq<char>, Seq<char>>,
    r: Opened,
) -> bool {
    match (refused_names, form, dir) {
        (Some(m), _, _) => replies(r, refused(m)),
        (None, Err(m), _) => replies(r, refused(m)),
        (None, Ok(_), Err(m)) => replies(r, refused(m)),
        (None, Ok(f), Ok(d)) => r matches Opened::SetConfig { form: got, dir: at } && got == f
            && at@ == d,
    }
}

fn open_config(
    kb: &KnowledgeBase,
    refused_names: Option<String>,
    has_content: bool,
    has_edit: bool,
    scope: ConfigScope,
    entry: Option<usize>,
    served_root: &str,
    root: &Option<String>,
    base: Option<String>,
) -> (r: Opened)
    requires
        entry matches Some(e) ==> e < kb.repos@.len(),
    ensures
        config_opened(
            *kb,
            opt_view(refused_names),
            form_of(has_content, has_edit),
            config_dir(*kb, scope, entry, served_root@, opt_view(*root), opt_view(base)),
            r,
        ),
{
    if let Some(m) = refused_names {
        return refuse_text(m);
    }
    let form = match config_form(has_content, has_edit) {
        Ok(f) => f,
        Err(e) => return Opened::Reply(mutation_reject_frame(e)),
    };
    match scope {
        ConfigScope::Machine => match base {
            Some(dir) => Opened::SetConfig { form, dir },
            None => refuse_text(
                "no device root (set $HOME) to write machine-scope config into".to_owned(),
            ),
        },
        ConfigScope::Repo => match resolve_config_member(&kb.repos, entry, served_root, root) {
            Err(e) => Opened::Reply(mutation_reject_frame(e)),
            Ok(member) => Opened::SetConfig { form, dir: abs_arg(member.as_str(), ".arsumbris") },
        },
    }
}

/// Whether the paths of a mutation that resolved lie in mounted repos.
pub open spec fn opening_lands(kb: KnowledgeBase, m: Opening) -> bool {
    match m {
        Opening::Write { target, .. } => lands(kb.repos@, target),
        Opening::Rename { from, to, .. } => lands(kb.repos@, from) && lands(kb.repos@, to),
        Opening::RenameType { .. } => catalog_fits(kb.catalog@),
        Opening::Promote { from, to, .. } => lands(kb.repos@, from) && lands(kb.repos@, to),
        Opening::Inline { file, into, .. } => lands(kb.repos@, file) && lands(kb.repos@, into),
        Opening::RenameBlockId { host, .. } => lands(kb.repos@, host),
        Opening::AssignBlockId { target, .. } => lands(kb.repos@, target),
        Opening::Nested { target } => lands(kb.repos@, target),
        Opening::SetIgnores { .. } => true,
        Opening::SetConfig { entry, .. } => entry matches Some(e) ==> e < kb.repos@.len(),
    }
}

/// How a mutation starts, once the knowledge base is ready.
pub open spec fn opened(kb: KnowledgeBase, m: Opening, r: Opened) -> bool {
    match m {
        Opening::Write { target, kind, riders, attribution } => write_opened(
            kb.repos@,
            target,
            kind,
            riders,
            attribution,
            r,
        ),
        Opening::Rename { from, to, from_kind, to_kind } => rename_opened(
            kb,
            from,
            to,
            from_kind,
            to_kind,
            r,
        ),
        Opening::RenameType { stamps, old_name, new_name, valid } => rename_type_opened(
            kb,
            stamps,
            old_name@,
            new_name@,
            valid,
            r,
        ),
        Opening::Promote { from, to, to_kind, asked, at, block_id } => promote_opened(
            kb,
            from,
            to,
            to_kind,
            asked@,
            at,
            block_id,
            r,
        ),
        Opening::Inline { file, into, at } => inline_opened(kb, file, into, at, r),
        Opening::RenameBlockId { host, targets, block_id, to_block_id } => block_id_opened(
            kb,
            host,
            targets@,
            block_id@,
            to_block_id@,
            r,
        ),
        Opening::AssignBlockId { target, at, marker } => assign_opened(
            kb,
            target,
            at,
            opt_view(marker),
            r,
        ),
        Opening::Nested { target } => match target_refusal(kb.repos@, target) {
            Some(f) => replies(r, f),
            None => r == (Opened::Nested { target: target->Ok_0 }),
        },
        Opening::SetIgnores { served_root, root, malformed } => ignores_opened(
            kb,
            served_root@,
            root@,
            opt_view(malformed),
            r,
        ),
        Opening::SetConfig {
            refused,
            has_content,
            has_edit,
            scope,
            entry,
            served_root,
            root,
            base,
        } => config_opened(
            kb,
            opt_view(refused),
            form_of(has_content, has_edit),
            config_dir(kb, scope, entry, served_root@, opt_view(root), opt_view(base)),
            r,
        ),
    }
}

/// Starts a mutation: judges it against the knowledge base and gathers what it
/// needs. Nothing is written while the knowledge base is not ready, nor by a mutation
/// that is refused here.
pub fn handle_mutation(kb: Option<&KnowledgeBase>, m: Opening) -> (r: Opened)
    requires
        kb matches Some(k) ==> opening_lands(*k, m),
    ensures
        match kb {
            None => replies(r, not_ready_frame()),
            Some(k) => opened(*k, m, r),
        },
{
    let kb = match kb {
        Some(k) => k,
        None => return Opened::Reply(make_not_ready_frame()),
    };
    match m {
        Opening::Write { target, kind, riders, attribution } => open_write(
            &kb.repos,
            target,
            kind,
            riders,
            attribution,
        ),
        Opening::Rename { from, to, from_kind, to_kind } => open_rename(
            kb,
            from,
            to,
            from_kind,
            to_kind,
        ),
        Opening::RenameType { stamps, old_name, new_name, valid } => open_rename_type(
            kb,
            stamps,
            old_name.as_str(),
            new_name.as_str(),
            valid,
        ),
        Opening::Promote { from, to, to_kind, asked, at, block_id } => open_promote(
            kb,
            from,
            to,
            to_kind,
            asked.as_str(),
            at,
            block_id,
        ),
        Opening::Inline { file, into, at } => open_inline(kb, file, into, at),
        Opening::RenameBlockId { host, targets, block_id, to_block_id } => open_rename_block_id(
            kb,
            host,
            &targets,
            block_id.as_str(),
            to_block_id.as_str(),
        ),
        Opening::AssignBlockId { target, at, marker } => open_assign(kb, target, at, &marker),
        Opening::Nested { target } => match resolve_mutation_target(&kb.repos, target) {
            Ok(t) => Opened::Nested { target: t },
            Err(j) => Opened::Reply(j),
        },
        Opening::SetIgnores { served_root, root, malformed } => open_ignores(
            kb,
            served_root.as_str(),
            root.as_str(),
            &malformed,
        ),
        Opening::SetConfig {
            refused,
            has_content,
            has_edit,
            scope,
            entry,
            served_root,
            root,
            base,
        } => open_config(
            kb,
            refused,
            has_content,
            has_edit,
            scope,
            entry,
            served_root.as_str(),
            &root,
            base,
        ),
    }
}

/// What a mutation left behind.
#[derive(Debug)]
pub struct Landed {
    /// The digest of what was written, when something was.
    pub written: Option<String>,
    pub commits: Vec<RepoCommit>,
    /// The members that the verb adds to the answer.
    pub extra: Vec<Member>,
}

/// The answer to a mutation that ran: the refusal that stopped it, or the fresh state
/// of the file that it is about.
pub fn answer_mutation(
    outcome: Result<Landed, Reject>,
    ready: Option<(u64, &KnowledgeBase, &Vec<Diagnostic>)>,
    target: &String,
    head: &Option<String>,
) -> (r: Json)
    ensures
        match outcome {
            Err(e) => jv(r) == JsonView::Object(reject_members(e.message@, opt_jv(e.detail))),
            Ok(done) => match ready {
                None => jv(r) == not_ready_frame(),
                Some((version, kb, diagnostics)) => jv(r) == ready_frame(
                    version as nat,
                    mutation_result(
                        *kb,
                        diagnostics@,
                        *target,
                        opt_view(done.written),
                        commit_views(done.commits@),
                        opt_view(*head),
                        members_view(done.extra, done.extra.len() as int),
                    ),
                ),
            },
        },
{
    match outcome {
        Err(e) => mutation_reject_frame(e),
        Ok(done) => mutation_response_extra(
            ready,
            target,
            &done.written,
            &done.commits,
            head,
            done.extra,
        ),
    }
}

/// A mutation goes on only if each of its paths lies in a repo that may be written.
pub proof fn only_editable_files_are_written(kb: KnowledgeBase, m: Opening, r: Opened)
    requires
        opened(kb, m, r),
        opening_lands(kb, m),
        !(r is Reply),
    ensures
        match m {
            Opening::Write { target, .. } => target_refusal(kb.repos@, target) is None,
            Opening::Rename { from, to, .. } => either_refusal(kb.repos@, from, to) is None,
            Opening::RenameType { .. } => true,
            Opening::Promote { from, to, .. } => either_refusal(kb.repos@, from, to) is None,
            Opening::Inline { file, into, .. } => either_refusal(kb.repos@, file, into) is None,
            Opening::RenameBlockId { host, .. } => target_refusal(kb.repos@, host) is None,
            Opening::AssignBlockId { target, .. } => target_refusal(kb.repos@, target) is None,
            Opening::Nested { target } => target_refusal(kb.repos@, target) is None,
            Opening::SetIgnores { served_root, root, .. } => {
                let i = repo_rooted(kb.repos@, joined_path(served_root@, root@), 0);
                i is Some && kb.repos@[i->0].editable
            },
            Opening::SetConfig { scope, entry, served_root, root, .. } => scope
                == ConfigScope::Repo ==> {
                let i = config_member(kb.repos@, entry, served_root@, opt_view(root));
                i is Some && kb.repos@[i->0].editable
            },
        },
{
}

} // verus!
