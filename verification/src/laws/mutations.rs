//! When a mutation goes ahead, what it does in which order, and what it answers.

use crate::config_read::ConfigScope;
use crate::diagnostics::{admitted, served_at, Diagnostic, DiagnosticsScope};
use crate::json::{text_or_null, JsonView};
use crate::laws::json::tells;
use crate::model::{entry_of, held_hash, owner, owner_name, FileKind, KnowledgeBase, Repo, Scope};
use crate::mutation::assign::{assign_plan, assign_view};
use crate::mutation::blocks::{block_id_refusal, valid_block_id};
use crate::mutation::config::{
    config_member, register_refusal, registered_members, repo_rooted, typed_content, ConfigForm,
    RegisterOutcome,
};
use crate::mutation::handle::{config_dir, lands, opened, target_refusal, Opened, Opening, Resolved};
use crate::mutation::inline::inline_spot;
use crate::mutation::promote::{instance_extension, lower_extension, promotable, Locator};
use crate::mutation::referrers::Referrer;
use crate::mutation::rename::rename_repo;
use crate::mutation::rename_type::{rename_type_refusal, split_type};
use crate::mutation::response::{anchor, commit_from, commits_json, mutation_result, reflects};
use crate::mutation::riders::{mixed_hash, outcome_json, outcomes, stamped_hash, stops, MixinStep};
use crate::mutation::script::{own_steps, rewrites, script, summary_text, Verb, WriteStep};
use crate::paths::{joined_path, same_path_spec};
use crate::saga::plan::Reject;
use crate::text::opt_view;
use vstd::prelude::*;

verus! {

/// Whether a resolved target may be written: a repo that may be edited holds it.
pub open spec fn may_write(repos: Seq<Repo>, target: Resolved) -> bool {
    target matches Ok(t) && (owner(repos, t@) matches Some(i) && repos[i].editable)
}

proof fn lemma_may_write(repos: Seq<Repo>, target: Resolved)
    requires
        lands(repos, target),
    ensures
        target_refusal(repos, target) is None <==> may_write(repos, target),
{
}

/// A write goes ahead on a file that may be edited, unless a rider would change a type-def
/// or the attribution is refused.
pub proof fn a_write_goes_ahead_where_it_may(kb: KnowledgeBase, m: Opening, r: Opened)
    requires
        m matches Opening::Write { target, .. } && lands(kb.repos@, target),
        opened(kb, m, r),
    ensures
        m matches Opening::Write { target, kind, riders, attribution } ==> {
            &&& !(r is Reply) <==> may_write(kb.repos@, target) && attribution is Ok && (!riders
                || kind != Some(FileKind::TypeDef))
            &&& !(r is Reply) ==> r == (Opened::Write {
                target: target->Ok_0,
                attribution: attribution->Ok_0,
            })
        },
{
    if let Opening::Write { target, .. } = m {
        lemma_may_write(kb.repos@, target);
    }
}

/// A rename goes ahead between two files of one repo that may be edited, neither of them a
/// type-def, and moves the one to the other.
pub proof fn a_rename_goes_ahead_where_it_may(kb: KnowledgeBase, m: Opening, r: Opened)
    requires
        m matches Opening::Rename { from, to, .. } && lands(kb.repos@, from) && lands(
            kb.repos@,
            to,
        ),
        opened(kb, m, r),
    ensures
        m matches Opening::Rename { from, to, from_kind, to_kind } ==> {
            &&& !(r is Reply) <==> may_write(kb.repos@, from) && may_write(kb.repos@, to)
                && from_kind != Some(FileKind::TypeDef) && to_kind != Some(FileKind::TypeDef)
                && rename_repo(kb, from->Ok_0@, to->Ok_0@) is Ok
            &&& !(r is Reply) ==> (r matches Opened::Rename { from: a, to: b, .. } && a
                == from->Ok_0 && b == to->Ok_0)
        },
{
    if let Opening::Rename { from, to, .. } = m {
        lemma_may_write(kb.repos@, from);
        lemma_may_write(kb.repos@, to);
    }
}

/// A type is renamed where that is not refused and no stamp rides, and it is the one that
/// the old name, with or without a repo, means.
pub proof fn a_type_rename_goes_ahead_where_it_may(kb: KnowledgeBase, m: Opening, r: Opened)
    requires
        m is RenameType,
        opened(kb, m, r),
    ensures
        m matches Opening::RenameType { stamps, old_name, new_name, valid } ==> (!(r is Reply)
            <==> stamps == 0 && rename_type_refusal(
            kb,
            split_type(old_name@).0,
            split_type(old_name@).1,
            new_name@,
            valid,
        ) is None),
        !(r is Reply) ==> r is RenameType,
{
}

/// A promote goes ahead from a file that may be edited to another of an instance's
/// extensions, for one record that is found by its offset or by its id.
pub proof fn a_promote_goes_ahead_where_it_may(kb: KnowledgeBase, m: Opening, r: Opened)
    requires
        m matches Opening::Promote { from, to, .. } && lands(kb.repos@, from) && lands(
            kb.repos@,
            to,
        ),
        opened(kb, m, r),
    ensures
        m matches Opening::Promote { from, to, to_kind, asked, at, block_id } ==> {
            let may = may_write(kb.repos@, from) && may_write(kb.repos@, to) && to_kind != Some(
                FileKind::TypeDef,
            ) && instance_extension(lower_extension(to->Ok_0@));
            &&& !may ==> r is Reply
            &&& at is Some && block_id is Some ==> r is Reply
            &&& at is None && block_id is None ==> r is Reply
            &&& may && at is Some && block_id is None ==> {
                let found = promotable(kb, from->Ok_0@, to->Ok_0@, Locator::At(at->0));
                if found is Ok {
                    r matches Opened::Promote { from: a, to: b, hit } && a == from->Ok_0 && b
                        == to->Ok_0 && hit.span == found->Ok_0.0 && opt_view(hit.existing)
                        == found->Ok_0.1
                } else {
                    r is Reply
                }
            }
            &&& may && at is None && block_id is Some ==> {
                let found = promotable(kb, from->Ok_0@, to->Ok_0@, Locator::Block(block_id->0));
                if found is Ok {
                    r matches Opened::Promote { from: a, to: b, hit } && a == from->Ok_0 && b
                        == to->Ok_0 && hit.span == found->Ok_0.0 && opt_view(hit.existing)
                        == found->Ok_0.1
                } else {
                    r is Reply
                }
            }
        },
{
    if let Opening::Promote { from, to, .. } = m {
        lemma_may_write(kb.repos@, from);
        lemma_may_write(kb.repos@, to);
    }
}

/// An inline goes ahead for two different files that may be edited, where the host has the
/// reference.
pub proof fn an_inline_goes_ahead_where_it_may(kb: KnowledgeBase, m: Opening, r: Opened)
    requires
        m matches Opening::Inline { file, into, .. } && lands(kb.repos@, file) && lands(
            kb.repos@,
            into,
        ),
        opened(kb, m, r),
    ensures
        m matches Opening::Inline { file, into, at } ==> {
            &&& !(r is Reply) <==> may_write(kb.repos@, file) && may_write(kb.repos@, into)
                && !same_path_spec(file->Ok_0@, into->Ok_0@) && inline_spot(
                kb,
                file->Ok_0@,
                into->Ok_0@,
                at,
            ) is Ok
            &&& !(r is Reply) ==> (r matches Opened::Inline { file: a, into: b, spot } && a
                == file->Ok_0 && b == into->Ok_0 && inline_spot(
                kb,
                file->Ok_0@,
                into->Ok_0@,
                at,
            ) == Ok::<(crate::ast::ByteRange, crate::ast::ByteRange), Seq<char>>(
                (spot.chosen, spot.value_span),
            ))
        },
{
    if let Opening::Inline { file, into, .. } = m {
        lemma_may_write(kb.repos@, file);
        lemma_may_write(kb.repos@, into);
    }
}

/// An id is renamed in a file that may be edited, to a valid id that is another.
pub proof fn an_id_rename_goes_ahead_where_it_may(kb: KnowledgeBase, m: Opening, r: Opened)
    requires
        m matches Opening::RenameBlockId { host, .. } && lands(kb.repos@, host),
        opened(kb, m, r),
    ensures
        m matches Opening::RenameBlockId { host, targets, block_id, to_block_id } ==> {
            &&& !(r is Reply) <==> may_write(kb.repos@, host) && block_id@ != to_block_id@
                && valid_block_id(to_block_id@) && block_id_refusal(
                kb,
                host->Ok_0@,
                targets@,
                block_id@,
                to_block_id@,
            ) is None
            &&& !(r is Reply) ==> (r matches Opened::RenameBlockId { host: h, .. } && h
                == host->Ok_0)
        },
{
    if let Opening::RenameBlockId { host, .. } = m {
        lemma_may_write(kb.repos@, host);
    }
}

/// An id is made of letters, digits, underscores and hyphens, and is not empty.
pub proof fn an_id_is_made_of_word_characters(s: Seq<char>, i: int)
    ensures
        valid_block_id(s) ==> s.len() > 0,
        valid_block_id(s) && 0 <= i < s.len() ==> ('a' <= s[i] <= 'z') || ('A' <= s[i] <= 'Z') || (
        '0' <= s[i] <= '9') || s[i] == '_' || s[i] == '-',
        s.len() > 0 && (forall|k: int|
            #![trigger s[k]]
            0 <= k < s.len() ==> ('a' <= s[k] <= 'z') || ('A' <= s[k] <= 'Z') || ('0' <= s[k]
                <= '9') || s[k] == '_' || s[k] == '-') ==> valid_block_id(s),
{
    if valid_block_id(s) && 0 <= i < s.len() {
        assert(crate::mutation::blocks::block_id_char(s[i]));
    }
}

/// The patterns of a member are replaced where the root names one that may be edited and
/// none of them is malformed, in the file of patterns below that root.
pub proof fn the_patterns_go_below_the_root_of_the_member(
    kb: KnowledgeBase,
    m: Opening,
    r: Opened,
)
    requires
        m is SetIgnores,
        opened(kb, m, r),
    ensures
        m matches Opening::SetIgnores { served_root, root, malformed } ==> {
            let at = repo_rooted(kb.repos@, joined_path(served_root@, root@), 0);
            &&& !(r is Reply) <==> at is Some && kb.repos@[at->0].editable && malformed is None
            &&& !(r is Reply) ==> (r matches Opened::SetIgnores { path } && path@ == joined_path(
                joined_path(joined_path(served_root@, root@), ".arsumbris"@),
                ".auignore"@,
            ))
        },
{
}

/// A consumer's file is written with content or with an edit, not with both and not with
/// neither, and where there is a directory for it.
pub proof fn a_config_is_written_in_one_form(kb: KnowledgeBase, m: Opening, r: Opened)
    requires
        m is SetConfig,
        opened(kb, m, r),
    ensures
        m matches Opening::SetConfig {
            refused,
            has_content,
            has_edit,
            scope,
            entry,
            served_root,
            root,
            base,
        } ==> {
            let dir = config_dir(
                kb,
                scope,
                entry,
                served_root@,
                opt_view(root),
                opt_view(base),
            );
            &&& !(r is Reply) <==> refused is None && has_content != has_edit && dir is Ok
            &&& !(r is Reply) ==> (r matches Opened::SetConfig { form, dir: d } && (form
                == ConfigForm::Content <==> has_content) && d@ == dir->Ok_0)
        },
{
}

proof fn lemma_rooted(repos: Seq<Repo>, root: Seq<char>, i: int)
    requires
        0 <= i,
    ensures
        match repo_rooted(repos, root, i) {
            Some(k) => i <= k < repos.len() && same_path_spec(repos[k].root@, root) && forall|j: int|
                #![trigger repos[j]]
                i <= j < k ==> !same_path_spec(repos[j].root@, root),
            None => forall|j: int|
                #![trigger repos[j]]
                i <= j < repos.len() ==> !same_path_spec(repos[j].root@, root),
        },
    decreases repos.len() - i,
{
    if i < repos.len() && !same_path_spec(repos[i].root@, root) {
        lemma_rooted(repos, root, i + 1);
    }
}

/// The member that a root names is the first with that root; without a root it is the
/// entry.
pub proof fn a_root_names_the_member_that_has_it(
    repos: Seq<Repo>,
    entry: Option<usize>,
    served_root: Seq<char>,
    asked: Option<Seq<char>>,
)
    ensures
        asked is None ==> (match entry {
            Some(e) => config_member(repos, entry, served_root, asked) == Some(e as int),
            None => config_member(repos, entry, served_root, asked) is None,
        }),
        asked matches Some(a) ==> match config_member(repos, entry, served_root, asked) {
            Some(k) => 0 <= k < repos.len() && same_path_spec(
                repos[k].root@,
                joined_path(served_root, a),
            ) && forall|j: int|
                #![trigger repos[j]]
                0 <= j < k ==> !same_path_spec(repos[j].root@, joined_path(served_root, a)),
            None => forall|j: int|
                #![trigger repos[j]]
                0 <= j < repos.len() ==> !same_path_spec(repos[j].root@, joined_path(served_root, a)),
        },
{
    if let Some(a) = asked {
        lemma_rooted(repos, joined_path(served_root, a), 0);
    }
}

/// A consumer's file declares its type once: one that does is kept as it is, and any other
/// gets the line in front.
pub proof fn a_config_declares_its_type_once(content: Seq<char>, ty: Seq<char>)
    ensures
        typed_content(content, true, ty) == content,
        typed_content(content, false, ty) == "type: "@ + ty + "\n"@ + content,
{
}

/// A registration that was written is told with its name and its path; any other outcome
/// is refused.
pub proof fn a_registration_is_told_or_refused(
    outcome: RegisterOutcome,
    name: Seq<char>,
    path: Seq<char>,
    version: Option<u64>,
)
    ensures
        register_refusal(outcome) is None <==> outcome is Written,
        tells(registered_members(name, path, version), "name"@, JsonView::Text(name)),
        tells(registered_members(name, path, version), "path"@, JsonView::Text(path)),
{
    let m = registered_members(name, path, version);
    assert(m[2] == ("name"@, JsonView::Text(name)));
    assert(m[3] == ("path"@, JsonView::Text(path)));
}

// The script.

proof fn lemma_rewrites(rs: Seq<Referrer>, host: Option<Seq<char>>, n: int, s: WriteStep)
    requires
        0 <= n <= rs.len() <= usize::MAX,
    ensures
        rewrites(rs, host, n).contains(s) <==> exists|i: int|
            0 <= i < n && s == WriteStep::RewriteReferrer(i as usize) && !(host is Some
                && same_path_spec((#[trigger] rs[i]).path@, host->0)),
    decreases n,
{
    if n > 0 {
        lemma_rewrites(rs, host, n - 1, s);
        let before = rewrites(rs, host, n - 1);
        let now = rewrites(rs, host, n);
        let here = rs[n - 1];
        if before.contains(s) {
            let j = choose|j: int| 0 <= j < before.len() && before[j] == s;
            assert(now[j] == s);
        }
        if now.contains(s) && !before.contains(s) {
            let j = choose|j: int| 0 <= j < now.len() && now[j] == s;
            if j < before.len() {
                assert(before[j] == s);
            }
            assert(s == WriteStep::RewriteReferrer((n - 1) as usize));
        }
        if !(host is Some && same_path_spec(here.path@, host->0)) {
            assert(now[before.len() as int] == WriteStep::RewriteReferrer((n - 1) as usize));
        }
    }
}

/// Every referrer but the file that the mutation is about is rewritten, and that file is
/// not.
pub proof fn every_other_referrer_is_rewritten(
    rs: Seq<Referrer>,
    host: Option<Seq<char>>,
    i: int,
)
    requires
        0 <= i < rs.len() <= usize::MAX,
    ensures
        rewrites(rs, host, rs.len() as int).contains(WriteStep::RewriteReferrer(i as usize))
            <==> !(host is Some && same_path_spec(rs[i].path@, host->0)),
{
    let s = WriteStep::RewriteReferrer(i as usize);
    lemma_rewrites(rs, host, rs.len() as int, s);
    if rewrites(rs, host, rs.len() as int).contains(s) {
        let k = choose|k: int|
            0 <= k < rs.len() && s == WriteStep::RewriteReferrer(k as usize) && !(host is Some
                && same_path_spec((#[trigger] rs[k]).path@, host->0));
        assert(k == i);
    }
}

/// A file is removed where it is deleted or folded into another; it moves where it or its
/// type is renamed; a file is created where a record is promoted, and must not be there
/// before; and every other mutation writes the file that it is about.
pub proof fn a_mutation_does_what_its_verb_says(verb: Verb)
    ensures
        own_steps(verb).1.contains(WriteStep::RemoveFile) <==> verb == Verb::DeleteFile || verb
            == Verb::Inline,
        own_steps(verb).1.contains(WriteStep::MoveFile) <==> verb == Verb::Rename || verb
            == Verb::RenameType,
        own_steps(verb).1.contains(WriteStep::CreateFile) <==> verb == Verb::Promote,
        own_steps(verb).0.contains(WriteStep::RequireAbsent) <==> verb == Verb::Promote,
        own_steps(verb).1.contains(WriteStep::WriteHost) <==> !(verb == Verb::DeleteFile || verb
            == Verb::Rename || verb == Verb::RenameType),
        own_steps(verb).0.contains(WriteStep::ReadHost) <==> verb == Verb::Promote || verb
            == Verb::Inline || verb == Verb::RenameBlockId || verb == Verb::AssignBlockId || verb
            == Verb::EditRecord || verb == Verb::AppendRecord,
        own_steps(verb).0.contains(WriteStep::ReadFolded) <==> verb == Verb::Inline,
{
    let a = own_steps(verb).0;
    let b = own_steps(verb).1;
    match verb {
        Verb::Promote => {
            assert(a[0] == WriteStep::RequireAbsent && a[1] == WriteStep::ReadHost);
            assert(b[0] == WriteStep::CreateFile && b[1] == WriteStep::WriteHost);
        },
        Verb::Inline => {
            assert(a[0] == WriteStep::ReadHost && a[1] == WriteStep::ReadFolded);
            assert(b[0] == WriteStep::WriteHost && b[1] == WriteStep::RemoveFile);
        },
        Verb::RenameBlockId | Verb::AssignBlockId | Verb::EditRecord | Verb::AppendRecord => {
            assert(a[0] == WriteStep::ReadHost);
            assert(b[0] == WriteStep::WriteHost);
        },
        Verb::WriteFile | Verb::EditFile | Verb::SetIgnores | Verb::SetConfig => {
            assert(b[0] == WriteStep::WriteHost);
        },
        Verb::DeleteFile => {
            assert(b[0] == WriteStep::RemoveFile);
        },
        Verb::Rename | Verb::RenameType => {
            assert(b[0] == WriteStep::MoveFile);
        },
    }
}

// Riders.

/// The digest of a stamped file is that of the last stamp that wrote, or of the file
/// itself where none did.
pub proof fn the_last_stamp_gives_the_digest(
    primary: String,
    stamps: Seq<Result<Option<String>, Reject>>,
    n: int,
    k: int,
    h: String,
)
    requires
        0 <= k < n <= stamps.len(),
        stamps[k] == Ok::<Option<String>, Reject>(Some(h)),
        forall|j: int|
            #![trigger stamps[j]]
            k < j < n ==> !(stamps[j] is Ok && stamps[j]->Ok_0 is Some),
    ensures
        stamped_hash(primary, stamps, n) == h,
    decreases n,
{
    if k < n - 1 {
        assert(!(stamps[n - 1] is Ok && stamps[n - 1]->Ok_0 is Some));
        the_last_stamp_gives_the_digest(primary, stamps, n - 1, k, h);
    }
}

/// Where no stamp wrote, the digest is that of the file itself.
pub proof fn without_a_stamp_the_digest_stays(
    primary: String,
    stamps: Seq<Result<Option<String>, Reject>>,
    n: int,
)
    requires
        0 <= n <= stamps.len(),
        forall|j: int|
            #![trigger stamps[j]]
            0 <= j < n ==> !(stamps[j] is Ok && stamps[j]->Ok_0 is Some),
    ensures
        stamped_hash(primary, stamps, n) == primary,
    decreases n,
{
    if n > 0 {
        assert(!(stamps[n - 1] is Ok && stamps[n - 1]->Ok_0 is Some));
        without_a_stamp_the_digest_stays(primary, stamps, n - 1);
    }
}

/// The digest of a file with mixins is that of the last that was applied, or of the file
/// itself where none was.
pub proof fn the_last_mixin_gives_the_digest(
    primary: String,
    steps: Seq<MixinStep>,
    n: int,
    k: int,
    h: String,
)
    requires
        0 <= k < n <= steps.len(),
        steps[k] == MixinStep::Applied(h),
        forall|j: int| #![trigger steps[j]] k < j < n ==> !(steps[j] is Applied),
    ensures
        mixed_hash(primary, steps, n) == h,
    decreases n,
{
    if k < n - 1 {
        assert(!(steps[n - 1] is Applied));
        the_last_mixin_gives_the_digest(primary, steps, n - 1, k, h);
    }
}

/// Where no mixin was applied, the digest is that of the file itself.
pub proof fn without_a_mixin_the_digest_stays(primary: String, steps: Seq<MixinStep>, n: int)
    requires
        0 <= n <= steps.len(),
        forall|j: int| #![trigger steps[j]] 0 <= j < n ==> !(steps[j] is Applied),
    ensures
        mixed_hash(primary, steps, n) == primary,
    decreases n,
{
    if n > 0 {
        assert(!(steps[n - 1] is Applied));
        without_a_mixin_the_digest_stays(primary, steps, n - 1);
    }
}

/// Each mixin is answered in its place with what became of it.
pub proof fn each_mixin_is_answered(mixins: Seq<String>, steps: Seq<MixinStep>, n: int, k: int)
    requires
        0 <= k < n <= steps.len(),
        mixins.len() >= steps.len(),
    ensures
        outcomes(mixins, steps, n).len() == n,
        ({
            let o = outcomes(mixins, steps, n)[k];
            &&& o.0 == mixins[k]@
            &&& steps[k] is Applied ==> o.1 == "applied"@ && o.2 is None
            &&& steps[k] is NoOp ==> o.1 == "no_op"@ && o.2 is None
            &&& steps[k] matches MixinStep::UnAppliable(reason) ==> o.1 == "skipped"@ && o.2
                == Some(reason@)
        }),
    decreases n,
{
    lemma_outcome_len(mixins, steps, n - 1);
    if k < n - 1 {
        each_mixin_is_answered(mixins, steps, n - 1, k);
    }
}

proof fn lemma_outcome_len(mixins: Seq<String>, steps: Seq<MixinStep>, n: int)
    requires
        0 <= n,
    ensures
        outcomes(mixins, steps, n).len() == n,
    decreases n,
{
    if n > 0 {
        lemma_outcome_len(mixins, steps, n - 1);
    }
}

/// A write stops at a mixin that failed and, where they are strict, at one that cannot be
/// applied; at no other.
pub proof fn a_write_stops_at_what_failed(step: MixinStep)
    ensures
        step is Failed ==> stops(step, true) && stops(step, false),
        step is UnAppliable ==> stops(step, true) && !stops(step, false),
        step is Applied || step is NoOp ==> !stops(step, true) && !stops(step, false),
{
}

// The answer.

proof fn lemma_commit(commits: Seq<(Seq<char>, Seq<char>)>, repo: Seq<char>, i: int, k: int)
    requires
        0 <= i <= k < commits.len(),
        commits[k].0 == repo,
        forall|j: int| #![trigger commits[j]] i <= j < k ==> commits[j].0 != repo,
    ensures
        commit_from(commits, repo, i) == Some(commits[k].1),
    decreases k - i,
{
    if i < k {
        assert(commits[i].0 != repo);
        lemma_commit(commits, repo, i + 1, k);
    }
}

proof fn lemma_no_commit(commits: Seq<(Seq<char>, Seq<char>)>, repo: Seq<char>, i: int)
    requires
        0 <= i,
        forall|j: int| #![trigger commits[j]] i <= j < commits.len() ==> commits[j].0 != repo,
    ensures
        commit_from(commits, repo, i) is None,
    decreases commits.len() - i,
{
    if i < commits.len() {
        assert(commits[i].0 != repo);
        lemma_no_commit(commits, repo, i + 1);
    }
}

/// A mutation is anchored at the commit that it made in the repo of its target, or at the
/// head where it made none there; outside any repo it has no anchor.
pub proof fn a_mutation_is_anchored_in_its_repo(
    commits: Seq<(Seq<char>, Seq<char>)>,
    repo: Seq<char>,
    head: Option<Seq<char>>,
    k: int,
)
    ensures
        anchor(commits, None, head) is None,
        0 <= k < commits.len() && commits[k].0 == repo && (forall|j: int|
            #![trigger commits[j]]
            0 <= j < k ==> commits[j].0 != repo) ==> anchor(commits, Some(repo), head) == Some(
            commits[k].1,
        ),
        (forall|j: int| #![trigger commits[j]] 0 <= j < commits.len() ==> commits[j].0 != repo)
            ==> anchor(commits, Some(repo), head) == head,
{
    if 0 <= k < commits.len() && commits[k].0 == repo && (forall|j: int|
        #![trigger commits[j]]
        0 <= j < k ==> commits[j].0 != repo) {
        lemma_commit(commits, repo, 0, k);
    }
    if forall|j: int| #![trigger commits[j]] 0 <= j < commits.len() ==> commits[j].0 != repo {
        lemma_no_commit(commits, repo, 0);
    }
}

/// What is written is reflected where the engine holds the same digest; a mutation that
/// wrote nothing always is.
pub proof fn what_is_held_is_reflected(written: Option<Seq<char>>, held: Option<Seq<char>>)
    ensures
        written is None ==> reflects(written, held),
        written is Some ==> (reflects(written, held) <==> held == written),
{
}

/// The answer tells the file, the digest that is held of it, its diagnostics, whether the
/// write is reflected, and the commits with the anchor.
pub proof fn the_answer_tells_the_file(
    kb: KnowledgeBase,
    diagnostics: Seq<Diagnostic>,
    target: String,
    written: Option<Seq<char>>,
    commits: Seq<(Seq<char>, Seq<char>)>,
    head: Option<Seq<char>>,
)
    ensures
        mutation_result(kb, diagnostics, target, written, commits, head, Seq::empty()) is Object,
        ({
            let m = mutation_result(
                kb,
                diagnostics,
                target,
                written,
                commits,
                head,
                Seq::empty(),
            )->Object_0;
            let held = opt_view(held_hash(kb.catalog@, target@));
            &&& tells(m, "path"@, JsonView::Text(target@))
            &&& held is Some ==> tells(m, "hash"@, JsonView::Text(held->0))
            &&& held is None ==> tells(m, "hash"@, JsonView::Null)
            &&& tells(m, "reflected"@, JsonView::Bool(written is None || held == written))
            &&& owner_name(kb.repos@, target@) is None ==> tells(m, "commit"@, JsonView::Null)
            &&& commits.len() == 0 && head is Some && owner_name(kb.repos@, target@) is Some
                ==> tells(m, "commit"@, JsonView::Text(head->0))
            &&& tells(
                m,
                "diagnostics"@,
                served_at(
                    diagnostics,
                    admitted(
                        kb.repos@,
                        diagnostics,
                        DiagnosticsScope {
                            path: Some(target),
                            path_prefix: None,
                            severity: None,
                            code: None,
                            repo: None,
                            scope: Scope::All,
                        },
                    ),
                ),
            )
        }),
{
    let m = mutation_result(
        kb,
        diagnostics,
        target,
        written,
        commits,
        head,
        Seq::empty(),
    )->Object_0;
    let held = opt_view(held_hash(kb.catalog@, target@));
    assert(m[0] == ("path"@, JsonView::Text(target@)));
    assert(m[1] == ("hash"@, text_or_null(held)));
    assert(m[2].0 == "diagnostics"@);
    assert(m[3] == ("reflected"@, JsonView::Bool(reflects(written, held))));
    assert(m[4] == (
        "commit"@,
        text_or_null(anchor(commits, owner_name(kb.repos@, target@), head)),
    ));
    if let Some(repo) = owner_name(kb.repos@, target@) {
        if commits.len() == 0 {
            lemma_no_commit(commits, repo, 0);
        }
    }
}

/// An id is given in a file that may be edited, to what stands at the offset.
pub proof fn an_assignment_goes_ahead_where_it_may(kb: KnowledgeBase, m: Opening, r: Opened, i: int)
    requires
        m matches Opening::AssignBlockId { target, .. } && lands(kb.repos@, target) && (
        target matches Ok(t) ==> entry_of(kb.catalog@, t@) == Some(i)),
        opened(kb, m, r),
    ensures
        m matches Opening::AssignBlockId { target, at, marker } ==> {
            let plan = assign_plan(kb.catalog@[i], at, opt_view(marker));
            &&& !(r is Reply) <==> may_write(kb.repos@, target) && plan is Some
            &&& !(r is Reply) ==> (r matches Opened::AssignBlockId { target: t, plan: got } && t
                == target->Ok_0 && assign_view(Some(got)) == plan)
        },
{
    if let Opening::AssignBlockId { target, .. } = m {
        lemma_may_write(kb.repos@, target);
    }
}

/// A file that is not catalogued has nothing to give an id to.
pub proof fn nothing_is_assigned_where_there_is_no_file(kb: KnowledgeBase, m: Opening, r: Opened)
    requires
        m matches Opening::AssignBlockId { target, .. } && lands(kb.repos@, target) && (
        target matches Ok(t) ==> entry_of(kb.catalog@, t@) is None),
        opened(kb, m, r),
    ensures
        r is Reply,
{
}

/// A record is changed in a file that may be edited.
pub proof fn a_record_is_changed_where_it_may(kb: KnowledgeBase, m: Opening, r: Opened)
    requires
        m matches Opening::Nested { target } && lands(kb.repos@, target),
        opened(kb, m, r),
    ensures
        m matches Opening::Nested { target } ==> {
            &&& !(r is Reply) <==> may_write(kb.repos@, target)
            &&& !(r is Reply) ==> r == (Opened::Nested { target: target->Ok_0 })
        },
{
    if let Opening::Nested { target } = m {
        lemma_may_write(kb.repos@, target);
    }
}

/// The device's files lie in its directory, and a member's below the root of a member that
/// may be edited.
pub proof fn a_config_goes_where_its_scope_says(
    kb: KnowledgeBase,
    entry: Option<usize>,
    served_root: Seq<char>,
    root: Option<Seq<char>>,
    base: Option<Seq<char>>,
)
    ensures
        base matches Some(dir) ==> config_dir(
            kb,
            ConfigScope::Machine,
            entry,
            served_root,
            root,
            base,
        ) == Ok::<Seq<char>, Seq<char>>(dir),
        base is None ==> config_dir(
            kb,
            ConfigScope::Machine,
            entry,
            served_root,
            root,
            base,
        ) is Err,
        config_member(kb.repos@, entry, served_root, root) is None ==> config_dir(
            kb,
            ConfigScope::Repo,
            entry,
            served_root,
            root,
            base,
        ) is Err,
        config_member(kb.repos@, entry, served_root, root) matches Some(i) ==> {
            let dir = config_dir(kb, ConfigScope::Repo, entry, served_root, root, base);
            &&& dir is Ok <==> kb.repos@[i].editable
            &&& dir is Ok ==> dir == Ok::<Seq<char>, Seq<char>>(
                joined_path(kb.repos@[i].root@, ".arsumbris"@),
            )
        },
{
}

/// Every stamp and every mixin is a step, after the file itself is written.
pub proof fn every_rider_is_a_step(
    verb: Verb,
    rs: Seq<Referrer>,
    host: Option<Seq<char>>,
    stamps: nat,
    mixins: nat,
    i: int,
)
    requires
        stamps <= usize::MAX,
        mixins <= usize::MAX,
    ensures
        ({
            let all = script(verb, rs, host, stamps, mixins);
            let n = all.len() - stamps - mixins;
            &&& 0 <= i < stamps ==> all[n + i] == WriteStep::Stamp(i as usize)
            &&& 0 <= i < mixins ==> all[n + stamps + i] == WriteStep::Mixin(i as usize)
            &&& own_steps(verb).1.len() > 0 ==> all[n - 1] == own_steps(verb).1.last()
            &&& own_steps(verb).0.len() > 0 ==> all[0] == own_steps(verb).0[0]
        }),
{
}

/// A mixin is told by its name with what became of it, and why where it was skipped.
pub proof fn a_mixin_is_told_whole(name: Seq<char>, outcome: Seq<char>, reason: Option<Seq<char>>)
    ensures
        outcome_json((name, outcome, reason)) matches JsonView::Object(m) && {
            &&& tells(m, "mixin"@, JsonView::Text(name))
            &&& tells(m, "outcome"@, JsonView::Text(outcome))
            &&& reason matches Some(t) ==> tells(m, "reason"@, JsonView::Text(t))
            &&& reason is None ==> m.len() == 2
        },
{
    let m = outcome_json((name, outcome, reason))->Object_0;
    assert(m.contains(m[0]) && m.contains(m[1]));
    if reason is Some {
        assert(m.contains(m[2]));
    }
}

/// Each commit is told under the repo that it was made in.
pub proof fn a_commit_is_told_under_its_repo(commits: Seq<(Seq<char>, Seq<char>)>, i: int)
    requires
        0 <= i < commits.len(),
    ensures
        commits_json(commits) matches JsonView::Object(m) && m.len() == commits.len() && tells(
            m,
            commits[i].0,
            JsonView::Text(commits[i].1),
        ),
{
    let m = commits_json(commits)->Object_0;
    assert(m[i] == (commits[i].0, JsonView::Text(commits[i].1)));
}

/// A summary begins with the verb and names what the mutation is about, from the old to the
/// new.
pub proof fn a_summary_names_what_it_is_about(a: Seq<char>, b: Seq<char>, c: Seq<char>)
    ensures
        summary_text(Verb::WriteFile, a, b, c) == "write_file "@ + a,
        summary_text(Verb::EditFile, a, b, c) == "edit_file "@ + a,
        summary_text(Verb::DeleteFile, a, b, c) == "delete_file "@ + a,
        summary_text(Verb::Rename, a, b, c) == "rename "@ + a + " -> "@ + b,
        summary_text(Verb::RenameType, a, b, c) == "rename_type "@ + a + " -> "@ + b,
        summary_text(Verb::Promote, a, b, c) == "promote "@ + a + " -> "@ + b,
        summary_text(Verb::Inline, a, b, c) == "inline "@ + a + " into "@ + b,
        summary_text(Verb::RenameBlockId, a, b, c) == "rename block-id "@ + a + " -> "@ + b
            + " in "@ + c,
        summary_text(Verb::AssignBlockId, a, b, c) == "assign_block_id "@ + a,
        summary_text(Verb::EditRecord, a, b, c) == "edit_record "@ + a,
        summary_text(Verb::AppendRecord, a, b, c) == "append_record "@ + a,
        summary_text(Verb::SetIgnores, a, b, c) == "set_ignores "@ + a,
        summary_text(Verb::SetConfig, a, b, c) == "set_config "@ + a + "/"@ + b,
{
}

} // verus!
