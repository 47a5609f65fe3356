//! Which reason a refusal gives where there are several.

use crate::ast::FileParse;
use crate::graph::types::type_source;
use crate::model::{entry_of, inbound, owner, KnowledgeBase, Repo};
use crate::mutation::blocks::{block_id_refusal, declares, target_span};
use crate::mutation::handle::{either_refusal, refused, target_refusal, Resolved};
use crate::mutation::inline::{chosen_reference, has_body, host_spans, inline_spot};
use crate::mutation::promote::{promotable, promote_refusal, Locator, RecordTarget};
use crate::mutation::referrers::consumed_message;
use crate::mutation::rename::rename_repo;
use crate::mutation::rename_type::{owned_def, rename_type_refusal, renamed_def};
use crate::neighborhood::{neighborhood_error, unknown_kind_from, NeighborhoodArgs};
use crate::paths::same_path_spec;
use crate::text::{joined_by, views};
use vstd::prelude::*;

verus! {

/// Of two targets the refusal of the first is given first; a repo that may not be edited is
/// named with its role.
pub proof fn the_first_target_is_refused_first(
    repos: Seq<Repo>,
    a: Resolved,
    b: Resolved,
    i: int,
)
    ensures
        target_refusal(repos, a) is Some ==> either_refusal(repos, a, b) == target_refusal(repos, a),
        target_refusal(repos, a) is None ==> either_refusal(repos, a, b) == target_refusal(repos, b),
        a matches Ok(t) ==> (owner(repos, t@) == Some(i) && !repos[i].editable ==> target_refusal(
            repos,
            a,
        ) == Some(
            refused(
                "member '"@ + repos[i].name@ + "' is mounted as '"@ + repos[i].role@
                    + "', not editable — list it in workspace.yaml 'edit:' to author it"@,
            ),
        )),
{
}

/// A type is not renamed, first because it is not there, then because its repo is not there,
/// may not be edited, then because the new name is none, is taken, or leads nowhere.
pub proof fn why_a_type_is_not_renamed(
    kb: KnowledgeBase,
    old_name: Seq<char>,
    old_repo: Option<Seq<char>>,
    new_name: Seq<char>,
    valid: bool,
    from: Seq<char>,
    i: int,
)
    ensures
        ({
            let why = rename_type_refusal(kb, old_name, old_repo, new_name, valid);
            let def = owned_def(kb, old_name, old_repo, 0);
            &&& def is None && old_repo is None ==> why == Some(
                "no type-def named '"@ + old_name + "' to rename"@,
            )
            &&& def is None && old_repo is Some ==> why == Some(
                "no type-def named '"@ + old_name + "' owned by '"@ + old_repo->0
                    + "' to rename"@,
            )
            &&& def == Some(from) && owner(kb.repos@, from) is None ==> why == Some(
                "the type-def's repo is not mounted"@,
            )
            &&& def == Some(from) && owner(kb.repos@, from) == Some(i) ==> {
                let taken = type_source(kb.types@, kb.repos@[i].name@, new_name, 0) is Some;
                &&& !kb.repos@[i].editable ==> why == Some(
                    "type-def '"@ + old_name + "' is owned by '"@ + kb.repos@[i].name@
                        + "', mounted as '"@ + kb.repos@[i].role@
                        + "', not editable — list it in workspace.yaml 'edit:' to rename its types"@,
                )
                &&& kb.repos@[i].editable && !valid ==> why == Some(
                    "'"@ + new_name + "' is not a valid type name"@,
                )
                &&& kb.repos@[i].editable && valid && taken ==> why == Some(
                    "type-def '"@ + new_name + "' already exists — pick a free name"@,
                )
                &&& kb.repos@[i].editable && valid && !taken && renamed_def(from, new_name) is None
                    ==> why == Some("could not derive the new path for '"@ + new_name + "'"@)
            }
        }),
{
}

/// An id is not renamed, first because its file is nowhere, not catalogued, or no instance,
/// then because no record carries it, then because the new one is taken.
pub proof fn why_an_id_is_not_renamed(
    kb: KnowledgeBase,
    host: Seq<char>,
    targets: Seq<RecordTarget>,
    id: Seq<char>,
    to: Seq<char>,
    i: int,
)
    ensures
        ({
            let why = block_id_refusal(kb, host, targets, id, to);
            &&& owner(kb.repos@, host) is None ==> why == Some("path escapes the workspace"@)
            &&& owner(kb.repos@, host) is Some && entry_of(kb.catalog@, host) is None ==> why
                == Some("the host file is not in the knowledge base"@)
            &&& owner(kb.repos@, host) is Some && entry_of(kb.catalog@, host) == Some(i) ==> {
                let typed = kb.catalog@[i].parse matches FileParse::Instance(Some(_));
                &&& !typed ==> why == Some(
                    "the host file is not a typed instance — no inline record to rename"@,
                )
                &&& typed && target_span(targets, id, 0) is None ==> why == Some(
                    "no inline record carries block-id `"@ + id + "` in "@ + host
                        + "; block-id rename covers inline `^:` records only"@,
                )
                &&& typed && target_span(targets, id, 0) is Some && declares(
                    targets,
                    kb.catalog@[i].body,
                    to,
                ) ==> why == Some(
                    "block-id `"@ + to + "` already exists in "@ + host + " — pick a free id"@,
                )
            }
        }),
{
}

/// A record is not promoted, first because a path is nowhere or in another repo, then because
/// its file is not catalogued or no instance, then because it is not found.
pub proof fn why_a_record_is_not_promoted(
    kb: KnowledgeBase,
    from: Seq<char>,
    to: Seq<char>,
    locator: Locator,
    a: int,
    b: int,
    i: int,
)
    ensures
        ({
            let r = promotable(kb, from, to, locator);
            &&& owner(kb.repos@, from) is None || owner(kb.repos@, to) is None ==> (r matches Err(m)
                && m == "path or destination escapes the workspace"@)
            &&& owner(kb.repos@, from) == Some(a) && owner(kb.repos@, to) == Some(b)
                && !same_path_spec(kb.repos@[a].root@, kb.repos@[b].root@) ==> (r matches Err(m)
                && m
                == "promote into another repo is not supported — path and to must be in the same repo"@)
            &&& owner(kb.repos@, from) == Some(a) && owner(kb.repos@, to) == Some(a) ==> {
                &&& entry_of(kb.catalog@, from) is None ==> (r matches Err(m) && m
                    == "the host file is not in the knowledge base"@)
                &&& entry_of(kb.catalog@, from) == Some(i) && !(
                kb.catalog@[i].parse matches FileParse::Instance(Some(_))) ==> (r matches Err(m)
                    && m == "the host file is not a typed instance — nothing to promote"@)
            }
        }),
{
}

/// A promote out of a slot that takes no reference is refused before any reference is looked
/// at.
pub proof fn the_slot_is_looked_at_first(
    links: Seq<crate::model::Backlink>,
    targets: Seq<RecordTarget>,
    from: Seq<char>,
    record: crate::ast::ByteRange,
)
    ensures
        promote_refusal(links, targets, from, record, Some(false)) == Some(
            "promote out of an inline-only slot: the slot holds an inline record but cannot hold the `[[newFile]]` reference promote writes — only an inline-or-reference (`&`) slot can be promoted"@,
        ),
        promote_refusal(links, targets, from, record, Some(true)) == promote_refusal(
            links,
            targets,
            from,
            record,
            None,
        ),
{
}

/// A file is not inlined, first because a path is nowhere or in another repo, then because it
/// is not catalogued, no instance, or has a body, then because of its host.
pub proof fn why_a_file_is_not_inlined(
    kb: KnowledgeBase,
    file: Seq<char>,
    into: Seq<char>,
    at: Option<usize>,
    a: int,
    b: int,
    f: int,
    h: int,
)
    ensures
        ({
            let r = inline_spot(kb, file, into, at);
            &&& owner(kb.repos@, file) is None || owner(kb.repos@, into) is None ==> (
            r matches Err(m) && m == "path or into escapes the workspace"@)
            &&& owner(kb.repos@, file) == Some(a) && owner(kb.repos@, into) == Some(b)
                && !same_path_spec(kb.repos@[a].root@, kb.repos@[b].root@) ==> (r matches Err(m)
                && m
                == "inline across repos is not supported — path and into must be in the same repo"@)
            &&& owner(kb.repos@, file) == Some(a) && owner(kb.repos@, into) == Some(a) ==> {
                &&& entry_of(kb.catalog@, file) is None ==> (r matches Err(m) && m
                    == "the file to inline is not in the knowledge base"@)
                &&& entry_of(kb.catalog@, file) == Some(f) && !(
                kb.catalog@[f].parse matches FileParse::Instance(Some(_))) ==> (r matches Err(m)
                    && m == "the file to inline is not a typed instance"@)
                &&& entry_of(kb.catalog@, file) == Some(f) && (
                kb.catalog@[f].parse matches FileParse::Instance(Some(_))) && !has_body(
                    kb.catalog@[f],
                ) ==> {
                    &&& entry_of(kb.catalog@, into) is None ==> (r matches Err(m) && m
                        == "the host `into` is not in the knowledge base"@)
                    &&& entry_of(kb.catalog@, into) == Some(h) && !(
                    kb.catalog@[h].parse matches FileParse::Instance(Some(_))) ==> (r matches Err(m)
                        && m == "the host `into` is not a typed instance"@)
                    &&& entry_of(kb.catalog@, into) == Some(h) && (
                    kb.catalog@[h].parse matches FileParse::Instance(Some(_))) ==> (
                    chosen_reference(
                        host_spans(inbound(kb.backlinks@, file), file, into),
                        at,
                    ) matches Err(m) ==> r == Err::<
                        (crate::ast::ByteRange, crate::ast::ByteRange),
                        Seq<char>,
                    >(m))
                }
            }
        }),
{
}

/// A walk is refused, first for a kind that is not known, then for going deep without one,
/// then for no room.
pub proof fn why_a_walk_is_refused(args: NeighborhoodArgs, known: Seq<String>)
    ensures
        args.kinds matches Some(ks) ==> (unknown_kind_from(ks@, known, 0) matches Some(k)
            ==> neighborhood_error(args, known) == Some(
            "unknown edge kind '"@ + k + "'; expected one of "@ + joined_by(views(known), " / "@),
        )),
        args.kinds is None && args.depth > 1 ==> neighborhood_error(args, known) == Some(
            "`kinds` is required past depth 1 (an unfiltered deep walk explodes through navigational fan-out); name one or more of "@
                + joined_by(views(known), " / "@),
        ),
        args.kinds is None && args.depth <= 1 && args.max_nodes == Some(0usize)
            ==> neighborhood_error(args, known) == Some(
            "`max_nodes` must be at least 1; the seed always counts"@,
        ),
{
}

/// The repos that hold a refactor up are named in the refusal.
pub proof fn the_refusal_names_the_repos(names: Seq<Seq<char>>)
    ensures
        consumed_message(names) == "cannot rewrite references in consumed member(s) "@ + joined_by(
            names,
            ", "@,
        )
            + " — a refactor may not author a member it does not own; list them in workspace.yaml 'edit:' to rewrite their references"@,
{
}

/// A file is not moved out of its repo, nor to where no repo is.
pub proof fn why_a_file_is_not_moved(
    kb: KnowledgeBase,
    from: Seq<char>,
    to: Seq<char>,
    a: int,
    b: int,
)
    ensures
        owner(kb.repos@, from) is None || owner(kb.repos@, to) is None ==> rename_repo(
            kb,
            from,
            to,
        ) == Err::<int, Seq<char>>("path or destination escapes the workspace"@),
        owner(kb.repos@, from) == Some(a) && owner(kb.repos@, to) == Some(b) && !same_path_spec(
            kb.repos@[a].root@,
            kb.repos@[b].root@,
        ) ==> rename_repo(kb, from, to) == Err::<int, Seq<char>>(
            "cross-repo rename is not supported yet — path and to must be in the same repo"@,
        ),
        owner(kb.repos@, from) == Some(a) && owner(kb.repos@, to) == Some(a) ==> rename_repo(
            kb,
            from,
            to,
        ) == Ok::<int, Seq<char>>(a),
{
}

} // verus!
