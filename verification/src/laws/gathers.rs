//! A refactor gathers every reference to what it moves.

use crate::ast::{ByteRange, FileParse, InstanceField};
use crate::graph::nodes::chosen;
use crate::laws::moving::the_other_references_are_all_but_the_chosen;
use crate::laws::order::what_is_put_in_order_is_kept;
use crate::laws::refactors::{every_picked_reference_is_told, lemma_chosen_iff};
use crate::model::{
    entry_of, held_hash, inbound, owner, Backlink, CatalogEntry, KnowledgeBase, Repo,
};
use crate::mutation::blocks::{declares, link_at, target_span};
use crate::mutation::handle::is_rename_gather;
use crate::mutation::inline::{
    all_offences, from_host, host_spans, is_inline_gather, InlineGather, InlineSpot, LinkProbe,
};
use crate::mutation::promote::RecordTarget;
use crate::mutation::refactor::everything;
use crate::mutation::referrers::{
    any_blocked, blocks, is_blocking, is_referrers, Blocking, Referrer,
};
use crate::mutation::rename::RenameGather;
use crate::mutation::rename_type::{
    edits_in_entry, is_rename_type_gather, mentioning, RenameTypeGather,
};
use crate::paths::{file_stem_of, holds_path, same_path_spec};
use crate::records::{field_links, first_in, last_of};
use crate::sorting::in_rank;
use crate::text::holds;
use vstd::prelude::*;

verus! {

/// Every reference to a file that moves is rewritten, in the file that holds it.
pub proof fn every_reference_to_a_moved_file_is_told(
    g: RenameGather,
    kb: KnowledgeBase,
    from: Seq<char>,
    to: Seq<char>,
    repo: int,
    j: int,
)
    requires
        is_rename_gather(g, kb, from, to, repo),
        0 <= j < inbound(kb.backlinks@, from).len(),
    ensures
        exists|r: int|
            0 <= r < g.referrers@.len() && same_path_spec(
                (#[trigger] g.referrers@[r]).path@,
                inbound(kb.backlinks@, from)[j].source@,
            ) && g.referrers@[r].spans@.contains(inbound(kb.backlinks@, from)[j].span),
{
    let links = inbound(kb.backlinks@, from);
    every_picked_reference_is_told(g.referrers@, kb.catalog@, links, everything(links.len()), j);
}

/// Every link to the def of a renamed type is rewritten, and the files that hold one are
/// among the files that change.
pub proof fn every_link_to_a_renamed_def_is_told(
    g: RenameTypeGather,
    kb: KnowledgeBase,
    old_name: Seq<char>,
    old_repo: Option<Seq<char>>,
    new_name: Seq<char>,
    j: int,
)
    requires
        is_rename_type_gather(g, kb, old_name, old_repo, new_name),
        0 <= j < inbound(kb.backlinks@, g.from@).len(),
    ensures
        exists|r: int|
            0 <= r < g.links@.len() && same_path_spec(
                (#[trigger] g.links@[r]).path@,
                inbound(kb.backlinks@, g.from@)[j].source@,
            ) && g.links@[r].spans@.contains(inbound(kb.backlinks@, g.from@)[j].span) && holds_path(
                g.referrers@,
                g.links@[r].path@,
            ),
{
    let links = inbound(kb.backlinks@, g.from@);
    every_picked_reference_is_told(g.links@, kb.catalog@, links, everything(links.len()), j);
    let r = choose|r: int|
        0 <= r < g.links@.len() && same_path_spec(
            (#[trigger] g.links@[r]).path@,
            links[j].source@,
        ) && g.links@[r].spans@.contains(links[j].span);
    assert(crate::mutation::rename_type::refers_path(g.links@, g.links@[r].path@));
    assert(holds_path(g.referrers@, g.links@[r].path@));
}

/// Every file that mentions a renamed type is edited at its mentions, and is among the files
/// that change.
pub proof fn every_mention_of_a_renamed_type_is_told(
    g: RenameTypeGather,
    kb: KnowledgeBase,
    old_name: Seq<char>,
    old_repo: Option<Seq<char>>,
    new_name: Seq<char>,
    i: int,
    repo: int,
)
    requires
        is_rename_type_gather(g, kb, old_name, old_repo, new_name),
        owner(kb.repos@, g.from@) == Some(repo),
        0 <= i < kb.catalog@.len(),
        edits_in_entry(kb, i, old_name, kb.repos@[repo].name@, new_name).len() > 0,
    ensures
        exists|k: int|
            0 <= k < g.type_edits@.len() && (#[trigger] g.type_edits@[k]).path == kb.catalog@[i].path
                && crate::typerefs::edit_views(g.type_edits@[k].edits@) == edits_in_entry(
                kb,
                i,
                old_name,
                kb.repos@[repo].name@,
                new_name,
            ) && holds_path(g.referrers@, kb.catalog@[i].path@),
{
    let def_repo = kb.repos@[repo].name@;
    lemma_chosen_iff(
        |i: int| edits_in_entry(kb, i, old_name, def_repo, new_name).len() > 0,
        kb.catalog@.len() as int,
        i,
    );
    let at = mentioning(kb, old_name, def_repo, new_name);
    assert(at.contains(i));
    let k = choose|k: int| 0 <= k < at.len() && at[k] == i;
    assert(g.type_edits@[k].path == kb.catalog@[i].path);
    assert(crate::mutation::rename_type::edits_path(g.type_edits@, kb.catalog@[i].path@));
    assert(holds_path(g.referrers@, kb.catalog@[i].path@));
}

/// A renamed type's def and the path that it goes to are told below the root of the repo that
/// owns it.
pub proof fn a_renamed_def_moves_within_its_repo(
    g: RenameTypeGather,
    kb: KnowledgeBase,
    old_name: Seq<char>,
    old_repo: Option<Seq<char>>,
    new_name: Seq<char>,
    repo: int,
)
    requires
        is_rename_type_gather(g, kb, old_name, old_repo, new_name),
        owner(kb.repos@, g.from@) == Some(repo),
    ensures
        g.move_repo_root@ == kb.repos@[repo].root@,
        crate::paths::below(g.from@, kb.repos@[repo].root@) matches Some(rel) ==> g.old_rel@ == rel,
        crate::paths::below(g.to@, kb.repos@[repo].root@) matches Some(rel) ==> g.new_rel@ == rel,
{
}

proof fn lemma_multiset_contains<A>(a: Seq<A>, b: Seq<A>, x: A)
    requires
        a.to_multiset() == b.to_multiset(),
    ensures
        a.contains(x) <==> b.contains(x),
{
    a.to_multiset_ensures();
    b.to_multiset_ensures();
    assert(a.contains(x) <==> a.to_multiset().count(x) > 0);
    assert(b.contains(x) <==> b.to_multiset().count(x) > 0);
}

/// Every reference to an inlined file is followed up: those of other files in the files, the
/// host's own in the host, all but the one that the record replaces, and the file's own in
/// the record.
pub proof fn every_reference_to_an_inlined_file_is_told(
    g: InlineGather,
    kb: KnowledgeBase,
    file: Seq<char>,
    into: Seq<char>,
    spot: InlineSpot,
    file_targets: Seq<RecordTarget>,
    into_targets: Seq<RecordTarget>,
    j: int,
)
    requires
        is_inline_gather(g, kb, file, into, spot, file_targets, into_targets),
        0 <= j < inbound(kb.backlinks@, file).len(),
    ensures
        ({
            let link = inbound(kb.backlinks@, file)[j];
            &&& same_path_spec(link.source@, file) ==> g.file_self@.contains(link.span)
            &&& !same_path_spec(link.source@, file) && same_path_spec(link.source@, into)
                && link.span != spot.chosen ==> g.into_other@.contains(link.span)
            &&& !same_path_spec(link.source@, file) && !same_path_spec(link.source@, into)
                ==> exists|r: int|
                0 <= r < g.cross@.len() && same_path_spec(
                    (#[trigger] g.cross@[r]).path@,
                    link.source@,
                ) && g.cross@[r].spans@.contains(link.span)
        }),
{
    let links = inbound(kb.backlinks@, file);
    let link = links[j];
    let n = links.len() as int;
    if same_path_spec(link.source@, file) {
        let p = |j: int| same_path_spec(links[j].source@, file);
        lemma_chosen_iff(p, n, j);
        let at = chosen(p, n);
        assert(at.contains(j));
        let k = choose|k: int| 0 <= k < at.len() && at[k] == j;
        assert(g.file_self@[k] == link.span);
    } else if same_path_spec(link.source@, into) {
        let p = |j: int|
            !same_path_spec(links[j].source@, file) && same_path_spec(links[j].source@, into);
        lemma_chosen_iff(p, n, j);
        let at = from_host(links, file, into);
        assert(at.contains(j));
        let k = choose|k: int| 0 <= k < at.len() && at[k] == j;
        let spans = at.map_values(|j: int| links[j].span);
        assert(spans[k] == link.span);
        what_is_put_in_order_is_kept(spans);
        lemma_multiset_contains(in_rank(spans), spans, link.span);
        assert(host_spans(links, file, into).contains(link.span));
        the_other_references_are_all_but_the_chosen(
            host_spans(links, file, into),
            spot.chosen,
            link.span,
        );
    } else {
        let p = |j: int|
            !same_path_spec(links[j].source@, file) && !same_path_spec(links[j].source@, into);
        lemma_chosen_iff(p, n, j);
        let at = crate::mutation::inline::from_elsewhere(links, file, into);
        assert(at.contains(j));
        let k = choose|k: int| 0 <= k < at.len() && at[k] == j;
        every_picked_reference_is_told(g.cross@, kb.catalog@, links, at, k);
    }
}

/// The references of the host and those of the other files count alike against an inline.
pub proof fn every_offence_counts(
    probes: Seq<LinkProbe>,
    into: Seq<char>,
    into_other: Seq<ByteRange>,
    cross: Seq<Referrer>,
)
    ensures
        all_offences(probes, into, into_other, cross).len() > 0
            <==> crate::mutation::inline::offences_in(
            probes,
            into,
            into_other,
            into_other.len() as int,
        ).len() > 0 || crate::mutation::inline::offences_across(
            probes,
            cross,
            cross.len() as int,
        ).len() > 0,
{
}

/// A refactor is held up where one of its files belongs to a repo that may not be edited, and
/// every such repo is named with its files.
pub proof fn a_refactor_is_held_up_by_what_may_not_be_edited(
    bs: Seq<Blocking>,
    repos: Seq<Repo>,
    paths: Seq<String>,
    k: int,
    i: int,
)
    requires
        is_blocking(bs, repos, paths),
        0 <= k < paths.len(),
        owner(repos, paths[k]@) == Some(i),
        !repos[i].editable,
    ensures
        any_blocked(repos, paths),
        exists|b: int|
            0 <= b < bs.len() && (#[trigger] bs[b]).member@ == repos[i].name@ && bs[b].files@.contains(
                paths[k],
            ),
{
    let name = repos[i].name@;
    let here = paths[k];
    assert(crate::mutation::referrers::blocking_repo(repos, here@) == Some(name));
    assert(blocks(bs, name));
    let b = choose|b: int| #![trigger bs[b]] 0 <= b < bs.len() && bs[b].member@ == name;
    crate::laws::refactors::a_file_of_a_consumed_member_blocks(
        repos,
        paths,
        paths.len() as int,
        k,
        i,
    );
    assert(bs[b].files@.contains(paths[k]));
}

/// Where every file belongs to a repo that may be edited, or to none, nothing holds a
/// refactor up.
pub proof fn nothing_else_holds_a_refactor_up(repos: Seq<Repo>, paths: Seq<String>)
    requires
        forall|k: int|
            #![trigger paths[k]]
            0 <= k < paths.len() ==> (owner(repos, paths[k]@) matches Some(i) ==> repos[i].editable),
    ensures
        !any_blocked(repos, paths),
{
}

/// A link at a range is looked for in the fields of a file first, and then in its body.
pub proof fn a_link_is_looked_for_in_the_fields_first(
    entry: CatalogEntry,
    fields: Vec<InstanceField>,
    span: ByteRange,
)
    requires
        entry.parse matches FileParse::Instance(Some(inst)) && inst.fields == fields
            || entry.parse == FileParse::Note(fields),
    ensures
        ({
            let here = field_links(fields, span, fields.len() as int);
            &&& here.len() > 0 ==> link_at(entry, span) == Some(here[0])
            &&& here.len() == 0 ==> (entry.body matches Some(b) ==> link_at(entry, span)
                == first_in(
                crate::mutation::blocks::body_links_at(b, span, b.events@.len() as int),
            ))
            &&& here.len() == 0 && entry.body is None ==> link_at(entry, span) is None
        }),
{
}

/// The first of a list is its first, the last its last, and an empty one has neither.
pub proof fn a_list_has_a_first_and_a_last<T>(s: Seq<T>)
    ensures
        s.len() == 0 ==> first_in(s) is None && last_of(s) is None,
        s.len() > 0 ==> first_in(s) == Some(s[0]) && last_of(s) == Some(s[s.len() - 1]),
{
}

/// Each file that a refactor rewrites is held to the digest that the engine has of it.
pub proof fn each_file_is_held_to_its_digest(
    rs: Seq<Referrer>,
    catalog: Seq<CatalogEntry>,
    links: Seq<Backlink>,
    picked: Seq<int>,
    r: int,
    g: RenameTypeGather,
    kb: KnowledgeBase,
    old_name: Seq<char>,
    old_repo: Option<Seq<char>>,
    new_name: Seq<char>,
    k: int,
)
    requires
        is_referrers(rs, catalog, links, picked),
        is_rename_type_gather(g, kb, old_name, old_repo, new_name),
    ensures
        0 <= r < rs.len() ==> rs[r].hash == held_hash(catalog, rs[r].path@),
        0 <= k < g.type_edits@.len() ==> exists|i: int|
            (#[trigger] kb.catalog@[i]).path == g.type_edits@[k].path && kb.catalog@[i].hash
                == g.type_edits@[k].hash,
{
    if 0 <= k < g.type_edits@.len() {
        let def_repo = kb.repos@[owner(kb.repos@, g.from@)->0].name@;
        let at = mentioning(kb, old_name, def_repo, new_name);
        let here = g.type_edits@[k];
        assert(kb.catalog@[at[k]].path == here.path);
    }
}

/// An inline is held to the digests of both of its files, and knows every id that either of
/// them declares and those that both do.
pub proof fn an_inline_knows_both_of_its_files(
    g: InlineGather,
    kb: KnowledgeBase,
    file: Seq<char>,
    into: Seq<char>,
    spot: InlineSpot,
    file_targets: Seq<RecordTarget>,
    into_targets: Seq<RecordTarget>,
    f: int,
    h: int,
    q: Seq<char>,
)
    requires
        is_inline_gather(g, kb, file, into, spot, file_targets, into_targets),
        entry_of(kb.catalog@, file) == Some(f),
        entry_of(kb.catalog@, into) == Some(h),
    ensures
        g.file_hash == kb.catalog@[f].hash,
        g.into_hash == kb.catalog@[h].hash,
        g.value_span == spot.value_span,
        g.into_stem@ == file_stem_of(into),
        holds(g.namespace@, q) <==> declares(file_targets, kb.catalog@[f].body, q) || declares(
            into_targets,
            kb.catalog@[h].body,
            q,
        ),
        target_span(file_targets, q, 0) is Some && declares(into_targets, kb.catalog@[h].body, q)
            && declares(file_targets, kb.catalog@[f].body, q) ==> exists|k: int|
            0 <= k < g.colliding@.len() && (#[trigger] g.colliding@[k]).id@ == q
                && target_span(file_targets, q, 0) == Some(g.colliding@[k].span),
{
    if target_span(file_targets, q, 0) is Some && declares(into_targets, kb.catalog@[h].body, q)
        && declares(file_targets, kb.catalog@[f].body, q) {
        assert(crate::mutation::inline::collides_at(g.colliding@, q));
        let k = choose|k: int|
            #![trigger g.colliding@[k]]
            0 <= k < g.colliding@.len() && g.colliding@[k].id@ == q;
        assert(target_span(file_targets, q, 0) == Some(g.colliding@[k].span));
    }
}

} // verus!
