//! What a subscriber is told.

use crate::channels::diagnostics::{
    file_differs, files_hint, files_of, is_by_file, of_file, served_for, FileDiagnostics,
};
use crate::channels::files::{delta_hint, paths_hint, FilesDelta};
use crate::channels::graphs::{link_hint, type_hint};
use crate::channels::lifecycle::{lifecycle_view, version_or_zero};
use crate::channels::types::{
    handle_json, known_type, type_among, types_altered, types_beyond, types_differ, types_hint,
    TypeState,
};
use crate::diagnostics::{served_at, Diagnostic};
use crate::graph::delta::LinkGraphDelta;
use crate::graph::types::TypeGraphDelta;
use crate::json::{jv, member, rendered_list, text_list, JsonView};
use crate::laws::json::tells;
use crate::listing::{ascend, lemma_inserted};
use crate::text::{lower, views};
use vstd::prelude::*;

verus! {

/// The diagnostics of a file are those among them that are its own.
pub proof fn the_diagnostics_of_a_file_are_its_own(
    all: Seq<Diagnostic>,
    at: Seq<int>,
    file: Seq<char>,
    n: int,
    i: int,
)
    requires
        0 <= n <= at.len(),
    ensures
        of_file(all, at, file, n).contains(i) <==> all[i].file@ == file && exists|k: int|
            0 <= k < n && #[trigger] at[k] == i,
    decreases n,
{
    if n > 0 {
        the_diagnostics_of_a_file_are_its_own(all, at, file, n - 1, i);
        let before = of_file(all, at, file, n - 1);
        let now = of_file(all, at, file, n);
        let here = at[n - 1];
        if before.contains(i) {
            let j = choose|j: int| 0 <= j < before.len() && before[j] == i;
            assert(now[j] == i);
        }
        if now.contains(i) && !before.contains(i) {
            let j = choose|j: int| 0 <= j < now.len() && now[j] == i;
            if j < before.len() {
                assert(before[j] == i);
            }
            assert(here == i);
        }
        if here == i && all[i].file@ == file {
            assert(now[before.len() as int] == i);
        }
    }
}

proof fn lemma_served(g: Seq<FileDiagnostics>, file: Seq<char>, i: int, k: int)
    requires
        0 <= i <= k < g.len(),
        g[k].file@ == file,
        forall|j: int| #![trigger g[j]] i <= j < k ==> g[j].file@ != file,
    ensures
        served_for(g, file, i) == Some(jv(g[k].served)),
    decreases k - i,
{
    if i < k {
        let here = g[i];
        lemma_served(g, file, i + 1, k);
    }
}

proof fn lemma_unserved(g: Seq<FileDiagnostics>, file: Seq<char>, i: int)
    requires
        0 <= i,
        forall|j: int| #![trigger g[j]] i <= j < g.len() ==> g[j].file@ != file,
    ensures
        served_for(g, file, i) is None,
    decreases g.len() - i,
{
    if i < g.len() {
        let here = g[i];
        lemma_unserved(g, file, i + 1);
    }
}

/// A file differs where its diagnostics are other than they were, where it has got some and
/// where it has lost them; a file whose diagnostics are the same does not.
pub proof fn a_file_differs_where_its_diagnostics_do(
    last: Seq<FileDiagnostics>,
    cur: Seq<FileDiagnostics>,
    file: Seq<char>,
    a: int,
    b: int,
)
    requires
        0 <= a < last.len() && last[a].file@ == file,
        forall|j: int| #![trigger last[j]] 0 <= j < a ==> last[j].file@ != file,
    ensures
        0 <= b < cur.len() && cur[b].file@ == file && (forall|j: int|
            #![trigger cur[j]]
            0 <= j < b ==> cur[j].file@ != file) ==> (file_differs(last, cur, file) <==> jv(
            last[a].served,
        ) != jv(cur[b].served)) && (file_differs(cur, last, file) <==> jv(last[a].served) != jv(
            cur[b].served,
        )),
        (forall|j: int| #![trigger cur[j]] 0 <= j < cur.len() ==> cur[j].file@ != file)
            ==> file_differs(last, cur, file) && file_differs(cur, last, file),
{
    lemma_served(last, file, 0, a);
    if 0 <= b < cur.len() && cur[b].file@ == file && (forall|j: int|
        #![trigger cur[j]]
        0 <= j < b ==> cur[j].file@ != file) {
        lemma_served(cur, file, 0, b);
    }
    if forall|j: int| #![trigger cur[j]] 0 <= j < cur.len() ==> cur[j].file@ != file {
        lemma_unserved(cur, file, 0);
    }
}

proof fn lemma_among(list: Seq<TypeState>, name: Seq<char>, repo: Seq<char>, n: int)
    requires
        0 <= n <= list.len(),
    ensures
        match type_among(list, name, repo, n) {
            Some(k) => 0 <= k < n && list[k].name@ == name && list[k].repo@ == repo,
            None => forall|k: int|
                #![trigger list[k]]
                0 <= k < n ==> !(list[k].name@ == name && list[k].repo@ == repo),
        },
    decreases n,
{
    if n > 0 {
        lemma_among(list, name, repo, n - 1);
    }
}

/// A type is known where one of its name and its repo is there.
pub proof fn a_type_is_known_by_its_name_and_repo(list: Seq<TypeState>, t: TypeState)
    ensures
        match known_type(list, t) {
            Some(k) => 0 <= k < list.len() && list[k].name@ == t.name@ && list[k].repo@ == t.repo@,
            None => forall|k: int|
                #![trigger list[k]]
                0 <= k < list.len() ==> !(list[k].name@ == t.name@ && list[k].repo@ == t.repo@),
        },
{
    lemma_among(list, t.name@, t.repo@, list.len() as int);
}

/// A type that was not there is told as added, one that is there no longer as removed, and
/// one that is served otherwise as changed.
pub proof fn a_type_is_told_as_what_became_of_it(
    last: Seq<TypeState>,
    cur: Seq<TypeState>,
    i: int,
)
    requires
        0 <= i < cur.len(),
    ensures
        known_type(last, cur[i]) is None ==> types_differ(last, cur) && types_beyond(
            last,
            cur,
            cur.len() as int,
        ).contains(handle_json(cur[i])) && types_differ(cur, last),
        known_type(last, cur[i]) matches Some(k) ==> (jv(last[k].served) != jv(cur[i].served)
            ==> types_differ(last, cur) && types_altered(last, cur, cur.len() as int).contains(
            handle_json(cur[i]),
        )),
{
    let n = cur.len() as int;
    if known_type(last, cur[i]) is None {
        lemma_beyond(last, cur, n, i);
        let all = types_beyond(last, cur, n);
        let j = choose|j: int| 0 <= j < all.len() && all[j] == handle_json(cur[i]);
        assert(all.len() > 0);
    }
    if let Some(k) = known_type(last, cur[i]) {
        if jv(last[k].served) != jv(cur[i].served) {
            lemma_altered(last, cur, n, i);
            let all = types_altered(last, cur, n);
            let j = choose|j: int| 0 <= j < all.len() && all[j] == handle_json(cur[i]);
            assert(all.len() > 0);
        }
    }
}

proof fn lemma_beyond(last: Seq<TypeState>, cur: Seq<TypeState>, n: int, i: int)
    requires
        0 <= i < n <= cur.len(),
        known_type(last, cur[i]) is None,
    ensures
        types_beyond(last, cur, n).contains(handle_json(cur[i])),
    decreases n,
{
    let before = types_beyond(last, cur, n - 1);
    let now = types_beyond(last, cur, n);
    if i < n - 1 {
        lemma_beyond(last, cur, n - 1, i);
        let j = choose|j: int| 0 <= j < before.len() && before[j] == handle_json(cur[i]);
        assert(now[j] == handle_json(cur[i]));
    } else {
        assert(now[before.len() as int] == handle_json(cur[i]));
    }
}

proof fn lemma_altered(last: Seq<TypeState>, cur: Seq<TypeState>, n: int, i: int)
    requires
        0 <= i < n <= cur.len(),
        known_type(last, cur[i]) matches Some(k) && jv(last[k].served) != jv(cur[i].served),
    ensures
        types_altered(last, cur, n).contains(handle_json(cur[i])),
    decreases n,
{
    let before = types_altered(last, cur, n - 1);
    let now = types_altered(last, cur, n);
    if i < n - 1 {
        lemma_altered(last, cur, n - 1, i);
        let j = choose|j: int| 0 <= j < before.len() && before[j] == handle_json(cur[i]);
        assert(now[j] == handle_json(cur[i]));
    } else {
        assert(now[before.len() as int] == handle_json(cur[i]));
    }
}

/// Whatever is told as added was not there, and whatever is told as changed was there and is
/// served otherwise.
pub proof fn only_types_that_differ_are_told(
    last: Seq<TypeState>,
    cur: Seq<TypeState>,
    n: int,
    j: int,
)
    requires
        0 <= n <= cur.len(),
    ensures
        0 <= j < types_beyond(last, cur, n).len() ==> exists|i: int|
            0 <= i < n && handle_json(#[trigger] cur[i]) == types_beyond(last, cur, n)[j]
                && known_type(last, cur[i]) is None,
        0 <= j < types_altered(last, cur, n).len() ==> exists|i: int|
            0 <= i < n && handle_json(#[trigger] cur[i]) == types_altered(last, cur, n)[j] && (
            known_type(last, cur[i]) matches Some(k) && jv(last[k].served) != jv(cur[i].served)),
    decreases n,
{
    if n > 0 {
        only_types_that_differ_are_told(last, cur, n - 1, j);
        let here = cur[n - 1];
        if 0 <= j < types_beyond(last, cur, n).len() && j >= types_beyond(last, cur, n - 1).len() {
            assert(handle_json(here) == types_beyond(last, cur, n)[j]);
        }
        if 0 <= j < types_altered(last, cur, n).len() && j >= types_altered(last, cur, n - 1).len() {
            assert(handle_json(here) == types_altered(last, cur, n)[j]);
        }
    }
}

/// A type is handed out by its name and its repo, with the digest that it is served with.
pub proof fn a_type_is_handed_out_by_its_name(t: TypeState)
    ensures
        handle_json(t) matches JsonView::Object(m) && {
            &&& tells(m, "name"@, JsonView::Text(t.name@))
            &&& tells(m, "repo"@, JsonView::Text(t.repo@))
            &&& member(jv(t.served), "hash"@) matches Some(h) ==> tells(m, "hash"@, h)
        },
{
    let m = handle_json(t)->Object_0;
    assert(m.contains(m[0]) && m.contains(m[1]) && m.contains(m[2]));
}

/// A change of types tells what came as added, what went as removed and the rest as changed.
pub proof fn a_change_of_types_tells_each_list(last: Seq<TypeState>, cur: Seq<TypeState>)
    ensures
        types_hint(last, cur) matches JsonView::Object(m) && {
            &&& tells(m, "added"@, JsonView::List(types_beyond(last, cur, cur.len() as int)))
            &&& tells(m, "removed"@, JsonView::List(types_beyond(cur, last, last.len() as int)))
            &&& tells(m, "changed"@, JsonView::List(types_altered(last, cur, cur.len() as int)))
        },
{
    let m = types_hint(last, cur)->Object_0;
    assert(m.contains(m[1]) && m.contains(m[2]) && m.contains(m[3]));
}

/// A change of files tells what came, what went and what is otherwise, each under its own
/// key.
pub proof fn a_change_of_files_tells_each_list(
    d: FilesDelta,
    added: Seq<Seq<char>>,
    removed: Seq<Seq<char>>,
)
    ensures
        delta_hint(d) matches JsonView::Object(m) && {
            &&& tells(m, "added"@, text_list(views(d.added@)))
            &&& tells(m, "removed"@, text_list(views(d.removed@)))
            &&& tells(m, "modified"@, text_list(views(d.modified@)))
        },
        paths_hint(added, removed) matches JsonView::Object(m) && {
            &&& tells(m, "added"@, text_list(added))
            &&& tells(m, "removed"@, text_list(removed))
        },
        files_hint(added) matches JsonView::Object(m) && tells(m, "files"@, text_list(added)),
{
    let m = delta_hint(d)->Object_0;
    assert(m.contains(m[1]) && m.contains(m[2]) && m.contains(m[3]));
    let p = paths_hint(added, removed)->Object_0;
    assert(p.contains(p[1]) && p.contains(p[2]));
    let f = files_hint(added)->Object_0;
    assert(f.contains(f[1]));
}

/// A change of a graph tells the nodes and the edges that came and that went, each under its
/// own key.
pub proof fn a_change_of_a_graph_tells_each_list(d: LinkGraphDelta, t: TypeGraphDelta)
    ensures
        link_hint(d) matches JsonView::Object(m) && {
            &&& tells(m, "nodes_added"@, rendered_list(d.nodes_added@))
            &&& tells(m, "nodes_removed"@, text_list(views(d.nodes_removed@)))
            &&& tells(m, "edges_added"@, rendered_list(d.edges_added@))
            &&& tells(m, "edges_removed"@, rendered_list(d.edges_removed@))
        },
        type_hint(t) matches JsonView::Object(m) && {
            &&& tells(m, "nodes_added"@, rendered_list(t.nodes_added@))
            &&& tells(m, "nodes_removed"@, text_list(views(t.nodes_removed@)))
            &&& tells(m, "edges_added"@, rendered_list(t.edges_added@))
            &&& tells(m, "edges_removed"@, rendered_list(t.edges_removed@))
        },
{
    let m = link_hint(d)->Object_0;
    assert(m.contains(m[1]) && m.contains(m[2]) && m.contains(m[3]) && m.contains(m[4]));
    let n = type_hint(t)->Object_0;
    assert(n.contains(n[1]) && n.contains(n[2]) && n.contains(n[3]) && n.contains(n[4]));
}

/// The lifecycle tells the state of the engine and that of the base, each under its own key
/// and in small letters.
pub proof fn the_lifecycle_tells_both_states(engine: Seq<char>, base: Seq<char>)
    ensures
        lifecycle_view(engine, base) matches JsonView::Object(m) && {
            &&& tells(m, "engine"@, JsonView::Text(lower(engine)))
            &&& tells(m, "ref"@, JsonView::Text(lower(base)))
        },
        version_or_zero(None) == 0,
{
    let m = lifecycle_view(engine, base)->Object_0;
    assert(m.contains(m[0]) && m.contains(m[1]));
}

proof fn lemma_files_of(all: Seq<Diagnostic>, at: Seq<int>, n: int, k: int)
    requires
        0 <= k < n <= at.len(),
    ensures
        files_of(all, at, n).contains(all[at[k]].file@),
        ascend(files_of(all, at, n)),
    decreases n,
{
    lemma_files_ascend(all, at, n - 1);
    lemma_inserted(files_of(all, at, n - 1), all[at[n - 1]].file@);
    if k < n - 1 {
        lemma_files_of(all, at, n - 1, k);
    }
}

proof fn lemma_files_ascend(all: Seq<Diagnostic>, at: Seq<int>, n: int)
    requires
        0 <= n <= at.len(),
    ensures
        ascend(files_of(all, at, n)),
    decreases n,
{
    if n > 0 {
        lemma_files_ascend(all, at, n - 1);
        lemma_inserted(files_of(all, at, n - 1), all[at[n - 1]].file@);
    }
}

/// Every file with a diagnostic is held with its own diagnostics.
pub proof fn every_file_with_a_diagnostic_is_held(
    g: Seq<FileDiagnostics>,
    all: Seq<Diagnostic>,
    at: Seq<int>,
    k: int,
)
    requires
        is_by_file(g, all, at),
        0 <= k < at.len(),
    ensures
        exists|i: int|
            0 <= i < g.len() && (#[trigger] g[i]).file@ == all[at[k]].file@ && jv(g[i].served)
                == served_at(all, of_file(all, at, all[at[k]].file@, at.len() as int)),
{
    let file = all[at[k]].file@;
    lemma_files_of(all, at, at.len() as int, k);
    let names = g.map_values(|f: FileDiagnostics| f.file@);
    let i = choose|i: int| 0 <= i < names.len() && names[i] == file;
    assert(g[i].file@ == file);
}

} // verus!
