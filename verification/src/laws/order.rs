//! In which order things are told, and when two of them are the same.

use crate::channels::files::FileState;
use crate::diagnostics::Label;
use crate::graph::delta::{held, is_altered, is_changed, latest, Listed};
use crate::graph::hubs::Hub;
use crate::graph::links::{GraphEdgeView, GraphNodeView};
use crate::graph::shape::OrphanPath;
use crate::graph::types::{TypeGraphEdgeView, TypeGraphNodeView};
use crate::mutation::links::WikilinkRef;
use crate::navigation::BlockEntry;
use crate::paths::same_path_spec;
use crate::saga::commit::RepoCommit;
use crate::saga::recovery::SagaFailure;
use crate::sorting::{in_rank, place, sorted, Ranked};
use crate::tally::Keyed;
use crate::text::{keys_lt, opt_view, text_le, text_lt};
use crate::tokens::Token;
use vstd::prelude::*;

verus! {

/// The hubs come with the most structural references first; those with as many by all
/// references, and then by path.
pub proof fn the_greater_hub_comes_first(v: Seq<Hub>, i: int, j: int)
    requires
        sorted(v),
        0 <= i < j < v.len(),
    ensures
        v[i].refs_structural >= v[j].refs_structural,
        v[i].refs_structural == v[j].refs_structural ==> v[i].refs_total >= v[j].refs_total,
        v[i].refs_structural == v[j].refs_structural && v[i].refs_total == v[j].refs_total
            ==> text_le(v[i].path@, v[j].path@),
{
    assert(v[i].rank_le(&v[j]));
}

/// Files are told in the order of their paths.
pub proof fn files_come_in_the_order_of_their_paths(
    a: Seq<GraphNodeView>,
    b: Seq<TypeGraphNodeView>,
    c: Seq<OrphanPath>,
    i: int,
    j: int,
)
    requires
        sorted(a),
        sorted(b),
        sorted(c),
        0 <= i < j,
    ensures
        j < a.len() ==> text_le(a[i].path@, a[j].path@),
        j < b.len() ==> text_le(b[i].path@, b[j].path@),
        j < c.len() ==> text_le(c[i].path@, c[j].path@),
{
    if j < a.len() {
        assert(a[i].rank_le(&a[j]));
    }
    if j < b.len() {
        assert(b[i].rank_le(&b[j]));
    }
    if j < c.len() {
        assert(c[i].rank_le(&c[j]));
    }
}

/// Edges are told by where they come from, then by where they lead, then by their kind, then
/// by their surface.
pub proof fn edges_come_by_their_ends(v: Seq<GraphEdgeView>, i: int, j: int)
    requires
        sorted(v),
        0 <= i < j < v.len(),
    ensures
        text_le(v[i].from@, v[j].from@),
        v[i].from@ == v[j].from@ ==> text_le(v[i].to@, v[j].to@),
        v[i].from@ == v[j].from@ && v[i].to@ == v[j].to@ ==> text_le(v[i].kind@, v[j].kind@),
        v[i].from@ == v[j].from@ && v[i].to@ == v[j].to@ && v[i].kind@ == v[j].kind@ ==> text_le(
            v[i].surface@,
            v[j].surface@,
        ),
{
    assert(v[i].rank_le(&v[j]));
    let a = v[i]@;
    let b = v[j]@;
    assert(a[0] == v[i].from@ && a[1] == v[i].to@ && a[2] == v[i].kind@ && a[3] == v[i].surface@);
    assert(b[0] == v[j].from@ && b[1] == v[j].to@ && b[2] == v[j].kind@ && b[3] == v[j].surface@);
    if a != b {
        lemma_four(a, b);
    }
}

proof fn lemma_four(a: Seq<Seq<char>>, b: Seq<Seq<char>>)
    requires
        a.len() == 4,
        b.len() == 4,
        keys_lt(a, b),
    ensures
        a[0] != b[0] ==> text_lt(a[0], b[0]),
        a[0] == b[0] && a[1] != b[1] ==> text_lt(a[1], b[1]),
        a[0] == b[0] && a[1] == b[1] && a[2] != b[2] ==> text_lt(a[2], b[2]),
        a[0] == b[0] && a[1] == b[1] && a[2] == b[2] && a[3] != b[3] ==> text_lt(a[3], b[3]),
{
    reveal_with_fuel(keys_lt, 5);
    let a1 = a.drop_first();
    let b1 = b.drop_first();
    let a2 = a1.drop_first();
    let b2 = b1.drop_first();
    let a3 = a2.drop_first();
    let b3 = b2.drop_first();
    assert(a1[0] == a[1] && b1[0] == b[1]);
    assert(a2[0] == a[2] && b2[0] == b[2]);
    assert(a3[0] == a[3] && b3[0] == b[3]);
}

/// Tokens and blocks are told in the order in which they stand in the file, commits and
/// failures by name.
pub proof fn what_stands_first_is_told_first(
    tokens: Seq<Token>,
    blocks: Seq<BlockEntry>,
    commits: Seq<RepoCommit>,
    failures: Seq<SagaFailure>,
    names: Seq<String>,
    i: int,
    j: int,
)
    requires
        sorted(tokens),
        sorted(blocks),
        sorted(commits),
        sorted(failures),
        sorted(names),
        0 <= i < j,
    ensures
        j < tokens.len() ==> tokens[i].range.start <= tokens[j].range.start,
        j < blocks.len() ==> blocks[i].span.start <= blocks[j].span.start,
        j < commits.len() ==> text_le(commits[i].repo@, commits[j].repo@),
        j < failures.len() ==> text_le(failures[i].mutation_id@, failures[j].mutation_id@),
        j < names.len() ==> text_le(names[i]@, names[j]@),
{
    if j < tokens.len() {
        assert(tokens[i].rank_le(&tokens[j]));
    }
    if j < blocks.len() {
        assert(blocks[i].rank_le(&blocks[j]));
    }
    if j < commits.len() {
        assert(commits[i].rank_le(&commits[j]));
    }
    if j < failures.len() {
        assert(failures[i].rank_le(&failures[j]));
    }
    if j < names.len() {
        assert(names[i].rank_le(&names[j]));
    }
}

proof fn lemma_place<T: Ranked>(s: Seq<T>, x: T, i: int)
    requires
        0 <= i <= s.len(),
    ensures
        i <= place(s, x, i) <= s.len(),
    decreases s.len() - i,
{
    if i < s.len() && !x.rank_le(&s[i]) {
        lemma_place(s, x, i + 1);
    }
}

/// Putting things in order neither drops nor adds any.
pub proof fn what_is_put_in_order_is_kept<T: Ranked>(s: Seq<T>)
    ensures
        in_rank(s).to_multiset() == s.to_multiset(),
        in_rank(s).len() == s.len(),
    decreases s.len(),
{
    if s.len() > 0 {
        let rest = s.drop_first();
        what_is_put_in_order_is_kept(rest);
        let done = in_rank(rest);
        lemma_place(done, s[0], 0);
        let at = place(done, s[0], 0);
        vstd::seq_lib::to_multiset_insert(done, at, s[0]);
        assert(rest.insert(0, s[0]) =~= s);
        vstd::seq_lib::to_multiset_insert(rest, 0, s[0]);
    }
}

proof fn lemma_latest<T: Listed>(list: Seq<T>, x: T, n: int, k: int)
    requires
        0 <= k < n <= list.len(),
        list[k].same_id(&x),
        forall|j: int| #![trigger list[j]] 0 <= j < n && j != k ==> !list[j].same_id(&x),
    ensures
        latest(list, x, n) == Some(k),
    decreases n,
{
    let here = list[n - 1];
    if k < n - 1 {
        lemma_latest(list, x, n - 1, k);
    }
}

proof fn lemma_none<T: Listed>(list: Seq<T>, x: T, n: int)
    requires
        0 <= n <= list.len(),
        forall|j: int| #![trigger list[j]] 0 <= j < n ==> !list[j].same_id(&x),
    ensures
        latest(list, x, n) is None,
    decreases n,
{
    if n > 0 {
        let here = list[n - 1];
        lemma_none(list, x, n - 1);
    }
}

/// A file is modified where its digest is another than it was; a file that was not there is
/// not modified.
pub proof fn a_file_is_modified_where_its_digest_is_another(
    last: Seq<FileState>,
    x: FileState,
    k: int,
)
    ensures
        0 <= k < last.len() && same_path_spec(last[k].path@, x.path@) && (forall|j: int|
            #![trigger last[j]]
            0 <= j < last.len() && j != k ==> !same_path_spec(last[j].path@, x.path@)) ==> (
        is_altered(last, x) <==> opt_view(last[k].hash) != opt_view(x.hash)) && held(last, x)
            is Some,
        (forall|j: int|
            #![trigger last[j]]
            0 <= j < last.len() ==> !same_path_spec(last[j].path@, x.path@)) ==> !is_altered(
            last,
            x,
        ) && held(last, x) is None,
{
    if 0 <= k < last.len() && same_path_spec(last[k].path@, x.path@) && (forall|j: int|
        #![trigger last[j]]
        0 <= j < last.len() && j != k ==> !same_path_spec(last[j].path@, x.path@)) {
        lemma_latest(last, x, last.len() as int, k);
    }
    if forall|j: int|
        #![trigger last[j]]
        0 <= j < last.len() ==> !same_path_spec(last[j].path@, x.path@) {
        lemma_none(last, x, last.len() as int);
    }
}

/// A node of a graph is told anew where anything that is told of it is other than it was.
pub proof fn a_node_is_told_anew_where_it_differs(last: Seq<GraphNodeView>, x: GraphNodeView, k: int)
    requires
        0 <= k < last.len(),
        last[k].path@ == x.path@,
        forall|j: int|
            #![trigger last[j]]
            0 <= j < last.len() && j != k ==> last[j].path@ != x.path@,
    ensures
        is_changed(last, x) <==> opt_view(last[k].repo) != opt_view(x.repo) || last[k].kind@
            != x.kind@ || last[k].refs_structural != x.refs_structural || last[k].refs_total
            != x.refs_total,
{
    lemma_latest(last, x, last.len() as int, k);
}

/// So is a node of a type graph.
pub proof fn a_type_node_is_told_anew_where_it_differs(
    last: Seq<TypeGraphNodeView>,
    x: TypeGraphNodeView,
    k: int,
)
    requires
        0 <= k < last.len(),
        last[k].path@ == x.path@,
        forall|j: int|
            #![trigger last[j]]
            0 <= j < last.len() && j != k ==> last[j].path@ != x.path@,
    ensures
        is_changed(last, x) <==> opt_view(last[k].repo) != opt_view(x.repo) || last[k].kind@
            != x.kind@,
{
    lemma_latest(last, x, last.len() as int, k);
}

/// An edge of a type graph is one with the same ends and the same relation, and is told anew
/// where its count is another.
pub proof fn a_type_edge_is_told_anew_where_its_count_differs(
    a: TypeGraphEdgeView,
    b: TypeGraphEdgeView,
)
    ensures
        a.same_id(&b) <==> a.from@ == b.from@ && a.to@ == b.to@ && a.relation@ == b.relation@,
        a.same_id(&b) ==> (a.same_record(&b) <==> a.count == b.count),
{
    let x = a.key();
    let y = b.key();
    assert(x[0] == a.from@ && x[1] == a.to@ && x[2] == a.relation@);
    assert(y[0] == b.from@ && y[1] == b.to@ && y[2] == b.relation@);
    if a.from@ == b.from@ && a.to@ == b.to@ && a.relation@ == b.relation@ {
        assert(x =~= y);
    }
}

/// Labels are counted as one where they read the same.
pub proof fn labels_are_one_where_they_read_the_same(a: Label, b: Label)
    ensures
        a.key() == b.key() <==> a.text@ == b.text@,
{
    assert(a.key()[0] == a.text@ && b.key()[0] == b.text@);
    if a.text@ == b.text@ {
        assert(a.key() =~= b.key());
    }
}

/// Two links that are told alike are alike in everything that they name.
pub proof fn a_link_is_all_that_it_names(a: WikilinkRef, b: WikilinkRef)
    requires
        a@ == b@,
    ensures
        a.target@ == b.target@,
        opt_view(a.repo) == opt_view(b.repo),
        opt_view(a.commit) == opt_view(b.commit),
        opt_view(a.anchor) == opt_view(b.anchor),
        opt_view(a.field) == opt_view(b.field),
        a.block_id is Some <==> b.block_id is Some,
        a.block_id is Some ==> a.block_id->0.id@ == b.block_id->0.id@ && a.block_id->0.referent
            == b.block_id->0.referent,
{
}

/// Whether two things have the same rank.
pub open spec fn same_rank<T: Ranked>(x: T) -> spec_fn(T) -> bool {
    |y: T| x.rank_le(&y) && y.rank_le(&x)
}

proof fn lemma_place_skips<T: Ranked>(s: Seq<T>, x: T, i: int)
    requires
        0 <= i <= s.len(),
    ensures
        forall|k: int| #![trigger s[k]] i <= k < place(s, x, i) ==> !x.rank_le(&s[k]),
    decreases s.len() - i,
{
    if i < s.len() && !x.rank_le(&s[i]) {
        lemma_place_skips(s, x, i + 1);
    }
}

proof fn lemma_filter_none<T>(s: Seq<T>, p: spec_fn(T) -> bool)
    requires
        forall|k: int| #![trigger s[k]] 0 <= k < s.len() ==> !p(s[k]),
    ensures
        s.filter(p) == Seq::<T>::empty(),
    decreases s.len(),
{
    reveal(Seq::filter);
    if s.len() > 0 {
        let front = s.drop_last();
        assert forall|k: int| #![trigger front[k]] 0 <= k < front.len() implies !p(front[k]) by {
            assert(front[k] == s[k]);
        }
        lemma_filter_none(front, p);
        assert(s[s.len() - 1] == s.last());
    }
}

proof fn lemma_filter_first<T>(x: T, rest: Seq<T>, p: spec_fn(T) -> bool)
    ensures
        (seq![x] + rest).filter(p) == (if p(x) {
            seq![x]
        } else {
            Seq::empty()
        }) + rest.filter(p),
{
    Seq::filter_distributes_over_add(seq![x], rest, p);
    reveal(Seq::filter);
    assert(seq![x].drop_last() =~= Seq::<T>::empty());
    assert(seq![x].drop_last().filter(p) =~= Seq::<T>::empty());
    assert(seq![x].last() == x);
    assert(seq![x].filter(p) =~= if p(x) {
        seq![x]
    } else {
        Seq::empty()
    });
}

/// Things of the same rank stay in the order in which they came.
pub proof fn equals_stay_in_their_order<T: Ranked>(s: Seq<T>, x: T)
    ensures
        in_rank(s).filter(same_rank(x)) == s.filter(same_rank(x)),
    decreases s.len(),
{
    let p = same_rank(x);
    if s.len() > 0 {
        let first = s[0];
        let rest = s.drop_first();
        equals_stay_in_their_order(rest, x);
        let done = in_rank(rest);
        lemma_place(done, first, 0);
        lemma_place_skips(done, first, 0);
        let at = place(done, first, 0);
        let a = done.take(at);
        let b = done.skip(at);
        assert(done =~= a + b);
        assert(done.insert(at, first) =~= a + (seq![first] + b));
        assert(s =~= seq![first] + rest);
        lemma_filter_first(first, rest, p);
        Seq::filter_distributes_over_add(a, b, p);
        Seq::filter_distributes_over_add(a, seq![first] + b, p);
        lemma_filter_first(first, b, p);
        if p(first) {
            assert forall|k: int| #![trigger a[k]] 0 <= k < a.len() implies !p(a[k]) by {
                assert(a[k] == done[k]);
                if p(a[k]) {
                    T::rank_transitive(&first, &x, &a[k]);
                }
            }
            lemma_filter_none(a, p);
            assert(Seq::<T>::empty() + b.filter(p) =~= b.filter(p));
            assert(Seq::<T>::empty() + (seq![first] + b.filter(p)) =~= seq![first] + b.filter(p));
        } else {
            assert(Seq::<T>::empty() + b.filter(p) =~= b.filter(p));
            assert(Seq::<T>::empty() + rest.filter(p) =~= rest.filter(p));
        }
    }
}

} // verus!
