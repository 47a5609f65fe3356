//! The most referenced files.

use crate::model::{
    in_scope, node_in_scope, owner_name, repo_name_of, served_file_kind, served_kind, Backlink,
    Inbound, KnowledgeBase, Scope,
};
use crate::paging::{page, page_of, pages_join};
use crate::sorting::{lemma_map_multiset, lemma_same_items, lemma_sorted_unique, sort, sorted, Ranked};
use crate::text::{
    is_at_most, lemma_text_le_total, lemma_text_le_transitive, opt_view, text_le,
};
use vstd::prelude::*;

verus! {

/// A referenced file with its inbound references: those that fill a typed slot,
/// those in prose, and all.
#[derive(Debug)]
pub struct Hub {
    pub path: String,
    pub repo: Option<String>,
    pub kind: &'static str,
    pub refs_structural: usize,
    pub refs_navigational: usize,
    pub refs_total: usize,
}

/// The contents of a [`Hub`].
pub struct HubRow {
    pub path: Seq<char>,
    pub repo: Option<Seq<char>>,
    pub kind: Seq<char>,
    pub refs_structural: nat,
    pub refs_navigational: nat,
    pub refs_total: nat,
}

impl View for Hub {
    type V = HubRow;

    open spec fn view(&self) -> HubRow {
        HubRow {
            path: self.path@,
            repo: opt_view(self.repo),
            kind: self.kind@,
            refs_structural: self.refs_structural as nat,
            refs_navigational: self.refs_navigational as nat,
            refs_total: self.refs_total as nat,
        }
    }
}

impl Ranked for Hub {
    /// More structural references first, then more references, then the path.
    open spec fn rank_le(&self, other: &Self) -> bool {
        ||| self.refs_structural > other.refs_structural
        ||| self.refs_structural == other.refs_structural && self.refs_total > other.refs_total
        ||| self.refs_structural == other.refs_structural && self.refs_total == other.refs_total
            && text_le(self.path@, other.path@)
    }

    fn at_most(&self, other: &Self) -> (r: bool) {
        if self.refs_structural != other.refs_structural {
            self.refs_structural > other.refs_structural
        } else if self.refs_total != other.refs_total {
            self.refs_total > other.refs_total
        } else {
            is_at_most(self.path.as_str(), other.path.as_str())
        }
    }

    proof fn rank_total(a: &Self, b: &Self) {
        lemma_text_le_total(a.path@, b.path@);
    }

    proof fn rank_transitive(a: &Self, b: &Self, c: &Self) {
        if text_le(a.path@, b.path@) && text_le(b.path@, c.path@) {
            lemma_text_le_transitive(a.path@, b.path@, c.path@);
        }
    }
}

/// How many of the references fill a typed slot.
pub open spec fn slot_count(edges: Seq<Backlink>) -> nat
    decreases edges.len(),
{
    if edges.len() == 0 {
        0
    } else {
        slot_count(edges.drop_last()) + if edges.last().slot is Some {
            1nat
        } else {
            0
        }
    }
}

fn count_slots(edges: &Vec<Backlink>) -> (r: usize)
    ensures
        r == slot_count(edges@),
        r <= edges@.len(),
{
    let mut c: usize = 0;
    for i in 0..edges.len()
        invariant
            c == slot_count(edges@.take(i as int)),
            c <= i,
    {
        assert(edges@.take(i + 1).drop_last() =~= edges@.take(i as int));
        if edges[i].slot.is_some() {
            c += 1;
        }
    }
    assert(edges@.take(edges@.len() as int) =~= edges@);
    c
}

/// The row of a referenced file.
pub open spec fn hub_row(kb: KnowledgeBase, inbound: Inbound) -> HubRow {
    HubRow {
        path: inbound.target@,
        repo: owner_name(kb.repos@, inbound.target@),
        kind: served_kind(kb.catalog@, inbound.target@),
        refs_structural: slot_count(inbound.edges@),
        refs_navigational: (inbound.edges@.len() - slot_count(inbound.edges@)) as nat,
        refs_total: inbound.edges@.len(),
    }
}

/// The rows of the first `n` referenced files that are in scope.
pub open spec fn hub_rows(
    kb: KnowledgeBase,
    repo: Option<Seq<char>>,
    scope: Scope,
    n: int,
) -> Seq<HubRow>
    decreases n,
{
    if n <= 0 {
        Seq::empty()
    } else {
        let before = hub_rows(kb, repo, scope, n - 1);
        if in_scope(kb.repos@, repo, scope, kb.backlinks@[n - 1].target@) {
            before.push(hub_row(kb, kb.backlinks@[n - 1]))
        } else {
            before
        }
    }
}

pub open spec fn hub_views(v: Seq<Hub>) -> Seq<HubRow> {
    v.map_values(|h: Hub| h@)
}

/// Whether `all` ranks every referenced file in scope.
pub open spec fn is_ranking(
    all: Seq<Hub>,
    kb: KnowledgeBase,
    repo: Option<Seq<char>>,
    scope: Scope,
) -> bool {
    &&& sorted(all)
    &&& hub_views(all).to_multiset() == hub_rows(
        kb,
        repo,
        scope,
        kb.backlinks@.len() as int,
    ).to_multiset()
}

/// Whether these are a page of the ranking.
pub open spec fn is_hub_page(
    v: Seq<Hub>,
    kb: KnowledgeBase,
    repo: Option<Seq<char>>,
    scope: Scope,
    limit: nat,
    offset: nat,
) -> bool {
    exists|all: Seq<Hub>| #[trigger]
        is_ranking(all, kb, repo, scope) && v == page_of(all, offset, Some(limit))
}

/// The most referenced files in scope: a page of the ranking by structural
/// references, then by all references, then by path. The scope applies before
/// the page is cut.
pub fn hub_ranking(
    kb: &KnowledgeBase,
    repo: &Option<String>,
    scope: Scope,
    limit: usize,
    offset: usize,
) -> (r: Vec<Hub>)
    ensures
        is_hub_page(r@, *kb, opt_view(*repo), scope, limit as nat, offset as nat),
{
    let mut hubs: Vec<Hub> = Vec::new();
    let ghost rv = opt_view(*repo);
    assert(hub_views(hubs@) =~= Seq::empty());
    for i in 0..kb.backlinks.len()
        invariant
            rv == opt_view(*repo),
            hub_views(hubs@) == hub_rows(*kb, rv, scope, i as int),
    {
        let inbound = &kb.backlinks[i];
        let target = inbound.target.as_str();
        if node_in_scope(&kb.repos, repo, scope, target) {
            let refs_structural: usize = count_slots(&inbound.edges);
            let refs_total: usize = inbound.edges.len();
            let ghost before = hubs@;
            let hub = Hub {
                path: inbound.target.clone(),
                repo: repo_name_of(&kb.repos, target),
                kind: served_file_kind(&kb.catalog, target),
                refs_structural,
                refs_navigational: refs_total - refs_structural,
                refs_total,
            };
            hubs.push(hub);
            assert(hub@ == hub_row(*kb, *inbound));
            assert(hub_views(hubs@) =~= hub_views(before).push(hub@));
        }
    }
    let ranked = sort(hubs);
    proof {
        lemma_map_multiset(ranked@, hubs@, |h: Hub| h@);
        assert(is_ranking(ranked@, *kb, rv, scope));
    }
    let r = page(ranked, offset, Some(limit));
    assert(is_ranking(ranked@, *kb, rv, scope) && r@ == page_of(
        ranked@,
        offset as nat,
        Some(limit as nat),
    ));
    r
}

proof fn lemma_row_origin(
    kb: KnowledgeBase,
    repo: Option<Seq<char>>,
    scope: Scope,
    n: int,
    row: HubRow,
) -> (i: int)
    requires
        0 <= n <= kb.backlinks@.len(),
        hub_rows(kb, repo, scope, n).contains(row),
    ensures
        0 <= i < n,
        row == hub_row(kb, kb.backlinks@[i]),
        in_scope(kb.repos@, repo, scope, row.path),
    decreases n,
{
    let rows = hub_rows(kb, repo, scope, n);
    let k = choose|k: int| 0 <= k < rows.len() && rows[k] == row;
    let before = hub_rows(kb, repo, scope, n - 1);
    if k < before.len() {
        assert(before[k] == row);
        lemma_row_origin(kb, repo, scope, n - 1, row)
    } else {
        n - 1
    }
}

/// Where a hub of a ranking comes from.
proof fn lemma_hub_origin(
    all: Seq<Hub>,
    kb: KnowledgeBase,
    repo: Option<Seq<char>>,
    scope: Scope,
    k: int,
) -> (i: int)
    requires
        is_ranking(all, kb, repo, scope),
        0 <= k < all.len(),
    ensures
        0 <= i < kb.backlinks@.len(),
        all[k]@ == hub_row(kb, kb.backlinks@[i]),
        in_scope(kb.repos@, repo, scope, all[k].path@),
{
    let n = kb.backlinks@.len() as int;
    let rows = hub_rows(kb, repo, scope, n);
    let views = hub_views(all);
    assert(views[k] == all[k]@);
    assert(views.contains(all[k]@));
    lemma_same_items(views, rows, all[k]@);
    lemma_row_origin(kb, repo, scope, n, all[k]@)
}

/// A knowledge base has one ranking at a scope.
proof fn lemma_one_ranking(
    a: Seq<Hub>,
    b: Seq<Hub>,
    kb: KnowledgeBase,
    repo: Option<Seq<char>>,
    scope: Scope,
)
    requires
        kb.wf(),
        is_ranking(a, kb, repo, scope),
        is_ranking(b, kb, repo, scope),
    ensures
        hub_views(a) == hub_views(b),
{
    let f = |h: Hub| h@;
    assert forall|i: int, j: int|
        #![trigger a[i], b[j]]
        0 <= i < a.len() && 0 <= j < b.len() && a[i].rank_le(&b[j]) && b[j].rank_le(
            &a[i],
        ) implies f(a[i]) == f(b[j]) by {
        crate::text::lemma_text_le_antisymmetric(a[i].path@, b[j].path@);
        let p = lemma_hub_origin(a, kb, repo, scope, i);
        let q = lemma_hub_origin(b, kb, repo, scope, j);
        assert(kb.backlinks@[p].target@ == kb.backlinks@[q].target@);
        assert(p == q);
    }
    assert forall|x: Hub, y: Hub, z: Hub|
        #![trigger x.rank_le(&z), y.rank_le(&z)]
        f(x) == f(y) implies x.rank_le(&z) == y.rank_le(&z) by {
        assert(x@ == y@);
    }
    lemma_sorted_unique(a, b, f);
}

/// Two pages of the hubs, one behind the other, are the page of both; a page is no
/// longer than asked, and holds files in scope, each with the sum of its references.
pub proof fn hub_pages_join(
    kb: KnowledgeBase,
    repo: Option<Seq<char>>,
    scope: Scope,
    m: nat,
    n: nat,
    offset: nat,
    first: Seq<Hub>,
    second: Seq<Hub>,
    both: Seq<Hub>,
)
    requires
        kb.wf(),
        is_hub_page(first, kb, repo, scope, m, offset),
        is_hub_page(second, kb, repo, scope, n, offset + m),
        is_hub_page(both, kb, repo, scope, m + n, offset),
    ensures
        hub_views(first) + hub_views(second) == hub_views(both),
        first.len() <= m,
        sorted(both),
        forall|k: int|
            #![trigger both[k]]
            0 <= k < both.len() ==> {
                &&& both[k].refs_total == both[k].refs_structural + both[k].refs_navigational
                &&& in_scope(kb.repos@, repo, scope, both[k].path@)
            },
{
    let a = choose|all: Seq<Hub>| #[trigger]
        is_ranking(all, kb, repo, scope) && first == page_of(all, offset, Some(m));
    let b = choose|all: Seq<Hub>| #[trigger]
        is_ranking(all, kb, repo, scope) && second == page_of(all, offset + m, Some(n));
    let c = choose|all: Seq<Hub>| #[trigger]
        is_ranking(all, kb, repo, scope) && both == page_of(all, offset, Some(m + n));
    lemma_one_ranking(a, c, kb, repo, scope);
    lemma_one_ranking(b, c, kb, repo, scope);
    let rows = hub_views(c);
    assert(hub_views(a).len() == a.len() && hub_views(b).len() == b.len() && rows.len() == c.len());
    assert(hub_views(first) =~= page_of(hub_views(a), offset, Some(m)));
    assert(hub_views(second) =~= page_of(hub_views(b), offset + m, Some(n)));
    assert(hub_views(both) =~= page_of(rows, offset, Some(m + n)));
    pages_join(rows, offset, m, n);
    assert forall|k: int| #![trigger both[k]] 0 <= k < both.len() implies {
        &&& both[k].refs_total == both[k].refs_structural + both[k].refs_navigational
        &&& in_scope(kb.repos@, repo, scope, both[k].path@)
    } by {
        assert(both[k] == c[offset + k]);
        let i = lemma_hub_origin(c, kb, repo, scope, offset + k);
        lemma_slots_bounded(kb.backlinks@[i].edges@);
        assert(c[offset + k]@.refs_total == c[offset + k].refs_total);
    }
}

proof fn lemma_slots_bounded(edges: Seq<Backlink>)
    ensures
        slot_count(edges) <= edges.len(),
    decreases edges.len(),
{
    if edges.len() > 0 {
        lemma_slots_bounded(edges.drop_last());
    }
}

} // verus!
