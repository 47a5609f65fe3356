//! The type graph: every relation between types is an edge, from the file that holds the
//! mention to the file of the type that it means.

use crate::ast::{FileParse, TypeClaim};
use crate::graph::nodes::{chosen, lemma_chosen};
use crate::graph::types::{
    all_mentions, among, claim_edges, claim_mentions, claims_edges, def_edges, def_from, defs_edges,
    field_mentions, folds, has_edge, mention_edge, mention_edges, meta_mentions, resolved_type,
    times, type_nodes, type_source, EdgeClasses, TypeGraphEdgeView,
};
use crate::model::{in_scope, owner_name, DefSource, FileKind, KnowledgeBase, RepoTypes, Scope};
use crate::tally::Keyed;
use crate::text::opt_view;
use vstd::prelude::*;

verus! {

/// Whether the catalogued file at `i` is a type-def in scope.
pub open spec fn is_type_at(kb: KnowledgeBase, repo: Option<Seq<char>>, scope: Scope, i: int) -> bool {
    0 <= i < kb.catalog@.len() && kb.catalog@[i].kind == FileKind::TypeDef && in_scope(
        kb.repos@,
        repo,
        scope,
        kb.catalog@[i].path@,
    )
}

/// Whether the file `to` is that of a type-def in scope.
pub open spec fn is_type_path(
    kb: KnowledgeBase,
    repo: Option<Seq<char>>,
    scope: Scope,
    to: Seq<char>,
) -> bool {
    exists|i: int| #[trigger] is_type_at(kb, repo, scope, i) && kb.catalog@[i].path@ == to
}

/// Whether the type-def at `i` mentions a type by this name in the way of `relation`.
pub open spec fn def_mentions(
    kb: KnowledgeBase,
    i: int,
    relation: Seq<char>,
    name: Seq<char>,
    qualifier: Option<Seq<char>>,
) -> bool {
    kb.catalog@[i].parse matches FileParse::TypeDef(Some(def)) && {
        ||| relation == "subtype"@ && exists|k: int|
            0 <= k < def.parents@.len() && (#[trigger] def.parents@[k]).name@ == name && opt_view(
                def.parents@[k].repo,
            ) == qualifier
        ||| relation == "field-type"@ && exists|k: int|
            0 <= k < kb.catalog@[i].field_refs@.len() && (#[trigger] kb.catalog@[i].field_refs@[k]).name@
                == name && opt_view(kb.catalog@[i].field_refs@[k].repo) == qualifier
        ||| relation == "meta"@ && (def.meta_blocks matches Some(blocks) && exists|k: int|
            0 <= k < blocks@.len() && (#[trigger] blocks@[k]).claim.name@ == name && opt_view(
                blocks@[k].claim.repo,
            ) == qualifier)
    }
}

/// Whether the instance at `i` claims a type by this name.
pub open spec fn instance_claims(
    kb: KnowledgeBase,
    i: int,
    name: Seq<char>,
    qualifier: Option<Seq<char>>,
) -> bool {
    kb.catalog@[i].kind == FileKind::Instance && (kb.catalog@[i].parse matches FileParse::Instance(
        Some(inst),
    ) && match inst.type_claim {
        TypeClaim::Bare(c) => c.name@ == name && opt_view(c.repo) == qualifier,
        TypeClaim::List(items) => exists|k: int|
            0 <= k < items@.len() && (#[trigger] items@[k]).name@ == name && opt_view(items@[k].repo)
                == qualifier,
    })
}

/// Whether the relation is asked for.
pub open spec fn asked(classes: EdgeClasses, relation: Seq<char>) -> bool {
    ||| relation == "subtype"@ && classes.subtype
    ||| relation == "field-type"@ && classes.field_type
    ||| relation == "meta"@ && classes.meta
}

proof fn lemma_distinct_relations()
    ensures
        "subtype"@ != "field-type"@,
        "subtype"@ != "meta"@,
        "subtype"@ != "instance-of"@,
        "field-type"@ != "meta"@,
        "field-type"@ != "instance-of"@,
        "meta"@ != "instance-of"@,
{
    reveal_strlit("subtype");
    reveal_strlit("field-type");
    reveal_strlit("meta");
    reveal_strlit("instance-of");
    assert("subtype"@.len() == 7);
    assert("field-type"@.len() == 10);
    assert("meta"@.len() == 4);
    assert("instance-of"@.len() == 11);
}

proof fn lemma_type_nodes(kb: KnowledgeBase, repo: Option<Seq<char>>, scope: Scope, i: int)
    ensures
        is_type_at(kb, repo, scope, i) == type_nodes(kb, repo, scope).contains(i),
{
    let n = kb.catalog@.len() as int;
    let p = |i: int|
        kb.catalog@[i].kind == FileKind::TypeDef && in_scope(
            kb.repos@,
            repo,
            scope,
            kb.catalog@[i].path@,
        );
    lemma_chosen(p, n);
    if is_type_at(kb, repo, scope, i) {
        assert(p(i));
    }
    if chosen(p, n).contains(i) {
        let k = choose|k: int| 0 <= k < chosen(p, n).len() && chosen(p, n)[k] == i;
        assert(p(chosen(p, n)[k]));
    }
}

proof fn lemma_among(kb: KnowledgeBase, repo: Option<Seq<char>>, scope: Scope, to: Seq<char>)
    ensures
        among(kb, type_nodes(kb, repo, scope), to) == is_type_path(kb, repo, scope, to),
{
    let nodes = type_nodes(kb, repo, scope);
    if among(kb, nodes, to) {
        let k = choose|k: int| 0 <= k < nodes.len() && kb.catalog@[#[trigger] nodes[k]].path@ == to;
        lemma_type_nodes(kb, repo, scope, nodes[k]);
        assert(nodes.contains(nodes[k]));
        assert(is_type_at(kb, repo, scope, nodes[k]));
    }
    if is_type_path(kb, repo, scope, to) {
        let i = choose|i: int| #[trigger]
            is_type_at(kb, repo, scope, i) && kb.catalog@[i].path@ == to;
        lemma_type_nodes(kb, repo, scope, i);
        let k = choose|k: int| 0 <= k < nodes.len() && nodes[k] == i;
        assert(kb.catalog@[nodes[k]].path@ == to);
    }
}

proof fn lemma_in_concat<A>(a: Seq<A>, b: Seq<A>, x: A)
    ensures
        (a + b).contains(x) == (a.contains(x) || b.contains(x)),
{
    if a.contains(x) {
        let k = choose|k: int| 0 <= k < a.len() && a[k] == x;
        assert((a + b)[k] == x);
    }
    if b.contains(x) {
        let k = choose|k: int| 0 <= k < b.len() && b[k] == x;
        assert((a + b)[a.len() + k] == x);
    }
    if (a + b).contains(x) {
        let k = choose|k: int| 0 <= k < (a + b).len() && (a + b)[k] == x;
        if k < a.len() {
            assert(a[k] == x);
        } else {
            assert(b[k - a.len()] == x);
        }
    }
}

/// The edges of a list of mentions are those of its mentions that mean a type in scope.
proof fn lemma_mention_edges(
    kb: KnowledgeBase,
    types: Seq<int>,
    path: Seq<char>,
    all: Seq<(Seq<char>, Option<Seq<char>>)>,
    relation: Seq<char>,
    e: Seq<Seq<char>>,
)
    ensures
        mention_edges(kb, types, path, all, relation).contains(e) == exists|k: int, to: Seq<char>|
            #![trigger all[k], among(kb, types, to)]
            0 <= k < all.len() && among(kb, types, to) && resolved_type(
                kb,
                owner_name(kb.repos@, path),
                all[k].0,
                all[k].1,
            ) == Some(to) && e == seq![path, to, relation],
    decreases all.len(),
{
    if all.len() > 0 {
        let front = all.drop_last();
        let last = all.last();
        let here = mention_edge(kb, types, path, last.0, last.1, relation);
        lemma_mention_edges(kb, types, path, front, relation, e);
        lemma_in_concat(mention_edges(kb, types, path, front, relation), here, e);
        if mention_edges(kb, types, path, all, relation).contains(e) {
            if mention_edges(kb, types, path, front, relation).contains(e) {
                let (k, to) = choose|k: int, to: Seq<char>|
                    #![trigger front[k], among(kb, types, to)]
                    0 <= k < front.len() && among(kb, types, to) && resolved_type(
                        kb,
                        owner_name(kb.repos@, path),
                        front[k].0,
                        front[k].1,
                    ) == Some(to) && e == seq![path, to, relation];
                assert(all[k] == front[k] && among(kb, types, to));
            } else {
                let k = choose|k: int| 0 <= k < here.len() && here[k] == e;
                let to = resolved_type(kb, owner_name(kb.repos@, path), last.0, last.1)->0;
                assert(k == 0);
                assert(all[all.len() - 1] == last && among(kb, types, to));
            }
        }
        if exists|k: int, to: Seq<char>|
            #![trigger all[k], among(kb, types, to)]
            0 <= k < all.len() && among(kb, types, to) && resolved_type(
                kb,
                owner_name(kb.repos@, path),
                all[k].0,
                all[k].1,
            ) == Some(to) && e == seq![path, to, relation] {
            let (k, to) = choose|k: int, to: Seq<char>|
                #![trigger all[k], among(kb, types, to)]
                0 <= k < all.len() && among(kb, types, to) && resolved_type(
                    kb,
                    owner_name(kb.repos@, path),
                    all[k].0,
                    all[k].1,
                ) == Some(to) && e == seq![path, to, relation];
            if k < front.len() {
                assert(front[k] == all[k]);
            } else {
                assert(here[0] == e);
            }
        }
    }
}

proof fn lemma_defs_hold(
    kb: KnowledgeBase,
    types: Seq<int>,
    n: int,
    classes: EdgeClasses,
    e: Seq<Seq<char>>,
)
    requires
        0 <= n <= types.len(),
    ensures
        defs_edges(kb, types, n, classes).contains(e) == exists|k: int|
            0 <= k < n && #[trigger] def_edges(kb, types, types[k], classes).contains(e),
    decreases n,
{
    if n > 0 {
        lemma_defs_hold(kb, types, n - 1, classes, e);
        lemma_in_concat(
            defs_edges(kb, types, n - 1, classes),
            def_edges(kb, types, types[n - 1], classes),
            e,
        );
    }
}

proof fn lemma_claims_hold(
    kb: KnowledgeBase,
    types: Seq<int>,
    repo: Option<Seq<char>>,
    scope: Scope,
    n: int,
    e: Seq<Seq<char>>,
)
    ensures
        claims_edges(kb, types, repo, scope, n).contains(e) == exists|k: int|
            0 <= k < n && #[trigger] claim_edges(kb, types, repo, scope, k).contains(e),
    decreases n,
{
    if n > 0 {
        lemma_claims_hold(kb, types, repo, scope, n - 1, e);
        lemma_in_concat(
            claims_edges(kb, types, repo, scope, n - 1),
            claim_edges(kb, types, repo, scope, n - 1),
            e,
        );
    }
}

/// The edges of a type-def are its mentions in the ways that are asked for.
proof fn lemma_def_edges(
    kb: KnowledgeBase,
    types: Seq<int>,
    i: int,
    classes: EdgeClasses,
    relation: Seq<char>,
    to: Seq<char>,
)
    ensures
        def_edges(kb, types, i, classes).contains(seq![kb.catalog@[i].path@, to, relation]) == (asked(
            classes,
            relation,
        ) && among(kb, types, to) && exists|name: Seq<char>, qualifier: Option<Seq<char>>| #[trigger]
            def_mentions(kb, i, relation, name, qualifier) && resolved_type(
                kb,
                owner_name(kb.repos@, kb.catalog@[i].path@),
                name,
                qualifier,
            ) == Some(to)),
{
    lemma_distinct_relations();
    let entry = kb.catalog@[i];
    let path = entry.path@;
    let e = seq![path, to, relation];
    let from = owner_name(kb.repos@, path);
    match entry.parse {
        FileParse::TypeDef(Some(def)) => {
            let pm = claim_mentions(def.parents@);
            let fm = field_mentions(entry.field_refs@);
            let a = if classes.subtype {
                mention_edges(kb, types, path, pm, "subtype"@)
            } else {
                Seq::empty()
            };
            let b = if classes.field_type {
                mention_edges(kb, types, path, fm, "field-type"@)
            } else {
                Seq::empty()
            };
            let has_meta = classes.meta && def.meta_blocks is Some;
            let mm = meta_mentions(def.meta_blocks->0@);
            let c = if has_meta {
                mention_edges(kb, types, path, mm, "meta"@)
            } else {
                Seq::empty()
            };
            lemma_in_concat(a + b, c, e);
            lemma_in_concat(a, b, e);
            lemma_mention_edges(kb, types, path, pm, "subtype"@, e);
            lemma_mention_edges(kb, types, path, fm, "field-type"@, e);
            lemma_mention_edges(kb, types, path, mm, "meta"@, e);
            assert(e[0] == path && e[1] == to && e[2] == relation);
            if a.contains(e) {
                let (k, t) = choose|k: int, t: Seq<char>|
                    #![trigger pm[k], among(kb, types, t)]
                    0 <= k < pm.len() && among(kb, types, t) && resolved_type(
                        kb,
                        from,
                        pm[k].0,
                        pm[k].1,
                    ) == Some(t) && e == seq![path, t, "subtype"@];
                assert(seq![path, t, "subtype"@][1] == t && seq![path, t, "subtype"@][2]
                    == "subtype"@);
                assert(def.parents@[k].name@ == pm[k].0);
                assert(def_mentions(kb, i, relation, pm[k].0, pm[k].1));
            }
            if b.contains(e) {
                let (k, t) = choose|k: int, t: Seq<char>|
                    #![trigger fm[k], among(kb, types, t)]
                    0 <= k < fm.len() && among(kb, types, t) && resolved_type(
                        kb,
                        from,
                        fm[k].0,
                        fm[k].1,
                    ) == Some(t) && e == seq![path, t, "field-type"@];
                assert(seq![path, t, "field-type"@][1] == t && seq![path, t, "field-type"@][2]
                    == "field-type"@);
                assert(entry.field_refs@[k].name@ == fm[k].0);
                assert(def_mentions(kb, i, relation, fm[k].0, fm[k].1));
            }
            if c.contains(e) {
                let (k, t) = choose|k: int, t: Seq<char>|
                    #![trigger mm[k], among(kb, types, t)]
                    0 <= k < mm.len() && among(kb, types, t) && resolved_type(
                        kb,
                        from,
                        mm[k].0,
                        mm[k].1,
                    ) == Some(t) && e == seq![path, t, "meta"@];
                assert(seq![path, t, "meta"@][1] == t && seq![path, t, "meta"@][2] == "meta"@);
                assert(def.meta_blocks->0@[k].claim.name@ == mm[k].0);
                assert(def_mentions(kb, i, relation, mm[k].0, mm[k].1));
            }
            if asked(classes, relation) && among(kb, types, to) && exists|
                name: Seq<char>,
                qualifier: Option<Seq<char>>,
            | #[trigger]
                def_mentions(kb, i, relation, name, qualifier) && resolved_type(
                    kb,
                    from,
                    name,
                    qualifier,
                ) == Some(to) {
                let (name, qualifier) = choose|name: Seq<char>, qualifier: Option<Seq<char>>| #[trigger]
                    def_mentions(kb, i, relation, name, qualifier) && resolved_type(
                        kb,
                        from,
                        name,
                        qualifier,
                    ) == Some(to);
                if relation == "subtype"@ {
                    let k = choose|k: int|
                        0 <= k < def.parents@.len() && (#[trigger] def.parents@[k]).name@ == name
                            && opt_view(def.parents@[k].repo) == qualifier;
                    assert(pm[k] == (name, qualifier) && among(kb, types, to));
                    assert(a.contains(e));
                } else if relation == "field-type"@ {
                    let k = choose|k: int|
                        0 <= k < entry.field_refs@.len() && (#[trigger] entry.field_refs@[k]).name@
                            == name && opt_view(entry.field_refs@[k].repo) == qualifier;
                    assert(fm[k] == (name, qualifier) && among(kb, types, to));
                    assert(b.contains(e));
                } else {
                    let blocks = def.meta_blocks->0;
                    let k = choose|k: int|
                        0 <= k < blocks@.len() && (#[trigger] blocks@[k]).claim.name@ == name
                            && opt_view(blocks@[k].claim.repo) == qualifier;
                    assert(mm[k] == (name, qualifier) && among(kb, types, to));
                    assert(c.contains(e));
                }
            }
        },
        _ => {},
    }
}

/// A type-def in scope that mentions a type in scope, in a way that is asked for, has an
/// edge from its own file to the file of that type. A parent is told as the target of its
/// child's `subtype` edge.
pub proof fn every_relation_between_types_is_an_edge(
    kb: KnowledgeBase,
    repo: Option<Seq<char>>,
    scope: Scope,
    classes: EdgeClasses,
    edges: Seq<TypeGraphEdgeView>,
    i: int,
    relation: Seq<char>,
    name: Seq<char>,
    qualifier: Option<Seq<char>>,
    to: Seq<char>,
)
    requires
        folds(edges, all_mentions(kb, repo, scope, classes)),
        is_type_at(kb, repo, scope, i),
        asked(classes, relation),
        def_mentions(kb, i, relation, name, qualifier),
        resolved_type(kb, owner_name(kb.repos@, kb.catalog@[i].path@), name, qualifier) == Some(to),
        is_type_path(kb, repo, scope, to),
    ensures
        exists|k: int|
            0 <= k < edges.len() && (#[trigger] edges[k]).from@ == kb.catalog@[i].path@
                && edges[k].to@ == to && edges[k].relation@ == relation,
{
    let types = type_nodes(kb, repo, scope);
    let e = seq![kb.catalog@[i].path@, to, relation];
    let all = all_mentions(kb, repo, scope, classes);
    lemma_among(kb, repo, scope, to);
    lemma_type_nodes(kb, repo, scope, i);
    lemma_def_edges(kb, types, i, classes, relation, to);
    assert(def_edges(kb, types, i, classes).contains(e));
    let k = choose|k: int| 0 <= k < types.len() && types[k] == i;
    assert(def_edges(kb, types, types[k], classes).contains(e));
    lemma_defs_hold(kb, types, types.len() as int, classes, e);
    lemma_in_concat(
        defs_edges(kb, types, types.len() as int, classes),
        if classes.instance_of {
            claims_edges(kb, types, repo, scope, kb.catalog@.len() as int)
        } else {
            Seq::empty()
        },
        e,
    );
    lemma_edge_listed(edges, all, e);
}

/// An edge that a mention gives is listed.
proof fn lemma_edge_listed(
    edges: Seq<TypeGraphEdgeView>,
    all: Seq<Seq<Seq<char>>>,
    e: Seq<Seq<char>>,
)
    requires
        folds(edges, all),
        all.contains(e),
        e.len() == 3,
    ensures
        exists|k: int|
            0 <= k < edges.len() && (#[trigger] edges[k]).from@ == e[0] && edges[k].to@ == e[1]
                && edges[k].relation@ == e[2],
{
    let j = choose|j: int| 0 <= j < all.len() && all[j] == e;
    assert(has_edge(edges, all[j]));
    let k = choose|k: int| #![trigger edges[k]] 0 <= k < edges.len() && edges[k].key() == e;
    assert(edges[k].key()[0] == edges[k].from@);
    assert(edges[k].key()[1] == edges[k].to@);
    assert(edges[k].key()[2] == edges[k].relation@);
}

proof fn lemma_claim_edges(
    kb: KnowledgeBase,
    types: Seq<int>,
    repo: Option<Seq<char>>,
    scope: Scope,
    i: int,
    e: Seq<Seq<char>>,
)
    ensures
        claim_edges(kb, types, repo, scope, i).contains(e) == (in_scope(
            kb.repos@,
            repo,
            scope,
            kb.catalog@[i].path@,
        ) && exists|name: Seq<char>, qualifier: Option<Seq<char>>, to: Seq<char>|
            #![trigger instance_claims(kb, i, name, qualifier), among(kb, types, to)]
            instance_claims(kb, i, name, qualifier) && among(kb, types, to) && resolved_type(
                kb,
                owner_name(kb.repos@, kb.catalog@[i].path@),
                name,
                qualifier,
            ) == Some(to) && e == seq![kb.catalog@[i].path@, to, "instance-of"@]),
{
    let entry = kb.catalog@[i];
    let path = entry.path@;
    let from = owner_name(kb.repos@, path);
    match entry.parse {
        FileParse::Instance(Some(inst)) => {
            let items = crate::ast::claim_items(inst.type_claim);
            let all = claim_mentions(items);
            lemma_mention_edges(kb, types, path, all, "instance-of"@, e);
            if claim_edges(kb, types, repo, scope, i).contains(e) {
                let (k, to) = choose|k: int, to: Seq<char>|
                    #![trigger all[k], among(kb, types, to)]
                    0 <= k < all.len() && among(kb, types, to) && resolved_type(
                        kb,
                        from,
                        all[k].0,
                        all[k].1,
                    ) == Some(to) && e == seq![path, to, "instance-of"@];
                match inst.type_claim {
                    TypeClaim::Bare(c) => {
                        assert(items[k] == c);
                    },
                    TypeClaim::List(list) => {
                        assert(list@[k].name@ == all[k].0);
                    },
                }
                assert(instance_claims(kb, i, all[k].0, all[k].1) && among(kb, types, to));
            }
            if in_scope(kb.repos@, repo, scope, path) && exists|
                name: Seq<char>,
                qualifier: Option<Seq<char>>,
                to: Seq<char>,
            |
                #![trigger instance_claims(kb, i, name, qualifier), among(kb, types, to)]
                instance_claims(kb, i, name, qualifier) && among(kb, types, to) && resolved_type(
                    kb,
                    from,
                    name,
                    qualifier,
                ) == Some(to) && e == seq![path, to, "instance-of"@] {
                let (name, qualifier, to) = choose|
                    name: Seq<char>,
                    qualifier: Option<Seq<char>>,
                    to: Seq<char>,
                |
                    #![trigger instance_claims(kb, i, name, qualifier), among(kb, types, to)]
                    instance_claims(kb, i, name, qualifier) && among(kb, types, to) && resolved_type(
                        kb,
                        from,
                        name,
                        qualifier,
                    ) == Some(to) && e == seq![path, to, "instance-of"@];
                match inst.type_claim {
                    TypeClaim::Bare(c) => {
                        assert(items[0] == c);
                        assert(all[0] == (name, qualifier) && among(kb, types, to));
                    },
                    TypeClaim::List(list) => {
                        let k = choose|k: int|
                            0 <= k < list@.len() && (#[trigger] list@[k]).name@ == name && opt_view(
                                list@[k].repo,
                            ) == qualifier;
                        assert(all[k] == (name, qualifier) && among(kb, types, to));
                    },
                }
            }
        },
        _ => {},
    }
}

/// With the instances asked for, an instance in scope has an edge from its file to the
/// file of each type in scope that it claims.
pub proof fn every_claim_is_an_edge(
    kb: KnowledgeBase,
    repo: Option<Seq<char>>,
    scope: Scope,
    classes: EdgeClasses,
    edges: Seq<TypeGraphEdgeView>,
    i: int,
    name: Seq<char>,
    qualifier: Option<Seq<char>>,
    to: Seq<char>,
)
    requires
        folds(edges, all_mentions(kb, repo, scope, classes)),
        classes.instance_of,
        0 <= i < kb.catalog@.len(),
        in_scope(kb.repos@, repo, scope, kb.catalog@[i].path@),
        instance_claims(kb, i, name, qualifier),
        resolved_type(kb, owner_name(kb.repos@, kb.catalog@[i].path@), name, qualifier) == Some(to),
        is_type_path(kb, repo, scope, to),
    ensures
        exists|k: int|
            0 <= k < edges.len() && (#[trigger] edges[k]).from@ == kb.catalog@[i].path@
                && edges[k].to@ == to && edges[k].relation@ == "instance-of"@,
{
    let types = type_nodes(kb, repo, scope);
    let e = seq![kb.catalog@[i].path@, to, "instance-of"@];
    let n = kb.catalog@.len() as int;
    lemma_among(kb, repo, scope, to);
    lemma_claim_edges(kb, types, repo, scope, i, e);
    assert(claim_edges(kb, types, repo, scope, i).contains(e)) by {
        assert(instance_claims(kb, i, name, qualifier) && among(kb, types, to));
    }
    lemma_claims_hold(kb, types, repo, scope, n, e);
    lemma_in_concat(
        defs_edges(kb, types, types.len() as int, classes),
        claims_edges(kb, types, repo, scope, n),
        e,
    );
    lemma_edge_listed(edges, all_mentions(kb, repo, scope, classes), e);
}

proof fn lemma_times_positive(list: Seq<Seq<Seq<char>>>, k: Seq<Seq<char>>)
    requires
        times(list, k) > 0,
    ensures
        list.contains(k),
    decreases list.len(),
{
    if list.len() > 0 {
        if list.last() == k {
            assert(list[list.len() - 1] == k);
        } else {
            lemma_times_positive(list.drop_last(), k);
            let j = choose|j: int| 0 <= j < list.drop_last().len() && list.drop_last()[j] == k;
            assert(list[j] == k);
        }
    }
}

/// Whether an edge stands for a mention in the file at `from`: what the mention means is at
/// `to`, in scope.
pub open spec fn stands_for(
    kb: KnowledgeBase,
    repo: Option<Seq<char>>,
    scope: Scope,
    classes: EdgeClasses,
    e: TypeGraphEdgeView,
    i: int,
    name: Seq<char>,
    qualifier: Option<Seq<char>>,
) -> bool {
    &&& 0 <= i < kb.catalog@.len()
    &&& e.from@ == kb.catalog@[i].path@
    &&& in_scope(kb.repos@, repo, scope, e.from@)
    &&& is_type_path(kb, repo, scope, e.to@)
    &&& resolved_type(kb, owner_name(kb.repos@, e.from@), name, qualifier) == Some(e.to@)
    &&& {
        ||| asked(classes, e.relation@) && is_type_at(kb, repo, scope, i) && def_mentions(
            kb,
            i,
            e.relation@,
            name,
            qualifier,
        )
        ||| classes.instance_of && e.relation@ == "instance-of"@ && instance_claims(
            kb,
            i,
            name,
            qualifier,
        )
    }
}

/// Every edge is a mention: its source is the file that holds it, its target the file of
/// the type that is meant, its relation the way of the mention.
pub proof fn every_edge_is_a_mention(
    kb: KnowledgeBase,
    repo: Option<Seq<char>>,
    scope: Scope,
    classes: EdgeClasses,
    edges: Seq<TypeGraphEdgeView>,
    k: int,
)
    requires
        folds(edges, all_mentions(kb, repo, scope, classes)),
        0 <= k < edges.len(),
    ensures
        exists|i: int, name: Seq<char>, qualifier: Option<Seq<char>>| #[trigger]
            stands_for(kb, repo, scope, classes, edges[k], i, name, qualifier),
{
    let types = type_nodes(kb, repo, scope);
    let n = kb.catalog@.len() as int;
    let all = all_mentions(kb, repo, scope, classes);
    let e = edges[k].key();
    assert(e[0] == edges[k].from@ && e[1] == edges[k].to@ && e[2] == edges[k].relation@);
    assert(edges[k].count > 0 && edges[k].count == times(all, e));
    lemma_times_positive(all, e);
    let defs = defs_edges(kb, types, types.len() as int, classes);
    let claims = if classes.instance_of {
        claims_edges(kb, types, repo, scope, n)
    } else {
        Seq::empty()
    };
    lemma_in_concat(defs, claims, e);
    lemma_among(kb, repo, scope, edges[k].to@);
    if defs.contains(e) {
        lemma_defs_hold(kb, types, types.len() as int, classes, e);
        let d = choose|d: int|
            0 <= d < types.len() && #[trigger] def_edges(kb, types, types[d], classes).contains(e);
        let i = types[d];
        lemma_type_nodes(kb, repo, scope, i);
        assert(types.contains(types[d]));
        lemma_def_source(kb, types, i, classes, e);
        assert(e =~= seq![kb.catalog@[i].path@, e[1], e[2]]);
        lemma_def_edges(kb, types, i, classes, e[2], e[1]);
        let (name, qualifier) = choose|name: Seq<char>, qualifier: Option<Seq<char>>| #[trigger]
            def_mentions(kb, i, e[2], name, qualifier) && resolved_type(
                kb,
                owner_name(kb.repos@, kb.catalog@[i].path@),
                name,
                qualifier,
            ) == Some(e[1]);
        assert(stands_for(kb, repo, scope, classes, edges[k], i, name, qualifier));
    } else {
        lemma_claims_hold(kb, types, repo, scope, n, e);
        let i = choose|i: int|
            0 <= i < n && #[trigger] claim_edges(kb, types, repo, scope, i).contains(e);
        lemma_claim_edges(kb, types, repo, scope, i, e);
        let (name, qualifier, to) = choose|
            name: Seq<char>,
            qualifier: Option<Seq<char>>,
            to: Seq<char>,
        |
            #![trigger instance_claims(kb, i, name, qualifier), among(kb, types, to)]
            instance_claims(kb, i, name, qualifier) && among(kb, types, to) && resolved_type(
                kb,
                owner_name(kb.repos@, kb.catalog@[i].path@),
                name,
                qualifier,
            ) == Some(to) && e == seq![kb.catalog@[i].path@, to, "instance-of"@];
        assert(stands_for(kb, repo, scope, classes, edges[k], i, name, qualifier));
    }
}

/// The edges of a type-def begin at its file.
proof fn lemma_def_source(
    kb: KnowledgeBase,
    types: Seq<int>,
    i: int,
    classes: EdgeClasses,
    e: Seq<Seq<char>>,
)
    requires
        def_edges(kb, types, i, classes).contains(e),
    ensures
        e.len() == 3,
        e[0] == kb.catalog@[i].path@,
{
    let entry = kb.catalog@[i];
    let path = entry.path@;
    match entry.parse {
        FileParse::TypeDef(Some(def)) => {
            let a = if classes.subtype {
                mention_edges(kb, types, path, claim_mentions(def.parents@), "subtype"@)
            } else {
                Seq::empty()
            };
            let b = if classes.field_type {
                mention_edges(kb, types, path, field_mentions(entry.field_refs@), "field-type"@)
            } else {
                Seq::empty()
            };
            let c = if classes.meta && def.meta_blocks is Some {
                mention_edges(kb, types, path, meta_mentions(def.meta_blocks->0@), "meta"@)
            } else {
                Seq::empty()
            };
            lemma_in_concat(a + b, c, e);
            lemma_in_concat(a, b, e);
            lemma_mention_edges(kb, types, path, claim_mentions(def.parents@), "subtype"@, e);
            lemma_mention_edges(
                kb,
                types,
                path,
                field_mentions(entry.field_refs@),
                "field-type"@,
                e,
            );
            lemma_mention_edges(
                kb,
                types,
                path,
                meta_mentions(def.meta_blocks->0@),
                "meta"@,
                e,
            );
        },
        _ => {},
    }
}

/// Whether a repo defines a type in this file.
pub open spec fn defines(
    kb: KnowledgeBase,
    repo: Seq<char>,
    name: Seq<char>,
    path: Seq<char>,
) -> bool {
    exists|t: int, d: int|
        #![trigger kb.types@[t].defs@[d]]
        0 <= t < kb.types@.len() && 0 <= d < kb.types@[t].defs@.len() && kb.types@[t].repo@ == repo
            && kb.types@[t].defs@[d].name@ == name && kb.types@[t].defs@[d].source_path@ == path
}

proof fn lemma_def_from(defs: Seq<DefSource>, name: Seq<char>, i: int)
    requires
        0 <= i,
    ensures
        match def_from(defs, name, i) {
            Some(p) => exists|d: int|
                #![trigger defs[d]]
                i <= d < defs.len() && defs[d].name@ == name && defs[d].source_path@ == p,
            None => forall|d: int| #![trigger defs[d]] i <= d < defs.len() ==> defs[d].name@ != name,
        },
    decreases defs.len() - i,
{
    if i < defs.len() && defs[i].name@ != name {
        lemma_def_from(defs, name, i + 1);
    }
}

proof fn lemma_type_source(types: Seq<RepoTypes>, repo: Seq<char>, name: Seq<char>, i: int)
    requires
        0 <= i,
    ensures
        type_source(types, repo, name, i) matches Some(p) ==> exists|t: int, d: int|
            #![trigger types[t].defs@[d]]
            0 <= t < types.len() && 0 <= d < types[t].defs@.len() && types[t].repo@ == repo
                && types[t].defs@[d].name@ == name && types[t].defs@[d].source_path@ == p,
        type_source(types, repo, name, i) is None ==> forall|t: int|
            #![trigger types[t]]
            i <= t < types.len() && types[t].repo@ == repo && (forall|u: int|
                #![trigger types[u]]
                i <= u < t ==> types[u].repo@ != repo) ==> forall|d: int|
                #![trigger types[t].defs@[d]]
                0 <= d < types[t].defs@.len() ==> types[t].defs@[d].name@ != name,
    decreases types.len() - i,
{
    if i < types.len() {
        if types[i].repo@ == repo {
            lemma_def_from(types[i].defs@, name, 0);
            if def_from(types[i].defs@, name, 0) is Some {
                let p = def_from(types[i].defs@, name, 0)->0;
                let d = choose|d: int|
                    #![trigger types[i].defs@[d]]
                    0 <= d < types[i].defs@.len() && types[i].defs@[d].name@ == name
                        && types[i].defs@[d].source_path@ == p;
                assert(types[i].defs@[d].name@ == name);
            } else {
                assert forall|t: int|
                    #![trigger types[t]]
                    i <= t < types.len() && types[t].repo@ == repo && (forall|u: int|
                        #![trigger types[u]]
                        i <= u < t ==> types[u].repo@ != repo) implies forall|d: int|
                    #![trigger types[t].defs@[d]]
                    0 <= d < types[t].defs@.len() ==> types[t].defs@[d].name@ != name by {
                    assert(t == i) by {
                        if i < t {
                            assert(types[i].repo@ != repo);
                        }
                    }
                }
            }
        } else {
            lemma_type_source(types, repo, name, i + 1);
        }
    }
}

/// A name means a type that the repo it is qualified by defines, or without a qualifier
/// the repo of the file that holds it; a bare name in a file of no repo means nothing.
pub proof fn a_name_means_a_type_of_its_repo(
    kb: KnowledgeBase,
    from_repo: Option<Seq<char>>,
    name: Seq<char>,
    qualifier: Option<Seq<char>>,
    to: Seq<char>,
)
    requires
        resolved_type(kb, from_repo, name, qualifier) == Some(to),
    ensures
        qualifier matches Some(q) ==> defines(kb, q, name, to),
        qualifier is None ==> (from_repo matches Some(r) && defines(kb, r, name, to)),
{
    let repo = match qualifier {
        Some(q) => q,
        None => from_repo->0,
    };
    lemma_type_source(kb.types@, repo, name, 0);
    let (t, d) = choose|t: int, d: int|
        #![trigger kb.types@[t].defs@[d]]
        0 <= t < kb.types@.len() && 0 <= d < kb.types@[t].defs@.len() && kb.types@[t].repo@ == repo
            && kb.types@[t].defs@[d].name@ == name && kb.types@[t].defs@[d].source_path@ == to;
    assert(defines(kb, repo, name, to));
}

/// A type that a repo defines is found by its name there.
pub proof fn a_defined_type_is_found(
    kb: KnowledgeBase,
    from_repo: Option<Seq<char>>,
    name: Seq<char>,
    qualifier: Option<Seq<char>>,
    t: int,
    d: int,
)
    requires
        0 <= t < kb.types@.len(),
        0 <= d < kb.types@[t].defs@.len(),
        kb.types@[t].defs@[d].name@ == name,
        forall|u: int|
            #![trigger kb.types@[u]]
            0 <= u < t ==> kb.types@[u].repo@ != kb.types@[t].repo@,
        qualifier == Some(kb.types@[t].repo@) || (qualifier is None && from_repo == Some(
            kb.types@[t].repo@,
        )),
    ensures
        resolved_type(kb, from_repo, name, qualifier) is Some,
{
    lemma_type_source(kb.types@, kb.types@[t].repo@, name, 0);
    if type_source(kb.types@, kb.types@[t].repo@, name, 0) is None {
        assert(kb.types@[t].repo@ == kb.types@[t].repo@);
        assert(kb.types@[t].defs@[d].name@ != name);
    }
}

} // verus!
