//! The type graph as a payload of nodes and edges.

use crate::ast::{claim_items, ClaimedName, FileParse, MetaBlock, TypeClaim};
use crate::graph::delta::{changed, changed_spec, gone, gone_spec, Listed};
use crate::graph::nodes::{chosen, ints};
use crate::model::{
    in_scope, node_in_scope, owner_name, repo_name_of, DefSource, FileKind, KnowledgeBase, RepoTypes,
    Scope, TypeMention,
};
use crate::sorting::{lemma_map_multiset, sort, sorted, Ranked};
use crate::tally::{is_tally, key_count, tally, Group, Keyed};
use crate::text::{
    copy_opt, is_at_most, keys_lt, lemma_text_le_total, lemma_text_le_transitive, opt_view, same,
    same_opt, str_views, text_le,
};
use vstd::prelude::*;

verus! {

/// The kinds of edges that a read of the type graph can ask for.
#[derive(Debug, Clone, Copy, PartialEq, Eq, Structural)]
pub enum EdgeClass {
    Subtype,
    FieldType,
    InstanceOf,
    Meta,
}

/// The kinds of edges that a read takes in.
#[derive(Debug, Clone, Copy, PartialEq, Eq, Structural)]
pub struct EdgeClasses {
    pub subtype: bool,
    pub field_type: bool,
    pub instance_of: bool,
    pub meta: bool,
}

fn lists(list: &Vec<EdgeClass>, class: EdgeClass) -> (r: bool)
    ensures
        r == list@.contains(class),
{
    for i in 0..list.len()
        invariant
            forall|k: int| 0 <= k < i ==> list@[k] != class,
    {
        if list[i] == class {
            assert(list@[i as int] == class);
            return true;
        }
    }
    false
}

impl EdgeClasses {
    /// The kinds that are listed; without a list, the relations between types.
    pub fn from_arg(edges: Option<Vec<EdgeClass>>) -> (r: Self)
        ensures
            r == (match edges {
                None => EdgeClasses {
                    subtype: true,
                    field_type: true,
                    instance_of: false,
                    meta: false,
                },
                Some(list) => EdgeClasses {
                    subtype: list@.contains(EdgeClass::Subtype),
                    field_type: list@.contains(EdgeClass::FieldType),
                    instance_of: list@.contains(EdgeClass::InstanceOf),
                    meta: list@.contains(EdgeClass::Meta),
                },
            }),
    {
        match edges {
            None => EdgeClasses { subtype: true, field_type: true, instance_of: false, meta: false },
            Some(list) => EdgeClasses {
                subtype: lists(&list, EdgeClass::Subtype),
                field_type: lists(&list, EdgeClass::FieldType),
                instance_of: lists(&list, EdgeClass::InstanceOf),
                meta: lists(&list, EdgeClass::Meta),
            },
        }
    }
}

/// The first of the types with this name, searching from `i` on.
pub open spec fn def_from(defs: Seq<DefSource>, name: Seq<char>, i: int) -> Option<Seq<char>>
    decreases defs.len() - i,
{
    if i < 0 || i >= defs.len() {
        None
    } else if defs[i].name@ == name {
        Some(defs[i].source_path@)
    } else {
        def_from(defs, name, i + 1)
    }
}

/// The file in which the repo `repo` defines `name`, searching from `i` on.
pub open spec fn type_source(
    types: Seq<RepoTypes>,
    repo: Seq<char>,
    name: Seq<char>,
    i: int,
) -> Option<Seq<char>>
    decreases types.len() - i,
{
    if i < 0 || i >= types.len() {
        None
    } else if types[i].repo@ == repo {
        def_from(types[i].defs@, name, 0)
    } else {
        type_source(types, repo, name, i + 1)
    }
}

/// The file that a type name means: a qualified one in the repo that it names, a
/// bare one in the repo of the file that holds it.
pub open spec fn resolved_type(
    kb: KnowledgeBase,
    from_repo: Option<Seq<char>>,
    name: Seq<char>,
    qualifier: Option<Seq<char>>,
) -> Option<Seq<char>> {
    let repo = match qualifier {
        Some(q) => Some(q),
        None => from_repo,
    };
    match repo {
        Some(r) => type_source(kb.types@, r, name, 0),
        None => None,
    }
}

fn find_def<'a>(defs: &'a Vec<DefSource>, name: &str) -> (r: Option<&'a String>)
    ensures
        match r {
            Some(p) => def_from(defs@, name@, 0) == Some(p@),
            None => def_from(defs@, name@, 0) is None,
        },
{
    for i in 0..defs.len()
        invariant
            def_from(defs@, name@, 0) == def_from(defs@, name@, i as int),
    {
        if same(defs[i].name.as_str(), name) {
            return Some(&defs[i].source_path);
        }
    }
    None
}

/// The file that a type name means.
pub fn resolve_type<'a>(
    kb: &'a KnowledgeBase,
    from_repo: &Option<String>,
    name: &str,
    qualifier: &Option<String>,
) -> (r: Option<&'a String>)
    ensures
        match r {
            Some(p) => resolved_type(*kb, opt_view(*from_repo), name@, opt_view(*qualifier)) == Some(
                p@,
            ),
            None => resolved_type(*kb, opt_view(*from_repo), name@, opt_view(*qualifier)) is None,
        },
{
    let repo: &String = match qualifier {
        Some(q) => q,
        None => match from_repo {
            Some(f) => f,
            None => return None,
        },
    };
    for i in 0..kb.types.len()
        invariant
            resolved_type(*kb, opt_view(*from_repo), name@, opt_view(*qualifier)) == type_source(
                kb.types@,
                repo@,
                name@,
                0,
            ),
            type_source(kb.types@, repo@, name@, 0) == type_source(kb.types@, repo@, name@, i as int),
    {
        if same(kb.types[i].repo.as_str(), repo.as_str()) {
            return find_def(&kb.types[i].defs, name);
        }
    }
    None
}

/// The type-defs in scope, as positions in the catalog.
pub open spec fn type_nodes(kb: KnowledgeBase, repo: Option<Seq<char>>, scope: Scope) -> Seq<int> {
    chosen(
        |i: int|
            kb.catalog@[i].kind == FileKind::TypeDef && in_scope(
                kb.repos@,
                repo,
                scope,
                kb.catalog@[i].path@,
            ),
        kb.catalog@.len() as int,
    )
}

/// Whether one of the files at these positions has this path.
pub open spec fn among(kb: KnowledgeBase, nodes: Seq<int>, path: Seq<char>) -> bool {
    exists|k: int| 0 <= k < nodes.len() && kb.catalog@[#[trigger] nodes[k]].path@ == path
}

/// The edge that one mention gives: from the file to the type that it means, when
/// that is in scope.
pub open spec fn mention_edge(
    kb: KnowledgeBase,
    types: Seq<int>,
    path: Seq<char>,
    name: Seq<char>,
    qualifier: Option<Seq<char>>,
    relation: Seq<char>,
) -> Seq<Seq<Seq<char>>> {
    match resolved_type(kb, owner_name(kb.repos@, path), name, qualifier) {
        Some(to) => if among(kb, types, to) {
            seq![seq![path, to, relation]]
        } else {
            Seq::empty()
        },
        None => Seq::empty(),
    }
}

/// A list of claimed names as mentions.
pub open spec fn claim_mentions(items: Seq<ClaimedName>) -> Seq<(Seq<char>, Option<Seq<char>>)> {
    items.map_values(|c: ClaimedName| (c.name@, opt_view(c.repo)))
}

pub open spec fn field_mentions(items: Seq<TypeMention>) -> Seq<(Seq<char>, Option<Seq<char>>)> {
    items.map_values(|c: TypeMention| (c.name@, opt_view(c.repo)))
}

pub open spec fn meta_mentions(items: Seq<MetaBlock>) -> Seq<(Seq<char>, Option<Seq<char>>)> {
    items.map_values(|m: MetaBlock| (m.claim.name@, opt_view(m.claim.repo)))
}

/// The edges that a list of mentions gives.
pub open spec fn mention_edges(
    kb: KnowledgeBase,
    types: Seq<int>,
    path: Seq<char>,
    mentions: Seq<(Seq<char>, Option<Seq<char>>)>,
    relation: Seq<char>,
) -> Seq<Seq<Seq<char>>>
    decreases mentions.len(),
{
    if mentions.len() == 0 {
        Seq::empty()
    } else {
        mention_edges(kb, types, path, mentions.drop_last(), relation) + mention_edge(
            kb,
            types,
            path,
            mentions.last().0,
            mentions.last().1,
            relation,
        )
    }
}

/// The edges from one type-def: to its parents, to the types of its fields, to
/// the types of its metadata.
pub open spec fn def_edges(
    kb: KnowledgeBase,
    types: Seq<int>,
    i: int,
    classes: EdgeClasses,
) -> Seq<Seq<Seq<char>>> {
    let entry = kb.catalog@[i];
    match entry.parse {
        FileParse::TypeDef(Some(def)) => {
            (if classes.subtype {
                mention_edges(kb, types, entry.path@, claim_mentions(def.parents@), "subtype"@)
            } else {
                Seq::empty()
            }) + (if classes.field_type {
                mention_edges(
                    kb,
                    types,
                    entry.path@,
                    field_mentions(entry.field_refs@),
                    "field-type"@,
                )
            } else {
                Seq::empty()
            }) + (if classes.meta && def.meta_blocks is Some {
                mention_edges(
                    kb,
                    types,
                    entry.path@,
                    meta_mentions(def.meta_blocks->0@),
                    "meta"@,
                )
            } else {
                Seq::empty()
            })
        },
        _ => Seq::empty(),
    }
}

/// The edges from the first `n` of the type-defs.
pub open spec fn defs_edges(
    kb: KnowledgeBase,
    types: Seq<int>,
    n: int,
    classes: EdgeClasses,
) -> Seq<Seq<Seq<char>>>
    decreases n,
{
    if n <= 0 {
        Seq::empty()
    } else {
        defs_edges(kb, types, n - 1, classes) + def_edges(kb, types, types[n - 1], classes)
    }
}

/// The edges from one catalogued file to the types that it claims, when it is an
/// instance in scope.
pub open spec fn claim_edges(
    kb: KnowledgeBase,
    types: Seq<int>,
    repo: Option<Seq<char>>,
    scope: Scope,
    i: int,
) -> Seq<Seq<Seq<char>>> {
    let entry = kb.catalog@[i];
    match entry.parse {
        FileParse::Instance(Some(inst)) => if entry.kind == FileKind::Instance && in_scope(
            kb.repos@,
            repo,
            scope,
            entry.path@,
        ) {
            mention_edges(
                kb,
                types,
                entry.path@,
                claim_mentions(claim_items(inst.type_claim)),
                "instance-of"@,
            )
        } else {
            Seq::empty()
        },
        _ => Seq::empty(),
    }
}

/// The edges from the first `n` catalogued files to the types that they claim.
pub open spec fn claims_edges(
    kb: KnowledgeBase,
    types: Seq<int>,
    repo: Option<Seq<char>>,
    scope: Scope,
    n: int,
) -> Seq<Seq<Seq<char>>>
    decreases n,
{
    if n <= 0 {
        Seq::empty()
    } else {
        claims_edges(kb, types, repo, scope, n - 1) + claim_edges(kb, types, repo, scope, n - 1)
    }
}

/// The instances that claim a type in scope, as positions in the catalog.
pub open spec fn claiming(
    kb: KnowledgeBase,
    types: Seq<int>,
    repo: Option<Seq<char>>,
    scope: Scope,
) -> Seq<int> {
    chosen(
        |i: int| claim_edges(kb, types, repo, scope, i).len() > 0,
        kb.catalog@.len() as int,
    )
}

/// Every mention that the graph takes in, one edge each.
pub open spec fn all_mentions(
    kb: KnowledgeBase,
    repo: Option<Seq<char>>,
    scope: Scope,
    classes: EdgeClasses,
) -> Seq<Seq<Seq<char>>> {
    let types = type_nodes(kb, repo, scope);
    defs_edges(kb, types, types.len() as int, classes) + (if classes.instance_of {
        claims_edges(kb, types, repo, scope, kb.catalog@.len() as int)
    } else {
        Seq::empty()
    })
}

/// The nodes of the type graph: the type-defs in scope, and with the
/// `instance-of` edges the instances that have one.
pub open spec fn all_nodes(
    kb: KnowledgeBase,
    repo: Option<Seq<char>>,
    scope: Scope,
    classes: EdgeClasses,
) -> Seq<int> {
    let types = type_nodes(kb, repo, scope);
    types + (if classes.instance_of {
        claiming(kb, types, repo, scope)
    } else {
        Seq::empty()
    })
}

/// A type-def or an instance.
#[derive(Debug, PartialEq)]
pub struct TypeGraphNodeView {
    pub path: String,
    pub repo: Option<String>,
    pub kind: &'static str,
}

/// The contents of a [`TypeGraphNodeView`].
pub struct TypeNodeRow {
    pub path: Seq<char>,
    pub repo: Option<Seq<char>>,
    pub kind: Seq<char>,
}

impl View for TypeGraphNodeView {
    type V = TypeNodeRow;

    open spec fn view(&self) -> TypeNodeRow {
        TypeNodeRow { path: self.path@, repo: opt_view(self.repo), kind: self.kind@ }
    }
}

impl Ranked for TypeGraphNodeView {
    open spec fn rank_le(&self, other: &Self) -> bool {
        text_le(self.path@, other.path@)
    }

    fn at_most(&self, other: &Self) -> (r: bool) {
        is_at_most(self.path.as_str(), other.path.as_str())
    }

    proof fn rank_total(a: &Self, b: &Self) {
        lemma_text_le_total(a.path@, b.path@);
    }

    proof fn rank_transitive(a: &Self, b: &Self, c: &Self) {
        lemma_text_le_transitive(a.path@, b.path@, c.path@);
    }
}

impl Listed for TypeGraphNodeView {
    open spec fn same_id(&self, other: &Self) -> bool {
        self.path@ == other.path@
    }

    open spec fn same_record(&self, other: &Self) -> bool {
        self@ == other@
    }

    fn is_same_id(&self, other: &Self) -> (r: bool) {
        same(self.path.as_str(), other.path.as_str())
    }

    fn is_same_record(&self, other: &Self) -> (r: bool) {
        same(self.path.as_str(), other.path.as_str()) && same_opt(&self.repo, &other.repo) && same(
            self.kind,
            other.kind,
        )
    }

    fn duplicate(&self) -> (r: Self) {
        TypeGraphNodeView { path: self.path.clone(), repo: copy_opt(&self.repo), kind: self.kind }
    }
}

/// An edge of the type graph. `count` is how many mentions it stands for.
#[derive(Debug, PartialEq)]
pub struct TypeGraphEdgeView {
    pub from: String,
    pub to: String,
    pub relation: &'static str,
    pub count: usize,
}

impl Keyed for TypeGraphEdgeView {
    open spec fn key(&self) -> Seq<Seq<char>> {
        seq![self.from@, self.to@, self.relation@]
    }

    fn key_parts(&self) -> (r: Vec<&str>) {
        let mut k: Vec<&str> = Vec::new();
        k.push(self.from.as_str());
        k.push(self.to.as_str());
        k.push(self.relation);
        assert(str_views(k@) =~= self.key());
        k
    }
}

impl Listed for TypeGraphEdgeView {
    open spec fn same_id(&self, other: &Self) -> bool {
        self.key() == other.key()
    }

    open spec fn same_record(&self, other: &Self) -> bool {
        self.key() == other.key() && self.count == other.count
    }

    fn is_same_id(&self, other: &Self) -> (r: bool) {
        let r = same(self.from.as_str(), other.from.as_str()) && same(
            self.to.as_str(),
            other.to.as_str(),
        ) && same(self.relation, other.relation);
        proof {
            if r {
                assert(self.key() =~= other.key());
            } else {
                assert(self.key()[0] == self.from@ && other.key()[0] == other.from@);
                assert(self.key()[1] == self.to@ && other.key()[1] == other.to@);
                assert(self.key()[2] == self.relation@ && other.key()[2] == other.relation@);
            }
        }
        r
    }

    fn is_same_record(&self, other: &Self) -> (r: bool) {
        self.is_same_id(other) && self.count == other.count
    }

    fn duplicate(&self) -> (r: Self) {
        TypeGraphEdgeView {
            from: self.from.clone(),
            to: self.to.clone(),
            relation: self.relation,
            count: self.count,
        }
    }
}

/// How often `k` stands in a list.
pub open spec fn times(list: Seq<Seq<Seq<char>>>, k: Seq<Seq<char>>) -> nat
    decreases list.len(),
{
    if list.len() == 0 {
        0
    } else {
        times(list.drop_last(), k) + if list.last() == k {
            1nat
        } else {
            0
        }
    }
}

/// Whether an edge with the key `k` is listed.
pub open spec fn has_edge(edges: Seq<TypeGraphEdgeView>, k: Seq<Seq<char>>) -> bool {
    exists|i: int| #![trigger edges[i]] 0 <= i < edges.len() && edges[i].key() == k
}

/// Whether the edges fold the mentions: one edge for each source, target and
/// relation that occurs, in that order, with the number of its mentions.
pub open spec fn folds(edges: Seq<TypeGraphEdgeView>, mentions: Seq<Seq<Seq<char>>>) -> bool {
    &&& forall|i: int|
        #![trigger edges[i]]
        0 <= i < edges.len() ==> edges[i].count > 0 && edges[i].count == times(
            mentions,
            edges[i].key(),
        )
    &&& forall|i: int, j: int|
        #![trigger edges[i], edges[j]]
        0 <= i < j < edges.len() ==> keys_lt(edges[i].key(), edges[j].key())
    &&& forall|k: int|
        #![trigger mentions[k]]
        0 <= k < mentions.len() ==> has_edge(edges, mentions[k])
}

/// The keys of a list of edges.
pub open spec fn edge_keys(v: Seq<TypeGraphEdgeView>) -> Seq<Seq<Seq<char>>> {
    v.map_values(|e: TypeGraphEdgeView| e.key())
}

proof fn lemma_key_push(v: Seq<TypeGraphEdgeView>, e: TypeGraphEdgeView)
    ensures
        edge_keys(v.push(e)) == edge_keys(v).push(e.key()),
{
    assert(edge_keys(v.push(e)) =~= edge_keys(v).push(e.key()));
}

proof fn lemma_times(v: Seq<TypeGraphEdgeView>, k: Seq<Seq<char>>)
    ensures
        times(edge_keys(v), k) == key_count(v, k),
    decreases v.len(),
{
    if v.len() > 0 {
        assert(edge_keys(v).drop_last() =~= edge_keys(v.drop_last()));
        lemma_times(v.drop_last(), k);
    }
}

fn holds_path(kb: &KnowledgeBase, nodes: &Vec<usize>, path: &str) -> (r: bool)
    requires
        forall|k: int| #![trigger nodes@[k]] 0 <= k < nodes@.len() ==> nodes@[k] < kb.catalog@.len(),
    ensures
        r == among(*kb, ints(nodes@), path@),
{
    for i in 0..nodes.len()
        invariant
            forall|k: int|
                #![trigger nodes@[k]]
                0 <= k < nodes@.len() ==> nodes@[k] < kb.catalog@.len(),
            forall|k: int|
                0 <= k < i ==> kb.catalog@[#[trigger] ints(nodes@)[k]].path@ != path@,
    {
        assert(ints(nodes@)[i as int] == nodes@[i as int]);
        if same(kb.catalog[nodes[i]].path.as_str(), path) {
            return true;
        }
    }
    false
}

fn push_mention(
    kb: &KnowledgeBase,
    types: &Vec<usize>,
    path: &str,
    from_repo: &Option<String>,
    name: &str,
    qualifier: &Option<String>,
    relation: &'static str,
    out: &mut Vec<TypeGraphEdgeView>,
)
    requires
        forall|k: int| #![trigger types@[k]] 0 <= k < types@.len() ==> types@[k] < kb.catalog@.len(),
        opt_view(*from_repo) == owner_name(kb.repos@, path@),
    ensures
        edge_keys(final(out)@) == edge_keys(old(out)@) + mention_edge(
            *kb,
            ints(types@),
            path@,
            name@,
            opt_view(*qualifier),
            relation@,
        ),
{
    let ghost before = out@;
    assert(edge_keys(before) + Seq::<Seq<Seq<char>>>::empty() =~= edge_keys(before));
    if let Some(to) = resolve_type(kb, from_repo, name, qualifier) {
        if holds_path(kb, types, to.as_str()) {
            let e = TypeGraphEdgeView { from: path.to_owned(), to: to.clone(), relation, count: 1 };
            out.push(e);
            proof {
                lemma_key_push(before, e);
                assert(edge_keys(out@) =~= edge_keys(before) + seq![seq![path@, to@, relation@]]);
            }
        }
    }
}

proof fn lemma_mentions_step(
    kb: KnowledgeBase,
    types: Seq<int>,
    path: Seq<char>,
    all: Seq<(Seq<char>, Option<Seq<char>>)>,
    relation: Seq<char>,
    i: int,
)
    requires
        0 <= i < all.len(),
    ensures
        mention_edges(kb, types, path, all.take(i + 1), relation) == mention_edges(
            kb,
            types,
            path,
            all.take(i),
            relation,
        ) + mention_edge(kb, types, path, all[i].0, all[i].1, relation),
{
    assert(all.take(i + 1).drop_last() =~= all.take(i));
}

fn push_claims(
    kb: &KnowledgeBase,
    types: &Vec<usize>,
    path: &str,
    from_repo: &Option<String>,
    items: &Vec<ClaimedName>,
    relation: &'static str,
    out: &mut Vec<TypeGraphEdgeView>,
)
    requires
        forall|k: int| #![trigger types@[k]] 0 <= k < types@.len() ==> types@[k] < kb.catalog@.len(),
        opt_view(*from_repo) == owner_name(kb.repos@, path@),
    ensures
        edge_keys(final(out)@) == edge_keys(old(out)@) + mention_edges(
            *kb,
            ints(types@),
            path@,
            claim_mentions(items@),
            relation@,
        ),
{
    let ghost before = out@;
    let ghost all = claim_mentions(items@);
    assert(all.take(0) =~= Seq::empty());
    assert(edge_keys(before) + Seq::<Seq<Seq<char>>>::empty() =~= edge_keys(before));
    for i in 0..items.len()
        invariant
            forall|k: int|
                #![trigger types@[k]]
                0 <= k < types@.len() ==> types@[k] < kb.catalog@.len(),
            opt_view(*from_repo) == owner_name(kb.repos@, path@),
            all == claim_mentions(items@),
            edge_keys(out@) == edge_keys(before) + mention_edges(
                *kb,
                ints(types@),
                path@,
                all.take(i as int),
                relation@,
            ),
    {
        let c = &items[i];
        push_mention(kb, types, path, from_repo, c.name.as_str(), &c.repo, relation, out);
        proof {
            lemma_mentions_step(*kb, ints(types@), path@, all, relation@, i as int);
            assert(edge_keys(out@) =~= edge_keys(before) + mention_edges(
                *kb,
                ints(types@),
                path@,
                all.take(i + 1),
                relation@,
            ));
        }
    }
    assert(all.take(all.len() as int) =~= all);
}

fn push_field_refs(
    kb: &KnowledgeBase,
    types: &Vec<usize>,
    path: &str,
    from_repo: &Option<String>,
    items: &Vec<TypeMention>,
    out: &mut Vec<TypeGraphEdgeView>,
)
    requires
        forall|k: int| #![trigger types@[k]] 0 <= k < types@.len() ==> types@[k] < kb.catalog@.len(),
        opt_view(*from_repo) == owner_name(kb.repos@, path@),
    ensures
        edge_keys(final(out)@) == edge_keys(old(out)@) + mention_edges(
            *kb,
            ints(types@),
            path@,
            field_mentions(items@),
            "field-type"@,
        ),
{
    let ghost before = out@;
    let ghost all = field_mentions(items@);
    assert(all.take(0) =~= Seq::empty());
    assert(edge_keys(before) + Seq::<Seq<Seq<char>>>::empty() =~= edge_keys(before));
    for i in 0..items.len()
        invariant
            forall|k: int|
                #![trigger types@[k]]
                0 <= k < types@.len() ==> types@[k] < kb.catalog@.len(),
            opt_view(*from_repo) == owner_name(kb.repos@, path@),
            all == field_mentions(items@),
            edge_keys(out@) == edge_keys(before) + mention_edges(
                *kb,
                ints(types@),
                path@,
                all.take(i as int),
                "field-type"@,
            ),
    {
        let c = &items[i];
        push_mention(kb, types, path, from_repo, c.name.as_str(), &c.repo, "field-type", out);
        proof {
            lemma_mentions_step(*kb, ints(types@), path@, all, "field-type"@, i as int);
            assert(edge_keys(out@) =~= edge_keys(before) + mention_edges(
                *kb,
                ints(types@),
                path@,
                all.take(i + 1),
                "field-type"@,
            ));
        }
    }
    assert(all.take(all.len() as int) =~= all);
}

fn push_metas(
    kb: &KnowledgeBase,
    types: &Vec<usize>,
    path: &str,
    from_repo: &Option<String>,
    items: &Vec<MetaBlock>,
    out: &mut Vec<TypeGraphEdgeView>,
)
    requires
        forall|k: int| #![trigger types@[k]] 0 <= k < types@.len() ==> types@[k] < kb.catalog@.len(),
        opt_view(*from_repo) == owner_name(kb.repos@, path@),
    ensures
        edge_keys(final(out)@) == edge_keys(old(out)@) + mention_edges(
            *kb,
            ints(types@),
            path@,
            meta_mentions(items@),
            "meta"@,
        ),
{
    let ghost before = out@;
    let ghost all = meta_mentions(items@);
    assert(all.take(0) =~= Seq::empty());
    assert(edge_keys(before) + Seq::<Seq<Seq<char>>>::empty() =~= edge_keys(before));
    for i in 0..items.len()
        invariant
            forall|k: int|
                #![trigger types@[k]]
                0 <= k < types@.len() ==> types@[k] < kb.catalog@.len(),
            opt_view(*from_repo) == owner_name(kb.repos@, path@),
            all == meta_mentions(items@),
            edge_keys(out@) == edge_keys(before) + mention_edges(
                *kb,
                ints(types@),
                path@,
                all.take(i as int),
                "meta"@,
            ),
    {
        let c = &items[i].claim;
        push_mention(kb, types, path, from_repo, c.name.as_str(), &c.repo, "meta", out);
        proof {
            lemma_mentions_step(*kb, ints(types@), path@, all, "meta"@, i as int);
            assert(edge_keys(out@) =~= edge_keys(before) + mention_edges(
                *kb,
                ints(types@),
                path@,
                all.take(i + 1),
                "meta"@,
            ));
        }
    }
    assert(all.take(all.len() as int) =~= all);
}

fn push_def(
    kb: &KnowledgeBase,
    types: &Vec<usize>,
    at: usize,
    classes: EdgeClasses,
    out: &mut Vec<TypeGraphEdgeView>,
)
    requires
        forall|k: int| #![trigger types@[k]] 0 <= k < types@.len() ==> types@[k] < kb.catalog@.len(),
        at < kb.catalog@.len(),
    ensures
        edge_keys(final(out)@) == edge_keys(old(out)@) + def_edges(
            *kb,
            ints(types@),
            at as int,
            classes,
        ),
{
    let ghost before = out@;
    assert(edge_keys(before) + Seq::<Seq<Seq<char>>>::empty() =~= edge_keys(before));
    let entry = &kb.catalog[at];
    let path = entry.path.as_str();
    let from_repo = repo_name_of(&kb.repos, path);
    if let FileParse::TypeDef(Some(def)) = &entry.parse {
        if classes.subtype {
            push_claims(kb, types, path, &from_repo, &def.parents, "subtype", out);
        }
        if classes.field_type {
            push_field_refs(kb, types, path, &from_repo, &entry.field_refs, out);
        }
        if classes.meta {
            if let Some(blocks) = &def.meta_blocks {
                push_metas(kb, types, path, &from_repo, blocks, out);
            }
        }
        assert(edge_keys(out@) =~= edge_keys(before) + def_edges(
            *kb,
            ints(types@),
            at as int,
            classes,
        ));
    }
}

/// Adds the claims of the catalogued file at `at`, when it is an instance in
/// scope.
fn push_instance(
    kb: &KnowledgeBase,
    types: &Vec<usize>,
    repo: &Option<String>,
    scope: Scope,
    at: usize,
    out: &mut Vec<TypeGraphEdgeView>,
)
    requires
        forall|k: int| #![trigger types@[k]] 0 <= k < types@.len() ==> types@[k] < kb.catalog@.len(),
        at < kb.catalog@.len(),
    ensures
        edge_keys(final(out)@) == edge_keys(old(out)@) + claim_edges(
            *kb,
            ints(types@),
            opt_view(*repo),
            scope,
            at as int,
        ),
{
    let ghost before = out@;
    assert(edge_keys(before) + Seq::<Seq<Seq<char>>>::empty() =~= edge_keys(before));
    let entry = &kb.catalog[at];
    if entry.kind != FileKind::Instance {
        return;
    }
    let path = entry.path.as_str();
    if !node_in_scope(&kb.repos, repo, scope, path) {
        return;
    }
    let from_repo = repo_name_of(&kb.repos, path);
    if let FileParse::Instance(Some(inst)) = &entry.parse {
        match &inst.type_claim {
            TypeClaim::Bare(c) => {
                push_mention(
                    kb,
                    types,
                    path,
                    &from_repo,
                    c.name.as_str(),
                    &c.repo,
                    "instance-of",
                    out,
                );
                proof {
                    let all = claim_mentions(seq![*c]);
                    lemma_mentions_step(*kb, ints(types@), path@, all, "instance-of"@, 0);
                    assert(all.take(1) =~= all);
                    assert(all.take(0) =~= Seq::empty());
                    assert(edge_keys(out@) =~= edge_keys(before) + claim_edges(
                        *kb,
                        ints(types@),
                        opt_view(*repo),
                        scope,
                        at as int,
                    ));
                }
            },
            TypeClaim::List(items) => {
                push_claims(kb, types, path, &from_repo, items, "instance-of", out);
            },
        }
    }
}

/// The type graph at a scope.
pub struct TypeGraphView {
    pub repo: Option<String>,
    pub scope: &'static str,
    pub nodes: Vec<TypeGraphNodeView>,
    pub edges: Vec<TypeGraphEdgeView>,
}

/// The row of the catalogued file at `i`.
pub open spec fn type_node_row(kb: KnowledgeBase, i: int) -> TypeNodeRow {
    TypeNodeRow {
        path: kb.catalog@[i].path@,
        repo: owner_name(kb.repos@, kb.catalog@[i].path@),
        kind: kb.catalog@[i].served@,
    }
}

pub open spec fn type_node_rows(kb: KnowledgeBase, nodes: Seq<int>) -> Seq<TypeNodeRow> {
    nodes.map_values(|i: int| type_node_row(kb, i))
}

pub open spec fn type_node_views(v: Seq<TypeGraphNodeView>) -> Seq<TypeNodeRow> {
    v.map_values(|n: TypeGraphNodeView| n@)
}

fn collect_types(kb: &KnowledgeBase, repo: &Option<String>, scope: Scope) -> (r: Vec<usize>)
    ensures
        ints(r@) == type_nodes(*kb, opt_view(*repo), scope),
        forall|k: int| #![trigger r@[k]] 0 <= k < r@.len() ==> r@[k] < kb.catalog@.len(),
{
    let mut r: Vec<usize> = Vec::new();
    let ghost p = |i: int|
        kb.catalog@[i].kind == FileKind::TypeDef && in_scope(
            kb.repos@,
            opt_view(*repo),
            scope,
            kb.catalog@[i].path@,
        );
    assert(ints(r@) =~= chosen(p, 0));
    for i in 0..kb.catalog.len()
        invariant
            p == (|i: int|
                kb.catalog@[i].kind == FileKind::TypeDef && in_scope(
                    kb.repos@,
                    opt_view(*repo),
                    scope,
                    kb.catalog@[i].path@,
                )),
            ints(r@) == chosen(p, i as int),
            forall|k: int| #![trigger r@[k]] 0 <= k < r@.len() ==> r@[k] < kb.catalog@.len(),
    {
        let entry = &kb.catalog[i];
        if entry.kind == FileKind::TypeDef && node_in_scope(
            &kb.repos,
            repo,
            scope,
            entry.path.as_str(),
        ) {
            let ghost before = r@;
            r.push(i);
            assert(ints(r@) =~= ints(before).push(i as int));
        }
    }
    r
}

/// Folds equal mentions into edges with a count.
fn fold_mentions(mentions: Vec<TypeGraphEdgeView>) -> (r: Vec<TypeGraphEdgeView>)
    ensures
        folds(r@, edge_keys(mentions@)),
{
    let groups = tally(&mentions);
    let mut r: Vec<TypeGraphEdgeView> = Vec::new();
    for i in 0..groups.len()
        invariant
            is_tally(groups@, mentions@),
            r@.len() == i,
            forall|k: int|
                #![trigger r@[k]]
                0 <= k < i ==> r@[k].key() == mentions@[groups@[k].at as int].key() && r@[k].count
                    == groups@[k].count,
    {
        let g: Group = groups[i];
        let m = &mentions[g.at];
        let e = TypeGraphEdgeView {
            from: m.from.clone(),
            to: m.to.clone(),
            relation: m.relation,
            count: g.count,
        };
        assert(e.key() =~= m.key());
        r.push(e);
    }
    proof {
        let keys = edge_keys(mentions@);
        assert forall|i: int| #![trigger r@[i]] 0 <= i < r@.len() implies r@[i].count > 0
            && r@[i].count == times(keys, r@[i].key()) by {
            assert(groups@[i].count > 0);
            lemma_times(mentions@, r@[i].key());
        }
        assert forall|i: int, j: int|
            #![trigger r@[i], r@[j]]
            0 <= i < j < r@.len() implies keys_lt(r@[i].key(), r@[j].key()) by {
            assert(groups@[i].at < mentions@.len() && groups@[j].at < mentions@.len());
        }
        assert forall|k: int| #![trigger keys[k]] 0 <= k < keys.len() implies has_edge(
            r@,
            keys[k],
        ) by {
            assert(keys[k] == mentions@[k].key());
            let w = choose|w: int|
                #![trigger groups@[w]]
                0 <= w < groups@.len() && mentions@[groups@[w].at as int].key()
                    == mentions@[k].key();
            assert(r@[w].key() == keys[k]);
        }
    }
    r
}

fn node_view(kb: &KnowledgeBase, at: usize) -> (r: TypeGraphNodeView)
    requires
        at < kb.catalog@.len(),
    ensures
        r@ == type_node_row(*kb, at as int),
{
    let entry = &kb.catalog[at];
    TypeGraphNodeView {
        path: entry.path.clone(),
        repo: repo_name_of(&kb.repos, entry.path.as_str()),
        kind: entry.served,
    }
}

/// The type graph at a scope: the type-defs in scope, with the edges of the
/// chosen kinds between them, and the instances that claim one of them when
/// `instance-of` is chosen. Nodes are sorted by path; edges by source, target and
/// relation.
pub fn type_graph_view(
    kb: &KnowledgeBase,
    repo: &Option<String>,
    scope: Scope,
    classes: EdgeClasses,
) -> (r: TypeGraphView)
    ensures
        r.repo == *repo,
        r.scope@ == scope.label_spec(),
        sorted(r.nodes@),
        type_node_views(r.nodes@).to_multiset() == type_node_rows(
            *kb,
            all_nodes(*kb, opt_view(*repo), scope, classes),
        ).to_multiset(),
        folds(r.edges@, all_mentions(*kb, opt_view(*repo), scope, classes)),
{
    let ghost rv = opt_view(*repo);
    let types = collect_types(kb, repo, scope);
    let ghost ts = ints(types@);
    let mut mentions: Vec<TypeGraphEdgeView> = Vec::new();
    let mut nodes: Vec<TypeGraphNodeView> = Vec::new();
    assert(edge_keys(mentions@) =~= Seq::empty());
    assert(type_node_views(nodes@) =~= type_node_rows(*kb, ts.take(0)));
    for i in 0..types.len()
        invariant
            ts == ints(types@),
            forall|k: int|
                #![trigger types@[k]]
                0 <= k < types@.len() ==> types@[k] < kb.catalog@.len(),
            edge_keys(mentions@) == defs_edges(*kb, ts, i as int, classes),
            type_node_views(nodes@) == type_node_rows(*kb, ts.take(i as int)),
    {
        let ghost before = nodes@;
        assert(ts[i as int] == types@[i as int]);
        push_def(kb, &types, types[i], classes, &mut mentions);
        let row = node_view(kb, types[i]);
        nodes.push(row);
        assert(type_node_views(nodes@) =~= type_node_views(before).push(row@));
        assert(type_node_rows(*kb, ts.take(i + 1)) =~= type_node_rows(*kb, ts.take(i as int)).push(
            row@,
        ));
        assert(type_node_views(nodes@) =~= type_node_rows(*kb, ts.take(i + 1)));
    }
    assert(ts.take(ts.len() as int) =~= ts);
    assert(ts.len() == types@.len());
    let ghost from_types = edge_keys(mentions@);
    let ghost p = |i: int| claim_edges(*kb, ts, rv, scope, i).len() > 0;
    if classes.instance_of {
        assert(from_types + claims_edges(*kb, ts, rv, scope, 0) =~= from_types);
        assert(ts + chosen(p, 0) =~= ts);
        for i in 0..kb.catalog.len()
            invariant
                ts == ints(types@),
                rv == opt_view(*repo),
                forall|k: int|
                    #![trigger types@[k]]
                    0 <= k < types@.len() ==> types@[k] < kb.catalog@.len(),
                p == (|i: int| claim_edges(*kb, ts, rv, scope, i).len() > 0),
                edge_keys(mentions@) == from_types + claims_edges(*kb, ts, rv, scope, i as int),
                type_node_views(nodes@) == type_node_rows(*kb, ts + chosen(p, i as int)),
        {
            let ghost before = nodes@;
            let ghost held = edge_keys(mentions@);
            let had: usize = mentions.len();
            push_instance(kb, &types, repo, scope, i, &mut mentions);
            assert(edge_keys(mentions@).len() == mentions@.len() && held.len() == had);
            assert(edge_keys(mentions@) =~= from_types + claims_edges(*kb, ts, rv, scope, i + 1));
            if mentions.len() > had {
                assert(p(i as int));
                let row = node_view(kb, i);
                nodes.push(row);
                assert(type_node_views(nodes@) =~= type_node_views(before).push(row@));
                assert(type_node_rows(*kb, (ts + chosen(p, i as int)).push(i as int))
                    =~= type_node_rows(*kb, ts + chosen(p, i as int)).push(row@));
                assert((ts + chosen(p, i as int)).push(i as int) =~= ts + chosen(p, i + 1));
                assert(type_node_views(nodes@) =~= type_node_rows(*kb, ts + chosen(p, i + 1)));
            } else {
                assert(!p(i as int));
            }
        }
    } else {
        assert(from_types + Seq::<Seq<Seq<char>>>::empty() =~= from_types);
        assert(ts + Seq::<int>::empty() =~= ts);
    }
    let edges = fold_mentions(mentions);
    let by_path = sort(nodes);
    proof {
        lemma_map_multiset(by_path@, nodes@, |n: TypeGraphNodeView| n@);
    }
    TypeGraphView { repo: copy_opt(repo), scope: scope.label(), nodes: by_path, edges }
}

/// What changed between two payloads of the type graph.
pub struct TypeGraphDelta {
    pub nodes_added: Vec<TypeGraphNodeView>,
    pub nodes_removed: Vec<String>,
    pub edges_added: Vec<TypeGraphEdgeView>,
    pub edges_removed: Vec<TypeGraphEdgeView>,
}

impl TypeGraphDelta {
    pub fn is_empty(&self) -> (r: bool)
        ensures
            r == (self.nodes_added@.len() == 0 && self.nodes_removed@.len() == 0
                && self.edges_added@.len() == 0 && self.edges_removed@.len() == 0),
    {
        self.nodes_added.len() == 0 && self.nodes_removed.len() == 0 && self.edges_added.len() == 0
            && self.edges_removed.len() == 0
    }
}

/// The change from `last` to `cur`. A node or an edge counts as added when it is
/// new or its record is another.
pub fn type_graph_delta(last: &TypeGraphView, cur: &TypeGraphView) -> (r: TypeGraphDelta)
    ensures
        r.nodes_added@ == changed_spec(last.nodes@, cur.nodes@),
        r.nodes_removed@ == gone_spec(last.nodes@, cur.nodes@).map_values(
            |n: TypeGraphNodeView| n.path,
        ),
        r.edges_added@ == changed_spec(last.edges@, cur.edges@),
        r.edges_removed@ == gone_spec(last.edges@, cur.edges@),
{
    let lost = gone(&last.nodes, &cur.nodes);
    let mut nodes_removed: Vec<String> = Vec::new();
    for i in 0..lost.len()
        invariant
            nodes_removed@ == lost@.take(i as int).map_values(|n: TypeGraphNodeView| n.path),
    {
        nodes_removed.push(lost[i].path.clone());
        assert(nodes_removed@ =~= lost@.take(i + 1).map_values(|n: TypeGraphNodeView| n.path));
    }
    assert(lost@.take(lost@.len() as int) =~= lost@);
    TypeGraphDelta {
        nodes_added: changed(&last.nodes, &cur.nodes),
        nodes_removed,
        edges_added: changed(&last.edges, &cur.edges),
        edges_removed: gone(&last.edges, &cur.edges),
    }
}

} // verus!
