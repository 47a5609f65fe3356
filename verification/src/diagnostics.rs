//! The diagnostics of the knowledge base and the reads that filter them.

use crate::graph::nodes::{chosen, ints};
use crate::json::{copy_json, jv, Json, JsonView, ListBuilder};
use crate::model::{in_scope, node_in_scope, Repo, Scope};
use crate::paths::{abs_arg, is_within, joined_path, same_path, same_path_spec, within};
use crate::tally::{is_tally, key_count, tally, Group, Keyed};
use crate::text::{opt_view, same, str_views, text_lt};
use vstd::prelude::*;

verus! {

#[derive(Debug, Clone, Copy, PartialEq, Eq, Structural)]
pub enum Severity {
    Error,
    Drift,
    Warning,
    Hint,
}

/// The wire name of a severity.
pub open spec fn severity_label(s: Severity) -> Seq<char> {
    match s {
        Severity::Error => "error"@,
        Severity::Drift => "drift"@,
        Severity::Warning => "warning"@,
        Severity::Hint => "hint"@,
    }
}

pub fn severity_str(s: Severity) -> (r: &'static str)
    ensures
        r@ == severity_label(s),
{
    match s {
        Severity::Error => "error",
        Severity::Drift => "drift",
        Severity::Warning => "warning",
        Severity::Hint => "hint",
    }
}

/// A diagnostic: what a filter reads of it, and the whole of it as it is served.
#[derive(Debug)]
pub struct Diagnostic {
    pub file: String,
    pub severity: Severity,
    pub code: String,
    pub served: Json,
}

/// The filters of the diagnostics read and channel, as the caller gives them.
pub struct DiagnosticsFilterArgs {
    pub path: Option<String>,
    pub path_prefix: Option<String>,
    pub severity: Option<Severity>,
    pub code: Option<String>,
    pub limit: Option<usize>,
    pub offset: Option<usize>,
    pub repo: Option<String>,
    pub scope: Option<Scope>,
}

/// The filters with paths made absolute and the scope settled.
#[derive(Debug)]
pub struct DiagnosticsScope {
    pub path: Option<String>,
    pub path_prefix: Option<String>,
    pub severity: Option<Severity>,
    pub code: Option<String>,
    pub repo: Option<String>,
    pub scope: Scope,
}

/// A path argument made absolute.
pub open spec fn abs_view(root: Seq<char>, p: Option<String>) -> Option<Seq<char>> {
    match p {
        Some(s) => Some(joined_path(root, s@)),
        None => None,
    }
}

fn abs_opt(root: &str, p: &Option<String>) -> (r: Option<String>)
    ensures
        opt_view(r) == abs_view(root@, *p),
{
    match p {
        Some(s) => Some(abs_arg(root, s.as_str())),
        None => None,
    }
}

/// The scope that the filters run at: what the caller said, else everything when
/// the caller named a place, else only the caller's own repos.
pub open spec fn settled_scope(args: DiagnosticsFilterArgs) -> Scope {
    match args.scope {
        Some(s) => s,
        None => if args.repo is Some || args.path is Some || args.path_prefix is Some {
            Scope::All
        } else {
            Scope::Own
        },
    }
}

impl DiagnosticsFilterArgs {
    /// Settles the filters against the root of the knowledge base.
    pub fn resolve(self, root: &str) -> (r: DiagnosticsScope)
        ensures
            opt_view(r.path) == abs_view(root@, self.path),
            opt_view(r.path_prefix) == abs_view(root@, self.path_prefix),
            r.severity == self.severity,
            r.code == self.code,
            r.repo == self.repo,
            r.scope == settled_scope(self),
    {
        let pinned = self.repo.is_some() || self.path.is_some() || self.path_prefix.is_some();
        let scope = match self.scope {
            Some(s) => s,
            None => if pinned {
                Scope::All
            } else {
                Scope::Own
            },
        };
        DiagnosticsScope {
            path: abs_opt(root, &self.path),
            path_prefix: abs_opt(root, &self.path_prefix),
            severity: self.severity,
            code: self.code,
            repo: self.repo,
            scope,
        }
    }
}

impl DiagnosticsScope {
    /// No filter at all.
    pub fn everything() -> (r: Self)
        ensures
            r.path is None && r.path_prefix is None && r.severity is None && r.code is None
                && r.repo is None,
            r.scope == Scope::All,
    {
        DiagnosticsScope {
            path: None,
            path_prefix: None,
            severity: None,
            code: None,
            repo: None,
            scope: Scope::All,
        }
    }

    /// Whether the filter asks who owns a diagnostic.
    pub fn filters_by_repo(&self) -> (r: bool)
        ensures
            r == (self.repo is Some || self.scope == Scope::Own),
    {
        self.repo.is_some() || self.scope.own_only()
    }

    /// Whether a diagnostic passes every filter.
    pub open spec fn admits(self, repos: Seq<Repo>, d: Diagnostic) -> bool {
        &&& self.path matches Some(p) ==> same_path_spec(d.file@, p@)
        &&& self.path_prefix matches Some(p) ==> within(d.file@, p@)
        &&& self.severity matches Some(s) ==> d.severity == s
        &&& self.code matches Some(c) ==> d.code@ == c@
        &&& in_scope(repos, opt_view(self.repo), self.scope, d.file@)
    }

    /// Whether the owner of a diagnostic passes: the deepest repo that holds its
    /// file. One that no repo holds passes only without a filter on the owner.
    pub fn owner_matches(&self, repos: &Vec<Repo>, d: &Diagnostic) -> (r: bool)
        ensures
            r == in_scope(repos@, opt_view(self.repo), self.scope, d.file@),
    {
        node_in_scope(repos, &self.repo, self.scope, d.file.as_str())
    }

    /// Whether a diagnostic passes every filter.
    pub fn matches(&self, repos: &Vec<Repo>, d: &Diagnostic) -> (r: bool)
        ensures
            r == self.admits(repos@, *d),
    {
        let path_ok = match &self.path {
            Some(p) => same_path(d.file.as_str(), p.as_str()),
            None => true,
        };
        let prefix_ok = match &self.path_prefix {
            Some(p) => is_within(d.file.as_str(), p.as_str()),
            None => true,
        };
        let severity_ok = match self.severity {
            Some(s) => d.severity == s,
            None => true,
        };
        let code_ok = match &self.code {
            Some(c) => same(d.code.as_str(), c.as_str()),
            None => true,
        };
        path_ok && prefix_ok && severity_ok && code_ok && self.owner_matches(repos, d)
    }
}

/// The positions of the diagnostics that pass the filters.
pub open spec fn admitted(repos: Seq<Repo>, all: Seq<Diagnostic>, scope: DiagnosticsScope) -> Seq<
    int,
> {
    chosen(|i: int| scope.admits(repos, all[i]), all.len() as int)
}

/// The diagnostics that pass the filters, in order, by position.
pub fn scoped_diagnostics(repos: &Vec<Repo>, all: &Vec<Diagnostic>, scope: &DiagnosticsScope) -> (r:
    Vec<usize>)
    ensures
        ints(r@) == admitted(repos@, all@, *scope),
        forall|k: int| #![trigger r@[k]] 0 <= k < r@.len() ==> r@[k] < all@.len(),
{
    let mut r: Vec<usize> = Vec::new();
    let ghost p = |i: int| scope.admits(repos@, all@[i]);
    assert(ints(r@) =~= chosen(p, 0));
    for i in 0..all.len()
        invariant
            p == (|i: int| scope.admits(repos@, all@[i])),
            ints(r@) == chosen(p, i as int),
            forall|k: int| #![trigger r@[k]] 0 <= k < r@.len() ==> r@[k] < all@.len(),
    {
        if scope.matches(repos, &all[i]) {
            let ghost before = r@;
            r.push(i);
            assert(ints(r@) =~= ints(before).push(i as int));
        }
    }
    r
}

/// The served form of the diagnostics at these positions.
pub open spec fn served_at(all: Seq<Diagnostic>, at: Seq<int>) -> JsonView {
    JsonView::List(at.map_values(|i: int| jv(all[i].served)))
}

pub fn serve_diagnostics(all: &Vec<Diagnostic>, at: &Vec<usize>) -> (r: Json)
    requires
        forall|k: int| #![trigger at@[k]] 0 <= k < at@.len() ==> at@[k] < all@.len(),
    ensures
        jv(r) == served_at(all@, ints(at@)),
{
    let mut b = ListBuilder::new();
    let ghost rows = ints(at@).map_values(|i: int| jv(all@[i].served));
    assert(b@ =~= rows.take(0));
    for k in 0..at.len()
        invariant
            forall|k: int| #![trigger at@[k]] 0 <= k < at@.len() ==> at@[k] < all@.len(),
            rows == ints(at@).map_values(|i: int| jv(all@[i].served)),
            b@ == rows.take(k as int),
    {
        assert(ints(at@)[k as int] == at@[k as int]);
        b.put(copy_json(&all[at[k]].served));
        assert(b@ =~= rows.take(k + 1));
    }
    assert(rows.take(rows.len() as int) =~= rows);
    b.done()
}

/// A label to be counted.
pub struct Label {
    pub text: String,
}

impl Keyed for Label {
    open spec fn key(&self) -> Seq<Seq<char>> {
        seq![self.text@]
    }

    fn key_parts(&self) -> (r: Vec<&str>) {
        let mut k: Vec<&str> = Vec::new();
        k.push(self.text.as_str());
        assert(str_views(k@) =~= self.key());
        k
    }
}

/// How often a label occurs.
#[derive(Debug)]
pub struct LabelCount {
    pub label: String,
    pub count: usize,
}

/// How often `t` stands in a list.
pub open spec fn text_count(list: Seq<Seq<char>>, t: Seq<char>) -> nat
    decreases list.len(),
{
    if list.len() == 0 {
        0
    } else {
        text_count(list.drop_last(), t) + if list.last() == t {
            1nat
        } else {
            0
        }
    }
}

pub open spec fn counts_label(c: Seq<LabelCount>, t: Seq<char>) -> bool {
    exists|i: int| #![trigger c[i]] 0 <= i < c.len() && c[i].label@ == t
}

/// Whether the counts are those of the labels: each label that occurs, once and
/// in order, with how often it occurs.
pub open spec fn is_count(c: Seq<LabelCount>, labels: Seq<Seq<char>>) -> bool {
    &&& forall|i: int|
        #![trigger c[i]]
        0 <= i < c.len() ==> c[i].count > 0 && c[i].count == text_count(labels, c[i].label@)
    &&& forall|i: int, j: int|
        #![trigger c[i], c[j]]
        0 <= i < j < c.len() ==> text_lt(c[i].label@, c[j].label@)
    &&& forall|k: int|
        #![trigger labels[k]]
        0 <= k < labels.len() ==> counts_label(c, labels[k])
}

pub open spec fn label_views(v: Seq<Label>) -> Seq<Seq<char>> {
    v.map_values(|l: Label| l.text@)
}

proof fn lemma_label_count(v: Seq<Label>, t: Seq<char>)
    ensures
        text_count(label_views(v), t) == key_count(v, seq![t]),
    decreases v.len(),
{
    if v.len() > 0 {
        assert(label_views(v).drop_last() =~= label_views(v.drop_last()));
        lemma_label_count(v.drop_last(), t);
        let l = v.last();
        if l.text@ == t {
            assert(l.key() =~= seq![t]);
        } else {
            assert(l.key()[0] != seq![t][0]);
        }
    }
}

/// Counts labels.
pub fn count_labels(labels: Vec<Label>) -> (r: Vec<LabelCount>)
    ensures
        is_count(r@, label_views(labels@)),
{
    let groups = tally(&labels);
    let mut r: Vec<LabelCount> = Vec::new();
    for i in 0..groups.len()
        invariant
            is_tally(groups@, labels@),
            r@.len() == i,
            forall|k: int|
                #![trigger r@[k]]
                0 <= k < i ==> r@[k].label == labels@[groups@[k].at as int].text && r@[k].count
                    == groups@[k].count,
    {
        let g: Group = groups[i];
        r.push(LabelCount { label: labels[g.at].text.clone(), count: g.count });
    }
    proof {
        let keys = label_views(labels@);
        assert forall|i: int| #![trigger r@[i]] 0 <= i < r@.len() implies r@[i].count > 0
            && r@[i].count == text_count(keys, r@[i].label@) by {
            assert(groups@[i].count > 0);
            lemma_label_count(labels@, r@[i].label@);
            assert(labels@[groups@[i].at as int].key() =~= seq![r@[i].label@]);
        }
        assert forall|i: int, j: int|
            #![trigger r@[i], r@[j]]
            0 <= i < j < r@.len() implies text_lt(r@[i].label@, r@[j].label@) by {
            assert(groups@[i].at < labels@.len() && groups@[j].at < labels@.len());
            let a = labels@[groups@[i].at as int].key();
            let b = labels@[groups@[j].at as int].key();
            assert(crate::text::keys_lt(a, b));
            if a[0] == b[0] {
                assert(a.drop_first() =~= Seq::empty());
                assert(b.drop_first() =~= Seq::empty());
                assert(!crate::text::keys_lt(a.drop_first(), b.drop_first()));
            }
        }
        assert forall|k: int| #![trigger keys[k]] 0 <= k < keys.len() implies counts_label(
            r@,
            keys[k],
        ) by {
            assert(keys[k] == labels@[k].text@);
            let w = choose|w: int|
                #![trigger groups@[w]]
                0 <= w < groups@.len() && labels@[groups@[w].at as int].key() == labels@[k].key();
            assert(labels@[groups@[w].at as int].key()[0] == labels@[k].key()[0]);
            assert(r@[w].label@ == keys[k]);
        }
    }
    r
}

/// The number of diagnostics, by severity and by code.
#[derive(Debug)]
pub struct DiagnosticCountsView {
    pub total: usize,
    pub by_severity: Vec<LabelCount>,
    pub by_code: Vec<LabelCount>,
}

/// Counts the diagnostics that pass the filters.
pub fn diagnostic_counts_view(repos: &Vec<Repo>, all: &Vec<Diagnostic>, scope: &DiagnosticsScope) -> (r:
    DiagnosticCountsView)
    ensures
        r.total == admitted(repos@, all@, *scope).len(),
        is_count(
            r.by_severity@,
            admitted(repos@, all@, *scope).map_values(|i: int| severity_label(all@[i].severity)),
        ),
        is_count(
            r.by_code@,
            admitted(repos@, all@, *scope).map_values(|i: int| all@[i].code@),
        ),
{
    let at = scoped_diagnostics(repos, all, scope);
    let ghost ai = ints(at@);
    assert(ai.len() == at@.len());
    let mut severities: Vec<Label> = Vec::new();
    let mut codes: Vec<Label> = Vec::new();
    let ghost fs = |i: int| severity_label(all@[i].severity);
    let ghost fc = |i: int| all@[i].code@;
    assert(label_views(severities@) =~= ai.take(0).map_values(fs));
    assert(label_views(codes@) =~= ai.take(0).map_values(fc));
    for k in 0..at.len()
        invariant
            ai == ints(at@),
            forall|k: int| #![trigger at@[k]] 0 <= k < at@.len() ==> at@[k] < all@.len(),
            fs == (|i: int| severity_label(all@[i].severity)),
            fc == (|i: int| all@[i].code@),
            label_views(severities@) == ai.take(k as int).map_values(fs),
            label_views(codes@) == ai.take(k as int).map_values(fc),
    {
        let d = &all[at[k]];
        let ghost had_s = severities@;
        let ghost had_c = codes@;
        let a = Label { text: severity_str(d.severity).to_owned() };
        let b = Label { text: d.code.clone() };
        severities.push(a);
        codes.push(b);
        proof {
            assert(ai[k as int] == at@[k as int]);
            assert(ai.take(k + 1) =~= ai.take(k as int).push(at@[k as int] as int));
            assert(label_views(severities@) =~= label_views(had_s).push(a.text@));
            assert(label_views(codes@) =~= label_views(had_c).push(b.text@));
            assert(ai.take(k + 1).map_values(fs) =~= ai.take(k as int).map_values(fs).push(a.text@));
            assert(ai.take(k + 1).map_values(fc) =~= ai.take(k as int).map_values(fc).push(b.text@));
        }
    }
    assert(ai.take(ai.len() as int) =~= ai);
    DiagnosticCountsView {
        total: at.len(),
        by_severity: count_labels(severities),
        by_code: count_labels(codes),
    }
}

} // verus!
