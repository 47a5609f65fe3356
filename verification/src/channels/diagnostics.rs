//! The channel of the diagnostics.

use crate::diagnostics::{
    admitted, scoped_diagnostics, serve_diagnostics, served_at, Diagnostic, DiagnosticsScope,
};
use crate::frames::{change_frame, change_members, initial_members, initial_value_frame};
use crate::graph::nodes::ints;
use crate::json::{json_texts, jv, same_json, text_list, Json, JsonView, ObjectBuilder};
use crate::listing::{ascend, insert_text, inserted, lemma_inserted};
use crate::model::Repo;
use crate::text::{same, views};
use vstd::prelude::*;

verus! {

/// The diagnostics of one file, as they are served.
#[derive(Debug)]
pub struct FileDiagnostics {
    pub file: String,
    pub served: Json,
}

/// The positions among the first `n` of a list that belong to a file.
pub open spec fn of_file(all: Seq<Diagnostic>, at: Seq<int>, file: Seq<char>, n: int) -> Seq<int>
    decreases n,
{
    if n <= 0 {
        Seq::empty()
    } else if all[at[n - 1]].file@ == file {
        of_file(all, at, file, n - 1).push(at[n - 1])
    } else {
        of_file(all, at, file, n - 1)
    }
}

/// The files of the first `n` diagnostics of a list, in order, each once.
pub open spec fn files_of(all: Seq<Diagnostic>, at: Seq<int>, n: int) -> Seq<Seq<char>>
    decreases n,
{
    if n <= 0 {
        Seq::empty()
    } else {
        inserted(files_of(all, at, n - 1), all[at[n - 1]].file@)
    }
}

/// Whether this is the grouping of the listed diagnostics by file.
pub open spec fn is_by_file(g: Seq<FileDiagnostics>, all: Seq<Diagnostic>, at: Seq<int>) -> bool {
    &&& g.map_values(|f: FileDiagnostics| f.file@) == files_of(all, at, at.len() as int)
    &&& forall|i: int|
        #![trigger g[i]]
        0 <= i < g.len() ==> jv(g[i].served) == served_at(
            all,
            of_file(all, at, g[i].file@, at.len() as int),
        )
}

/// Groups diagnostics by file.
pub fn by_file(all: &Vec<Diagnostic>, at: &Vec<usize>) -> (r: Vec<FileDiagnostics>)
    requires
        forall|k: int| #![trigger at@[k]] 0 <= k < at@.len() ==> at@[k] < all@.len(),
    ensures
        is_by_file(r@, all@, ints(at@)),
{
    let ghost pos = ints(at@);
    let mut files: Vec<String> = Vec::new();
    assert(views(files@) =~= Seq::empty());
    for i in 0..at.len()
        invariant
            pos == ints(at@),
            forall|k: int| #![trigger at@[k]] 0 <= k < at@.len() ==> at@[k] < all@.len(),
            views(files@) == files_of(all@, pos, i as int),
    {
        assert(pos[i as int] == at@[i as int]);
        insert_text(&mut files, all[at[i]].file.clone());
    }
    let mut out: Vec<FileDiagnostics> = Vec::new();
    for f in 0..files.len()
        invariant
            pos == ints(at@),
            forall|k: int| #![trigger at@[k]] 0 <= k < at@.len() ==> at@[k] < all@.len(),
            out@.len() == f,
            forall|k: int|
                #![trigger out@[k]]
                0 <= k < f ==> out@[k].file == files@[k] && jv(out@[k].served) == served_at(
                    all@,
                    of_file(all@, pos, out@[k].file@, pos.len() as int),
                ),
    {
        let mut mine: Vec<usize> = Vec::new();
        assert(ints(mine@) =~= of_file(all@, pos, files@[f as int]@, 0));
        for i in 0..at.len()
            invariant
                pos == ints(at@),
                f < files@.len(),
                forall|k: int| #![trigger at@[k]] 0 <= k < at@.len() ==> at@[k] < all@.len(),
                forall|k: int| #![trigger mine@[k]] 0 <= k < mine@.len() ==> mine@[k] < all@.len(),
                ints(mine@) == of_file(all@, pos, files@[f as int]@, i as int),
        {
            assert(pos[i as int] == at@[i as int]);
            if same(all[at[i]].file.as_str(), files[f].as_str()) {
                let ghost before = mine@;
                mine.push(at[i]);
                assert(ints(mine@) =~= ints(before).push(at@[i as int] as int));
            }
        }
        assert(pos.len() == at@.len());
        out.push(FileDiagnostics { file: files[f].clone(), served: serve_diagnostics(all, &mine) });
    }
    assert(out@.map_values(|f: FileDiagnostics| f.file@) =~= views(files@));
    out
}

/// What a grouping has for a file, searching from `i` on.
pub open spec fn served_for(g: Seq<FileDiagnostics>, file: Seq<char>, i: int) -> Option<JsonView>
    decreases g.len() - i,
{
    if i < 0 || i >= g.len() {
        None
    } else if g[i].file@ == file {
        Some(jv(g[i].served))
    } else {
        served_for(g, file, i + 1)
    }
}

fn find_file(g: &Vec<FileDiagnostics>, file: &str) -> (r: Option<usize>)
    ensures
        match r {
            Some(i) => i < g@.len() && served_for(g@, file@, 0) == Some(jv(g@[i as int].served)),
            None => served_for(g@, file@, 0) is None,
        },
{
    for i in 0..g.len()
        invariant
            served_for(g@, file@, 0) == served_for(g@, file@, i as int),
    {
        if same(g[i].file.as_str(), file) {
            return Some(i);
        }
    }
    None
}

/// Whether the diagnostics of a file differ between two groupings.
pub open spec fn file_differs(last: Seq<FileDiagnostics>, cur: Seq<FileDiagnostics>, file: Seq<char>) -> bool {
    served_for(last, file, 0) != served_for(cur, file, 0)
}

/// The files of the first `n` entries of `of` that differ, put into `before`.
pub open spec fn differing(
    last: Seq<FileDiagnostics>,
    cur: Seq<FileDiagnostics>,
    of: Seq<FileDiagnostics>,
    before: Seq<Seq<char>>,
    n: int,
) -> Seq<Seq<char>>
    decreases n,
{
    if n <= 0 {
        before
    } else {
        let done = differing(last, cur, of, before, n - 1);
        if file_differs(last, cur, of[n - 1].file@) {
            inserted(done, of[n - 1].file@)
        } else {
            done
        }
    }
}

/// The files whose diagnostics changed, appeared or were cleared, in order, each
/// once.
pub open spec fn differing_files(last: Seq<FileDiagnostics>, cur: Seq<FileDiagnostics>) -> Seq<
    Seq<char>,
> {
    differing(
        last,
        cur,
        last,
        differing(last, cur, cur, Seq::empty(), cur.len() as int),
        last.len() as int,
    )
}

fn differs(last: &Vec<FileDiagnostics>, cur: &Vec<FileDiagnostics>, file: &str) -> (r: bool)
    ensures
        r == file_differs(last@, cur@, file@),
{
    match (find_file(last, file), find_file(cur, file)) {
        (Some(i), Some(j)) => !same_json(&last[i].served, &cur[j].served),
        (None, None) => false,
        _ => true,
    }
}

/// The files whose diagnostics differ.
pub fn changed_files(last: &Vec<FileDiagnostics>, cur: &Vec<FileDiagnostics>) -> (r: Vec<String>)
    ensures
        views(r@) == differing_files(last@, cur@),
{
    let mut out: Vec<String> = Vec::new();
    assert(views(out@) =~= Seq::empty());
    for i in 0..cur.len()
        invariant
            views(out@) == differing(last@, cur@, cur@, Seq::empty(), i as int),
    {
        if differs(last, cur, cur[i].file.as_str()) {
            insert_text(&mut out, cur[i].file.clone());
        }
    }
    let ghost before = views(out@);
    for i in 0..last.len()
        invariant
            before == differing(last@, cur@, cur@, Seq::empty(), cur@.len() as int),
            views(out@) == differing(last@, cur@, last@, before, i as int),
    {
        if differs(last, cur, last[i].file.as_str()) {
            insert_text(&mut out, last[i].file.clone());
        }
    }
    out
}

proof fn lemma_served_for(g: Seq<FileDiagnostics>, file: Seq<char>, i: int)
    requires
        0 <= i <= g.len(),
        served_for(g, file, i) is Some,
    ensures
        exists|k: int| i <= k < g.len() && (#[trigger] g[k]).file@ == file,
    decreases g.len() - i,
{
    if i < g.len() {
        if g[i].file@ == file {
            assert(g[i].file@ == file);
        } else {
            lemma_served_for(g, file, i + 1);
            let k = choose|k: int| i + 1 <= k < g.len() && (#[trigger] g[k]).file@ == file;
            assert(g[k].file@ == file);
        }
    }
}

proof fn lemma_differing(
    last: Seq<FileDiagnostics>,
    cur: Seq<FileDiagnostics>,
    of: Seq<FileDiagnostics>,
    before: Seq<Seq<char>>,
    n: int,
)
    requires
        0 <= n <= of.len(),
        ascend(before),
    ensures
        ascend(differing(last, cur, of, before, n)),
        forall|file: Seq<char>| #[trigger]
            differing(last, cur, of, before, n).contains(file) <==> before.contains(file) || (
            file_differs(last, cur, file) && exists|k: int|
                0 <= k < n && (#[trigger] of[k]).file@ == file),
    decreases n,
{
    if n > 0 {
        lemma_differing(last, cur, of, before, n - 1);
        let done = differing(last, cur, of, before, n - 1);
        let here = of[n - 1].file@;
        if file_differs(last, cur, here) {
            lemma_inserted(done, here);
        }
        let now = differing(last, cur, of, before, n);
        assert forall|file: Seq<char>| #[trigger] now.contains(file) <==> before.contains(file) || (
        file_differs(last, cur, file) && exists|k: int|
            0 <= k < n && (#[trigger] of[k]).file@ == file) by {
            assert(done.contains(file) <==> before.contains(file) || (file_differs(last, cur, file)
                && exists|k: int| 0 <= k < n - 1 && (#[trigger] of[k]).file@ == file));
            if file == here {
                assert(of[n - 1].file@ == file);
            }
        }
    }
}

/// The files that are told are exactly those whose diagnostics differ, in order,
/// each once.
pub proof fn differing_files_are_told(last: Seq<FileDiagnostics>, cur: Seq<FileDiagnostics>)
    ensures
        ascend(differing_files(last, cur)),
        forall|file: Seq<char>| #[trigger]
            differing_files(last, cur).contains(file) <==> file_differs(last, cur, file),
{
    let none: Seq<Seq<char>> = Seq::empty();
    let first = differing(last, cur, cur, none, cur.len() as int);
    lemma_differing(last, cur, cur, none, cur.len() as int);
    lemma_differing(last, cur, last, first, last.len() as int);
    assert forall|file: Seq<char>| #[trigger]
        differing_files(last, cur).contains(file) <==> file_differs(last, cur, file) by {
        assert(first.contains(file) <==> none.contains(file) || (file_differs(last, cur, file)
            && exists|k: int| 0 <= k < cur.len() && (#[trigger] cur[k]).file@ == file));
        if file_differs(last, cur, file) {
            if served_for(cur, file, 0) is Some {
                lemma_served_for(cur, file, 0);
            } else {
                lemma_served_for(last, file, 0);
            }
        }
    }
}

/// What an event of the channel covers.
pub open spec fn files_hint(files: Seq<Seq<char>>) -> JsonView {
    JsonView::Object(
        seq![("scope"@, JsonView::Text("files"@)), ("files"@, text_list(files))],
    )
}

/// The `diagnostics` channel.
#[derive(Debug)]
pub struct DiagnosticsWatch {
    pub id: u64,
    pub scope: DiagnosticsScope,
    pub last: Vec<FileDiagnostics>,
}

impl DiagnosticsWatch {
    /// A channel with the diagnostics of its scope at the time of the subscription.
    pub fn new(
        id: u64,
        scope: DiagnosticsScope,
        repos: &Vec<Repo>,
        all: &Vec<Diagnostic>,
    ) -> (r: Self)
        ensures
            r.id == id,
            r.scope == scope,
            is_by_file(r.last@, all@, admitted(repos@, all@, scope)),
    {
        let at = scoped_diagnostics(repos, all, &scope);
        let last = by_file(all, &at);
        DiagnosticsWatch { id, scope, last }
    }

    /// The diagnostics of the scope, in the order of the `diagnostics` read.
    pub fn initial_frame(&self, version: u64, repos: &Vec<Repo>, all: &Vec<Diagnostic>) -> (r: Json)
        ensures
            jv(r) == JsonView::Object(
                initial_members(
                    self.id as nat,
                    version as nat,
                    served_at(all@, admitted(repos@, all@, self.scope)),
                ),
            ),
    {
        let at = scoped_diagnostics(repos, all, &self.scope);
        initial_value_frame(self.id, version, serve_diagnostics(all, &at))
    }

    /// Tells the files whose diagnostics changed since the last event, unless there
    /// are none.
    pub fn wake(&mut self, version: u64, repos: &Vec<Repo>, all: &Vec<Diagnostic>) -> (r: Option<
        Json,
    >)
        ensures
            final(self).id == old(self).id,
            final(self).scope == old(self).scope,
            exists|cur: Seq<FileDiagnostics>|
                {
                    &&& #[trigger] is_by_file(cur, all@, admitted(repos@, all@, old(self).scope))
                    &&& match r {
                        Some(frame) => {
                            &&& differing_files(old(self).last@, cur).len() > 0
                            &&& jv(frame) == JsonView::Object(
                                change_members(
                                    old(self).id as nat,
                                    "diagnostics-changed"@,
                                    version as nat,
                                    files_hint(differing_files(old(self).last@, cur)),
                                ),
                            )
                            &&& final(self).last@ == cur
                        },
                        None => {
                            &&& differing_files(old(self).last@, cur).len() == 0
                            &&& final(self).last == old(self).last
                        },
                    }
                },
    {
        let at = scoped_diagnostics(repos, all, &self.scope);
        let cur = by_file(all, &at);
        assert(is_by_file(cur@, all@, admitted(repos@, all@, self.scope)));
        let changed = changed_files(&self.last, &cur);
        assert(views(changed@).len() == changed@.len());
        if changed.len() == 0 {
            return None;
        }
        let mut b = ObjectBuilder::new();
        b.put_text("scope", "files");
        b.put("files", json_texts(&changed));
        let ghost want = files_hint(views(changed@));
        assert(b@ =~= want->Object_0);
        self.last = cur;
        Some(change_frame(self.id, "diagnostics-changed", version, b.done()))
    }
}

} // verus!
