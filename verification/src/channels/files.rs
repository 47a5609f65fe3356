//! The channels of the catalogued files: `changes` and `files`.

use crate::frames::{change_frame, change_members, initial_members, initial_value_frame};
use crate::graph::delta::{
    altered, altered_spec, gone, gone_spec, held, is_altered, lemma_latest, pick, Listed,
};
use crate::graph::nodes::{chosen, lemma_chosen};
use crate::json::{
    json_texts, jv, render_list, rendered_list, text_list, Json, JsonView, ObjectBuilder, Rendered,
};
use crate::model::{CatalogEntry, KnowledgeBase};
use crate::paths::{path_lt, same_path, same_path_spec};
use crate::text::{same_opt, views};
use vstd::prelude::*;

verus! {

/// A catalogued file with the digest of its content, if it was read.
#[derive(Debug)]
pub struct FileState {
    pub path: String,
    pub hash: Option<String>,
}

impl Listed for FileState {
    open spec fn same_id(&self, other: &Self) -> bool {
        same_path_spec(self.path@, other.path@)
    }

    open spec fn same_record(&self, other: &Self) -> bool {
        crate::text::opt_view(self.hash) == crate::text::opt_view(other.hash)
    }

    fn is_same_id(&self, other: &Self) -> (r: bool) {
        same_path(self.path.as_str(), other.path.as_str())
    }

    fn is_same_record(&self, other: &Self) -> (r: bool) {
        same_opt(&self.hash, &other.hash)
    }

    fn duplicate(&self) -> (r: Self) {
        FileState {
            path: self.path.clone(),
            hash: match &self.hash {
                Some(h) => Some(h.clone()),
                None => None,
            },
        }
    }
}

impl Rendered for FileState {
    open spec fn rendered(&self) -> JsonView {
        JsonView::Object(seq![("path"@, JsonView::Text(self.path@))])
    }

    fn render(&self) -> (r: Json) {
        let mut b = ObjectBuilder::new();
        b.put_text("path", self.path.as_str());
        assert(b@ =~= self.rendered()->Object_0);
        b.done()
    }
}

/// The catalogued files as they are, in the order of the catalog.
pub fn files_snapshot(catalog: &Vec<CatalogEntry>) -> (r: Vec<FileState>)
    ensures
        r@.len() == catalog@.len(),
        forall|i: int|
            #![trigger r@[i]]
            0 <= i < r@.len() ==> r@[i] == (FileState {
                path: catalog@[i].path,
                hash: catalog@[i].hash,
            }),
{
    let mut out: Vec<FileState> = Vec::new();
    for i in 0..catalog.len()
        invariant
            out@.len() == i,
            forall|k: int|
                #![trigger out@[k]]
                0 <= k < i ==> out@[k] == (FileState {
                    path: catalog@[k].path,
                    hash: catalog@[k].hash,
                }),
    {
        let hash = match &catalog[i].hash {
            Some(h) => Some(h.clone()),
            None => None,
        };
        out.push(FileState { path: catalog[i].path.clone(), hash });
    }
    out
}

/// The paths of some files.
pub open spec fn paths_of(v: Seq<FileState>) -> Seq<Seq<char>> {
    v.map_values(|f: FileState| f.path@)
}

fn list_paths(v: &Vec<FileState>) -> (r: Vec<String>)
    ensures
        views(r@) == paths_of(v@),
{
    let mut out: Vec<String> = Vec::new();
    for i in 0..v.len()
        invariant
            out@.len() == i,
            forall|k: int| #![trigger out@[k]] 0 <= k < i ==> out@[k] == v@[k].path,
    {
        out.push(v[i].path.clone());
    }
    assert(views(out@) =~= paths_of(v@));
    out
}

/// The net change between two states of the catalog.
#[derive(Debug)]
pub struct FilesDelta {
    pub added: Vec<String>,
    pub removed: Vec<String>,
    pub modified: Vec<String>,
}

impl FilesDelta {
    /// Whether this is the change from `last` to `cur`.
    pub open spec fn leads(self, last: Seq<FileState>, cur: Seq<FileState>) -> bool {
        &&& views(self.added@) == paths_of(gone_spec(cur, last))
        &&& views(self.removed@) == paths_of(gone_spec(last, cur))
        &&& views(self.modified@) == paths_of(altered_spec(last, cur))
    }

    pub fn is_empty(&self) -> (r: bool)
        ensures
            r == (self.added@.len() == 0 && self.removed@.len() == 0 && self.modified@.len() == 0),
    {
        self.added.len() == 0 && self.removed.len() == 0 && self.modified.len() == 0
    }
}

/// The files that appeared, vanished or changed their content.
pub fn files_delta(last: &Vec<FileState>, cur: &Vec<FileState>) -> (r: FilesDelta)
    ensures
        r.leads(last@, cur@),
{
    let added = list_paths(&gone(cur, last));
    let removed = list_paths(&gone(last, cur));
    let modified = list_paths(&altered(last, cur));
    FilesDelta { added, removed, modified }
}

/// Whether a list of files has this path.
pub open spec fn has_file(v: Seq<FileState>, path: Seq<char>) -> bool {
    exists|i: int| 0 <= i < v.len() && same_path_spec((#[trigger] v[i]).path@, path)
}

/// Whether a list of paths has this path.
pub open spec fn has_path(v: Seq<Seq<char>>, path: Seq<char>) -> bool {
    exists|i: int| 0 <= i < v.len() && same_path_spec(#[trigger] v[i], path)
}

proof fn lemma_gone(a: Seq<FileState>, b: Seq<FileState>, path: Seq<char>)
    ensures
        has_path(paths_of(gone_spec(a, b)), path) <==> has_file(a, path) && !has_file(b, path),
{
    let n = a.len() as int;
    let p = |i: int| held(b, a[i]) is None;
    let at = chosen(p, n);
    lemma_chosen(p, n);
    let paths = paths_of(gone_spec(a, b));
    assert(paths.len() == at.len());
    if has_path(paths, path) {
        let k = choose|k: int| 0 <= k < paths.len() && same_path_spec(#[trigger] paths[k], path);
        let i = at[k];
        assert(p(i));
        assert(paths[k] == a[i].path@);
        lemma_latest(b, a[i], b.len() as int);
        assert(has_file(a, path));
        if has_file(b, path) {
            let j = choose|j: int| 0 <= j < b.len() && same_path_spec((#[trigger] b[j]).path@, path);
            assert(b[j].same_id(&a[i]));
        }
    }
    if has_file(a, path) && !has_file(b, path) {
        let i = choose|i: int| 0 <= i < n && same_path_spec((#[trigger] a[i]).path@, path);
        lemma_latest(b, a[i], b.len() as int);
        if held(b, a[i]) is Some {
            let j = held(b, a[i])->0;
            assert(b[j].same_id(&a[i]));
            assert(same_path_spec(b[j].path@, path));
        }
        assert(p(i));
        assert(at.contains(i));
        let k = at.index_of(i);
        assert(paths[k] == a[i].path@);
    }
}

/// A subscriber that drops the removed paths from what it holds and takes up the
/// added ones holds the paths of today.
pub proof fn a_delta_leads_from_last_to_cur(
    delta: FilesDelta,
    last: Seq<FileState>,
    cur: Seq<FileState>,
    path: Seq<char>,
)
    requires
        delta.leads(last, cur),
    ensures
        has_file(cur, path) <==> (has_file(last, path) && !has_path(views(delta.removed@), path))
            || has_path(views(delta.added@), path),
{
    lemma_gone(cur, last, path);
    lemma_gone(last, cur, path);
}

/// Whether paths ascend.
pub open spec fn in_path_order(v: Seq<Seq<char>>) -> bool {
    forall|i: int, j: int| #![trigger v[i], v[j]] 0 <= i < j < v.len() ==> path_lt(v[i], v[j])
}

proof fn lemma_picked_in_order(v: Seq<FileState>, p: spec_fn(int) -> bool)
    requires
        in_path_order(paths_of(v)),
    ensures
        in_path_order(paths_of(pick(v, chosen(p, v.len() as int)))),
{
    let at = chosen(p, v.len() as int);
    let got = paths_of(pick(v, at));
    lemma_chosen(p, v.len() as int);
    assert forall|i: int, j: int| #![trigger got[i], got[j]] 0 <= i < j < got.len() implies path_lt(
        got[i],
        got[j],
    ) by {
        assert(at[i] < at[j]);
        assert(got[i] == paths_of(v)[at[i]]);
        assert(got[j] == paths_of(v)[at[j]]);
    }
}

/// The files of a knowledge base are listed in the order of their paths, and so is what
/// a delta between two of them tells.
pub proof fn file_lists_are_sorted(
    before: KnowledgeBase,
    after: KnowledgeBase,
    last: Seq<FileState>,
    cur: Seq<FileState>,
    delta: FilesDelta,
)
    requires
        before.wf(),
        after.wf(),
        last.len() == before.catalog@.len(),
        forall|i: int|
            #![trigger last[i]]
            0 <= i < last.len() ==> last[i].path == before.catalog@[i].path,
        cur.len() == after.catalog@.len(),
        forall|i: int|
            #![trigger cur[i]]
            0 <= i < cur.len() ==> cur[i].path == after.catalog@[i].path,
        delta.leads(last, cur),
    ensures
        in_path_order(paths_of(cur)),
        in_path_order(views(delta.added@)),
        in_path_order(views(delta.removed@)),
        in_path_order(views(delta.modified@)),
{
    assert(in_path_order(paths_of(last))) by {
        assert forall|i: int, j: int|
            #![trigger paths_of(last)[i], paths_of(last)[j]]
            0 <= i < j < last.len() implies path_lt(paths_of(last)[i], paths_of(last)[j]) by {
            assert(last[i].path == before.catalog@[i].path);
            assert(last[j].path == before.catalog@[j].path);
        }
    }
    assert(in_path_order(paths_of(cur))) by {
        assert forall|i: int, j: int|
            #![trigger paths_of(cur)[i], paths_of(cur)[j]]
            0 <= i < j < cur.len() implies path_lt(paths_of(cur)[i], paths_of(cur)[j]) by {
            assert(cur[i].path == after.catalog@[i].path);
            assert(cur[j].path == after.catalog@[j].path);
        }
    }
    lemma_picked_in_order(cur, |i: int| held(last, cur[i]) is None);
    lemma_picked_in_order(last, |i: int| held(cur, last[i]) is None);
    lemma_picked_in_order(cur, |i: int| is_altered(last, cur[i]));
}

/// What an event of the `changes` channel covers.
pub open spec fn delta_hint(d: FilesDelta) -> JsonView {
    JsonView::Object(
        seq![
            ("scope"@, JsonView::Text("files"@)),
            ("added"@, text_list(views(d.added@))),
            ("removed"@, text_list(views(d.removed@))),
            ("modified"@, text_list(views(d.modified@))),
        ],
    )
}

/// The `changes` channel: every change of the catalogued files.
#[derive(Debug)]
pub struct ChangesWatch {
    pub id: u64,
    pub last: Vec<FileState>,
}

impl ChangesWatch {
    /// A channel with the files at the time of the subscription; with none before
    /// the first build, so that it tells them all.
    pub fn new(id: u64, last: Option<Vec<FileState>>) -> (r: Self)
        ensures
            r.id == id,
            r.last@ == (match last {
                Some(v) => v@,
                None => Seq::empty(),
            }),
    {
        let last = match last {
            Some(v) => v,
            None => Vec::new(),
        };
        ChangesWatch { id, last }
    }

    /// Tells what changed since the last event, unless nothing did.
    pub fn wake(&mut self, version: u64, cur: Vec<FileState>) -> (r: Option<Json>)
        ensures
            final(self).id == old(self).id,
            exists|d: FilesDelta|
                {
                    &&& #[trigger] d.leads(old(self).last@, cur@)
                    &&& match r {
                        Some(frame) => {
                            &&& d.added@.len() + d.removed@.len() + d.modified@.len() > 0
                            &&& jv(frame) == JsonView::Object(
                                change_members(
                                    old(self).id as nat,
                                    "knowledge-base-changed"@,
                                    version as nat,
                                    delta_hint(d),
                                ),
                            )
                            &&& final(self).last@ == cur@
                        },
                        None => {
                            &&& d.added@.len() == 0 && d.removed@.len() == 0 && d.modified@.len() == 0
                            &&& final(self).last == old(self).last
                        },
                    }
                },
    {
        let delta = files_delta(&self.last, &cur);
        assert(delta.leads(self.last@, cur@));
        if delta.is_empty() {
            return None;
        }
        let mut b = ObjectBuilder::new();
        b.put_text("scope", "files");
        b.put("added", json_texts(&delta.added));
        b.put("removed", json_texts(&delta.removed));
        b.put("modified", json_texts(&delta.modified));
        let ghost want = delta_hint(delta);
        assert(b@ =~= want->Object_0);
        self.last = cur;
        Some(change_frame(self.id, "knowledge-base-changed", version, b.done()))
    }
}

/// What an event of the `files` channel covers.
pub open spec fn paths_hint(added: Seq<Seq<char>>, removed: Seq<Seq<char>>) -> JsonView {
    JsonView::Object(
        seq![
            ("scope"@, JsonView::Text("files"@)),
            ("added"@, text_list(added)),
            ("removed"@, text_list(removed)),
        ],
    )
}

/// The `files` channel: the catalogued paths.
#[derive(Debug)]
pub struct FilesWatch {
    pub id: u64,
    pub last: Vec<FileState>,
}

impl FilesWatch {
    pub fn new(id: u64, last: Vec<FileState>) -> (r: Self)
        ensures
            r.id == id,
            r.last == last,
    {
        FilesWatch { id, last }
    }

    /// The paths at the time of the subscription.
    pub fn initial_frame(&self, version: u64) -> (r: Json)
        ensures
            jv(r) == JsonView::Object(
                initial_members(self.id as nat, version as nat, rendered_list(self.last@)),
            ),
    {
        initial_value_frame(self.id, version, render_list(&self.last))
    }

    /// Tells the paths that appeared and vanished since the last event, unless
    /// there are none. A file whose content alone changed is not told.
    pub fn wake(&mut self, version: u64, cur: Vec<FileState>) -> (r: Option<Json>)
        ensures
            final(self).id == old(self).id,
            ({
                let added = paths_of(gone_spec(cur@, old(self).last@));
                let removed = paths_of(gone_spec(old(self).last@, cur@));
                match r {
                    Some(frame) => {
                        &&& added.len() + removed.len() > 0
                        &&& jv(frame) == JsonView::Object(
                            change_members(
                                old(self).id as nat,
                                "files-changed"@,
                                version as nat,
                                paths_hint(added, removed),
                            ),
                        )
                        &&& final(self).last@ == cur@
                    },
                    None => {
                        &&& added.len() == 0 && removed.len() == 0
                        &&& final(self).last == old(self).last
                    },
                }
            }),
    {
        let added = list_paths(&gone(&cur, &self.last));
        let removed = list_paths(&gone(&self.last, &cur));
        assert(views(added@).len() == added@.len() && views(removed@).len() == removed@.len());
        if added.len() == 0 && removed.len() == 0 {
            return None;
        }
        let mut b = ObjectBuilder::new();
        b.put_text("scope", "files");
        b.put("added", json_texts(&added));
        b.put("removed", json_texts(&removed));
        let ghost want = paths_hint(views(added@), views(removed@));
        assert(b@ =~= want->Object_0);
        self.last = cur;
        Some(change_frame(self.id, "files-changed", version, b.done()))
    }
}

} // verus!
