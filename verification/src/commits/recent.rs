//! The stream of recent commits: a page of the newest, then each commit as it
//! appears. A commit that the stream holds is not told again.

use crate::commits::meta::{int_json, json_int, json_trailers, trailer_list};
use crate::frames::{
    change_frame, change_members, initial_members, initial_value_frame,
};
use crate::json::{
    json_texts, jv, text_list, with_opt_text, Json, JsonView, ListBuilder, ObjectBuilder,
};
use crate::paths::{same_path, same_path_spec};
use crate::saga::plan::CommitTrailer;
use crate::text::{contains, holds, opt_view, views};
use vstd::prelude::*;

verus! {

/// The bound on the commits of a read that names neither a bound nor a time.
pub const DEFAULT_RECENT_COMMITS_LIMIT: usize = 100;

/// The bound on the commits of a read. A time is a bound of its own.
pub fn effective_limit(limit: Option<usize>, since: &Option<String>) -> (r: Option<usize>)
    ensures
        r == (match limit {
            Some(n) => Some(n),
            None => if since is None {
                Some(DEFAULT_RECENT_COMMITS_LIMIT)
            } else {
                None
            },
        }),
{
    match limit {
        Some(n) => Some(n),
        None => if since.is_none() {
            Some(DEFAULT_RECENT_COMMITS_LIMIT)
        } else {
            None
        },
    }
}

/// A file that a commit changed.
#[derive(Debug)]
pub struct ChangedFile {
    pub path: String,
    pub status: &'static str,
    /// The path before a rename.
    pub from: Option<String>,
}

/// A commit with the working tree that it was made in.
#[derive(Debug)]
pub struct RecentCommit {
    pub commit: String,
    pub tree: String,
    /// The members that live in the tree.
    pub members: Vec<String>,
    pub author_name: String,
    pub author_email: String,
    pub timestamp: i64,
    pub subject: String,
    pub changed_files: Vec<ChangedFile>,
    pub trailers: Vec<CommitTrailer>,
}

pub open spec fn changed_json(f: ChangedFile) -> JsonView {
    JsonView::Object(
        with_opt_text(
            seq![("path"@, JsonView::Text(f.path@)), ("status"@, JsonView::Text(f.status@))],
            "from"@,
            opt_view(f.from),
        ),
    )
}

pub open spec fn changed_list(v: Seq<ChangedFile>) -> JsonView {
    JsonView::List(Seq::new(v.len(), |i: int| changed_json(v[i])))
}

fn json_changed(v: &Vec<ChangedFile>) -> (r: Json)
    ensures
        jv(r) == changed_list(v@),
{
    let mut list = ListBuilder::new();
    let ghost all = Seq::new(v@.len(), |i: int| changed_json(v@[i]));
    assert(list@ =~= all.take(0));
    for i in 0..v.len()
        invariant
            all == Seq::new(v@.len(), |i: int| changed_json(v@[i])),
            list@ == all.take(i as int),
    {
        let mut b = ObjectBuilder::new();
        b.put_text("path", v[i].path.as_str());
        b.put_text("status", v[i].status);
        assert(b@ =~= seq![
            ("path"@, JsonView::Text(v@[i as int].path@)),
            ("status"@, JsonView::Text(v@[i as int].status@)),
        ]);
        b.put_opt_text("from", &v[i].from);
        list.put(b.done());
        assert(list@ =~= all.take(i + 1));
    }
    assert(all.take(all.len() as int) =~= all);
    list.done()
}

/// A commit on the wire.
pub open spec fn row_json(c: RecentCommit) -> JsonView {
    JsonView::Object(
        seq![
            ("commit"@, JsonView::Text(c.commit@)),
            ("tree"@, JsonView::Text(c.tree@)),
            ("members"@, text_list(views(c.members@))),
            (
                "author"@,
                JsonView::Object(
                    seq![
                        ("name"@, JsonView::Text(c.author_name@)),
                        ("email"@, JsonView::Text(c.author_email@)),
                    ],
                ),
            ),
            ("timestamp"@, int_json(c.timestamp as int)),
            ("subject"@, JsonView::Text(c.subject@)),
            ("changed_files"@, changed_list(c.changed_files@)),
            ("trailers"@, trailer_list(c.trailers@)),
        ],
    )
}

fn json_row(c: &RecentCommit) -> (r: Json)
    ensures
        jv(r) == row_json(*c),
{
    let mut author = ObjectBuilder::new();
    author.put_text("name", c.author_name.as_str());
    author.put_text("email", c.author_email.as_str());
    assert(author@ =~= seq![
        ("name"@, JsonView::Text(c.author_name@)),
        ("email"@, JsonView::Text(c.author_email@)),
    ]);
    let mut b = ObjectBuilder::new();
    b.put_text("commit", c.commit.as_str());
    b.put_text("tree", c.tree.as_str());
    b.put("members", json_texts(&c.members));
    b.put("author", author.done());
    b.put("timestamp", json_int(c.timestamp));
    b.put_text("subject", c.subject.as_str());
    b.put("changed_files", json_changed(&c.changed_files));
    b.put("trailers", json_trailers(&c.trailers));
    let ghost want = row_json(*c);
    assert(b@ =~= want->Object_0);
    b.done()
}

/// Commits on the wire.
pub open spec fn row_list(rows: Seq<RecentCommit>) -> JsonView {
    JsonView::List(Seq::new(rows.len(), |i: int| row_json(rows[i])))
}

/// The commits of a read on the wire.
pub fn recent_rows(rows: &Vec<RecentCommit>) -> (r: Json)
    ensures
        jv(r) == row_list(rows@),
{
    let mut list = ListBuilder::new();
    let ghost all = Seq::new(rows@.len(), |i: int| row_json(rows@[i]));
    assert(list@ =~= all.take(0));
    for i in 0..rows.len()
        invariant
            all == Seq::new(rows@.len(), |i: int| row_json(rows@[i])),
            list@ == all.take(i as int),
    {
        list.put(json_row(&rows[i]));
        assert(list@ =~= all.take(i + 1));
    }
    assert(all.take(all.len() as int) =~= all);
    list.done()
}

/// A working tree with the commits that were last read from its log.
#[derive(Debug)]
pub struct TreeLog {
    pub tree: String,
    pub members: Vec<String>,
    pub commits: Vec<String>,
}

/// Whether one of the working trees holds this commit.
pub open spec fn is_held(trees: Seq<TreeLog>, commit: Seq<char>) -> bool {
    exists|t: int| 0 <= t < trees.len() && holds(#[trigger] trees[t].commits@, commit)
}

/// Every commit that the working trees hold.
pub fn held_commits(trees: &Vec<TreeLog>) -> (r: Vec<String>)
    ensures
        forall|c: Seq<char>| #[trigger] holds(r@, c) == is_held(trees@, c),
{
    let mut out: Vec<String> = Vec::new();
    for t in 0..trees.len()
        invariant
            forall|c: Seq<char>| #[trigger] holds(out@, c) == is_held(trees@.take(t as int), c),
    {
        let ghost before = out@;
        let commits = &trees[t].commits;
        for k in 0..commits.len()
            invariant
                forall|c: Seq<char>|
                    #[trigger] holds(out@, c) == (holds(before, c) || holds(
                        commits@.take(k as int),
                        c,
                    )),
        {
            let ghost had = out@;
            out.push(commits[k].clone());
            proof {
                let part = commits@.take(k as int);
                let next = commits@.take(k + 1);
                assert forall|c: Seq<char>| #[trigger] holds(out@, c) == (holds(before, c) || holds(
                    next,
                    c,
                )) by {
                    assert(holds(had, c) == (holds(before, c) || holds(part, c)));
                    if holds(out@, c) {
                        let i = choose|i: int| 0 <= i < out@.len() && #[trigger] out@[i]@ == c;
                        if i < had.len() {
                            assert(had[i]@ == c);
                            if holds(part, c) {
                                let j = choose|j: int| 0 <= j < part.len() && #[trigger] part[j]@ == c;
                                assert(next[j]@ == c);
                            }
                        } else {
                            assert(next[k as int]@ == c);
                        }
                    }
                    if holds(had, c) {
                        let i = choose|i: int| 0 <= i < had.len() && #[trigger] had[i]@ == c;
                        assert(out@[i]@ == c);
                    }
                    if holds(next, c) {
                        let j = choose|j: int| 0 <= j < next.len() && #[trigger] next[j]@ == c;
                        if j < k {
                            assert(part[j]@ == c);
                        } else {
                            assert(out@[had.len() as int]@ == c);
                        }
                    }
                }
            }
        }
        proof {
            assert(commits@.take(commits@.len() as int) =~= commits@);
            let part = trees@.take(t as int);
            let next = trees@.take(t + 1);
            assert forall|c: Seq<char>| #[trigger] holds(out@, c) == is_held(next, c) by {
                assert(holds(before, c) == is_held(part, c));
                if is_held(part, c) {
                    let i = choose|i: int|
                        0 <= i < part.len() && holds(#[trigger] part[i].commits@, c);
                    assert(holds(next[i].commits@, c));
                }
                if holds(commits@, c) {
                    assert(holds(next[t as int].commits@, c));
                }
                if is_held(next, c) {
                    let i = choose|i: int|
                        0 <= i < next.len() && holds(#[trigger] next[i].commits@, c);
                    if i < t {
                        assert(holds(part[i].commits@, c));
                    }
                }
            }
        }
    }
    assert(trees@.take(trees@.len() as int) =~= trees@);
    out
}

/// What the watcher of the working trees reports.
#[derive(Debug)]
pub enum TreeEvent {
    /// The log of a working tree moved.
    Moved(String),
    /// Reports were lost.
    Lagged,
}

/// The working tree with this path, searching from `i` on.
pub open spec fn tree_from(trees: Seq<TreeLog>, path: Seq<char>, i: int) -> Option<int>
    decreases trees.len() - i,
{
    if i < 0 || i >= trees.len() {
        None
    } else if same_path_spec(trees[i].tree@, path) {
        Some(i)
    } else {
        tree_from(trees, path, i + 1)
    }
}

/// The commits that were not told before.
pub open spec fn new_rows(rows: Seq<RecentCommit>, told: Seq<String>, n: int) -> Seq<JsonView>
    decreases n,
{
    if n <= 0 {
        Seq::empty()
    } else if holds(told, rows[n - 1].commit@) {
        new_rows(rows, told, n - 1)
    } else {
        new_rows(rows, told, n - 1).push(row_json(rows[n - 1]))
    }
}

/// What a change of the stream covers: the commits that appeared.
pub open spec fn appeared_hint(rows: Seq<JsonView>) -> JsonView {
    JsonView::Object(
        seq![("scope"@, JsonView::Text("recent_commits"@)), ("commits"@, JsonView::List(rows))],
    )
}

/// A subscription to the commits of some working trees.
#[derive(Debug)]
pub struct CommitStream {
    pub subscription_id: u64,
    pub trees: Vec<TreeLog>,
    /// The commits that were held when the subscriber was last told.
    pub told: Vec<String>,
}

impl CommitStream {
    /// Whether what was told is what is held: so it is between two events.
    pub open spec fn settled(self) -> bool {
        forall|c: Seq<char>| #[trigger] holds(self.told@, c) == is_held(self.trees@, c)
    }

    /// A stream that counts everything held as told, whether or not the first page
    /// has room for it.
    pub fn seed(subscription_id: u64, trees: Vec<TreeLog>) -> (r: Self)
        ensures
            r.subscription_id == subscription_id,
            r.trees == trees,
            r.settled(),
    {
        let told = held_commits(&trees);
        CommitStream { subscription_id, trees, told }
    }

    /// The first frame: the page of the newest commits.
    pub fn initial_frame(&self, at_version: Option<u64>, page: &Vec<RecentCommit>) -> (r: Json)
        ensures
            jv(r) == JsonView::Object(
                initial_members(
                    self.subscription_id as nat,
                    (match at_version {
                        Some(v) => v as nat,
                        None => 0,
                    }),
                    row_list(page@),
                ),
            ),
    {
        let at: u64 = match at_version {
            Some(v) => v,
            None => 0,
        };
        initial_value_frame(self.subscription_id, at, recent_rows(page))
    }

    /// The working trees whose log is to be read again: the one that moved, if it
    /// is held, or all of them when reports were lost.
    pub fn to_relog(&self, event: &TreeEvent) -> (r: Vec<usize>)
        ensures
            r@.map_values(|i: usize| i as int) == (match *event {
                TreeEvent::Moved(path) => match tree_from(self.trees@, path@, 0) {
                    Some(i) => seq![i],
                    None => Seq::empty(),
                },
                TreeEvent::Lagged => Seq::new(self.trees@.len(), |i: int| i),
            }),
            forall|k: int| #![trigger r@[k]] 0 <= k < r@.len() ==> r@[k] < self.trees@.len(),
    {
        let mut out: Vec<usize> = Vec::new();
        match event {
            TreeEvent::Moved(path) => {
                for i in 0..self.trees.len()
                    invariant
                        out@.len() == 0,
                        *event == TreeEvent::Moved(*path),
                        tree_from(self.trees@, path@, 0) == tree_from(
                            self.trees@,
                            path@,
                            i as int,
                        ),
                {
                    if same_path(self.trees[i].tree.as_str(), path.as_str()) {
                        out.push(i);
                        assert(out@.map_values(|i: usize| i as int) =~= seq![i as int]);
                        return out;
                    }
                }
                assert(out@.map_values(|i: usize| i as int) =~= Seq::<int>::empty());
            },
            TreeEvent::Lagged => {
                for i in 0..self.trees.len()
                    invariant
                        out@.len() == i,
                        forall|k: int| #![trigger out@[k]] 0 <= k < i ==> out@[k] == k,
                {
                    out.push(i);
                }
                assert(out@.map_values(|i: usize| i as int) =~= Seq::new(
                    self.trees@.len(),
                    |i: int| i,
                ));
            },
        }
        out
    }

    /// Takes over the log of a working tree that was read again.
    pub fn relogged(&mut self, tree: usize, commits: Vec<String>)
        requires
            tree < old(self).trees@.len(),
        ensures
            final(self).trees@.len() == old(self).trees@.len(),
            forall|i: int|
                #![trigger final(self).trees@[i]]
                0 <= i < old(self).trees@.len() ==> final(self).trees@[i] == (if i == tree {
                    TreeLog { commits, ..old(self).trees@[i] }
                } else {
                    old(self).trees@[i]
                }),
            final(self).told == old(self).told,
            final(self).subscription_id == old(self).subscription_id,
    {
        let old_log = self.trees.remove(tree);
        let log = TreeLog { tree: old_log.tree, members: old_log.members, commits };
        self.trees.insert(tree, log);
    }

    /// Tells the commits that appeared: those of the merged logs that were not held
    /// before. Nothing is sent when there are none. What is held now counts as told.
    pub fn appeared(&mut self, at_version: Option<u64>, merged: &Vec<RecentCommit>) -> (r: Option<
        Json,
    >)
        ensures
            match r {
                Some(frame) => {
                    &&& new_rows(merged@, old(self).told@, merged@.len() as int).len() > 0
                    &&& jv(frame) == JsonView::Object(
                        change_members(
                            old(self).subscription_id as nat,
                            "commits-appeared"@,
                            (match at_version {
                                Some(v) => v as nat,
                                None => 0,
                            }),
                            appeared_hint(
                                new_rows(merged@, old(self).told@, merged@.len() as int),
                            ),
                        ),
                    )
                },
                None => new_rows(merged@, old(self).told@, merged@.len() as int).len() == 0,
            },
            final(self).settled(),
            final(self).trees == old(self).trees,
            final(self).subscription_id == old(self).subscription_id,
    {
        let mut list = ListBuilder::new();
        let mut count: usize = 0;
        for i in 0..merged.len()
            invariant
                list@ == new_rows(merged@, self.told@, i as int),
                count == list@.len(),
                count <= i,
        {
            if !contains(&self.told, merged[i].commit.as_str()) {
                list.put(json_row(&merged[i]));
                count += 1;
            }
        }
        self.told = held_commits(&self.trees);
        if count == 0 {
            return None;
        }
        let at: u64 = match at_version {
            Some(v) => v,
            None => 0,
        };
        let ghost rows = list@;
        let mut b = ObjectBuilder::new();
        b.put_text("scope", "recent_commits");
        b.put("commits", list.done());
        assert(b@ =~= seq![
            ("scope"@, JsonView::Text("recent_commits"@)),
            ("commits"@, JsonView::List(rows)),
        ]);
        Some(change_frame(self.subscription_id, "commits-appeared", at, b.done()))
    }
}

/// Whether a row of this commit is among those told.
pub open spec fn tells(rows: Seq<RecentCommit>, told: Seq<String>, n: int, commit: Seq<char>) -> bool {
    exists|i: int|
        0 <= i < n && (#[trigger] rows[i]).commit@ == commit && new_rows(rows, told, n).contains(
            row_json(rows[i]),
        )
}

/// A row that is told carries its commit.
proof fn lemma_new_rows(rows: Seq<RecentCommit>, told: Seq<String>, n: int, row: JsonView)
    requires
        0 <= n <= rows.len(),
    ensures
        new_rows(rows, told, n).contains(row) <==> exists|i: int|
            0 <= i < n && !holds(told, (#[trigger] rows[i]).commit@) && row_json(rows[i]) == row,
    decreases n,
{
    if n > 0 {
        lemma_new_rows(rows, told, n - 1, row);
        let before = new_rows(rows, told, n - 1);
        let now = new_rows(rows, told, n);
        if before.contains(row) {
            let k = before.index_of(row);
            assert(now[k] == row);
            assert(now.contains(row));
        }
        if !holds(told, rows[n - 1].commit@) {
            assert(now[before.len() as int] == row_json(rows[n - 1]));
            if row_json(rows[n - 1]) == row {
                assert(now.contains(row));
            }
            if now.contains(row) && !before.contains(row) {
                let k = now.index_of(row);
                assert(now[k] == row);
                if k < before.len() {
                    assert(before[k] == row);
                }
                assert(row_json(rows[n - 1]) == row);
            }
        }
    }
}

proof fn lemma_row_names_its_commit(a: RecentCommit, b: RecentCommit)
    requires
        row_json(a) == row_json(b),
    ensures
        a.commit@ == b.commit@,
{
    let x = row_json(a)->Object_0;
    let y = row_json(b)->Object_0;
    assert(x[0] == y[0]);
}

/// The stream is append-only: a commit that was held when the subscriber was last
/// told is not told again, however the logs were read since.
pub proof fn held_commits_are_not_told_again(
    rows: Seq<RecentCommit>,
    stream: CommitStream,
    commit: Seq<char>,
)
    requires
        stream.settled(),
        is_held(stream.trees@, commit),
    ensures
        !tells(rows, stream.told@, rows.len() as int, commit),
{
    let n = rows.len() as int;
    let told = stream.told@;
    assert(holds(told, commit));
    if tells(rows, told, n, commit) {
        let i = choose|i: int|
            0 <= i < n && (#[trigger] rows[i]).commit@ == commit && new_rows(rows, told, n).contains(
                row_json(rows[i]),
            );
        lemma_new_rows(rows, told, n, row_json(rows[i]));
        let j = choose|j: int|
            0 <= j < n && !holds(told, (#[trigger] rows[j]).commit@) && row_json(rows[j]) == row_json(
                rows[i],
            );
        lemma_row_names_its_commit(rows[j], rows[i]);
    }
}

/// No commit is missed: one that the merged logs list, and that was not held when
/// the subscriber was last told, is told.
pub proof fn new_commits_are_told(rows: Seq<RecentCommit>, stream: CommitStream, i: int)
    requires
        stream.settled(),
        0 <= i < rows.len(),
        !is_held(stream.trees@, rows[i].commit@),
    ensures
        tells(rows, stream.told@, rows.len() as int, rows[i].commit@),
{
    lemma_new_rows(rows, stream.told@, rows.len() as int, row_json(rows[i]));
    assert(!holds(stream.told@, rows[i].commit@));
}

} // verus!
