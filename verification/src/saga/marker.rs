//! The record of a saga's intent, and the record of a rollback that failed.
//!
//! The intent is one line with the mutation's id, then one line for each working
//! tree that the saga commits: its root, then the touched paths, with tabs
//! between them.

use crate::saga::machine::Stuck;
use crate::saga::plan::{SagaMember, SagaPlan};
use crate::text::{
    after_prefix, lemma_split_front, lines_of, lines_upto, split_on, split_text, strip_prefix,
    text_lines, views, without_return,
};
use vstd::prelude::*;

verus! {

/// The name of the file that holds the intent.
pub const INTENT_MARKER_NAME: &'static str = "saga.intent";

/// The paths of a line, each after a tab.
pub open spec fn tabbed(paths: Seq<Seq<char>>) -> Seq<char>
    decreases paths.len(),
{
    if paths.len() == 0 {
        Seq::empty()
    } else {
        tabbed(paths.drop_last()) + seq!['\t'] + paths.last()
    }
}

/// The line of a working tree.
pub open spec fn tree_line(root: Seq<char>, paths: Seq<Seq<char>>) -> Seq<char> {
    root + tabbed(paths)
}

/// The lines of the first `n` members that git covers.
pub open spec fn member_lines(members: Seq<SagaMember>, n: int) -> Seq<char>
    decreases n,
{
    if n <= 0 {
        Seq::empty()
    } else if members[n - 1].git {
        member_lines(members, n - 1) + tree_line(
            members[n - 1].tree_root@,
            views(members[n - 1].paths@),
        ) + seq!['\n']
    } else {
        member_lines(members, n - 1)
    }
}

/// The record of a saga's intent.
pub open spec fn marker_text(plan: SagaPlan) -> Seq<char> {
    "mutation-id="@ + plan.mutation_id@ + seq!['\n'] + member_lines(
        plan.members@,
        plan.members@.len() as int,
    )
}

/// Writes the record of a saga's intent.
pub fn marker_body(plan: &SagaPlan) -> (r: String)
    ensures
        r@ == marker_text(*plan),
{
    let mut body = "mutation-id=".to_owned();
    body.append(plan.mutation_id.as_str());
    body.push('\n');
    let ghost head = body@;
    assert(head =~= "mutation-id="@ + plan.mutation_id@ + seq!['\n']);
    assert(head + member_lines(plan.members@, 0) =~= head);
    for m in 0..plan.members.len()
        invariant
            body@ == head + member_lines(plan.members@, m as int),
    {
        let member = &plan.members[m];
        if member.git {
            let ghost before = body@;
            body.append(member.tree_root.as_str());
            let ghost ps = views(member.paths@);
            assert(ps.take(0) =~= Seq::empty());
            assert(body@ =~= before + member.tree_root@ + tabbed(ps.take(0)));
            for k in 0..member.paths.len()
                invariant
                    ps == views(member.paths@),
                    body@ == before + member.tree_root@ + tabbed(ps.take(k as int)),
            {
                let ghost sofar = body@;
                body.push('\t');
                body.append(member.paths[k].as_str());
                proof {
                    let now = ps.take(k + 1);
                    assert(now.drop_last() =~= ps.take(k as int));
                    assert(now.last() == member.paths@[k as int]@);
                    assert(body@ =~= before + member.tree_root@ + tabbed(now));
                }
            }
            assert(ps.take(ps.len() as int) =~= ps);
            body.push('\n');
            assert(body@ =~= head + member_lines(plan.members@, m + 1));
        }
    }
    body
}

/// A working tree that a recorded saga was to commit.
#[derive(Debug)]
pub struct MarkedTree {
    pub tree_root: String,
    pub paths: Vec<String>,
}

/// A recorded saga.
#[derive(Debug)]
pub struct Marked {
    pub mutation_id: String,
    pub trees: Vec<MarkedTree>,
}

/// The contents of a list of trees.
pub open spec fn tree_views(v: Seq<MarkedTree>) -> Seq<(Seq<char>, Seq<Seq<char>>)> {
    v.map_values(|t: MarkedTree| (t.tree_root@, views(t.paths@)))
}

/// The trees that the first `n` lines name. A line without a root names none.
pub open spec fn trees_in(lines: Seq<Seq<char>>, n: int) -> Seq<(Seq<char>, Seq<Seq<char>>)>
    decreases n,
{
    if n <= 0 {
        Seq::empty()
    } else {
        let before = trees_in(lines, n - 1);
        let fields = split_on(lines[n - 1], '\t');
        if fields[0].len() == 0 {
            before
        } else {
            before.push((fields[0], fields.skip(1)))
        }
    }
}

/// What a record of intent says: nothing unless its first line gives an id.
pub open spec fn marked(content: Seq<char>) -> Option<(
    Seq<char>,
    Seq<(Seq<char>, Seq<Seq<char>>)>,
)> {
    let lines = lines_of(content);
    if lines.len() == 0 {
        None
    } else {
        match after_prefix(lines[0], "mutation-id="@) {
            None => None,
            Some(id) => Some((id, trees_in(lines.skip(1), lines.len() - 1))),
        }
    }
}

pub open spec fn marked_view(m: Option<Marked>) -> Option<(
    Seq<char>,
    Seq<(Seq<char>, Seq<Seq<char>>)>,
)> {
    match m {
        Some(x) => Some((x.mutation_id@, tree_views(x.trees@))),
        None => None,
    }
}

/// Reads a record of intent.
pub fn parse_marker(content: &str) -> (r: Option<Marked>)
    ensures
        marked_view(r) == marked(content@),
{
    let lines = text_lines(content);
    let ghost ls = lines_of(content@);
    assert(views(lines@).len() == lines@.len());
    if lines.len() == 0 {
        return None;
    }
    assert(ls[0] == lines@[0]@);
    let mutation_id = match strip_prefix(lines[0].as_str(), "mutation-id=") {
        Some(id) => id,
        None => return None,
    };
    let mut trees: Vec<MarkedTree> = Vec::new();
    let ghost rest = ls.skip(1);
    assert(tree_views(trees@) =~= Seq::empty());
    for i in 1..lines.len()
        invariant
            views(lines@) == ls,
            ls.len() == lines@.len(),
            rest == ls.skip(1),
            tree_views(trees@) == trees_in(rest, i - 1),
    {
        let mut fields = split_text(lines[i].as_str(), '\t');
        let ghost fs = views(fields@);
        let ghost had = fields@;
        proof {
            assert(rest[i - 1] == lines@[i as int]@);
            assert(fs.len() == fields@.len());
            assert(fs[0] == fields@[0]@);
        }
        let root = fields.remove(0);
        assert(views(fields@) =~= fs.skip(1));
        if !root.as_str().is_empty() {
            let ghost before = trees@;
            let t = MarkedTree { tree_root: root, paths: fields };
            trees.push(t);
            assert(tree_views(trees@) =~= tree_views(before).push((t.tree_root@, views(t.paths@))));
        }
    }
    Some(Marked { mutation_id, trees })
}

/// Whether a text has neither a tab nor a newline.
pub open spec fn plain(s: Seq<char>) -> bool {
    !s.contains('\t') && !s.contains('\n')
}

/// Whether a record of intent can hold a tree: a root, and no text that a tab, a
/// newline or a carriage return at the end of the line would break.
pub open spec fn recordable(m: SagaMember) -> bool {
    &&& m.tree_root@.len() > 0
    &&& plain(m.tree_root@)
    &&& forall|k: int| 0 <= k < m.paths@.len() ==> plain(#[trigger] m.paths@[k]@)
    &&& without_return(tree_line(m.tree_root@, views(m.paths@))) == tree_line(
        m.tree_root@,
        views(m.paths@),
    )
}

/// The trees that git covers among the first `n` members.
pub open spec fn git_trees(members: Seq<SagaMember>, n: int) -> Seq<(Seq<char>, Seq<Seq<char>>)>
    decreases n,
{
    if n <= 0 {
        Seq::empty()
    } else if members[n - 1].git {
        git_trees(members, n - 1).push(
            (members[n - 1].tree_root@, views(members[n - 1].paths@)),
        )
    } else {
        git_trees(members, n - 1)
    }
}

/// The lines of a text with one more line in front.
proof fn lemma_lines_front(a: Seq<char>, b: Seq<char>)
    requires
        !a.contains('\n'),
    ensures
        lines_of(a + seq!['\n'] + b) == seq![without_return(a)] + lines_of(b),
{
    lemma_split_front(a, '\n', b);
    let rest = split_on(b, '\n');
    let all = seq![a] + rest;
    assert(rest.len() > 0);
    lemma_lines_shift(all, rest, rest.len() as int);
}

proof fn lemma_lines_shift(all: Seq<Seq<char>>, rest: Seq<Seq<char>>, n: int)
    requires
        all.len() == rest.len() + 1,
        forall|k: int| #![trigger rest[k]] 0 <= k < rest.len() ==> all[k + 1] == rest[k],
        0 <= n <= rest.len(),
        rest.len() > 0,
    ensures
        lines_upto(all, n + 1) == seq![without_return(all[0])] + lines_upto(rest, n),
    decreases n,
{
    if n > 0 {
        lemma_lines_shift(all, rest, n - 1);
        assert(all[n] == rest[n - 1]);
        assert(lines_upto(all, n + 1) =~= seq![without_return(all[0])] + lines_upto(rest, n));
    } else {
        assert(lines_upto(all, 0) =~= Seq::empty());
        assert(lines_upto(all, 1) =~= seq![without_return(all[0])]);
        assert(lines_upto(rest, 0) =~= Seq::empty());
    }
}

proof fn lemma_tabbed_front(p: Seq<char>, paths: Seq<Seq<char>>)
    ensures
        tabbed(seq![p] + paths) == seq!['\t'] + p + tabbed(paths),
    decreases paths.len(),
{
    let all = seq![p] + paths;
    if paths.len() == 0 {
        assert(all.drop_last() =~= Seq::empty());
        assert(all.last() == p);
        assert(tabbed(all) == tabbed(all.drop_last()) + seq!['\t'] + p);
        assert(tabbed(all) =~= seq!['\t'] + p + tabbed(paths));
    } else {
        assert(all.drop_last() =~= seq![p] + paths.drop_last());
        lemma_tabbed_front(p, paths.drop_last());
        assert(tabbed(all) =~= seq!['\t'] + p + tabbed(paths));
    }
}

/// The fields of a line are the root and the paths that it was made of.
proof fn lemma_fields(root: Seq<char>, paths: Seq<Seq<char>>)
    requires
        !root.contains('\t'),
        forall|k: int| 0 <= k < paths.len() ==> !(#[trigger] paths[k]).contains('\t'),
    ensures
        split_on(tree_line(root, paths), '\t') == seq![root] + paths,
    decreases paths.len(),
{
    if paths.len() == 0 {
        assert(root + tabbed(paths) =~= root);
        lemma_split_front(root, '\t', Seq::empty());
        assert(seq![root] + paths =~= seq![root]);
    } else {
        let rest = paths.skip(1);
        assert(paths =~= seq![paths[0]] + rest);
        lemma_tabbed_front(paths[0], rest);
        assert(root + tabbed(paths) =~= root + seq!['\t'] + tree_line(paths[0], rest));
        lemma_split_front(root, '\t', tree_line(paths[0], rest));
        assert forall|k: int| 0 <= k < rest.len() implies !(#[trigger] rest[k]).contains('\t') by {
            assert(rest[k] == paths[k + 1]);
        }
        lemma_fields(paths[0], rest);
        assert(seq![root] + (seq![paths[0]] + rest) =~= seq![root] + paths);
    }
}

proof fn lemma_line_is_plain(root: Seq<char>, paths: Seq<Seq<char>>)
    requires
        !root.contains('\n'),
        forall|k: int| 0 <= k < paths.len() ==> !(#[trigger] paths[k]).contains('\n'),
    ensures
        !tree_line(root, paths).contains('\n'),
    decreases paths.len(),
{
    if paths.len() == 0 {
        assert(root + tabbed(paths) =~= root);
    } else {
        let front = paths.drop_last();
        assert forall|k: int| 0 <= k < front.len() implies !(#[trigger] front[k]).contains('\n') by {
            assert(front[k] == paths[k]);
        }
        lemma_line_is_plain(root, front);
        let line = tree_line(root, paths);
        assert(line =~= tree_line(root, front) + seq!['\t'] + paths.last());
        assert(!paths[paths.len() - 1].contains('\n'));
        if line.contains('\n') {
            let i = choose|i: int| 0 <= i < line.len() && line[i] == '\n';
            let a = tree_line(root, front);
            if i < a.len() {
                assert(a[i] == '\n');
            } else if i > a.len() {
                assert(paths.last()[i - a.len() - 1] == '\n');
            }
        }
    }
}

/// The lines of the members from `n` on, read back.
proof fn lemma_members_read_back(members: Seq<SagaMember>, head: Seq<char>, n: int)
    requires
        0 <= n <= members.len(),
        !head.contains('\n'),
        forall|m: int|
            #![trigger members[m]]
            0 <= m < members.len() && members[m].git ==> recordable(members[m]),
    ensures
        lines_of(head + seq!['\n'] + member_lines(members, n)).len() == 1 + git_trees(
            members,
            n,
        ).len(),
        lines_of(head + seq!['\n'] + member_lines(members, n))[0] == without_return(head),
        lines_of(head + seq!['\n'] + member_lines(members, n)).skip(1) == git_trees(
            members,
            n,
        ).map_values(|t: (Seq<char>, Seq<Seq<char>>)| tree_line(t.0, t.1)),
{
    lemma_lines_front(head, member_lines(members, n));
    lemma_member_lines(members, n);
    let all = lines_of(head + seq!['\n'] + member_lines(members, n));
    assert(all.skip(1) =~= lines_of(member_lines(members, n)));
}

proof fn lemma_member_lines(members: Seq<SagaMember>, n: int)
    requires
        0 <= n <= members.len(),
        forall|m: int|
            #![trigger members[m]]
            0 <= m < members.len() && members[m].git ==> recordable(members[m]),
    ensures
        lines_of(member_lines(members, n)) == git_trees(members, n).map_values(
            |t: (Seq<char>, Seq<Seq<char>>)| tree_line(t.0, t.1),
        ),
    decreases n,
{
    let f = |t: (Seq<char>, Seq<Seq<char>>)| tree_line(t.0, t.1);
    if n <= 0 {
        lemma_split_front(Seq::<char>::empty(), '\n', Seq::empty());
        assert(split_on(Seq::<char>::empty(), '\n') =~= seq![Seq::<char>::empty()]);
        assert(lines_upto(seq![Seq::<char>::empty()], 1) =~= Seq::empty()) by {
            assert(lines_upto(seq![Seq::<char>::empty()], 0) =~= Seq::empty());
        }
        assert(git_trees(members, n).map_values(f) =~= Seq::empty());
    } else {
        lemma_member_lines(members, n - 1);
        if members[n - 1].git {
            let m = members[n - 1];
            let line = tree_line(m.tree_root@, views(m.paths@));
            assert(recordable(m));
            assert forall|k: int| 0 <= k < views(m.paths@).len() implies !(#[trigger] views(
                m.paths@,
            )[k]).contains('\n') by {
                assert(plain(m.paths@[k]@));
            }
            lemma_line_is_plain(m.tree_root@, views(m.paths@));
            lemma_lines_end(members, n - 1);
            lemma_lines_append(member_lines(members, n - 1), line);
            assert(git_trees(members, n).map_values(f) =~= git_trees(
                members,
                n - 1,
            ).map_values(f).push(line));
        }
    }
}

/// The lines of the members end with a newline, or there are none.
proof fn lemma_lines_end(members: Seq<SagaMember>, n: int)
    requires
        0 <= n <= members.len(),
    ensures
        member_lines(members, n).len() == 0 || member_lines(members, n).last() == '\n',
    decreases n,
{
    if n > 0 {
        lemma_lines_end(members, n - 1);
    }
}

/// The lines of a text that ends with a newline, or is empty, with one more line
/// at the end.
proof fn lemma_lines_append(a: Seq<char>, line: Seq<char>)
    requires
        !line.contains('\n'),
        without_return(line) == line,
        a.len() == 0 || a.last() == '\n',
    ensures
        lines_of(a + line + seq!['\n']) == lines_of(a).push(line),
    decreases a.len(),
{
    if a.len() == 0 {
        assert(a + line + seq!['\n'] =~= line + seq!['\n'] + Seq::<char>::empty());
        lemma_lines_front(line, Seq::empty());
        assert(a =~= Seq::<char>::empty());
        lemma_split_front(Seq::<char>::empty(), '\n', Seq::empty());
        assert(lines_of(a) =~= Seq::empty()) by {
            assert(lines_upto(seq![Seq::<char>::empty()], 0) =~= Seq::empty());
        }
        assert(lines_of(a + line + seq!['\n']) =~= lines_of(a).push(line));
    } else {
        let i = crate::text::find_from(a, '\n', 0);
        crate::text::lemma_find_from(a, '\n', 0);
        assert(i < a.len()) by {
            if i >= a.len() {
                assert(a[a.len() - 1] == '\n');
            }
        }
        let first = a.take(i);
        let rest = a.skip(i + 1);
        assert(!first.contains('\n'));
        assert(a =~= first + seq!['\n'] + rest);
        lemma_lines_front(first, rest);
        assert(a + line + seq!['\n'] =~= first + seq!['\n'] + (rest + line + seq!['\n']));
        lemma_lines_front(first, rest + line + seq!['\n']);
        if rest.len() > 0 {
            assert(rest.last() == a.last());
        }
        lemma_lines_append(rest, line);
        assert(lines_of(a + line + seq!['\n']) =~= lines_of(a).push(line));
    }
}

proof fn lemma_trees_read_back(
    trees: Seq<(Seq<char>, Seq<Seq<char>>)>,
    lines: Seq<Seq<char>>,
    n: int,
)
    requires
        lines == trees.map_values(|t: (Seq<char>, Seq<Seq<char>>)| tree_line(t.0, t.1)),
        forall|k: int|
            #![trigger trees[k]]
            0 <= k < trees.len() ==> {
                &&& trees[k].0.len() > 0
                &&& !trees[k].0.contains('\t')
                &&& forall|j: int|
                    0 <= j < trees[k].1.len() ==> !(#[trigger] trees[k].1[j]).contains('\t')
            },
        0 <= n <= trees.len(),
    ensures
        trees_in(lines, n) == trees.take(n),
    decreases n,
{
    if n > 0 {
        lemma_trees_read_back(trees, lines, n - 1);
        let t = trees[n - 1];
        lemma_fields(t.0, t.1);
        assert((seq![t.0] + t.1).skip(1) =~= t.1);
        assert(trees.take(n) =~= trees.take(n - 1).push(t));
    } else {
        assert(trees.take(0) =~= Seq::empty());
    }
}

proof fn lemma_git_trees_plain(members: Seq<SagaMember>, n: int)
    requires
        0 <= n <= members.len(),
        forall|m: int|
            #![trigger members[m]]
            0 <= m < members.len() && members[m].git ==> recordable(members[m]),
    ensures
        forall|k: int|
            #![trigger git_trees(members, n)[k]]
            0 <= k < git_trees(members, n).len() ==> {
                &&& git_trees(members, n)[k].0.len() > 0
                &&& !git_trees(members, n)[k].0.contains('\t')
                &&& forall|j: int|
                    0 <= j < git_trees(members, n)[k].1.len() ==> !(#[trigger] git_trees(
                        members,
                        n,
                    )[k].1[j]).contains('\t')
            },
    decreases n,
{
    if n > 0 {
        lemma_git_trees_plain(members, n - 1);
        let all = git_trees(members, n);
        let before = git_trees(members, n - 1);
        assert forall|k: int| #![trigger all[k]] 0 <= k < all.len() implies {
            &&& all[k].0.len() > 0
            &&& !all[k].0.contains('\t')
            &&& forall|j: int| 0 <= j < all[k].1.len() ==> !(#[trigger] all[k].1[j]).contains('\t')
        } by {
            if k < before.len() {
                assert(all[k] == before[k]);
            } else {
                let m = members[n - 1];
                assert(recordable(m));
                assert forall|j: int| 0 <= j < all[k].1.len() implies !(#[trigger] all[k].1[j]).contains(
                    '\t',
                ) by {
                    assert(plain(m.paths@[j]@));
                }
            }
        }
    }
}

/// A record of intent gives back the mutation and every working tree with its
/// paths.
pub proof fn marker_reads_back(plan: SagaPlan)
    requires
        !plan.mutation_id@.contains('\n'),
        without_return("mutation-id="@ + plan.mutation_id@) == "mutation-id="@ + plan.mutation_id@,
        forall|m: int|
            #![trigger plan.members@[m]]
            0 <= m < plan.members@.len() && plan.members@[m].git ==> recordable(plan.members@[m]),
    ensures
        marked(marker_text(plan)) == Some(
            (plan.mutation_id@, git_trees(plan.members@, plan.members@.len() as int)),
        ),
{
    let n = plan.members@.len() as int;
    let head = "mutation-id="@ + plan.mutation_id@;
    let trees = git_trees(plan.members@, n);
    assert(!head.contains('\n')) by {
        reveal_strlit("mutation-id=");
        if head.contains('\n') {
            let i = choose|i: int| 0 <= i < head.len() && head[i] == '\n';
            if i >= 12 {
                assert(plan.mutation_id@[i - 12] == '\n');
            }
        }
    }
    lemma_members_read_back(plan.members@, head, n);
    lemma_git_trees_plain(plan.members@, n);
    let lines = lines_of(marker_text(plan));
    assert(head.take("mutation-id="@.len() as int) =~= "mutation-id="@);
    assert(head.skip("mutation-id="@.len() as int) =~= plan.mutation_id@);
    lemma_trees_read_back(trees, lines.skip(1), trees.len() as int);
    assert(trees.take(trees.len() as int) =~= trees);
}

/// The lines of a failure record: each member that could not be rolled back, and
/// why.
pub open spec fn failure_lines(roots: Seq<(Seq<char>, Seq<char>)>) -> Seq<char>
    decreases roots.len(),
{
    if roots.len() == 0 {
        Seq::empty()
    } else {
        failure_lines(roots.drop_last()) + roots.last().0 + seq!['\t'] + roots.last().1 + seq!['\n']
    }
}

/// The record that a rollback is incomplete.
pub open spec fn failure_text(
    mutation_id: Seq<char>,
    errors: Seq<(Seq<char>, Seq<char>)>,
) -> Seq<char> {
    "mutation-id="@ + mutation_id + seq!['\n'] + failure_lines(errors)
}

/// A working tree that could not be rolled back, and why.
#[derive(Debug)]
pub struct TreeError {
    pub tree_root: String,
    pub message: String,
}

pub open spec fn error_views(v: Seq<TreeError>) -> Seq<(Seq<char>, Seq<char>)> {
    v.map_values(|e: TreeError| (e.tree_root@, e.message@))
}

/// Writes the record that a rollback is incomplete.
pub fn failure_body(mutation_id: &str, errors: &Vec<TreeError>) -> (r: String)
    ensures
        r@ == failure_text(mutation_id@, error_views(errors@)),
{
    let mut body = "mutation-id=".to_owned();
    body.append(mutation_id);
    body.push('\n');
    let ghost head = body@;
    let ghost es = error_views(errors@);
    assert(head =~= "mutation-id="@ + mutation_id@ + seq!['\n']);
    assert(es.take(0) =~= Seq::empty());
    assert(head + failure_lines(es.take(0)) =~= head);
    for k in 0..errors.len()
        invariant
            es == error_views(errors@),
            body@ == head + failure_lines(es.take(k as int)),
    {
        let ghost before = body@;
        body.append(errors[k].tree_root.as_str());
        body.push('\t');
        body.append(errors[k].message.as_str());
        body.push('\n');
        proof {
            let now = es.take(k + 1);
            assert(now.drop_last() =~= es.take(k as int));
            assert(now.last() == (errors@[k as int].tree_root@, errors@[k as int].message@));
            assert(body@ =~= head + failure_lines(now));
        }
    }
    assert(es.take(es.len() as int) =~= es);
    body
}

/// The working trees that a saga could not roll back.
pub open spec fn stuck_trees(plan: SagaPlan, errors: Seq<Stuck>) -> Seq<(Seq<char>, Seq<char>)> {
    errors.map_values(|e: Stuck| (plan.members@[e.member as int].tree_root@, e.message@))
}

/// The working trees that a saga could not roll back.
pub fn tree_errors(plan: &SagaPlan, errors: &Vec<Stuck>) -> (r: Vec<TreeError>)
    requires
        forall|k: int|
            #![trigger errors@[k]]
            0 <= k < errors@.len() ==> errors@[k].member < plan.members@.len(),
    ensures
        error_views(r@) == stuck_trees(*plan, errors@),
{
    let mut r: Vec<TreeError> = Vec::new();
    assert(error_views(r@) =~= stuck_trees(*plan, errors@).take(0));
    for k in 0..errors.len()
        invariant
            forall|k: int|
                #![trigger errors@[k]]
                0 <= k < errors@.len() ==> errors@[k].member < plan.members@.len(),
            error_views(r@) == stuck_trees(*plan, errors@).take(k as int),
    {
        let ghost before = r@;
        let e = TreeError {
            tree_root: plan.members[errors[k].member].tree_root.clone(),
            message: errors[k].message.clone(),
        };
        r.push(e);
        proof {
            assert(error_views(r@) =~= error_views(before).push((e.tree_root@, e.message@)));
            assert(stuck_trees(*plan, errors@).take(k + 1) =~= stuck_trees(*plan, errors@).take(
                k as int,
            ).push((e.tree_root@, e.message@)));
        }
    }
    assert(stuck_trees(*plan, errors@).take(errors@.len() as int) =~= stuck_trees(*plan, errors@));
    r
}

} // verus!
