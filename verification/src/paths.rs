//! File paths as text, read by their components.
//!
//! A path is a sequence of components between slashes. Repeated slashes, a
//! trailing slash and interior `.` components carry no meaning, so two texts can
//! name one path. Ancestry is a matter of whole components: `/v/notes` is not
//! within `/v/not`.

use crate::text::{
    chars_of, keys_before, keys_lt, lemma_keys_lt_irreflexive, lemma_keys_lt_total,
    lemma_keys_lt_transitive, opt_view, same, str_views, text_of, views,
};
use vstd::prelude::*;

verus! {

/// Whether the path starts at the filesystem root.
pub open spec fn absolute(s: Seq<char>) -> bool {
    s.len() > 0 && s[0] == '/'
}

/// Whether `c`, found with `seen` components before it, counts as a component.
pub open spec fn counts(c: Seq<char>, abs: bool, first: bool) -> bool {
    &&& c.len() > 0
    &&& !(c == seq!['.'] && (abs || !first))
}

/// The components of `s` from position `from` on, the current one having begun
/// at `start`.
pub open spec fn parts_from(s: Seq<char>, start: int, from: int) -> Seq<Seq<char>>
    decreases s.len() - from,
{
    if from < 0 || from > s.len() {
        Seq::empty()
    } else if from == s.len() || s[from] == '/' {
        let c = s.subrange(start, from);
        let rest = if from == s.len() {
            Seq::empty()
        } else {
            parts_from(s, from + 1, from + 1)
        };
        if counts(c, absolute(s), start == 0) {
            seq![c] + rest
        } else {
            rest
        }
    } else {
        parts_from(s, start, from + 1)
    }
}

/// The components of a path.
#[verifier::opaque]
pub open spec fn parts(s: Seq<char>) -> Seq<Seq<char>> {
    parts_from(s, 0, 0)
}

/// Whether two texts name one path.
pub open spec fn same_path_spec(a: Seq<char>, b: Seq<char>) -> bool {
    absolute(a) == absolute(b) && parts(a) == parts(b)
}

/// Whether `path` is `root` or lies below it.
pub open spec fn within(path: Seq<char>, root: Seq<char>) -> bool {
    &&& absolute(path) == absolute(root)
    &&& parts(root).len() <= parts(path).len()
    &&& parts(path).take(parts(root).len() as int) == parts(root)
}

pub fn is_absolute(s: &str) -> (r: bool)
    ensures
        r == absolute(s@),
{
    let cs = chars_of(s);
    cs.len() > 0 && cs[0] == '/'
}

/// The components of `s`.
pub fn parts_of(s: &str) -> (r: Vec<String>)
    ensures
        views(r@) == parts(s@),
{
    let cs = chars_of(s);
    let abs = cs.len() > 0 && cs[0] == '/';
    let mut out: Vec<String> = Vec::new();
    let mut start: usize = 0;
    let mut i: usize = 0;
    reveal(parts);
    assert(views(out@) + parts_from(s@, 0, 0) =~= parts(s@));
    while i < cs.len()
        invariant
            cs@ == s@,
            abs == absolute(s@),
            start <= i <= cs@.len(),
            views(out@) + parts_from(s@, start as int, i as int) == parts(s@),
        decreases cs@.len() - i,
    {
        if cs[i] == '/' {
            push_part(&cs, start, i, abs, &mut out);
            start = i + 1;
        }
        i += 1;
    }
    push_part(&cs, start, i, abs, &mut out);
    assert(views(out@) =~= parts(s@));
    out
}

/// Closes the component `cs[start..end]`.
fn push_part(cs: &Vec<char>, start: usize, end: usize, abs: bool, out: &mut Vec<String>)
    requires
        start <= end <= cs@.len(),
        abs == absolute(cs@),
        end == cs@.len() || cs@[end as int] == '/',
    ensures
        views(final(out)@) + (if end == cs@.len() {
            Seq::empty()
        } else {
            parts_from(cs@, end + 1, end + 1)
        }) == views(old(out)@) + parts_from(cs@, start as int, end as int),
{
    let ghost before = out@;
    let ghost c = cs@.subrange(start as int, end as int);
    let ghost rest = if end == cs@.len() {
        Seq::empty()
    } else {
        parts_from(cs@, end + 1, end + 1)
    };
    let dot = end - start == 1 && cs[start] == '.';
    proof {
        if dot {
            assert(c =~= seq!['.']);
        } else if c == seq!['.'] {
            assert(c.len() == 1 && c[0] == cs@[start as int]);
        }
    }
    if end > start && !(dot && (abs || start != 0)) {
        out.push(text_of(cs, start, end));
        proof {
            assert(counts(c, abs, start == 0));
            assert(views(out@) =~= views(before).push(c));
            assert(views(out@) + rest =~= views(before) + (seq![c] + rest));
        }
    } else {
        assert(!counts(c, abs, start == 0));
    }
}

/// Whether the lists `a` and `b` agree on their first `n` texts.
fn same_first(a: &Vec<String>, b: &Vec<String>, n: usize) -> (r: bool)
    requires
        n <= a@.len(),
        n <= b@.len(),
    ensures
        r == (views(a@).take(n as int) == views(b@).take(n as int)),
{
    for i in 0..n
        invariant
            n <= a@.len(),
            n <= b@.len(),
            forall|k: int| 0 <= k < i ==> #[trigger] views(a@)[k] == views(b@)[k],
    {
        if !same(a[i].as_str(), b[i].as_str()) {
            proof {
                assert(views(a@).take(n as int)[i as int] != views(b@).take(n as int)[i as int]);
            }
            return false;
        }
        assert(views(a@)[i as int] == views(b@)[i as int]);
    }
    assert(views(a@).take(n as int) =~= views(b@).take(n as int));
    true
}

/// Whether two texts name one path.
pub fn same_path(a: &str, b: &str) -> (r: bool)
    ensures
        r == same_path_spec(a@, b@),
{
    let x = parts_of(a);
    let y = parts_of(b);
    if is_absolute(a) != is_absolute(b) || x.len() != y.len() {
        assert(views(x@).len() == x@.len() && views(y@).len() == y@.len());
        return false;
    }
    assert(views(x@).take(x@.len() as int) =~= views(x@));
    assert(views(y@).take(x@.len() as int) =~= views(y@));
    same_first(&x, &y, x.len())
}

/// Whether `path` is `root` or lies below it, by whole components.
pub fn is_within(path: &str, root: &str) -> (r: bool)
    ensures
        r == within(path@, root@),
{
    let x = parts_of(path);
    let y = parts_of(root);
    assert(views(x@).len() == x@.len() && views(y@).len() == y@.len());
    if is_absolute(path) != is_absolute(root) || y.len() > x.len() {
        return false;
    }
    assert(views(y@).take(y@.len() as int) =~= views(y@));
    same_first(&x, &y, y.len())
}

/// The text of `arg` taken relative to `root`: an absolute `arg` stands for
/// itself, another is appended to `root` with one slash between them.
pub open spec fn joined_path(root: Seq<char>, arg: Seq<char>) -> Seq<char> {
    if absolute(arg) {
        arg
    } else if root.len() == 0 {
        arg
    } else if root.last() == '/' {
        root + arg
    } else {
        root + seq!['/'] + arg
    }
}

/// A path argument made absolute against `root`.
pub fn abs_arg(root: &str, arg: &str) -> (r: String)
    ensures
        r@ == joined_path(root@, arg@),
{
    if is_absolute(arg) {
        return arg.to_owned();
    }
    let cs = chars_of(root);
    let mut out = root.to_owned();
    if cs.len() > 0 && cs[cs.len() - 1] != '/' {
        out.push('/');
        assert(out@ =~= root@ + seq!['/']);
    }
    out.append(arg);
    assert(root@.len() == 0 ==> root@ + arg@ =~= arg@);
    out
}

/// What a component is ordered by: its kind, then its text. The current directory comes
/// before the parent, and that before every name.
pub open spec fn part_key(c: Seq<char>) -> Seq<char> {
    if c == "."@ {
        seq!['0']
    } else if c == ".."@ {
        seq!['1']
    } else {
        seq!['2'] + c
    }
}

/// What a path is ordered by: the root, which comes before every other component, then
/// the components.
pub open spec fn path_key(p: Seq<char>) -> Seq<Seq<char>> {
    let root: Seq<Seq<char>> = if absolute(p) {
        seq![Seq::empty()]
    } else {
        Seq::empty()
    };
    root + parts(p).map_values(|c: Seq<char>| part_key(c))
}

/// The order of paths: component by component, a path before those below it.
#[verifier::opaque]
pub open spec fn path_lt(a: Seq<char>, b: Seq<char>) -> bool {
    keys_lt(path_key(a), path_key(b))
}

proof fn lemma_part_key(a: Seq<char>, b: Seq<char>)
    ensures
        part_key(a).len() > 0,
        part_key(a) == part_key(b) ==> a == b,
{
    reveal_strlit(".");
    reveal_strlit("..");
    if part_key(a) == part_key(b) {
        assert(part_key(a)[0] == part_key(b)[0]);
        if a != "."@ && a != ".."@ && b != "."@ && b != ".."@ {
            assert(part_key(a).skip(1) =~= a);
            assert(part_key(b).skip(1) =~= b);
        }
    }
}

/// The key tells the path.
proof fn lemma_path_key(a: Seq<char>, b: Seq<char>)
    requires
        path_key(a) == path_key(b),
    ensures
        same_path_spec(a, b),
{
    let f = |c: Seq<char>| part_key(c);
    let x = parts(a).map_values(f);
    let y = parts(b).map_values(f);
    let k = path_key(a);
    if absolute(a) {
        assert(k[0].len() == 0);
        if !absolute(b) {
            assert(k[0] == y[0]);
            lemma_part_key(parts(b)[0], parts(b)[0]);
        }
        assert(k.skip(1) =~= x);
        assert(path_key(b).skip(1) =~= y);
    } else {
        if absolute(b) {
            assert(path_key(b)[0].len() == 0);
            assert(k[0] == x[0]);
            lemma_part_key(parts(a)[0], parts(a)[0]);
        }
        assert(k =~= x);
        assert(path_key(b) =~= y);
    }
    assert(x == y);
    assert forall|i: int| 0 <= i < parts(a).len() implies parts(a)[i] == parts(b)[i] by {
        assert(x[i] == y[i]);
        lemma_part_key(parts(a)[i], parts(b)[i]);
    }
    assert(parts(a).len() == x.len() && parts(b).len() == y.len());
    assert(parts(a) =~= parts(b));
}

pub proof fn lemma_path_lt_irreflexive(a: Seq<char>)
    ensures
        !path_lt(a, a),
{
    reveal(path_lt);
    lemma_keys_lt_irreflexive(path_key(a));
}

pub proof fn lemma_path_lt_transitive(a: Seq<char>, b: Seq<char>, c: Seq<char>)
    requires
        path_lt(a, b),
        path_lt(b, c),
    ensures
        path_lt(a, c),
{
    reveal(path_lt);
    lemma_keys_lt_transitive(path_key(a), path_key(b), path_key(c));
}

pub proof fn lemma_path_lt_total(a: Seq<char>, b: Seq<char>)
    ensures
        path_lt(a, b) || path_lt(b, a) || same_path_spec(a, b),
{
    reveal(path_lt);
    lemma_keys_lt_total(path_key(a), path_key(b));
    if path_key(a) == path_key(b) {
        lemma_path_key(a, b);
    }
}

/// Two texts of one path stand in the same order to a third.
pub proof fn lemma_path_lt_same(a: Seq<char>, b: Seq<char>, c: Seq<char>)
    requires
        same_path_spec(a, b),
    ensures
        path_lt(a, c) == path_lt(b, c),
        path_lt(c, a) == path_lt(c, b),
{
    reveal(path_lt);
}

/// What a path is ordered by.
fn key_of(p: &str) -> (r: Vec<String>)
    ensures
        views(r@) == path_key(p@),
{
    let ps = parts_of(p);
    let mut r: Vec<String> = Vec::new();
    if is_absolute(p) {
        let root = String::new();
        r.push(root);
        assert(root@ =~= Seq::<char>::empty());
    }
    let ghost root = views(r@);
    let ghost f = |c: Seq<char>| part_key(c);
    assert(root =~= (if absolute(p@) {
        seq![Seq::<char>::empty()]
    } else {
        Seq::empty()
    }));
    assert(views(ps@).len() == ps@.len());
    assert(views(r@) =~= root + parts(p@).take(0).map_values(f));
    for i in 0..ps.len()
        invariant
            views(ps@) == parts(p@),
            views(ps@).len() == ps@.len(),
            f == (|c: Seq<char>| part_key(c)),
            views(r@) == root + parts(p@).take(i as int).map_values(f),
    {
        let c = ps[i].as_str();
        let ghost before = r@;
        let mut key = String::new();
        assert(key@ =~= Seq::<char>::empty());
        if same(c, ".") {
            key.push('0');
            assert(key@ =~= part_key(c@));
        } else if same(c, "..") {
            key.push('1');
            proof {
                reveal_strlit(".");
                reveal_strlit("..");
            }
            assert(key@ =~= part_key(c@));
        } else {
            key.push('2');
            assert(key@ =~= seq!['2']);
            key.append(c);
            assert(key@ =~= part_key(c@));
        }
        r.push(key);
        proof {
            assert(parts(p@)[i as int] == c@);
            assert(parts(p@).take(i + 1).map_values(f) =~= parts(p@).take(i as int).map_values(
                f,
            ).push(part_key(c@)));
            assert(views(r@) =~= views(before).push(key@));
            assert(views(r@) =~= root + parts(p@).take(i + 1).map_values(f));
        }
    }
    assert(parts(p@).take(ps@.len() as int) =~= parts(p@));
    assert(views(r@) =~= path_key(p@));
    r
}

fn borrowed(v: &Vec<String>) -> (r: Vec<&str>)
    ensures
        str_views(r@) == views(v@),
{
    let mut r: Vec<&str> = Vec::new();
    for i in 0..v.len()
        invariant
            r@.len() == i,
            forall|k: int| #![trigger r@[k]] 0 <= k < i ==> r@[k]@ == v@[k]@,
    {
        r.push(v[i].as_str());
    }
    assert(str_views(r@) =~= views(v@));
    r
}

/// Whether the path `a` comes strictly before the path `b`.
pub fn path_before(a: &str, b: &str) -> (r: bool)
    ensures
        r == path_lt(a@, b@),
{
    reveal(path_lt);
    let p = key_of(a);
    let q = key_of(b);
    let ps = borrowed(&p);
    let qs = borrowed(&q);
    keys_before(&ps, &qs)
}

/// Components put together with slashes between them.
pub open spec fn slashed(c: Seq<Seq<char>>) -> Seq<char>
    decreases c.len(),
{
    if c.len() == 0 {
        Seq::empty()
    } else if c.len() == 1 {
        c[0]
    } else {
        slashed(c.drop_last()) + seq!['/'] + c.last()
    }
}

/// The part of `path` below `root`, when it lies within it.
pub open spec fn below(path: Seq<char>, root: Seq<char>) -> Option<Seq<char>> {
    if within(path, root) {
        Some(slashed(parts(path).skip(parts(root).len() as int)))
    } else {
        None
    }
}

/// The part of `path` below `root`, when it lies within it.
pub fn strip_root(path: &str, root: &str) -> (r: Option<String>)
    ensures
        opt_view(r) == below(path@, root@),
{
    if !is_within(path, root) {
        return None;
    }
    let p = parts_of(path);
    let n: usize = parts_of(root).len();
    let ghost rest = parts(path@).skip(n as int);
    let mut out = String::new();
    let mut i: usize = n;
    assert(views(p@).len() == p@.len());
    assert(rest.take(0) =~= Seq::empty());
    while i < p.len()
        invariant
            n <= i <= p@.len(),
            views(p@) == parts(path@),
            rest == parts(path@).skip(n as int),
            rest.len() == p@.len() - n,
            out@ == slashed(rest.take(i - n)),
        decreases p@.len() - i,
    {
        proof {
            let next = rest.take(i - n + 1);
            assert(next.drop_last() =~= rest.take(i - n));
            assert(next.last() == p@[i as int]@) by {
                assert(views(p@)[i as int] == p@[i as int]@);
            }
        }
        if i > n {
            out.push('/');
        }
        let ghost before = out@;
        out.append(p[i].as_str());
        proof {
            if i > n {
                assert(before =~= slashed(rest.take(i - n)) + seq!['/']);
            } else {
                assert(before + p@[i as int]@ =~= p@[i as int]@);
            }
        }
        i += 1;
    }
    assert(rest.take(rest.len() as int) =~= rest);
    Some(out)
}

/// Whether one of the texts names the path `p`.
pub open spec fn holds_path(v: Seq<String>, p: Seq<char>) -> bool {
    exists|i: int| 0 <= i < v.len() && same_path_spec(#[trigger] v[i]@, p)
}

/// Whether one of the texts names the path `p`.
pub fn lists_path(v: &Vec<String>, p: &str) -> (r: bool)
    ensures
        r == holds_path(v@, p@),
{
    for i in 0..v.len()
        invariant
            forall|k: int| 0 <= k < i ==> !same_path_spec(#[trigger] v@[k]@, p@),
    {
        if same_path(v[i].as_str(), p) {
            return true;
        }
    }
    false
}

/// Whether the paths are in strict order, so that no path is listed twice.
pub open spec fn paths_ascend(v: Seq<String>) -> bool {
    forall|i: int, j: int|
        #![trigger v[i], v[j]]
        0 <= i < j < v.len() ==> path_lt(v[i]@, v[j]@)
}

/// Puts `p` at its place in an ascending list, unless its path is listed already.
pub fn add_path(v: &mut Vec<String>, p: String)
    requires
        paths_ascend(old(v)@),
    ensures
        paths_ascend(final(v)@),
        forall|q: Seq<char>|
            #[trigger] holds_path(final(v)@, q) == (holds_path(old(v)@, q) || same_path_spec(p@, q)),
{
    let ghost before = v@;
    let mut i: usize = 0;
    while i < v.len() && path_before(v[i].as_str(), p.as_str())
        invariant
            i <= v@.len(),
            v@ == before,
            forall|k: int| #![trigger v@[k]] 0 <= k < i ==> path_lt(v@[k]@, p@),
        decreases v@.len() - i,
    {
        i += 1;
    }
    if i < v.len() && same_path(v[i].as_str(), p.as_str()) {
        proof {
            assert(same_path_spec(before[i as int]@, p@));
            assert forall|q: Seq<char>| same_path_spec(p@, q) implies #[trigger] holds_path(
                before,
                q,
            ) by {
                assert(same_path_spec(before[i as int]@, q));
            }
        }
        return;
    }
    let ghost text = p;
    v.insert(i, p);
    proof {
        let now = v@;
        if i < before.len() {
            lemma_path_lt_total(before[i as int]@, text@);
        }
        assert forall|a: int, b: int| #![trigger now[a], now[b]] 0 <= a < b < now.len() implies path_lt(
            now[a]@,
            now[b]@,
        ) by {
            let ao = if a < i { a } else { a - 1 };
            let bo = if b < i { b } else { b - 1 };
            if a == i as int {
                assert(now[b] == before[bo]);
                if bo > i {
                    assert(path_lt(before[i as int]@, before[bo]@));
                    lemma_path_lt_transitive(text@, before[i as int]@, before[bo]@);
                }
            } else if b == i as int {
                assert(now[a] == before[a]);
            } else {
                assert(now[a] == before[ao] && now[b] == before[bo]);
            }
        }
        assert forall|q: Seq<char>| #[trigger] holds_path(now, q) == (holds_path(before, q)
            || same_path_spec(text@, q)) by {
            if holds_path(now, q) {
                let k = choose|k: int| 0 <= k < now.len() && same_path_spec(#[trigger] now[k]@, q);
                if k < i {
                    assert(before[k] == now[k]);
                } else if k > i {
                    assert(before[k - 1] == now[k]);
                }
            }
            if holds_path(before, q) {
                let k = choose|k: int|
                    0 <= k < before.len() && same_path_spec(#[trigger] before[k]@, q);
                if k < i {
                    assert(now[k] == before[k]);
                } else {
                    assert(now[k + 1] == before[k]);
                }
            }
            if same_path_spec(text@, q) {
                assert(now[i as int]@ == text@);
            }
        }
    }
}

/// The position behind the last occurrence of a character among the first `n`;
/// 0 when there is none.
pub open spec fn after_last(s: Seq<char>, c: char, n: int) -> int
    decreases n,
{
    if n <= 0 {
        0
    } else if s[n - 1] == c {
        n
    } else {
        after_last(s, c, n - 1)
    }
}

pub proof fn lemma_after_last(s: Seq<char>, c: char, n: int)
    requires
        0 <= n <= s.len(),
    ensures
        0 <= after_last(s, c, n) <= n,
        after_last(s, c, n) > 0 ==> s[after_last(s, c, n) - 1] == c,
        forall|k: int| after_last(s, c, n) <= k < n ==> s[k] != c,
    decreases n,
{
    if n > 0 && s[n - 1] != c {
        lemma_after_last(s, c, n - 1);
    }
}

pub fn find_after_last(s: &Vec<char>, c: char) -> (r: usize)
    ensures
        r == after_last(s@, c, s@.len() as int),
        r <= s@.len(),
{
    let mut i: usize = s.len();
    while i > 0
        invariant
            i <= s@.len(),
            after_last(s@, c, s@.len() as int) == after_last(s@, c, i as int),
        decreases i,
    {
        if s[i - 1] == c {
            return i;
        }
        i -= 1;
    }
    0
}

/// The last component of a path, unless it is the root or a parent.
pub open spec fn file_name_of(path: Seq<char>) -> Option<Seq<char>> {
    let p = parts(path);
    if p.len() == 0 || p.last() == ".."@ || p.last() == "."@ {
        None
    } else {
        Some(p.last())
    }
}

pub fn file_name(path: &str) -> (r: Option<String>)
    ensures
        opt_view(r) == file_name_of(path@),
{
    let p = parts_of(path);
    assert(views(p@).len() == p@.len());
    if p.len() == 0 {
        return None;
    }
    let last = &p[p.len() - 1];
    assert(views(p@).last() == last@);
    if same(last.as_str(), "..") || same(last.as_str(), ".") {
        None
    } else {
        Some(last.clone())
    }
}

/// Where the extension of a file name begins, behind its dot: 0 when it has none.
/// A name that only begins with a dot has none.
pub open spec fn extension_at(name: Seq<char>) -> int {
    let d = after_last(name, '.', name.len() as int);
    if d <= 1 {
        0
    } else {
        d
    }
}

/// A file name without its extension.
pub open spec fn stem_of(name: Seq<char>) -> Seq<char> {
    if extension_at(name) == 0 {
        name
    } else {
        name.take(extension_at(name) - 1)
    }
}

/// The extension of a file name.
pub open spec fn extension_of(name: Seq<char>) -> Option<Seq<char>> {
    if extension_at(name) == 0 {
        None
    } else {
        Some(name.skip(extension_at(name)))
    }
}

/// The name of the file without its extension; empty when the path names none.
pub open spec fn file_stem_of(path: Seq<char>) -> Seq<char> {
    match file_name_of(path) {
        Some(n) => stem_of(n),
        None => Seq::empty(),
    }
}

pub fn file_stem(path: &str) -> (r: String)
    ensures
        r@ == file_stem_of(path@),
{
    match file_name(path) {
        Some(n) => {
            let cs = chars_of(n.as_str());
            let d: usize = find_after_last(&cs, '.');
            if d <= 1 {
                n
            } else {
                let s = text_of(&cs, 0, d - 1);
                assert(s@ =~= cs@.take(d - 1));
                s
            }
        },
        None => {
            let s = String::new();
            assert(s@ =~= Seq::<char>::empty());
            s
        },
    }
}

/// The extension of the file that a path names.
pub open spec fn path_extension(path: Seq<char>) -> Option<Seq<char>> {
    match file_name_of(path) {
        Some(n) => extension_of(n),
        None => None,
    }
}

pub fn extension(path: &str) -> (r: Option<String>)
    ensures
        opt_view(r) == path_extension(path@),
{
    match file_name(path) {
        Some(n) => {
            let cs = chars_of(n.as_str());
            let d: usize = find_after_last(&cs, '.');
            if d <= 1 {
                None
            } else {
                let s = text_of(&cs, d, cs.len());
                assert(s@ =~= cs@.skip(d as int));
                Some(s)
            }
        },
        None => None,
    }
}

/// The path of these components.
pub open spec fn path_from(abs: bool, c: Seq<Seq<char>>) -> Seq<char> {
    (if abs {
        seq!['/']
    } else {
        Seq::empty()
    }) + slashed(c)
}

/// The first `n` components of a path, as a path.
fn first_parts(abs: bool, ps: &Vec<String>, n: usize) -> (r: String)
    requires
        n <= ps@.len(),
    ensures
        r@ == path_from(abs, views(ps@).take(n as int)),
{
    let mut r = String::new();
    if abs {
        r.push('/');
    }
    let ghost all = views(ps@);
    let ghost root = r@;
    assert(root =~= (if abs {
        seq!['/']
    } else {
        Seq::empty()
    }));
    assert(all.take(0) =~= Seq::empty());
    assert(r@ =~= root + slashed(all.take(0)));
    for i in 0..n
        invariant
            n <= ps@.len(),
            all == views(ps@),
            r@ == root + slashed(all.take(i as int)),
    {
        proof {
            let next = all.take(i + 1);
            assert(next.drop_last() =~= all.take(i as int));
            assert(next.last() == ps@[i as int]@);
        }
        if i > 0 {
            r.push('/');
        }
        let ghost before = r@;
        r.append(ps[i].as_str());
        proof {
            if i > 0 {
                assert(before =~= root + slashed(all.take(i as int)) + seq!['/']);
            } else {
                assert(before =~= root);
            }
            assert(r@ =~= root + slashed(all.take(i + 1)));
        }
    }
    r
}

/// The directory that holds a path: its components without the last. The root and the
/// empty path have none.
pub open spec fn parent_of(path: Seq<char>) -> Option<Seq<char>> {
    let p = parts(path);
    if p.len() == 0 {
        None
    } else {
        Some(path_from(absolute(path), p.drop_last()))
    }
}

pub fn parent(path: &str) -> (r: Option<String>)
    ensures
        opt_view(r) == parent_of(path@),
{
    let ps = parts_of(path);
    assert(views(ps@).len() == ps@.len());
    if ps.len() == 0 {
        return None;
    }
    let dir = first_parts(is_absolute(path), &ps, ps.len() - 1);
    assert(parts(path@).take(ps@.len() - 1) =~= parts(path@).drop_last());
    Some(dir)
}

/// The directories above a path, the nearest first.
pub open spec fn directories_above(path: Seq<char>) -> Seq<Seq<char>> {
    let p = parts(path);
    Seq::new(p.len(), |k: int| path_from(absolute(path), p.take(p.len() - 1 - k)))
}

/// The directories above a path, the nearest first.
pub fn ancestors(path: &str) -> (r: Vec<String>)
    ensures
        views(r@) == directories_above(path@),
{
    let ps = parts_of(path);
    let abs = is_absolute(path);
    let mut out: Vec<String> = Vec::new();
    let ghost all = directories_above(path@);
    assert(views(ps@).len() == ps@.len());
    assert(views(out@) =~= all.take(0));
    for k in 0..ps.len()
        invariant
            views(ps@) == parts(path@),
            views(ps@).len() == ps@.len(),
            abs == absolute(path@),
            all == directories_above(path@),
            views(out@) == all.take(k as int),
    {
        let dir = first_parts(abs, &ps, ps.len() - 1 - k);
        let ghost before = out@;
        out.push(dir);
        proof {
            assert(all[k as int] == dir@);
            assert(views(out@) =~= views(before).push(dir@));
            assert(views(out@) =~= all.take(k + 1));
        }
    }
    assert(all.take(ps@.len() as int) =~= all);
    out
}

/// A path with another file name; a path without one gets it.
pub open spec fn renamed_file(path: Seq<char>, name: Seq<char>) -> Seq<char> {
    match (file_name_of(path), parent_of(path)) {
        (Some(_), Some(dir)) => joined_path(dir, name),
        _ => joined_path(path, name),
    }
}

pub fn with_file_name(path: &str, name: &str) -> (r: String)
    ensures
        r@ == renamed_file(path@, name@),
{
    match (file_name(path), parent(path)) {
        (Some(_), Some(dir)) => abs_arg(dir.as_str(), name),
        _ => abs_arg(path, name),
    }
}

/// The part of `path` below `root`, or the path itself when it is not within it.
pub open spec fn below_or_self(path: Seq<char>, root: Seq<char>) -> Seq<char> {
    match below(path, root) {
        Some(r) => r,
        None => path,
    }
}

pub fn relative(path: &str, root: &str) -> (r: String)
    ensures
        r@ == below_or_self(path@, root@),
{
    match strip_root(path, root) {
        Some(r) => r,
        None => path.to_owned(),
    }
}

} // verus!
