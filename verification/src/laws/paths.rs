//! How paths are read.

use crate::paths::{
    absolute, after_last, below, counts, directories_above, extension_of, file_name_of, joined_path,
    parent_of, parts, parts_from, path_from, path_key, path_lt, same_path_spec, slashed, stem_of,
    within,
};
use crate::text::keys_lt;
use vstd::prelude::*;

verus! {

/// Whether a text is an ordinary component: not empty, without a slash, and not the current
/// directory.
pub open spec fn is_component(c: Seq<char>) -> bool {
    c.len() > 0 && !c.contains('/') && c != seq!['.']
}

/// Whether all of these are ordinary components.
pub open spec fn are_components(c: Seq<Seq<char>>) -> bool {
    forall|i: int| 0 <= i < c.len() ==> is_component(#[trigger] c[i])
}

/// Reading goes on to the end of the component.
proof fn lemma_run(s: Seq<char>, start: int, from: int, to: int)
    requires
        0 <= start <= from <= to <= s.len(),
        forall|k: int| from <= k < to ==> #[trigger] s[k] != '/',
    ensures
        parts_from(s, start, from) == parts_from(s, start, to),
    decreases to - from,
{
    if from < to {
        assert(s[from] != '/');
        lemma_run(s, start, from + 1, to);
    }
}

/// Reading components that stand between slashes gives them back.
proof fn lemma_parts_of_slashed(s: Seq<char>, start: int, c: Seq<Seq<char>>)
    requires
        0 <= start <= s.len(),
        c.len() > 0,
        are_components(c),
        s.skip(start) == slashed_front(c),
        absolute(s) || start == 0 || start > 0,
    ensures
        parts_from(s, start, start) == c,
    decreases c.len(),
{
    let first = c[0];
    let n = first.len() as int;
    let rest = c.drop_first();
    assert(is_component(first));
    assert(first.len() > 0);
    lemma_front(c);
    assert(s.skip(start).take(n) =~= first);
    assert forall|k: int| start <= k < start + n implies #[trigger] s[k] != '/' by {
        assert(s.skip(start)[k - start] == s[k]);
        assert(first[k - start] == s[k]);
        assert(first.contains(first[k - start]));
    }
    lemma_run(s, start, start, start + n);
    assert(s.subrange(start, start + n) =~= first);
    assert(counts(first, absolute(s), start == 0));
    if rest.len() == 0 {
        assert(s.len() == start + n);
        assert(parts_from(s, start, start + n) =~= seq![first]);
        assert(c =~= seq![first]);
    } else {
        assert(s.skip(start)[n] == '/');
        assert(s[start + n] == '/');
        assert(s.skip(start + n + 1) =~= slashed_front(rest)) by {
            assert(s.skip(start).skip(n + 1) =~= s.skip(start + n + 1));
        }
        assert forall|i: int| 0 <= i < rest.len() implies is_component(#[trigger] rest[i]) by {
            assert(rest[i] == c[i + 1]);
        }
        lemma_parts_of_slashed(s, start + n + 1, rest);
        assert(parts_from(s, start, start + n) =~= seq![first] + rest);
        assert(c =~= seq![first] + rest);
    }
}

/// Components with slashes between them, from the front.
spec fn slashed_front(c: Seq<Seq<char>>) -> Seq<char>
    decreases c.len(),
{
    if c.len() == 0 {
        Seq::empty()
    } else if c.len() == 1 {
        c[0]
    } else {
        c[0] + seq!['/'] + slashed_front(c.drop_first())
    }
}

proof fn lemma_front(c: Seq<Seq<char>>)
    requires
        c.len() > 0,
    ensures
        slashed_front(c).len() >= c[0].len(),
        slashed_front(c).take(c[0].len() as int) == c[0],
        c.len() > 1 ==> slashed_front(c).len() > c[0].len() && slashed_front(c)[c[0].len() as int]
            == '/' && slashed_front(c).skip(c[0].len() as int + 1) == slashed_front(c.drop_first()),
        c.len() == 1 ==> slashed_front(c) == c[0],
{
    let n = c[0].len() as int;
    assert(slashed_front(c).take(n) =~= c[0]);
    if c.len() > 1 {
        assert(slashed_front(c).skip(n + 1) =~= slashed_front(c.drop_first()));
    }
}

proof fn lemma_slashed(c: Seq<Seq<char>>)
    ensures
        slashed(c) == slashed_front(c),
    decreases c.len(),
{
    if c.len() == 2 {
        assert(c.drop_last() =~= seq![c[0]]);
        assert(c.drop_first() =~= seq![c[1]]);
        assert(slashed(c.drop_last()) == c[0]);
        assert(slashed_front(c.drop_first()) == c[1]);
        assert(slashed(c) =~= slashed_front(c));
    } else if c.len() > 2 {
        lemma_slashed(c.drop_last());
        lemma_slashed(c.drop_first());
        lemma_slashed(c.drop_last().drop_first());
        assert(c.drop_last().drop_first() =~= c.drop_first().drop_last());
        let mid = slashed(c.drop_last().drop_first());
        assert(slashed(c.drop_first()) == mid + seq!['/'] + c.last()) by {
            assert(c.drop_first().last() == c.last());
        }
        assert(slashed_front(c.drop_last()) == c[0] + seq!['/'] + slashed_front(
            c.drop_last().drop_first(),
        )) by {
            assert(c.drop_last()[0] == c[0]);
        }
        assert(slashed(c) =~= slashed_front(c));
    }
}

/// A path is its components: put together with slashes they are read back, below the root
/// and relative alike.
pub proof fn a_path_is_its_components(abs: bool, c: Seq<Seq<char>>)
    requires
        c.len() > 0,
        are_components(c),
    ensures
        parts(path_from(abs, c)) == c,
        absolute(path_from(abs, c)) == abs,
{
    reveal(parts);
    lemma_slashed(c);
    let s = path_from(abs, c);
    assert(is_component(c[0]));
    lemma_front(c);
    if abs {
        assert(s.skip(1) =~= slashed_front(c));
        assert(s[0] == '/');
        lemma_parts_of_slashed(s, 1, c);
        assert(s.subrange(0, 0) =~= Seq::<char>::empty());
        assert(parts_from(s, 0, 0) =~= parts_from(s, 1, 1));
    } else {
        assert(s =~= slashed_front(c));
        assert(s.skip(0) =~= s);
        assert(s[0] == c[0][0]) by {
            assert(slashed_front(c).take(c[0].len() as int)[0] == s[0]);
        }
        assert(c[0].contains(c[0][0]));
        lemma_parts_of_slashed(s, 0, c);
    }
}

/// A path lies within those that its components begin with, and what is below is the rest.
pub proof fn a_path_lies_within_what_it_begins_with(abs: bool, c: Seq<Seq<char>>, n: int)
    requires
        0 < n <= c.len(),
        are_components(c),
    ensures
        within(path_from(abs, c), path_from(abs, c.take(n))),
        below(path_from(abs, c), path_from(abs, c.take(n))) == Some(slashed(c.skip(n))),
{
    a_path_is_its_components(abs, c);
    assert forall|i: int| 0 <= i < n implies is_component(#[trigger] c.take(n)[i]) by {
        assert(c.take(n)[i] == c[i]);
    }
    a_path_is_its_components(abs, c.take(n));
}

/// A path does not lie within one whose components it does not begin with.
pub proof fn a_path_lies_within_nothing_else(
    abs: bool,
    c: Seq<Seq<char>>,
    d: Seq<Seq<char>>,
)
    requires
        c.len() > 0,
        d.len() > 0,
        are_components(c),
        are_components(d),
        d.len() > c.len() || c.take(d.len() as int) != d,
    ensures
        !within(path_from(abs, c), path_from(abs, d)),
        !within(path_from(abs, c), path_from(!abs, c)),
        c != d ==> !same_path_spec(path_from(abs, c), path_from(abs, d)),
{
    a_path_is_its_components(abs, c);
    a_path_is_its_components(abs, d);
    a_path_is_its_components(!abs, c);
}

/// The directory of a path is the path without its last component, and the file name is
/// that component.
pub proof fn a_path_is_its_directory_and_its_name(abs: bool, dir: Seq<Seq<char>>, name: Seq<char>)
    requires
        are_components(dir),
        is_component(name),
        name != ".."@,
        name != "."@,
    ensures
        parent_of(path_from(abs, dir.push(name))) == Some(path_from(abs, dir)),
        file_name_of(path_from(abs, dir.push(name))) == Some(name),
{
    let c = dir.push(name);
    assert forall|i: int| 0 <= i < c.len() implies is_component(#[trigger] c[i]) by {
        if i < dir.len() {
            assert(c[i] == dir[i]);
        }
    }
    a_path_is_its_components(abs, c);
    assert(c.drop_last() =~= dir);
}

proof fn lemma_last_dot(stem: Seq<char>, ext: Seq<char>, n: int)
    requires
        !ext.contains('.'),
        stem.len() < n <= (stem + seq!['.'] + ext).len(),
    ensures
        after_last(stem + seq!['.'] + ext, '.', n) == stem.len() + 1,
    decreases n,
{
    let name = stem + seq!['.'] + ext;
    if n == stem.len() + 1 {
        assert(name[n - 1] == '.');
    } else {
        assert(name[n - 1] == ext[n - 1 - stem.len() - 1]);
        assert(ext.contains(ext[n - 1 - stem.len() - 1]));
        lemma_last_dot(stem, ext, n - 1);
    }
}

proof fn lemma_no_dot(name: Seq<char>, n: int)
    requires
        0 <= n <= name.len(),
        !name.contains('.'),
    ensures
        after_last(name, '.', n) == 0,
    decreases n,
{
    if n > 0 {
        assert(name.contains(name[n - 1]));
        lemma_no_dot(name, n - 1);
    }
}

/// The extension of a file name is what follows its last dot, and the stem what precedes
/// it; a name without a dot, or with none but the first character, is all stem.
pub proof fn a_name_is_its_stem_and_its_extension(stem: Seq<char>, ext: Seq<char>)
    requires
        !ext.contains('.'),
    ensures
        stem.len() > 0 ==> stem_of(stem + seq!['.'] + ext) == stem && extension_of(
            stem + seq!['.'] + ext,
        ) == Some(ext),
        stem_of(ext) == ext && extension_of(ext) is None,
        stem_of(seq!['.'] + ext) == seq!['.'] + ext && extension_of(seq!['.'] + ext) is None,
{
    let name = stem + seq!['.'] + ext;
    lemma_last_dot(stem, ext, name.len() as int);
    lemma_no_dot(ext, ext.len() as int);
    let hidden = seq!['.'] + ext;
    assert(Seq::<char>::empty() + seq!['.'] + ext =~= hidden);
    lemma_last_dot(Seq::empty(), ext, hidden.len() as int);
    if stem.len() > 0 {
        assert(name.take(stem.len() as int) =~= stem);
        assert(name.skip(stem.len() as int + 1) =~= ext);
    }
}

/// An absolute path stands for itself, any other is taken below the root.
pub proof fn a_relative_path_is_taken_below_the_root(c: Seq<Seq<char>>, d: Seq<Seq<char>>)
    requires
        c.len() > 0,
        d.len() > 0,
        are_components(c),
        are_components(d),
    ensures
        joined_path(path_from(true, c), path_from(true, d)) == path_from(true, d),
        joined_path(path_from(true, c), path_from(false, d)) == path_from(true, c + d),
{
    a_path_is_its_components(true, c);
    a_path_is_its_components(true, d);
    a_path_is_its_components(false, d);
    let root = path_from(true, c);
    let rel = path_from(false, d);
    assert(is_component(c.last()));
    lemma_ends(c);
    assert(root.last() == c.last().last()) by {
        assert(slashed(c).last() == c.last().last());
    }
    assert(c.last().contains(c.last().last())) by {
        assert(c.last()[c.last().len() - 1] == c.last().last());
    }
    lemma_slashed_concat(c, d);
    assert(joined_path(root, rel) =~= path_from(true, c + d));
}

proof fn lemma_ends(c: Seq<Seq<char>>)
    requires
        c.len() > 0,
        c.last().len() > 0,
    ensures
        slashed(c).len() > 0,
        slashed(c).last() == c.last().last(),
{
}

proof fn lemma_slashed_concat(c: Seq<Seq<char>>, d: Seq<Seq<char>>)
    requires
        c.len() > 0,
        d.len() > 0,
    ensures
        slashed(c + d) == slashed(c) + seq!['/'] + slashed(d),
    decreases d.len(),
{
    assert((c + d).drop_last() =~= c + d.drop_last());
    assert((c + d).last() == d.last());
    if d.len() == 1 {
        assert(c + d.drop_last() =~= c);
        assert(slashed(c + d) =~= slashed(c) + seq!['/'] + slashed(d));
    } else {
        lemma_slashed_concat(c, d.drop_last());
        assert(slashed(c + d) =~= slashed(c) + seq!['/'] + slashed(d));
    }
}

/// The directories above a path are the path without its last component, without its last
/// two, and so on to the root.
pub proof fn the_directories_above_a_path_lead_to_the_root(abs: bool, c: Seq<Seq<char>>, k: int)
    requires
        are_components(c),
        0 <= k < c.len(),
    ensures
        directories_above(path_from(abs, c)).len() == c.len(),
        directories_above(path_from(abs, c))[k] == path_from(abs, c.take(c.len() - 1 - k)),
{
    a_path_is_its_components(abs, c);
}

/// A path comes before those below it.
pub proof fn a_directory_comes_before_what_it_holds(abs: bool, c: Seq<Seq<char>>, d: Seq<Seq<char>>)
    requires
        c.len() > 0,
        d.len() > 0,
        are_components(c),
        are_components(d),
    ensures
        path_lt(path_from(abs, c), path_from(abs, c + d)),
{
    reveal(path_lt);
    let all = c + d;
    assert forall|i: int| 0 <= i < all.len() implies is_component(#[trigger] all[i]) by {
        if i < c.len() {
            assert(all[i] == c[i]);
        } else {
            assert(all[i] == d[i - c.len()]);
        }
    }
    a_path_is_its_components(abs, c);
    a_path_is_its_components(abs, all);
    let a = path_key(path_from(abs, c));
    let b = path_key(path_from(abs, all));
    assert(b.len() > a.len());
    assert(b.take(a.len() as int) =~= a);
    lemma_prefix_lt(a, b);
}

proof fn lemma_prefix_lt(a: Seq<Seq<char>>, b: Seq<Seq<char>>)
    requires
        a.len() < b.len(),
        b.take(a.len() as int) == a,
    ensures
        keys_lt(a, b),
    decreases a.len(),
{
    if a.len() > 0 {
        assert(b.take(a.len() as int)[0] == b[0]);
        let x = a.drop_first();
        let y = b.drop_first();
        assert(y.take(x.len() as int) =~= x) by {
            assert forall|i: int| 0 <= i < x.len() implies y[i] == x[i] by {
                assert(b.take(a.len() as int)[i + 1] == b[i + 1]);
            }
        }
        lemma_prefix_lt(x, y);
    }
}

} // verus!
