//! What a rename of a type leaves behind in a shape.

use crate::text::occurs_at;
use crate::typerefs::{
    lemma_filter_keeps_tokens, name_char, name_end, qualifier_at, qualifies, replaced, replaced_head,
    rewritten_shape, targeted, targets, token_positions, tokens_are_whole, tokens_end, whole_token,
};
use vstd::prelude::*;

verus! {

/// Whether a text can be the name of a type: at least one character, and no other than
/// those of names.
pub open spec fn is_name(s: Seq<char>) -> bool {
    s.len() > 0 && forall|i: int| 0 <= i < s.len() ==> name_char(#[trigger] s[i])
}

/// Whether `name` stands in `raw` at `p` as a whole token.
pub open spec fn stands_at(raw: Seq<char>, name: Seq<char>, p: int) -> bool {
    occurs_at(raw, name, p) && whole_token(raw, name.len(), p)
}

proof fn lemma_found(raw: Seq<char>, name: Seq<char>, from: int, p: int)
    requires
        is_name(name),
        0 <= from <= p,
        stands_at(raw, name, p),
    ensures
        token_positions(raw, name, from).contains(p),
    decreases p - from,
{
    let found = token_positions(raw, name, from);
    if from == p {
        let rest = token_positions(raw, name, from + name.len());
        assert(found == seq![from] + rest);
        assert(found[0] == p);
    } else if !occurs_at(raw, name, from) {
        lemma_found(raw, name, from + 1, p);
    } else {
        let n = name.len() as int;
        if from + n > p {
            assert(raw.subrange(from, from + n)[p - 1 - from] == raw[p - 1]);
            assert(name_char(name[p - 1 - from]));
            assert(false);
        }
        lemma_found(raw, name, from + n, p);
        let rest = token_positions(raw, name, from + n);
        let k = choose|k: int| 0 <= k < rest.len() && rest[k] == p;
        if whole_token(raw, name.len(), from) {
            assert(found == seq![from] + rest);
            assert(found[k + 1] == p);
        } else {
            assert(found =~= rest);
        }
    }
}

/// The search for a name misses no whole token: it finds exactly those.
pub proof fn every_whole_token_is_found(raw: Seq<char>, name: Seq<char>, p: int)
    requires
        is_name(name),
    ensures
        token_positions(raw, name, 0).contains(p) == stands_at(raw, name, p),
{
    tokens_are_whole(raw, name, 0);
    if stands_at(raw, name, p) {
        lemma_found(raw, name, 0, p);
    }
}

/// `raw` with the `n` characters at `p` replaced by `new`.
spec fn spliced(raw: Seq<char>, n: nat, new: Seq<char>, p: int) -> Seq<char> {
    raw.take(p) + new + raw.skip(p + n)
}

/// Replacing the last of the places first leaves the others where they are.
proof fn lemma_last_first(raw: Seq<char>, name: Seq<char>, new: Seq<char>, at: Seq<int>)
    requires
        at.len() > 0,
        forall|k: int| #![trigger at[k]] 0 <= k < at.len() ==> occurs_at(raw, name, at[k]),
        forall|a: int, b: int|
            #![trigger at[a], at[b]]
            0 <= a < b < at.len() ==> at[a] + name.len() <= at[b],
    ensures
        replaced(raw, name.len(), new, at) == replaced(
            spliced(raw, name.len(), new, at.last()),
            name.len(),
            new,
            at.drop_last(),
        ),
{
    let n = name.len();
    let p = at.last();
    let r = spliced(raw, n, new, p);
    let front = at.drop_last();
    assert(raw.take(p) =~= r.take(p));
    lemma_head_agrees(raw, r, name, new, front, p);
    let e = tokens_end(n, front);
    if front.len() > 0 {
        assert(front.last() == at[at.len() - 2]);
    }
    assert(0 <= e <= p);
    assert(r.skip(e) =~= raw.subrange(e, p) + new + raw.skip(p + n));
    assert(replaced(raw, n, new, at) =~= replaced(r, n, new, front));
}

proof fn lemma_head_agrees(
    a: Seq<char>,
    b: Seq<char>,
    name: Seq<char>,
    new: Seq<char>,
    at: Seq<int>,
    p: int,
)
    requires
        0 <= p <= a.len(),
        p <= b.len(),
        a.take(p) == b.take(p),
        forall|k: int|
            #![trigger at[k]]
            0 <= k < at.len() ==> 0 <= at[k] && at[k] + name.len() <= p,
        forall|i: int, j: int|
            #![trigger at[i], at[j]]
            0 <= i < j < at.len() ==> at[i] + name.len() <= at[j],
    ensures
        replaced_head(a, name.len(), new, at) == replaced_head(b, name.len(), new, at),
    decreases at.len(),
{
    if at.len() > 0 {
        let before = at.drop_last();
        lemma_head_agrees(a, b, name, new, before, p);
        let e = tokens_end(name.len(), before);
        if before.len() > 0 {
            assert(before.last() == at[at.len() - 2]);
        }
        let q = at.last();
        assert(q == at[at.len() - 1]);
        assert(a.subrange(e, q) =~= a.take(p).subrange(e, q));
        assert(b.subrange(e, q) =~= b.take(p).subrange(e, q));
    }
}

/// Where a run of name characters ends is seen from the characters up to there.
proof fn lemma_name_end(a: Seq<char>, i: int, b: Seq<char>, j: int, n: int)
    requires
        0 <= i,
        0 <= j,
        0 <= n,
        i + n <= a.len(),
        j + n <= b.len(),
        forall|k: int| 0 <= k < n ==> #[trigger] a[i + k] == b[j + k],
        (i + n == a.len() && j + n == b.len()) || exists|k: int|
            0 <= k < n && !name_char(#[trigger] a[i + k]),
    ensures
        name_end(a, i) - i == name_end(b, j) - j,
        i <= name_end(a, i) <= i + n,
    decreases n,
{
    if n > 0 {
        assert(a[i + 0] == b[j + 0]);
        if name_char(a[i]) {
            assert forall|k: int| 0 <= k < n - 1 implies #[trigger] a[i + 1 + k] == b[j + 1 + k] by {
                assert(a[i + (k + 1)] == b[j + (k + 1)]);
            }
            if exists|k: int| 0 <= k < n && !name_char(#[trigger] a[i + k]) {
                let k = choose|k: int| 0 <= k < n && !name_char(#[trigger] a[i + k]);
                assert(!name_char(a[i + 1 + (k - 1)]));
            }
            lemma_name_end(a, i + 1, b, j + 1, n - 1);
        }
    }
}

/// A token behind the replaced one reads as before.
proof fn lemma_behind(raw: Seq<char>, name: Seq<char>, new: Seq<char>, p: int, x: Seq<char>, q: int)
    requires
        is_name(name),
        is_name(new),
        is_name(x),
        stands_at(raw, name, p),
        stands_at(spliced(raw, name.len(), new, p), x, q),
        q >= p + new.len(),
    ensures
        stands_at(raw, x, q - new.len() + name.len()),
        q > p + new.len(),
        qualifier_at(spliced(raw, name.len(), new, p), q + x.len()) == qualifier_at(
            raw,
            q - new.len() + name.len() + x.len(),
        ),
{
    let n = name.len() as int;
    let m = new.len() as int;
    let w = x.len() as int;
    let r = spliced(raw, name.len(), new, p);
    let o = q - m + n;
    assert(r.len() == raw.len() - n + m);
    assert forall|k: int| p + m <= k < r.len() implies #[trigger] r[k] == raw[k - m + n] by {}
    assert(r[p + m - 1] == new[m - 1]);
    assert(name_char(new[m - 1]));
    assert(name_char(x[0]));
    assert(r.subrange(q, q + w)[0] == r[q]);
    assert(q > p + m);
    assert(r.subrange(q, q + w) =~= raw.subrange(o, o + w));
    assert(r[q - 1] == raw[o - 1]);
    if q - 2 < p + m {
        assert(raw.subrange(p, p + n)[n - 1] == raw[o - 2]);
        assert(name_char(name[n - 1]));
    } else {
        assert(r[q - 2] == raw[o - 2]);
        if q - 3 < p + m {
            assert(r[q - 3] == new[m - 1]);
            assert(raw.subrange(p, p + n)[n - 1] == raw[o - 3]);
            assert(name_char(name[n - 1]));
        } else {
            assert(r[q - 3] == raw[o - 3]);
        }
    }
    if q + w < r.len() {
        assert(r[q + w] == raw[o + w]);
    }
    if q + w + 2 <= r.len() {
        assert(r.subrange(q + w, q + w + 2) =~= raw.subrange(o + w, o + w + 2));
        let d = r.len() - (q + w + 2);
        assert forall|k: int| 0 <= k < d implies #[trigger] r[q + w + 2 + k] == raw[o + w + 2 + k] by {}
        lemma_name_end(r, q + w + 2, raw, o + w + 2, d);
        let e = name_end(r, q + w + 2);
        assert(r.subrange(q + w + 2, e) =~= raw.subrange(o + w + 2, e - m + n));
    }
}

/// A token before the replaced one reads as before.
proof fn lemma_before(raw: Seq<char>, name: Seq<char>, new: Seq<char>, p: int, x: Seq<char>, q: int)
    requires
        is_name(name),
        is_name(new),
        is_name(x),
        stands_at(raw, name, p),
        stands_at(spliced(raw, name.len(), new, p), x, q),
        q + x.len() <= p,
    ensures
        stands_at(raw, x, q),
        qualifier_at(spliced(raw, name.len(), new, p), q + x.len()) == qualifier_at(
            raw,
            q + x.len(),
        ),
{
    let n = name.len() as int;
    let w = x.len() as int;
    let r = spliced(raw, name.len(), new, p);
    assert(r.len() == raw.len() - n + new.len());
    assert forall|k: int| 0 <= k < p implies #[trigger] r[k] == raw[k] by {}
    assert(r[p] == new[0]);
    assert(name_char(new[0]));
    assert(raw.subrange(p, p + n)[0] == raw[p]);
    assert(name_char(name[0]));
    assert(r.subrange(q, q + w) =~= raw.subrange(q, q + w));
    assert(q + w < p);
    assert(r[q + w] == raw[q + w]);
    assert(q < 3 || r[q - 3] == raw[q - 3]);
    assert(raw.subrange(q, q + w)[w - 1] == raw[q + w - 1]);
    assert(name_char(x[w - 1]));
    let c = seq![':', ':'];
    let e = q + w;
    assert(c[0] == ':' && c[1] == ':');
    if e + 2 < p {
        assert(r.subrange(e, e + 2) =~= raw.subrange(e, e + 2));
        assert(!name_char(raw[p - 1]));
        assert(!name_char(r[e + 2 + (p - 1 - e - 2)]));
        assert forall|k: int| 0 <= k < p - e - 2 implies #[trigger] r[e + 2 + k] == raw[e + 2
            + k] by {}
        lemma_name_end(r, e + 2, raw, e + 2, p - e - 2);
        let f = name_end(r, e + 2);
        assert(r.subrange(e + 2, f) =~= raw.subrange(e + 2, f));
    } else if e + 2 == p {
        if occurs_at(raw, c, e) {
            assert(raw.subrange(e, e + 2)[0] == raw[e]);
            assert(raw.subrange(e, e + 2)[1] == raw[e + 1]);
            assert(qualifies(raw, p));
        }
        if occurs_at(r, c, e) {
            assert(r.subrange(e, e + 2)[0] == r[e]);
            assert(r.subrange(e, e + 2)[1] == r[e + 1]);
            assert(qualifies(raw, p));
        }
    } else {
        assert(e + 1 == p);
        assert(e + 2 > r.len() || r.subrange(e, e + 2)[1] == r[p]);
        assert(raw.subrange(e, e + 2)[1] == raw[p]);
        assert(!occurs_at(r, c, e));
        assert(!occurs_at(raw, c, e));
    }
}

/// The run of name characters at a whole token is that token.
proof fn lemma_run(raw: Seq<char>, name: Seq<char>, p: int)
    requires
        is_name(name),
        occurs_at(raw, name, p),
        p + name.len() >= raw.len() || !name_char(raw[p + name.len()]),
    ensures
        name_end(raw, p) == p + name.len(),
{
    lemma_run_from(raw, name, p, 0);
}

proof fn lemma_run_from(raw: Seq<char>, name: Seq<char>, p: int, k: int)
    requires
        is_name(name),
        occurs_at(raw, name, p),
        p + name.len() >= raw.len() || !name_char(raw[p + name.len()]),
        0 <= k <= name.len(),
    ensures
        name_end(raw, p + k) == p + name.len(),
    decreases name.len() - k,
{
    if k < name.len() {
        assert(raw.subrange(p, p + name.len())[k] == raw[p + k]);
        assert(name_char(name[k]));
        lemma_run_from(raw, name, p, k + 1);
    }
}

/// A token that overlaps the replacement is the replacement.
proof fn lemma_beside(raw: Seq<char>, name: Seq<char>, new: Seq<char>, p: int, x: Seq<char>, q: int)
    requires
        is_name(name),
        is_name(new),
        is_name(x),
        stands_at(raw, name, p),
        stands_at(spliced(raw, name.len(), new, p), x, q),
    ensures
        q + x.len() <= p || q >= p + new.len() || (q == p && x == new),
{
    let n = name.len() as int;
    let m = new.len() as int;
    let w = x.len() as int;
    let r = spliced(raw, name.len(), new, p);
    assert(r.len() == raw.len() - n + m);
    if q + w > p && q < p + m {
        assert(r.subrange(p, p + m) =~= new);
        assert(p == 0 || r[p - 1] == raw[p - 1]);
        assert(p + m >= r.len() || r[p + m] == raw[p + n]);
        if q < p {
            assert(r.subrange(q, q + w)[p - 1 - q] == r[p - 1]);
            assert(name_char(x[p - 1 - q]));
        }
        if q > p {
            assert(r.subrange(p, p + m)[q - 1 - p] == r[q - 1]);
            assert(name_char(new[q - 1 - p]));
        }
        assert(q == p);
        lemma_run(r, x, p);
        lemma_run(r, new, p);
        assert(x =~= new);
    }
}

/// Whether `at` are whole tokens `name` of `raw`, in order and without overlap.
spec fn stand_at(raw: Seq<char>, name: Seq<char>, at: Seq<int>) -> bool {
    &&& forall|k: int| #![trigger at[k]] 0 <= k < at.len() ==> stands_at(raw, name, at[k])
    &&& forall|a: int, b: int|
        #![trigger at[a], at[b]]
        0 <= a < b < at.len() ==> at[a] + name.len() <= at[b]
}

/// Where the replacements stand: each is shifted by what those before it grew.
spec fn moved(at: Seq<int>, n: int, m: int) -> Seq<int> {
    Seq::new(at.len(), |k: int| at[k] + k * (m - n))
}

proof fn lemma_moved_front(at: Seq<int>, n: int, m: int)
    requires
        at.len() > 0,
    ensures
        moved(at, n, m).drop_last() == moved(at.drop_last(), n, m),
{
    assert(moved(at, n, m).drop_last() =~= moved(at.drop_last(), n, m));
}

/// How long the text is up to the end of the last replacement.
proof fn lemma_head_len(raw: Seq<char>, name: Seq<char>, new: Seq<char>, at: Seq<int>)
    requires
        stand_at(raw, name, at),
    ensures
        replaced_head(raw, name.len(), new, at).len() == tokens_end(name.len(), at) + at.len() * (
        new.len() - name.len()),
        0 <= tokens_end(name.len(), at) <= raw.len(),
    decreases at.len(),
{
    let d = new.len() - name.len();
    if at.len() > 0 {
        let front = at.drop_last();
        lemma_head_len(raw, name, new, front);
        assert(at.last() == at[at.len() - 1]);
        if front.len() > 0 {
            assert(front.last() == at[at.len() - 2]);
        }
        assert(at.len() * d == front.len() * d + d) by (nonlinear_arith)
            requires
                at.len() == front.len() + 1,
        ;
    } else {
        assert(at.len() * d == 0) by (nonlinear_arith)
            requires
                at.len() == 0,
        ;
    }
}

/// A token behind all the replaced ones is found behind the replacements.
proof fn lemma_rest_stands(
    raw: Seq<char>,
    name: Seq<char>,
    new: Seq<char>,
    at: Seq<int>,
    x: Seq<char>,
    p: int,
)
    requires
        is_name(name),
        is_name(new),
        is_name(x),
        stand_at(raw, name, at),
        stands_at(raw, x, p),
        p >= tokens_end(name.len(), at),
    ensures
        stands_at(replaced(raw, name.len(), new, at), x, p + at.len() * (new.len() - name.len())),
        qualifier_at(
            replaced(raw, name.len(), new, at),
            p + at.len() * (new.len() - name.len()) + x.len(),
        ) == qualifier_at(raw, p + x.len()),
{
    let n = name.len() as int;
    let w = x.len() as int;
    let s = replaced(raw, name.len(), new, at);
    let head = replaced_head(raw, name.len(), new, at);
    let e = tokens_end(name.len(), at);
    lemma_head_len(raw, name, new, at);
    let d = head.len() - e;
    let q = p + d;
    assert(d == at.len() * (new.len() - name.len()));
    assert(s.len() == raw.len() + d);
    assert forall|k: int| e <= k < raw.len() implies #[trigger] raw[k] == s[k + d] by {
        assert(s[k + d] == raw.skip(e)[k - e]);
    }
    assert(raw.subrange(p, p + w)[0] == raw[p]);
    assert(name_char(x[0]));
    if at.len() > 0 {
        let last = at.last();
        assert(last == at[at.len() - 1]);
        assert(stands_at(raw, name, last));
        assert(p > e);
        assert(raw.subrange(last, last + n)[n - 1] == raw[e - 1]);
        assert(name_char(name[n - 1]));
        assert(head.last() == new.last()) by {
            assert(head[head.len() - 1] == new[new.len() - 1]);
        }
        assert(name_char(new[new.len() - 1]));
        assert(s[head.len() - 1] == head[head.len() - 1]);
        assert(raw[p - 1] == s[q - 1]);
        if p - 2 >= e {
            assert(raw[p - 2] == s[q - 2]);
            if p - 3 >= e {
                assert(raw[p - 3] == s[q - 3]);
            } else {
                assert(s[q - 3] == head[head.len() - 1]);
            }
        }
    } else {
        assert(head =~= Seq::empty());
        assert(s =~= raw);
    }
    assert(s.subrange(q, q + w) =~= raw.subrange(p, p + w)) by {
        assert forall|k: int| 0 <= k < w implies #[trigger] s.subrange(q, q + w)[k]
            == raw.subrange(p, p + w)[k] by {
            assert(raw[p + k] == s[p + k + d]);
        }
    }
    if p + w < raw.len() {
        assert(raw[p + w] == s[p + w + d]);
    }
    let o = p + w;
    let b = q + w;
    if o + 2 <= raw.len() {
        assert(raw[o + 1] == s[o + 1 + d]);
        assert(s.subrange(b, b + 2) =~= raw.subrange(o, o + 2));
        let rest = raw.len() - o - 2;
        assert forall|k: int| 0 <= k < rest implies #[trigger] s[b + 2 + k] == raw[o + 2 + k] by {
            assert(raw[o + 2 + k] == s[o + 2 + k + d]);
        }
        lemma_name_end(s, b + 2, raw, o + 2, rest);
        let f = name_end(s, b + 2);
        assert(s.subrange(b + 2, f) =~= raw.subrange(o + 2, f - d)) by {
            assert forall|k: int| 0 <= k < f - b - 2 implies #[trigger] s.subrange(b + 2, f)[k]
                == raw.subrange(o + 2, f - d)[k] by {
                assert(s[b + 2 + k] == raw[o + 2 + k]);
            }
        }
    }
}

/// The others stay tokens where the last one is replaced.
proof fn lemma_front_stands(raw: Seq<char>, name: Seq<char>, new: Seq<char>, at: Seq<int>)
    requires
        is_name(name),
        is_name(new),
        stand_at(raw, name, at),
        at.len() > 0,
    ensures
        stand_at(spliced(raw, name.len(), new, at.last()), name, at.drop_last()),
        stands_at(spliced(raw, name.len(), new, at.last()), new, at.last()),
{
    let n = name.len() as int;
    let m = new.len() as int;
    let last = at.last();
    let front = at.drop_last();
    let r = spliced(raw, name.len(), new, last);
    assert(last == at[at.len() - 1]);
    assert(r.len() == raw.len() - n + m);
    assert forall|k: int| 0 <= k < last implies #[trigger] r[k] == raw[k] by {}
    assert forall|k: int| #![trigger front[k]] 0 <= k < front.len() implies stands_at(
        r,
        name,
        front[k],
    ) by {
        let p = front[k];
        assert(p == at[k]);
        assert(p + n <= last);
        assert(r.subrange(p, p + n) =~= raw.subrange(p, p + n));
        assert(raw.subrange(last, last + n)[0] == raw[last]);
        assert(name_char(name[0]));
        assert(p + n < last);
        assert(r[p + n] == raw[p + n]);
        assert(p == 0 || r[p - 1] == raw[p - 1]);
        assert(p < 2 || r[p - 2] == raw[p - 2]);
        assert(p < 3 || r[p - 3] == raw[p - 3]);
    }
    assert(r.subrange(last, last + m) =~= new);
    assert(last == 0 || r[last - 1] == raw[last - 1]);
    assert(last < 2 || r[last - 2] == raw[last - 2]);
    assert(last < 3 || r[last - 3] == raw[last - 3]);
    assert(last + m >= r.len() || r[last + m] == raw[last + n]);
}

/// Each replacement is a token with the qualifier of what it replaces.
proof fn lemma_replacements(
    raw: Seq<char>,
    name: Seq<char>,
    new: Seq<char>,
    at: Seq<int>,
    k: int,
)
    requires
        is_name(name),
        is_name(new),
        stand_at(raw, name, at),
        0 <= k < at.len(),
    ensures
        stands_at(
            replaced(raw, name.len(), new, at),
            new,
            moved(at, name.len() as int, new.len() as int)[k],
        ),
        qualifier_at(
            replaced(raw, name.len(), new, at),
            moved(at, name.len() as int, new.len() as int)[k] + new.len(),
        ) == qualifier_at(raw, at[k] + name.len()),
    decreases at.len(),
{
    let n = name.len() as int;
    let m = new.len() as int;
    let last = at.last();
    let front = at.drop_last();
    let r = spliced(raw, name.len(), new, last);
    assert(last == at[at.len() - 1]);
    lemma_last_first(raw, name, new, at);
    lemma_front_stands(raw, name, new, at);
    if k == at.len() - 1 {
        if front.len() > 0 {
            assert(front.last() == at[at.len() - 2]);
        }
        lemma_rest_stands(r, name, new, front, new, last);
        lemma_own_qualifier(raw, name, new, last);
    } else {
        lemma_replacements(r, name, new, front, k);
        assert(front[k] == at[k]);
        assert(at[k] + n <= last);
        lemma_before(raw, name, new, last, name, at[k]);
    }
}

/// The qualifier behind a replaced token stays.
proof fn lemma_own_qualifier(raw: Seq<char>, name: Seq<char>, new: Seq<char>, p: int)
    requires
        stands_at(raw, name, p),
    ensures
        qualifier_at(spliced(raw, name.len(), new, p), p + new.len()) == qualifier_at(
            raw,
            p + name.len(),
        ),
{
    let r = spliced(raw, name.len(), new, p);
    let o = p + name.len() as int;
    let b = p + new.len() as int;
    assert(r.len() - b == raw.len() - o);
    assert forall|k: int| o <= k < raw.len() implies #[trigger] raw[k] == r[k - o + b] by {}
    if o + 2 <= raw.len() {
        assert(r.subrange(b, b + 2) =~= raw.subrange(o, o + 2));
        let rest = raw.len() - o - 2;
        assert forall|k: int| 0 <= k < rest implies #[trigger] r[b + 2 + k] == raw[o + 2 + k] by {}
        lemma_name_end(r, b + 2, raw, o + 2, rest);
        let f = name_end(r, b + 2);
        assert(r.subrange(b + 2, f) =~= raw.subrange(o + 2, f - b + o));
    }
}

/// How many of the places lie before `p`.
spec fn below(at: Seq<int>, p: int) -> nat
    decreases at.len(),
{
    if at.len() == 0 {
        0
    } else if at.last() < p {
        at.len()
    } else {
        below(at.drop_last(), p)
    }
}

/// Whether the token `x` at `p` of `raw` is left where `at` are replaced, then stands at
/// `q`, and has this qualifier.
spec fn is_left(
    raw: Seq<char>,
    at: Seq<int>,
    grows: int,
    x: Seq<char>,
    p: int,
    q: int,
    qualifier: Option<Seq<char>>,
) -> bool {
    &&& stands_at(raw, x, p)
    &&& !at.contains(p)
    &&& q == p + below(at, p) * grows
    &&& qualifier_at(raw, p + x.len()) == qualifier
}

/// What is left where all but the last were replaced is the last replacement, or left
/// where the last is replaced too.
proof fn lemma_left_once(
    raw: Seq<char>,
    name: Seq<char>,
    new: Seq<char>,
    at: Seq<int>,
    x: Seq<char>,
    p1: int,
    q: int,
    now: Option<Seq<char>>,
) -> (p: int)
    requires
        is_name(name),
        is_name(new),
        is_name(x),
        stand_at(raw, name, at),
        at.len() > 0,
        is_left(
            spliced(raw, name.len(), new, at.last()),
            at.drop_last(),
            new.len() - name.len(),
            x,
            p1,
            q,
            now,
        ),
    ensures
        (x == new && q == at.last() + (at.len() - 1) * (new.len() - name.len())) || is_left(
            raw,
            at,
            new.len() - name.len(),
            x,
            p,
            q,
            now,
        ),
{
    let n = name.len() as int;
    let m = new.len() as int;
    let d = m - n;
    let last = at.last();
    let front = at.drop_last();
    let f = front.len() as int;
    assert(last == at[f]);
    assert(stands_at(raw, name, last));
    if f > 0 {
        assert(front.last() == at[f - 1]);
        assert(front.last() + n <= last);
    }
    lemma_beside(raw, name, new, last, x, p1);
    if p1 + x.len() <= last {
        lemma_before(raw, name, new, last, x, p1);
        assert(below(at, p1) == below(front, p1));
        lemma_not_there(at, p1);
        p1
    } else if p1 >= last + m {
        lemma_behind(raw, name, new, last, x, p1);
        let p0 = p1 - d;
        assert(below(front, p1) == f);
        assert(below(at, p0) == f + 1);
        assert((f + 1) * d == f * d + d) by (nonlinear_arith);
        assert(p0 > last);
        assert(!at.contains(p0)) by {
            if at.contains(p0) {
                let k = choose|k: int| 0 <= k < at.len() && at[k] == p0;
                if k < f {
                    assert(at[k] + n <= at[f]);
                }
            }
        }
        p0
    } else {
        assert(below(front, p1) == f);
        p1
    }
}

proof fn lemma_not_there(at: Seq<int>, p: int)
    requires
        at.len() > 0,
        p != at.last(),
        !at.drop_last().contains(p),
    ensures
        !at.contains(p),
{
    if at.contains(p) {
        let k = choose|k: int| 0 <= k < at.len() && at[k] == p;
        assert(at.drop_last()[k] == p);
    }
}

/// A token that stands where tokens were replaced is a replacement, or one that was
/// left.
proof fn lemma_left(
    raw: Seq<char>,
    name: Seq<char>,
    new: Seq<char>,
    at: Seq<int>,
    x: Seq<char>,
    q: int,
)
    requires
        is_name(name),
        is_name(new),
        is_name(x),
        stand_at(raw, name, at),
        stands_at(replaced(raw, name.len(), new, at), x, q),
    ensures
        (x == new && moved(at, name.len() as int, new.len() as int).contains(q)) || exists|p: int|
            #[trigger] is_left(
                raw,
                at,
                new.len() - name.len(),
                x,
                p,
                q,
                qualifier_at(replaced(raw, name.len(), new, at), q + x.len()),
            ),
    decreases at.len(),
{
    let n = name.len() as int;
    let m = new.len() as int;
    let d = m - n;
    let places = moved(at, n, m);
    let s = replaced(raw, name.len(), new, at);
    let now = qualifier_at(s, q + x.len());
    if at.len() == 0 {
        assert(s =~= raw);
        assert(below(at, q) * d == 0) by (nonlinear_arith)
            requires
                below(at, q) == 0,
        ;
        assert(is_left(raw, at, d, x, q, q, now));
    } else {
        let front = at.drop_last();
        let r = spliced(raw, name.len(), new, at.last());
        lemma_last_first(raw, name, new, at);
        lemma_front_stands(raw, name, new, at);
        lemma_left(r, name, new, front, x, q);
        lemma_moved_front(at, n, m);
        let before = moved(front, n, m);
        if x == new && before.contains(q) {
            let k = choose|k: int| 0 <= k < before.len() && before[k] == q;
            assert(places[k] == q);
        } else {
            let p1 = choose|p: int| #[trigger] is_left(r, front, d, x, p, q, now);
            let p = lemma_left_once(raw, name, new, at, x, p1, q, now);
            if !is_left(raw, at, d, x, p, q, now) {
                assert(places[at.len() - 1] == q);
            }
        }
    }
}

/// Putting the old name back where the new one was put gives the text as it was.
proof fn lemma_put_back(raw: Seq<char>, name: Seq<char>, new: Seq<char>, at: Seq<int>)
    requires
        is_name(name),
        is_name(new),
        stand_at(raw, name, at),
    ensures
        replaced(
            replaced(raw, name.len(), new, at),
            new.len(),
            name,
            moved(at, name.len() as int, new.len() as int),
        ) == raw,
    decreases at.len(),
{
    let n = name.len() as int;
    let m = new.len() as int;
    let s = replaced(raw, name.len(), new, at);
    let places = moved(at, n, m);
    if at.len() == 0 {
        assert(s =~= raw);
        assert(replaced(s, new.len(), name, places) =~= raw);
    } else {
        let last = at.last();
        let front = at.drop_last();
        let f = front.len() as int;
        assert(last == at[at.len() - 1]);
        lemma_head_len(raw, name, new, front);
        let head = replaced_head(raw, name.len(), new, front);
        let e = tokens_end(name.len(), front);
        if f > 0 {
            assert(front.last() == at[at.len() - 2]);
        }
        let gap = raw.subrange(e, last);
        let q = places.last();
        assert(q == last + f * (m - n));
        assert(head.len() == e + f * (m - n));
        assert(q == head.len() + gap.len());
        let rest = raw.skip(last + n);
        assert(s =~= head + gap + new + rest);
        assert(raw.subrange(last, last + n) =~= name);
        assert(spliced(s, new.len(), name, q) =~= head + gap + name + rest);
        assert(replaced(raw, name.len(), new, front) =~= head + gap + name + rest) by {
            assert(raw.skip(e) =~= gap + name + rest);
        }
        assert forall|k: int| #![trigger places[k]] 0 <= k < places.len() implies occurs_at(
            s,
            new,
            places[k],
        ) by {
            lemma_replacements(raw, name, new, at, k);
        }
        assert forall|a: int, b: int|
            #![trigger places[a], places[b]]
            0 <= a < b < places.len() implies places[a] + new.len() <= places[b] by {
            assert(at[a] + n <= at[b]);
            lemma_apart(at, n, a, b);
            assert(b * (m - n) - a * (m - n) == (b - a) * (m - n)) by (nonlinear_arith);
            assert((b - a) * n + (b - a) * (m - n) == (b - a) * m) by (nonlinear_arith);
            assert((b - a) * m >= m) by (nonlinear_arith)
                requires
                    b - a >= 1,
                    m >= 0,
            ;
        }
        lemma_last_first(s, new, name, places);
        lemma_moved_front(at, n, m);
        lemma_put_back(raw, name, new, front);
    }
}

/// Places that do not overlap lie as far apart as there are tokens between them.
proof fn lemma_apart(at: Seq<int>, n: int, a: int, b: int)
    requires
        0 <= a <= b < at.len(),
        forall|i: int, j: int|
            #![trigger at[i], at[j]]
            0 <= i < j < at.len() ==> at[i] + n <= at[j],
    ensures
        at[a] + (b - a) * n <= at[b],
    decreases b - a,
{
    if a < b {
        lemma_apart(at, n, a, b - 1);
        assert(at[b - 1] + n <= at[b]);
        assert((b - a) * n == (b - 1 - a) * n + n) by (nonlinear_arith);
    } else {
        assert((b - a) * n == 0) by (nonlinear_arith)
            requires
                a == b,
        ;
    }
}

/// Two ascending lists of the same places are one.
proof fn lemma_same_places(a: Seq<int>, b: Seq<int>)
    requires
        forall|i: int, j: int| #![trigger a[i], a[j]] 0 <= i < j < a.len() ==> a[i] < a[j],
        forall|i: int, j: int| #![trigger b[i], b[j]] 0 <= i < j < b.len() ==> b[i] < b[j],
        forall|p: int| #![trigger a.contains(p)] #![trigger b.contains(p)] a.contains(p) == b.contains(p),
    ensures
        a == b,
    decreases a.len(),
{
    if a.len() == 0 {
        if b.len() > 0 {
            assert(b.contains(b[0]));
            assert(a.contains(b[0]));
        }
        assert(a =~= b);
    } else {
        assert(a.contains(a[a.len() - 1]));
        let k = choose|k: int| 0 <= k < b.len() && b[k] == a[a.len() - 1];
        assert(b.contains(b[b.len() - 1]));
        let j = choose|j: int| 0 <= j < a.len() && a[j] == b[b.len() - 1];
        assert(a.last() == b.last()) by {
            if j < a.len() - 1 {
                assert(a[j] < a[a.len() - 1]);
                if k < b.len() - 1 {
                    assert(b[k] < b[b.len() - 1]);
                }
            }
        }
        let x = a.drop_last();
        let y = b.drop_last();
        assert forall|p: int| #![trigger x.contains(p)] #![trigger y.contains(p)] x.contains(p)
            == y.contains(p) by {
            if x.contains(p) {
                let i = choose|i: int| 0 <= i < x.len() && x[i] == p;
                assert(a[i] == p && a[i] < a[a.len() - 1]);
                assert(a.contains(p));
                let i2 = choose|i: int| 0 <= i < b.len() && b[i] == p;
                assert(y[i2] == p);
            }
            if y.contains(p) {
                let i = choose|i: int| 0 <= i < y.len() && y[i] == p;
                assert(b[i] == p && b[i] < b[b.len() - 1]);
                assert(b.contains(p));
                let i2 = choose|i: int| 0 <= i < a.len() && a[i] == p;
                assert(x[i2] == p);
            }
        }
        lemma_same_places(x, y);
        assert(a =~= x.push(a.last()));
        assert(b =~= y.push(b.last()));
    }
}

proof fn lemma_targeted(
    raw: Seq<char>,
    name: Seq<char>,
    file_repo: Seq<char>,
    def_repo: Seq<char>,
)
    requires
        is_name(name),
    ensures
        stand_at(raw, name, targeted(raw, name, file_repo, def_repo)),
        forall|p: int|
            #[trigger] targeted(raw, name, file_repo, def_repo).contains(p) == (stands_at(
                raw,
                name,
                p,
            ) && targets(qualifier_at(raw, p + name.len()), file_repo, def_repo)),
{
    let all = token_positions(raw, name, 0);
    let f = |p: int| targets(qualifier_at(raw, p + name.len()), file_repo, def_repo);
    tokens_are_whole(raw, name, 0);
    lemma_filter_keeps_tokens(raw, name, all, f);
    assert forall|p: int|
        #[trigger] targeted(raw, name, file_repo, def_repo).contains(p) == (stands_at(raw, name, p)
            && targets(qualifier_at(raw, p + name.len()), file_repo, def_repo)) by {
        every_whole_token_is_found(raw, name, p);
        let kept = all.filter(f);
        if kept.contains(p) {
            let k = choose|k: int| 0 <= k < kept.len() && kept[k] == p;
            all.lemma_filter_pred(f, k);
        }
        if all.contains(p) && f(p) {
            let k = choose|k: int| 0 <= k < all.len() && all[k] == p;
            all.lemma_filter_contains(f, k);
        }
    }
}

/// After a rename a shape no longer names the type by its old name.
pub proof fn a_renamed_type_is_no_longer_named(
    raw: Seq<char>,
    old_name: Seq<char>,
    new_name: Seq<char>,
    file_repo: Seq<char>,
    def_repo: Seq<char>,
)
    requires
        is_name(old_name),
        is_name(new_name),
        old_name != new_name,
    ensures
        rewritten_shape(raw, old_name, new_name, file_repo, def_repo) matches Some(t) ==> targeted(
            t,
            old_name,
            file_repo,
            def_repo,
        ).len() == 0,
{
    let at = targeted(raw, old_name, file_repo, def_repo);
    lemma_targeted(raw, old_name, file_repo, def_repo);
    if at.len() > 0 {
        let t = replaced(raw, old_name.len(), new_name, at);
        let still = targeted(t, old_name, file_repo, def_repo);
        lemma_targeted(t, old_name, file_repo, def_repo);
        if still.len() > 0 {
            let q = still[0];
            let d = new_name.len() - old_name.len();
            let now = qualifier_at(t, q + old_name.len());
            assert(still.contains(q));
            lemma_left(raw, old_name, new_name, at, old_name, q);
            let p = choose|p: int| #[trigger] is_left(raw, at, d, old_name, p, q, now);
            assert(!at.contains(p));
        }
    }
}

/// After a rename a shape that named the type names it by its new name.
pub proof fn a_renamed_type_is_named_anew(
    raw: Seq<char>,
    old_name: Seq<char>,
    new_name: Seq<char>,
    file_repo: Seq<char>,
    def_repo: Seq<char>,
)
    requires
        is_name(old_name),
        is_name(new_name),
    ensures
        rewritten_shape(raw, old_name, new_name, file_repo, def_repo) matches Some(t) ==> targeted(
            t,
            new_name,
            file_repo,
            def_repo,
        ).len() > 0,
{
    let at = targeted(raw, old_name, file_repo, def_repo);
    lemma_targeted(raw, old_name, file_repo, def_repo);
    if at.len() > 0 {
        let t = replaced(raw, old_name.len(), new_name, at);
        let q = moved(at, old_name.len() as int, new_name.len() as int)[0];
        lemma_replacements(raw, old_name, new_name, at, 0);
        lemma_targeted(t, new_name, file_repo, def_repo);
        assert(at.contains(at[0]));
        assert(targeted(t, new_name, file_repo, def_repo).contains(q));
    }
}

/// Where the new name was not in use, renaming back restores the shape.
pub proof fn renaming_back_restores_the_shape(
    raw: Seq<char>,
    old_name: Seq<char>,
    new_name: Seq<char>,
    file_repo: Seq<char>,
    def_repo: Seq<char>,
)
    requires
        is_name(old_name),
        is_name(new_name),
        forall|p: int| !#[trigger] stands_at(raw, new_name, p),
    ensures
        rewritten_shape(raw, old_name, new_name, file_repo, def_repo) matches Some(t)
            ==> rewritten_shape(t, new_name, old_name, file_repo, def_repo) == Some(raw),
{
    let n = old_name.len() as int;
    let m = new_name.len() as int;
    let at = targeted(raw, old_name, file_repo, def_repo);
    lemma_targeted(raw, old_name, file_repo, def_repo);
    if at.len() > 0 {
        let t = replaced(raw, old_name.len(), new_name, at);
        let places = moved(at, n, m);
        let back = targeted(t, new_name, file_repo, def_repo);
        lemma_targeted(t, new_name, file_repo, def_repo);
        assert forall|q: int|
            #![trigger places.contains(q)]
            #![trigger back.contains(q)]
            places.contains(q) == back.contains(q) by {
            if places.contains(q) {
                let k = choose|k: int| 0 <= k < places.len() && places[k] == q;
                lemma_replacements(raw, old_name, new_name, at, k);
                assert(at.contains(at[k]));
            }
            if back.contains(q) {
                lemma_left(raw, old_name, new_name, at, new_name, q);
                if !places.contains(q) {
                    let now = qualifier_at(t, q + new_name.len());
                    let p = choose|p: int| #[trigger] is_left(raw, at, m - n, new_name, p, q, now);
                    assert(!stands_at(raw, new_name, p));
                }
            }
        }
        assert forall|a: int, b: int|
            #![trigger places[a], places[b]]
            0 <= a < b < places.len() implies places[a] < places[b] by {
            lemma_apart(at, n, a, b);
            assert(b * (m - n) - a * (m - n) == (b - a) * (m - n)) by (nonlinear_arith);
            assert((b - a) * n + (b - a) * (m - n) == (b - a) * m) by (nonlinear_arith);
            assert((b - a) * m >= m) by (nonlinear_arith)
                requires
                    b - a >= 1,
                    m >= 0,
            ;
        }
        lemma_same_places(places, back);
        lemma_put_back(raw, old_name, new_name, at);
    }
}

} // verus!
