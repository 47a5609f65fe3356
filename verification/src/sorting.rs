//! A stable sort over any total preorder.

use vstd::prelude::*;

verus! {

/// A type with a total preorder that decides how lists of it are sorted.
pub trait Ranked: Sized {
    /// Whether `self` may stand before `other` in a sorted list.
    spec fn rank_le(&self, other: &Self) -> bool;

    /// Decides `rank_le`.
    fn at_most(&self, other: &Self) -> (r: bool)
        ensures
            r == self.rank_le(other),
    ;

    proof fn rank_total(a: &Self, b: &Self)
        ensures
            a.rank_le(b) || b.rank_le(a),
    ;

    proof fn rank_transitive(a: &Self, b: &Self, c: &Self)
        requires
            a.rank_le(b),
            b.rank_le(c),
        ensures
            a.rank_le(c),
    ;
}

/// Whether every item may stand before every later one.
pub open spec fn sorted<T: Ranked>(s: Seq<T>) -> bool {
    forall|i: int, j: int| #![trigger s[i], s[j]] 0 <= i < j < s.len() ==> s[i].rank_le(&s[j])
}

proof fn lemma_insert_keeps_multiset<T>(s: Seq<T>, i: int, x: T)
    requires
        0 <= i <= s.len(),
    ensures
        s.insert(i, x).to_multiset() == s.to_multiset().insert(x),
{
    s.to_multiset_ensures();
    vstd::seq_lib::to_multiset_insert(s, i, x);
}

/// The place of `x` in a list, from `i` on: before the first item that it may
/// stand before.
pub open spec fn place<T: Ranked>(s: Seq<T>, x: T, i: int) -> int
    decreases s.len() - i,
{
    if i >= s.len() || x.rank_le(&s[i]) {
        i
    } else {
        place(s, x, i + 1)
    }
}

/// The items in ascending rank. Items of equal rank keep their order.
pub open spec fn in_rank<T: Ranked>(s: Seq<T>) -> Seq<T>
    decreases s.len(),
{
    if s.len() == 0 {
        s
    } else {
        let rest = in_rank(s.drop_first());
        rest.insert(place(rest, s[0], 0), s[0])
    }
}

/// The items of `v` in ascending rank. Items of equal rank keep their order.
pub fn sort<T: Ranked>(v: Vec<T>) -> (r: Vec<T>)
    ensures
        r@ == in_rank(v@),
        sorted(r@),
        r@.to_multiset() == v@.to_multiset(),
        r@.len() == v@.len(),
{
    let mut rest = v;
    let mut r: Vec<T> = Vec::new();
    proof {
        assert(rest@ + r@ =~= v@);
        assert(v@.skip(v@.len() as int) =~= Seq::empty());
        assert(v@.take(v@.len() as int) =~= v@);
    }
    while rest.len() > 0
        invariant
            rest@ == v@.take(rest@.len() as int),
            r@ == in_rank(v@.skip(rest@.len() as int)),
            sorted(r@),
            r@.len() + rest@.len() == v@.len(),
            (rest@ + r@).to_multiset() == v@.to_multiset(),
        decreases rest@.len(),
    {
        let ghost before = rest@;
        let x = match rest.pop() {
            Some(x) => x,
            None => return r,
        };
        let mut i: usize = 0;
        while i < r.len() && !x.at_most(&r[i])
            invariant
                i <= r@.len(),
                place(r@, x, 0) == place(r@, x, i as int),
                forall|k: int| #![trigger r@[k]] 0 <= k < i ==> !x.rank_le(&r@[k]),
            decreases r@.len() - i,
        {
            i += 1;
        }
        let ghost sorted_part = r@;
        r.insert(i, x);
        proof {
            let suffix = v@.skip(rest@.len() as int);
            assert(suffix.drop_first() =~= v@.skip(rest@.len() as int + 1));
            assert(suffix[0] == x);
            assert(rest@ =~= v@.take(rest@.len() as int));
            let s = r@;
            assert(s == sorted_part.insert(i as int, x));
            assert forall|a: int, b: int|
                #![trigger s[a], s[b]]
                0 <= a < b < s.len() implies s[a].rank_le(&s[b]) by {
                let ao = if a < i { a } else { a - 1 };
                let bo = if b < i { b } else { b - 1 };
                if a == i as int {
                    assert(s[b] == sorted_part[b - 1]);
                    assert(x.rank_le(&sorted_part[i as int]));
                    if b - 1 > i {
                        T::rank_transitive(&x, &sorted_part[i as int], &sorted_part[b - 1]);
                    }
                } else if b == i as int {
                    assert(s[a] == sorted_part[a]);
                    T::rank_total(&x, &sorted_part[a]);
                } else {
                    assert(s[a] == sorted_part[ao]);
                    assert(s[b] == sorted_part[bo]);
                }
            }
            lemma_insert_keeps_multiset(sorted_part, i as int, x);
            assert(before =~= rest@.push(x));
            vstd::seq_lib::lemma_multiset_commutative(before, sorted_part);
            vstd::seq_lib::lemma_multiset_commutative(rest@, s);
            rest@.to_multiset_ensures();
            assert(rest@.push(x).to_multiset() == rest@.to_multiset().insert(x));
            assert((rest@ + s).to_multiset() =~= (before + sorted_part).to_multiset());
        }
    }
    proof {
        assert(rest@ + r@ =~= r@);
        assert(v@.skip(0) =~= v@);
    }
    r
}

/// Rearranging a list rearranges what a function makes of its items.
pub proof fn lemma_map_multiset<A, B>(a: Seq<A>, b: Seq<A>, f: spec_fn(A) -> B)
    requires
        a.to_multiset() == b.to_multiset(),
    ensures
        a.map_values(f).to_multiset() == b.map_values(f).to_multiset(),
    decreases a.len(),
{
    a.to_multiset_ensures();
    b.to_multiset_ensures();
    a.map_values(f).to_multiset_ensures();
    b.map_values(f).to_multiset_ensures();
    if a.len() == 0 {
        assert(a.to_multiset().len() == b.to_multiset().len());
        assert(a.map_values(f) =~= b.map_values(f));
    } else {
        let x = a.last();
        assert(a.contains(x));
        assert(b.to_multiset().count(x) > 0);
        assert(b.contains(x));
        let k = choose|k: int| 0 <= k < b.len() && b[k] == x;
        let rest = b.remove(k);
        assert(a.drop_last() =~= a.remove(a.len() - 1));
        assert(a.drop_last().to_multiset() =~= a.to_multiset().remove(x));
        assert(rest.to_multiset() =~= b.to_multiset().remove(x));
        lemma_map_multiset(a.drop_last(), rest, f);
        let fa = a.map_values(f);
        let fb = b.map_values(f);
        assert(fa.remove(a.len() - 1) =~= a.drop_last().map_values(f));
        assert(fb.remove(k) =~= rest.map_values(f));
        assert(fa.remove(a.len() - 1).to_multiset() =~= fa.to_multiset().remove(f(x)));
        assert(fb.remove(k).to_multiset() =~= fb.to_multiset().remove(f(x)));
        assert(fa[a.len() - 1] == f(x));
        assert(fb[k] == f(x));
        assert(fa.contains(f(x)));
        assert(fb.contains(f(x)));
        assert(fa.to_multiset() =~= fa.to_multiset().remove(f(x)).insert(f(x)));
        assert(fb.to_multiset() =~= fb.to_multiset().remove(f(x)).insert(f(x)));
    }
}

/// Lists of the same contents have the same items.
pub proof fn lemma_same_items<A>(a: Seq<A>, b: Seq<A>, x: A)
    requires
        a.to_multiset() == b.to_multiset(),
        a.contains(x),
    ensures
        b.contains(x),
{
    a.to_multiset_ensures();
    b.to_multiset_ensures();
    assert(a.to_multiset().count(x) > 0);
    assert(b.to_multiset().count(x) > 0);
}

/// Two sorted lists of the same contents are one list, where items of equal rank have
/// equal contents and the rank depends on the contents alone.
pub proof fn lemma_sorted_unique<T: Ranked, V>(a: Seq<T>, b: Seq<T>, f: spec_fn(T) -> V)
    requires
        sorted(a),
        sorted(b),
        a.map_values(f).to_multiset() == b.map_values(f).to_multiset(),
        forall|i: int, j: int|
            #![trigger a[i], b[j]]
            0 <= i < a.len() && 0 <= j < b.len() && a[i].rank_le(&b[j]) && b[j].rank_le(&a[i])
                ==> f(a[i]) == f(b[j]),
        forall|x: T, y: T, z: T|
            #![trigger x.rank_le(&z), y.rank_le(&z)]
            f(x) == f(y) ==> x.rank_le(&z) == y.rank_le(&z),
    ensures
        a.map_values(f) == b.map_values(f),
    decreases a.len(),
{
    let x = a.map_values(f);
    let y = b.map_values(f);
    x.to_multiset_ensures();
    y.to_multiset_ensures();
    assert(x.len() == y.len());
    if a.len() > 0 {
        let n = a.len() - 1;
        let la = a[n];
        let lb = b[n];
        assert(la.rank_le(&lb)) by {
            assert(x[n] == f(la));
            assert(x.contains(f(la)));
            lemma_same_items(x, y, f(la));
            let k = choose|k: int| 0 <= k < y.len() && y[k] == f(la);
            T::rank_total(&b[k], &lb);
            assert(b[k].rank_le(&lb));
            T::rank_total(&la, &lb);
            assert(la.rank_le(&lb) == b[k].rank_le(&lb));
        }
        assert(lb.rank_le(&la)) by {
            assert(y[n] == f(lb));
            assert(y.contains(f(lb)));
            lemma_same_items(y, x, f(lb));
            let k = choose|k: int| 0 <= k < x.len() && x[k] == f(lb);
            T::rank_total(&a[k], &la);
            assert(a[k].rank_le(&la));
            T::rank_total(&lb, &la);
            assert(lb.rank_le(&la) == a[k].rank_le(&la));
        }
        assert(f(la) == f(lb));
        let p = a.drop_last();
        let q = b.drop_last();
        assert(p.map_values(f) =~= x.drop_last());
        assert(q.map_values(f) =~= y.drop_last());
        assert(x =~= p.map_values(f).push(f(la)));
        assert(y =~= q.map_values(f).push(f(lb)));
        p.map_values(f).to_multiset_ensures();
        q.map_values(f).to_multiset_ensures();
        assert(p.map_values(f).to_multiset() =~= x.to_multiset().remove(f(la)));
        assert(q.map_values(f).to_multiset() =~= y.to_multiset().remove(f(lb)));
        lemma_sorted_unique(p, q, f);
    } else {
        assert(x =~= y);
    }
}

} // verus!
