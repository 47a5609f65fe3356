//! A disjoint-set forest with path halving and union by rank.

use vstd::arithmetic::power2::{lemma_pow2_strictly_increases, lemma_pow2_unfold, pow2};
use vstd::prelude::*;

verus! {

/// The sum of a list of weights.
pub open spec fn total(s: Seq<nat>) -> nat
    decreases s.len(),
{
    if s.len() == 0 {
        0
    } else {
        total(s.drop_last()) + s.last()
    }
}

proof fn lemma_total_update(s: Seq<nat>, i: int, v: nat)
    requires
        0 <= i < s.len(),
    ensures
        total(s.update(i, v)) == total(s) - s[i] + v,
    decreases s.len(),
{
    let t = s.update(i, v);
    if i == s.len() - 1 {
        assert(t.drop_last() =~= s.drop_last());
    } else {
        assert(t.drop_last() =~= s.drop_last().update(i, v));
        lemma_total_update(s.drop_last(), i, v);
    }
}

proof fn lemma_total_bounds(s: Seq<nat>, i: int)
    requires
        0 <= i < s.len(),
    ensures
        s[i] <= total(s),
    decreases s.len(),
{
    if i < s.len() - 1 {
        lemma_total_bounds(s.drop_last(), i);
    }
}

proof fn lemma_total_ones(n: nat)
    ensures
        total(Seq::new(n, |i: int| 1nat)) == n,
    decreases n,
{
    let s = Seq::new(n, |i: int| 1nat);
    if n > 0 {
        assert(s.drop_last() =~= Seq::new((n - 1) as nat, |i: int| 1nat));
        lemma_total_ones((n - 1) as nat);
    }
}

/// A partition of `0..len` into classes, each named by one of its members.
pub struct UnionFind {
    parent: Vec<usize>,
    rank: Vec<u8>,
    /// The class of each element.
    class: Ghost<Seq<int>>,
    /// How many elements each class has, at its name; 0 elsewhere.
    weight: Ghost<Seq<nat>>,
}

impl UnionFind {
    pub closed spec fn len(&self) -> nat {
        self.parent@.len()
    }

    /// The class of each element, by the element that names it.
    pub closed spec fn classes(&self) -> Seq<int> {
        self.class@
    }

    /// Whether `a` and `b` are in one class.
    pub open spec fn joined(&self, a: int, b: int) -> bool {
        self.classes()[a] == self.classes()[b]
    }

    pub closed spec fn wf(&self) -> bool {
        let n = self.parent@.len();
        &&& self.rank@.len() == n
        &&& self.class@.len() == n
        &&& self.weight@.len() == n
        &&& total(self.weight@) == n
        &&& forall|i: int|
            #![trigger self.parent@[i]]
            0 <= i < n ==> {
                &&& 0 <= self.parent@[i] < n
                &&& self.class@[i] == self.class@[self.parent@[i] as int]
                &&& (self.parent@[i] == i) == (self.class@[i] == i)
                &&& self.parent@[i] != i ==> self.rank@[i] < self.rank@[self.parent@[i] as int]
            }
        &&& forall|i: int|
            #![trigger self.class@[i]]
            0 <= i < n ==> 0 <= self.class@[i] < n && self.class@[self.class@[i]] == self.class@[i]
        &&& forall|i: int|
            #![trigger self.weight@[i]]
            0 <= i < n && self.class@[i] == i ==> self.weight@[i] >= pow2(self.rank@[i] as nat)
    }

    /// The element that names a class is in it.
    pub proof fn lemma_class_names_itself(&self, x: int)
        requires
            self.wf(),
            0 <= x < self.len(),
        ensures
            0 <= self.classes()[x] < self.len(),
            self.classes()[self.classes()[x]] == self.classes()[x],
    {
        assert(0 <= self.class@[x] < self.parent@.len());
    }

    /// Every element alone in its class.
    pub fn new(n: usize) -> (r: Self)
        ensures
            r.wf(),
            r.len() == n,
            r.classes() == Seq::new(n as nat, |i: int| i),
    {
        let mut parent: Vec<usize> = Vec::new();
        let mut rank: Vec<u8> = Vec::new();
        for i in 0..n
            invariant
                parent@.len() == i,
                rank@.len() == i,
                forall|k: int| 0 <= k < i ==> parent@[k] == k && rank@[k] == 0,
        {
            parent.push(i);
            rank.push(0);
        }
        proof {
            lemma_total_ones(n as nat);
            vstd::arithmetic::power2::lemma2_to64();
        }
        UnionFind {
            parent,
            rank,
            class: Ghost(Seq::new(n as nat, |i: int| i)),
            weight: Ghost(Seq::new(n as nat, |i: int| 1nat)),
        }
    }

    /// The element that names the class of `x`. Shortens the way there; the
    /// classes stay.
    pub fn find(&mut self, x: usize) -> (r: usize)
        requires
            old(self).wf(),
            x < old(self).len(),
        ensures
            final(self).wf(),
            final(self).len() == old(self).len(),
            final(self).classes() == old(self).classes(),
            r == old(self).classes()[x as int],
            r < old(self).len(),
    {
        let mut at: usize = x;
        while self.parent[at] != at
            invariant
                self.wf(),
                self.len() == old(self).len(),
                self.classes() == old(self).classes(),
                at < self.len(),
                self.classes()[at as int] == self.classes()[x as int],
                x < self.len(),
            decreases 255 - self.rank@[at as int],
        {
            let up: usize = self.parent[at];
            let over: usize = self.parent[up];
            let ghost before = *self;
            self.parent.set(at, over);
            assert(self.class@ == before.class@);
            assert forall|i: int|
                #![trigger self.parent@[i]]
                0 <= i < self.parent@.len() implies {
                &&& 0 <= self.parent@[i] < self.parent@.len()
                &&& self.class@[i] == self.class@[self.parent@[i] as int]
                &&& (self.parent@[i] == i) == (self.class@[i] == i)
                &&& self.parent@[i] != i ==> self.rank@[i] < self.rank@[self.parent@[i] as int]
            } by {
                assert(before.parent@[i] < before.parent@.len());
                if i == at as int {
                    assert(before.parent@[up as int] == over);
                    assert(before.rank@[at as int] < before.rank@[up as int]);
                }
            }
            at = over;
        }
        at
    }

    /// Makes one class of the classes of `a` and `b`; every other class stays.
    pub fn union(&mut self, a: usize, b: usize)
        requires
            old(self).wf(),
            a < old(self).len(),
            b < old(self).len(),
        ensures
            final(self).wf(),
            final(self).len() == old(self).len(),
            forall|x: int, y: int|
                #![trigger final(self).joined(x, y)]
                0 <= x < old(self).len() && 0 <= y < old(self).len() ==> (final(self).joined(x, y)
                    == (old(self).joined(x, y) || (old(self).joined(x, a as int) && old(
                    self,
                ).joined(b as int, y)) || (old(self).joined(x, b as int) && old(self).joined(
                    a as int,
                    y,
                )))),
    {
        let ra: usize = self.find(a);
        let rb: usize = self.find(b);
        if ra == rb {
            return;
        }
        if self.rank[ra] < self.rank[rb] {
            self.attach(ra, rb, false);
        } else if self.rank[rb] < self.rank[ra] {
            self.attach(rb, ra, false);
        } else {
            self.attach(rb, ra, true);
        }
    }

    /// Hangs the root `low` under the root `high`, which moves up one rank when
    /// `lift` says so.
    fn attach(&mut self, low: usize, high: usize, lift: bool)
        requires
            old(self).wf(),
            low < old(self).len(),
            high < old(self).len(),
            low != high,
            old(self).classes()[low as int] == low,
            old(self).classes()[high as int] == high,
            lift ==> old(self).rank@[low as int] == old(self).rank@[high as int],
            !lift ==> old(self).rank@[low as int] < old(self).rank@[high as int],
        ensures
            final(self).wf(),
            final(self).len() == old(self).len(),
            final(self).classes().len() == old(self).classes().len(),
            forall|x: int|
                #![trigger final(self).classes()[x]]
                0 <= x < old(self).len() ==> final(self).classes()[x] == (if old(self).classes()[x]
                    == low {
                    high as int
                } else {
                    old(self).classes()[x]
                }),
    {
        let ghost before = *self;
        let size: usize = self.parent.len();
        let ghost n = size as nat;
        proof {
            // The heavier root has room for one more rank: a class of rank 64
            // would outgrow the forest.
            lemma_total_bounds(self.weight@, high as int);
            assert(self.weight@[high as int] >= pow2(self.rank@[high as int] as nat));
            if self.rank@[high as int] >= 64 {
                lemma_pow2_grows(64, self.rank@[high as int] as nat);
                vstd::arithmetic::power2::lemma2_to64();
                vstd::arithmetic::power2::lemma2_to64_rest();
            }
        }
        assert(self.rank@[high as int] < 64);
        self.parent.set(low, high);
        if lift {
            let r: u8 = self.rank[high];
            self.rank.set(high, r + 1);
        }
        proof {
            let w = before.weight@;
            let merged = (w[high as int] + w[low as int]) as nat;
            let w1 = w.update(high as int, merged);
            let w2 = w1.update(low as int, 0);
            lemma_total_update(w, high as int, merged);
            lemma_total_update(w1, low as int, 0);
            self.weight@ = w2;
            self.class@ = Seq::new(
                n,
                |i: int|
                    if before.class@[i] == low {
                        high as int
                    } else {
                        before.class@[i]
                    },
            );
            if lift {
                lemma_pow2_unfold((before.rank@[high as int] + 1) as nat);
            }
            assert(total(w2) == n);
            assert forall|i: int| #![trigger self.parent@[i]] 0 <= i < n implies {
                &&& 0 <= self.parent@[i] < n
                &&& self.class@[i] == self.class@[self.parent@[i] as int]
                &&& (self.parent@[i] == i) == (self.class@[i] == i)
                &&& self.parent@[i] != i ==> self.rank@[i] < self.rank@[self.parent@[i] as int]
            } by {
                assert(before.parent@[i] < n);
                assert(before.parent@[high as int] < n);
                assert(before.parent@[low as int] < n);
            }
            assert forall|i: int| #![trigger self.class@[i]] 0 <= i < n implies 0 <= self.class@[i]
                < n && self.class@[self.class@[i]] == self.class@[i] by {
                assert(0 <= before.class@[i] < n);
            }
            assert forall|i: int|
                #![trigger self.weight@[i]]
                0 <= i < n && self.class@[i] == i implies self.weight@[i] >= pow2(
                self.rank@[i] as nat,
            ) by {
                assert(before.weight@[i] >= pow2(before.rank@[i] as nat));
                assert(before.weight@[low as int] >= pow2(before.rank@[low as int] as nat));
            }
        }
    }
}

proof fn lemma_pow2_grows(a: nat, b: nat)
    requires
        a <= b,
    ensures
        pow2(a) <= pow2(b),
{
    if a < b {
        lemma_pow2_strictly_increases(a, b);
    }
}

} // verus!
