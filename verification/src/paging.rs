//! Pages of a list.

use vstd::prelude::*;

verus! {

/// The page of at most `limit` items after the first `offset`; all of them after
/// it without a limit.
pub open spec fn page_of<T>(s: Seq<T>, offset: nat, limit: Option<nat>) -> Seq<T> {
    if offset >= s.len() {
        Seq::empty()
    } else {
        match limit {
            Some(n) => if n < s.len() - offset {
                s.subrange(offset as int, (offset + n) as int)
            } else {
                s.skip(offset as int)
            },
            None => s.skip(offset as int),
        }
    }
}

pub open spec fn limit_view(limit: Option<usize>) -> Option<nat> {
    match limit {
        Some(n) => Some(n as nat),
        None => None,
    }
}

/// Cuts a page out of a list.
pub fn page<T>(v: Vec<T>, offset: usize, limit: Option<usize>) -> (r: Vec<T>)
    ensures
        r@ == page_of(v@, offset as nat, limit_view(limit)),
{
    let mut all = v;
    if offset >= all.len() {
        let none: Vec<T> = Vec::new();
        assert(none@ =~= Seq::<T>::empty());
        return none;
    }
    let mut rest = all.split_off(offset);
    match limit {
        Some(n) => if n < rest.len() {
            rest.truncate(n);
            assert(rest@ =~= v@.subrange(offset as int, offset + n));
        },
        None => {},
    }
    rest
}

/// Consecutive pages put together are the page of their lengths put together.
pub proof fn pages_join<T>(s: Seq<T>, offset: nat, a: nat, b: nat)
    ensures
        page_of(s, offset, Some(a)) + page_of(s, offset + a, Some(b)) == page_of(
            s,
            offset,
            Some(a + b),
        ),
{
    assert(page_of(s, offset, Some(a)) + page_of(s, offset + a, Some(b)) =~= page_of(
        s,
        offset,
        Some(a + b),
    ));
}

} // verus!
