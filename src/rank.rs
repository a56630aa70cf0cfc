//! Ranking the letters of a tally by frequency.
use vstd::prelude::*;

verus! {

/// Holds of an entry whose count is `k`.
pub open spec fn has_count(k: usize) -> spec_fn((u8, usize)) -> bool {
    |x: (u8, usize)| x.1 == k
}

/// The entries that share the count of the first entry, in their order; none
/// for no entries.
pub fn first_rank_by_key(items: Vec<(u8, usize)>) -> (r: Vec<(u8, usize)>)
    ensures
        items@.len() == 0 ==> r@.len() == 0,
        items@.len() > 0 ==> r@ == items@.filter(has_count(items@[0].1)),
{
    let mut r: Vec<(u8, usize)> = Vec::new();
    if items.len() == 0 {
        return r;
    }
    let key = items[0].1;
    let mut i: usize = 0;
    while i < items.len()
        invariant
            0 < items@.len(),
            i <= items@.len(),
            key == items@[0].1,
            r@ == items@.subrange(0, i as int).filter(has_count(key)),
        decreases items@.len() - i,
    {
        let item = items[i];
        proof {
            let next = items@.subrange(0, i as int + 1);
            assert(next.drop_last() =~= items@.subrange(0, i as int));
            reveal(Seq::filter);
        }
        if item.1 == key {
            r.push(item);
        }
        i += 1;
    }
    proof {
        assert(items@.subrange(0, i as int) =~= items@);
    }
    r
}

/// The index of the first entry of the largest count.
pub fn first_most_frequent(v: &Vec<(u8, usize)>) -> (b: usize)
    requires
        v@.len() > 0,
    ensures
        b < v@.len(),
        forall|i: int| 0 <= i < v@.len() ==> #[trigger] v@[i].1 <= v@[b as int].1,
        forall|i: int| 0 <= i < b ==> #[trigger] v@[i].1 < v@[b as int].1,
{
    let mut best: usize = 0;
    let mut i: usize = 1;
    while i < v.len()
        invariant
            0 < v@.len(),
            best < i <= v@.len(),
            forall|j: int| 0 <= j < i ==> #[trigger] v@[j].1 <= v@[best as int].1,
            forall|j: int| 0 <= j < best ==> #[trigger] v@[j].1 < v@[best as int].1,
        decreases v@.len() - i,
    {
        if v[i].1 > v[best].1 {
            best = i;
        }
        i += 1;
    }
    best
}

/// The entries from index `from` on, in their order.
pub fn entries_from(v: &Vec<(u8, usize)>, from: usize) -> (r: Vec<(u8, usize)>)
    requires
        from <= v@.len(),
    ensures
        r@ == v@.subrange(from as int, v@.len() as int),
{
    let mut r: Vec<(u8, usize)> = Vec::new();
    let mut i: usize = from;
    while i < v.len()
        invariant
            from <= i <= v@.len(),
            r@ == v@.subrange(from as int, i as int),
        decreases v@.len() - i,
    {
        r.push(v[i]);
        assert(r@ =~= v@.subrange(from as int, i + 1));
        i += 1;
    }
    r
}

} // verus!
