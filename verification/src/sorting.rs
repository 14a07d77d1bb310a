//! Sorting of latency and size samples, the basis of every order statistic.

use vstd::prelude::*;
use vstd::relations::{sorted_by, total_ordering};
use vstd::seq_lib::lemma_sorted_unique;

verus! {

/// The ascending order on `u64`, as a specification-level relation.
pub open spec fn u64_le() -> spec_fn(u64, u64) -> bool {
    |a: u64, b: u64| a <= b
}

/// The ascending order on `u64` is a total order.
pub proof fn lemma_u64_le_total_ordering()
    ensures
        total_ordering(u64_le()),
{
    assert forall|x: u64| #[trigger] u64_le()(x, x) by {}
    assert forall|x: u64, y: u64| #[trigger] u64_le()(x, y) || #[trigger] u64_le()(y, x) by {}
}

/// Sort samples ascending: the result is exactly the canonical sorted
/// permutation of the input.
pub fn sort_u64s(v: &Vec<u64>) -> (out: Vec<u64>)
    ensures
        out@ == v@.sort_by(u64_le()),
        sorted_by(out@, u64_le()),
        out@.to_multiset() == v@.to_multiset(),
        out@.len() == v@.len(),
{
    broadcast use vstd::seq_lib::group_to_multiset_ensures;

    let mut out: Vec<u64> = Vec::new();
    let mut i: usize = 0;
    proof {
        assert(v@.take(0) =~= Seq::<u64>::empty());
        assert(out@.to_multiset() =~= v@.take(0).to_multiset());
    }
    while i < v.len()
        invariant
            0 <= i <= v@.len(),
            sorted_by(out@, u64_le()),
            out@.to_multiset() == v@.take(i as int).to_multiset(),
            out@.len() == i,
        decreases v@.len() - i,
    {
        let x = v[i];
        let mut p: usize = 0;
        while p < out.len() && out[p] <= x
            invariant
                0 <= p <= out@.len(),
                forall|a: int| 0 <= a < p ==> #[trigger] out@[a] <= x,
            decreases out@.len() - p,
        {
            p += 1;
        }
        proof {
            let o = out@;
            assert(forall|a: int|
                p <= a < o.len() ==> #[trigger] o[a] >= o[p as int]) by {
                assert(forall|a: int|
                    p < a < o.len() ==> u64_le()(o[p as int], #[trigger] o[a]));
            }
            assert(v@.take(i + 1).drop_last() =~= v@.take(i as int));
            assert(v@.take(i + 1) =~= v@.take(i as int).push(v@[i as int]));
        }
        let ghost before = out@;
        out.insert(p, x);
        proof {
            vstd::seq_lib::to_multiset_insert(before, p as int, x);
            vstd::seq_lib::to_multiset_build(v@.take(i as int), v@[i as int]);
            assert(out@.to_multiset() =~= v@.take(i + 1).to_multiset());
            assert(sorted_by(out@, u64_le())) by {
                let o = out@;
                assert forall|a: int, b: int| 0 <= a < b < o.len() implies #[trigger] u64_le()(
                    o[a],
                    o[b],
                ) by {
                    if a < p && b > p {
                        assert(o[a] == before[a]);
                        assert(o[b] == before[b - 1]);
                        assert(u64_le()(before[a], before[b - 1]));
                    } else if a == p && b > p {
                        assert(o[b] == before[b - 1]);
                        assert(before[b - 1] >= before[p as int] > x || b - 1 == p);
                    } else if b == p {
                        assert(o[a] == before[a]);
                    }
                }
            }
        }
        i += 1;
    }
    proof {
        assert(v@.take(v@.len() as int) =~= v@);
        lemma_u64_le_total_ordering();
        v@.lemma_sort_by_ensures(u64_le());
        lemma_sorted_unique(out@, v@.sort_by(u64_le()), u64_le());
    }
    out
}

} // verus!
