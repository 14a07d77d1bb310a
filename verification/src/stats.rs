//! Per-group statistics: count, latency sum and order statistics, byte sum
//! and distinct-thread count.

use vstd::prelude::*;
use vstd::relations::sorted_by;
use crate::quantile::{percentile_scaled, percentile_scaled_spec};
use crate::record::RecordModel;
use crate::sorting::{sort_u64s, u64_le};

verus! {

/// The sum of a sequence of samples.
pub open spec fn sum_u64(s: Seq<u64>) -> int
    decreases s.len(),
{
    if s.len() == 0 {
        0
    } else {
        sum_u64(s.drop_last()) + s.last()
    }
}

/// The projection of a record to its latency sample.
pub open spec fn record_duration() -> spec_fn(RecordModel) -> u64 {
    |r: RecordModel| r.duration_ns
}

/// The projection of a record to its payload size.
pub open spec fn record_bytes() -> spec_fn(RecordModel) -> u64 {
    |r: RecordModel| r.bytes
}

/// The projection of a record to its optional thread identifier.
pub open spec fn record_thread() -> spec_fn(RecordModel) -> Option<u64> {
    |r: RecordModel| r.thread_id
}

/// The latency samples of a group of records, in record order.
pub open spec fn durations_of(g: Seq<RecordModel>) -> Seq<u64> {
    g.map_values(record_duration())
}

/// The payload sizes of a group of records, in record order.
pub open spec fn bytes_of(g: Seq<RecordModel>) -> Seq<u64> {
    g.map_values(record_bytes())
}

/// The thread identifiers present in a group of records, in record order.
pub open spec fn thread_ids_of(g: Seq<RecordModel>) -> Seq<u64> {
    g.filter_map(record_thread())
}

/// The statistics of one non-empty group of records.
///
/// Latency figures are exact: the sum is in nanoseconds and the order
/// statistics (median and upper percentiles) are in hundredths of a
/// nanosecond. `distinct_threads` is absent when no record of the group
/// carries a thread identifier.
#[derive(Clone, Copy, Debug, PartialEq, Eq, Structural)]
pub struct GroupStats {
    pub count: usize,
    pub sum_duration_ns: u128,
    pub median_scaled: u128,
    pub p90_scaled: u128,
    pub p95_scaled: u128,
    pub p99_scaled: u128,
    pub max_duration_ns: u64,
    pub sum_bytes: u128,
    pub distinct_threads: Option<usize>,
}

/// What it means for `s` to be the statistics of the record group `g`.
pub open spec fn group_stats_match(g: Seq<RecordModel>, s: GroupStats) -> bool {
    let sorted = durations_of(g).sort_by(u64_le());
    &&& g.len() > 0
    &&& s.count == g.len()
    &&& s.sum_duration_ns == sum_u64(durations_of(g))
    &&& s.median_scaled == percentile_scaled_spec(sorted, 50)
    &&& s.p90_scaled == percentile_scaled_spec(sorted, 90)
    &&& s.p95_scaled == percentile_scaled_spec(sorted, 95)
    &&& s.p99_scaled == percentile_scaled_spec(sorted, 99)
    &&& s.max_duration_ns == sorted.last()
    &&& s.sum_bytes == sum_u64(bytes_of(g))
    &&& s.distinct_threads == (if thread_ids_of(g).len() == 0 {
        Option::<usize>::None
    } else {
        Option::<usize>::Some(thread_ids_of(g).to_set().len() as usize)
    })
}

impl GroupStats {
    /// The mean latency in whole nanoseconds, rounded down.
    pub fn mean_duration_ns(&self) -> (r: u128)
        requires
            self.count > 0,
        ensures
            r == self.sum_duration_ns as int / self.count as int,
    {
        self.sum_duration_ns / (self.count as u128)
    }
}

/// The statistics of a group depend only on which records it holds, not
/// on their order: groups with the same records (as a multiset) have
/// equal statistics.
pub proof fn lemma_group_stats_permutation(
    g1: Seq<RecordModel>,
    g2: Seq<RecordModel>,
    s1: GroupStats,
    s2: GroupStats,
)
    requires
        g1.to_multiset() == g2.to_multiset(),
        group_stats_match(g1, s1),
        group_stats_match(g2, s2),
    ensures
        s1 == s2,
{
    broadcast use vstd::set::group_set_axioms;

    g1.to_multiset_ensures();
    g2.to_multiset_ensures();
    crate::seqfacts::lemma_map_values_multiset(g1, g2, record_duration());
    crate::seqfacts::lemma_map_values_multiset(g1, g2, record_bytes());
    crate::seqfacts::lemma_sum_multiset(durations_of(g1), durations_of(g2));
    crate::seqfacts::lemma_sum_multiset(bytes_of(g1), bytes_of(g2));
    crate::sorting::lemma_u64_le_total_ordering();
    durations_of(g1).lemma_sort_by_ensures(u64_le());
    durations_of(g2).lemma_sort_by_ensures(u64_le());
    vstd::seq_lib::lemma_sorted_unique(
        durations_of(g1).sort_by(u64_le()),
        durations_of(g2).sort_by(u64_le()),
        u64_le(),
    );
    assert(durations_of(g1).sort_by(u64_le()) =~= durations_of(g2).sort_by(u64_le()));
    assert(thread_ids_of(g1).to_set() =~= thread_ids_of(g2).to_set()) by {
        crate::seqfacts::lemma_multiset_same_contains(g1, g2);
        assert forall|t: u64|
            thread_ids_of(g1).contains(t) <==> thread_ids_of(g2).contains(t) by {
            crate::seqfacts::lemma_filter_map_contains(g1, record_thread(), t);
            crate::seqfacts::lemma_filter_map_contains(g2, record_thread(), t);
            if exists|i: int| 0 <= i < g1.len() && record_thread()(#[trigger] g1[i]) == Some(t) {
                let i = choose|i: int|
                    0 <= i < g1.len() && record_thread()(#[trigger] g1[i]) == Some(t);
                assert(g1.contains(g1[i]));
                assert(g2.contains(g1[i]));
                let j = choose|j: int| 0 <= j < g2.len() && g2[j] == g1[i];
                assert(record_thread()(g2[j]) == Some(t));
            }
            if exists|i: int| 0 <= i < g2.len() && record_thread()(#[trigger] g2[i]) == Some(t) {
                let i = choose|i: int|
                    0 <= i < g2.len() && record_thread()(#[trigger] g2[i]) == Some(t);
                assert(g2.contains(g2[i]));
                assert(g1.contains(g2[i]));
                let j = choose|j: int| 0 <= j < g1.len() && g1[j] == g2[i];
                assert(record_thread()(g1[j]) == Some(t));
            }
        }
        assert forall|t: u64|
            thread_ids_of(g1).to_set().contains(t) <==> thread_ids_of(g2).to_set().contains(
            t,
        ) by {
            assert(thread_ids_of(g1).to_set().contains(t) <==> thread_ids_of(g1).contains(t));
            assert(thread_ids_of(g2).to_set().contains(t) <==> thread_ids_of(g2).contains(t));
        }
    }
    thread_ids_of(g1).lemma_cardinality_of_empty_set_is_0();
    thread_ids_of(g2).lemma_cardinality_of_empty_set_is_0();
    assert(s1.distinct_threads == s2.distinct_threads);
}

/// Add up a vector of samples. Cannot overflow: the sum of fewer than
/// 2^64 samples of at most 2^64 - 1 each fits in a `u128`.
pub fn sum_samples(v: &Vec<u64>) -> (s: u128)
    ensures
        s == sum_u64(v@),
{
    let mut acc: u128 = 0;
    let mut i: usize = 0;
    proof {
        assert(v@.take(0) =~= Seq::<u64>::empty());
    }
    while i < v.len()
        invariant
            0 <= i <= v@.len(),
            acc == sum_u64(v@.take(i as int)),
            acc <= (i as int) * 0xffff_ffff_ffff_ffff,
        decreases v@.len() - i,
    {
        proof {
            assert(v@.take(i + 1).drop_last() =~= v@.take(i as int));
            assert(v@.take(i + 1).last() == v@[i as int]);
            assert((i as int) * 0xffff_ffff_ffff_ffff + 0xffff_ffff_ffff_ffff == (i + 1)
                * 0xffff_ffff_ffff_ffff);
            assert((i + 1) * 0xffff_ffff_ffff_ffff <= 0x1_0000_0000_0000_0000
                * 0xffff_ffff_ffff_ffff) by (nonlinear_arith)
                requires
                    i + 1 <= 0x1_0000_0000_0000_0000,
            ;
        }
        acc = acc + (v[i] as u128);
        i += 1;
    }
    proof {
        assert(v@.take(v@.len() as int) =~= v@);
    }
    acc
}

/// Whether the vector holds the sample.
pub fn contains_sample(v: &Vec<u64>, x: u64) -> (r: bool)
    ensures
        r == v@.contains(x),
{
    let mut i: usize = 0;
    while i < v.len()
        invariant
            0 <= i <= v@.len(),
            forall|j: int| 0 <= j < i ==> v@[j] != x,
        decreases v@.len() - i,
    {
        if v[i] == x {
            return true;
        }
        i += 1;
    }
    false
}

/// Record a sample in a duplicate-free vector, keeping it duplicate-free.
pub fn push_if_absent(v: &mut Vec<u64>, x: u64)
    requires
        old(v)@.no_duplicates(),
    ensures
        final(v)@.no_duplicates(),
        final(v)@.to_set() == old(v)@.to_set().insert(x),
{
    broadcast use vstd::set::group_set_axioms;

    if !contains_sample(v, x) {
        let ghost before = v@;
        v.push(x);
        proof {
            assert(v@.drop_last() =~= before);
            assert(v@.no_duplicates());
            assert(v@.to_set() =~= before.to_set().insert(x)) by {
                assert(forall|y: u64| #[trigger] v@.contains(y) <==> (before.contains(y) || y
                    == x)) by {
                    assert(forall|j: int| 0 <= j < before.len() ==> v@[j] == before[j]);
                    assert(v@.last() == x);
                }
            }
        }
    } else {
        proof {
            assert(v@.to_set() =~= v@.to_set().insert(x));
        }
    }
}

/// Assemble the statistics of one group from its collected latency
/// samples, byte sizes and duplicate-free thread identifiers.
pub fn finalize_stats(durations: &Vec<u64>, bytes: &Vec<u64>, threads: &Vec<u64>) -> (s:
    GroupStats)
    requires
        durations@.len() > 0,
        threads@.no_duplicates(),
    ensures
        s.count == durations@.len(),
        s.sum_duration_ns == sum_u64(durations@),
        s.median_scaled == percentile_scaled_spec(durations@.sort_by(u64_le()), 50),
        s.p90_scaled == percentile_scaled_spec(durations@.sort_by(u64_le()), 90),
        s.p95_scaled == percentile_scaled_spec(durations@.sort_by(u64_le()), 95),
        s.p99_scaled == percentile_scaled_spec(durations@.sort_by(u64_le()), 99),
        s.max_duration_ns == durations@.sort_by(u64_le()).last(),
        s.sum_bytes == sum_u64(bytes@),
        s.distinct_threads == (if threads@.len() == 0 {
            Option::<usize>::None
        } else {
            Option::<usize>::Some(threads@.to_set().len() as usize)
        }),
{
    let sorted = sort_u64s(durations);
    let count = durations.len();
    let sum_duration_ns = sum_samples(durations);
    let sum_bytes = sum_samples(bytes);
    let median_scaled = percentile_scaled(&sorted, 50);
    let p90_scaled = percentile_scaled(&sorted, 90);
    let p95_scaled = percentile_scaled(&sorted, 95);
    let p99_scaled = percentile_scaled(&sorted, 99);
    let max_duration_ns = sorted[sorted.len() - 1];
    let distinct_threads = if threads.len() == 0 {
        None
    } else {
        proof {
            threads@.unique_seq_to_set();
        }
        Some(threads.len())
    };
    GroupStats {
        count,
        sum_duration_ns,
        median_scaled,
        p90_scaled,
        p95_scaled,
        p99_scaled,
        max_duration_ns,
        sum_bytes,
        distinct_threads,
    }
}

} // verus!
