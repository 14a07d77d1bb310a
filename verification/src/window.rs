//! Time windows: the span a set of records executed in, per-category
//! effective durations, and skip-time filtering.

use vstd::prelude::*;
use crate::record::{category_of_op, categorize, OpCategory, OperationRecord, RecordModel};
use crate::seqfacts::lemma_filter_push;
use crate::skip::SkipTime;

verus! {

/// A `(start_ns, end_ns)` pair of absolute nanosecond timestamps. The
/// window is meaningful ("valid") only when the end lies strictly after
/// the start.
#[derive(Clone, Copy, Debug, PartialEq, Eq, Structural)]
pub struct TimeWindow {
    pub start_ns: u64,
    pub end_ns: u64,
}

impl TimeWindow {
    /// A window is valid when it spans a positive amount of time.
    pub open spec fn is_valid(self) -> bool {
        self.start_ns < self.end_ns
    }

    /// The length of the window in nanoseconds; 0 for invalid windows.
    pub open spec fn duration_ns_spec(self) -> int {
        if self.start_ns < self.end_ns {
            self.end_ns - self.start_ns
        } else {
            0
        }
    }

    /// The length of the window in nanoseconds; 0 for invalid windows.
    pub fn duration_ns(&self) -> (d: u64)
        ensures
            d == self.duration_ns_spec(),
    {
        if self.start_ns < self.end_ns {
            self.end_ns - self.start_ns
        } else {
            0
        }
    }
}

/// The earliest start among the records (meaningful only for non-empty
/// sequences).
pub open spec fn min_start(g: Seq<RecordModel>) -> int
    decreases g.len(),
{
    if g.len() == 0 {
        0
    } else if g.len() == 1 {
        g[0].start_ns as int
    } else {
        let rest = min_start(g.drop_last());
        if g.last().start_ns < rest {
            g.last().start_ns as int
        } else {
            rest
        }
    }
}

/// The latest end among the records (meaningful only for non-empty
/// sequences).
pub open spec fn max_end(g: Seq<RecordModel>) -> int
    decreases g.len(),
{
    if g.len() == 0 {
        0
    } else if g.len() == 1 {
        g[0].end_ns as int
    } else {
        let rest = max_end(g.drop_last());
        if g.last().end_ns > rest {
            g.last().end_ns as int
        } else {
            rest
        }
    }
}

/// The window of a non-empty set of records: earliest start to latest end.
pub open spec fn window_of(g: Seq<RecordModel>) -> TimeWindow
    recommends
        g.len() > 0,
{
    TimeWindow { start_ns: min_start(g) as u64, end_ns: max_end(g) as u64 }
}

proof fn lemma_min_start_in_range(g: Seq<RecordModel>)
    requires
        g.len() > 0,
    ensures
        exists|i: int| 0 <= i < g.len() && min_start(g) == #[trigger] g[i].start_ns,
        exists|i: int| 0 <= i < g.len() && max_end(g) == #[trigger] g[i].end_ns,
        forall|i: int| 0 <= i < g.len() ==> min_start(g) <= #[trigger] g[i].start_ns,
        forall|i: int| 0 <= i < g.len() ==> max_end(g) >= #[trigger] g[i].end_ns,
    decreases g.len(),
{
    if g.len() == 1 {
        assert(min_start(g) == g[0].start_ns);
        assert(max_end(g) == g[0].end_ns);
    } else {
        let rest = g.drop_last();
        lemma_min_start_in_range(rest);
        assert(forall|i: int| 0 <= i < g.len() - 1 ==> rest[i] == g[i]);
        assert(g.last() == g[g.len() - 1]);
        if g.last().start_ns < min_start(rest) {
            assert(min_start(g) == g[g.len() - 1].start_ns);
        } else {
            let j = choose|i: int| 0 <= i < rest.len() && min_start(rest) == #[trigger] rest[i].start_ns;
            assert(min_start(g) == g[j].start_ns);
        }
        if g.last().end_ns > max_end(rest) {
            assert(max_end(g) == g[g.len() - 1].end_ns);
        } else {
            let j = choose|i: int| 0 <= i < rest.len() && max_end(rest) == #[trigger] rest[i].end_ns;
            assert(max_end(g) == g[j].end_ns);
        }
    }
}

/// Derive the overall window of a record set: earliest start to latest
/// end over all records. Absent exactly when the set is empty.
pub fn overall_window(records: &Vec<OperationRecord>) -> (w: Option<TimeWindow>)
    ensures
        match w {
            Some(tw) => records@.len() > 0 && tw == window_of(records.deep_view()),
            None => records@.len() == 0,
        },
{
    let ghost g = records.deep_view();
    if records.len() == 0 {
        return None;
    }
    let first = &records[0];
    let mut start_ns = first.start_ns;
    let mut end_ns = first.end_ns;
    proof {
        assert(g[0] == records@[0].deep_view());
        assert(g.take(1).len() == 1);
        assert(g.take(1)[0] == g[0]);
    }
    let mut i: usize = 1;
    while i < records.len()
        invariant
            g == records.deep_view(),
            g.len() == records@.len(),
            1 <= i <= g.len(),
            start_ns == min_start(g.take(i as int)),
            end_ns == max_end(g.take(i as int)),
        decreases g.len() - i,
    {
        let r = &records[i];
        proof {
            assert(g[i as int] == records@[i as int].deep_view());
            let t = g.take(i + 1);
            assert(t.drop_last() =~= g.take(i as int));
            assert(t.last() == g[i as int]);
            assert(t.len() > 1);
        }
        if r.start_ns < start_ns {
            start_ns = r.start_ns;
        }
        if r.end_ns > end_ns {
            end_ns = r.end_ns;
        }
        i += 1;
    }
    proof {
        assert(g.take(g.len() as int) =~= g);
    }
    Some(TimeWindow { start_ns, end_ns })
}

/// Whether a record belongs to an operation category.
pub open spec fn in_category(r: RecordModel, c: OpCategory) -> bool {
    category_of_op(r.op) == c
}

/// The predicate "belongs to category `c`".
pub open spec fn category_pred(c: OpCategory) -> spec_fn(RecordModel) -> bool {
    |r: RecordModel| in_category(r, c)
}

/// The records of one operation category, in order.
pub open spec fn category_records(g: Seq<RecordModel>, c: OpCategory) -> Seq<RecordModel> {
    g.filter(category_pred(c))
}

/// The effective duration of a category: latest end minus earliest start
/// over the category's records, falling back to `fallback` when the
/// category is empty or its span is not positive.
pub open spec fn effective_duration_ns(g: Seq<RecordModel>, c: OpCategory, fallback: int) -> int {
    let cg = category_records(g, c);
    if cg.len() == 0 {
        fallback
    } else {
        let d = max_end(cg) - min_start(cg);
        if d <= 0 {
            fallback
        } else {
            d
        }
    }
}

/// The per-category effective durations used as throughput denominators,
/// together with the overall run duration they fall back to. All fields
/// are positive whenever the overall duration is.
#[derive(Clone, Copy, Debug, PartialEq, Eq, Structural)]
pub struct EffectiveTimes {
    pub meta_ns: u64,
    pub get_ns: u64,
    pub put_ns: u64,
    pub other_ns: u64,
    pub overall_ns: u64,
}

impl EffectiveTimes {
    /// The effective duration for one category.
    pub open spec fn for_category(self, c: OpCategory) -> u64 {
        match c {
            OpCategory::Meta => self.meta_ns,
            OpCategory::Get => self.get_ns,
            OpCategory::Put => self.put_ns,
            OpCategory::Other => self.other_ns,
        }
    }

    /// All durations are positive, so they can serve as denominators.
    pub open spec fn all_positive(self) -> bool {
        &&& self.meta_ns > 0
        &&& self.get_ns > 0
        &&& self.put_ns > 0
        &&& self.other_ns > 0
        &&& self.overall_ns > 0
    }
}

/// The effective times of a record set, given the overall run duration.
pub open spec fn effective_times_spec(g: Seq<RecordModel>, overall: int) -> EffectiveTimes {
    EffectiveTimes {
        meta_ns: effective_duration_ns(g, OpCategory::Meta, overall) as u64,
        get_ns: effective_duration_ns(g, OpCategory::Get, overall) as u64,
        put_ns: effective_duration_ns(g, OpCategory::Put, overall) as u64,
        other_ns: effective_duration_ns(g, OpCategory::Other, overall) as u64,
        overall_ns: overall as u64,
    }
}

/// One category's running window while scanning a record set.
struct CatAcc {
    seen: bool,
    start_ns: u64,
    end_ns: u64,
}

impl CatAcc {
    spec fn matches(self, cg: Seq<RecordModel>) -> bool {
        if cg.len() == 0 {
            !self.seen
        } else {
            self.seen && self.start_ns == min_start(cg) && self.end_ns == max_end(cg)
        }
    }
}

fn cat_acc_new() -> (a: CatAcc)
    ensures
        !a.seen,
{
    CatAcc { seen: false, start_ns: 0, end_ns: 0 }
}

fn cat_acc_add(a: &mut CatAcc, start_ns: u64, end_ns: u64, Ghost(cg): Ghost<Seq<RecordModel>>,
    Ghost(r): Ghost<RecordModel>)
    requires
        old(a).matches(cg),
        r.start_ns == start_ns,
        r.end_ns == end_ns,
    ensures
        final(a).matches(cg.push(r)),
{
    proof {
        assert(cg.push(r).drop_last() =~= cg);
        assert(cg.push(r).last() == r);
    }
    if !a.seen {
        a.seen = true;
        a.start_ns = start_ns;
        a.end_ns = end_ns;
        proof {
            assert(cg.len() == 0);
            assert(cg.push(r).len() == 1);
            assert(cg.push(r)[0] == r);
        }
    } else {
        if start_ns < a.start_ns {
            a.start_ns = start_ns;
        }
        if end_ns > a.end_ns {
            a.end_ns = end_ns;
        }
    }
}

fn cat_acc_duration(a: &CatAcc, fallback: u64, Ghost(g): Ghost<Seq<RecordModel>>, Ghost(
    c,
): Ghost<OpCategory>) -> (d: u64)
    requires
        a.matches(category_records(g, c)),
    ensures
        d == effective_duration_ns(g, c, fallback as int),
{
    if !a.seen {
        fallback
    } else if a.end_ns > a.start_ns {
        a.end_ns - a.start_ns
    } else {
        fallback
    }
}

/// Derive the per-category effective durations of a record set.
///
/// Returns the effective times exactly when the overall duration is
/// positive; every category without records, or whose own span is not
/// positive, falls back to that overall duration, so every returned
/// duration is positive. Returns nothing when the overall duration is 0
/// (then no positive denominator exists anywhere and all rows are to be
/// omitted).
pub fn effective_times(records: &Vec<OperationRecord>, overall: &TimeWindow) -> (r: Option<
    EffectiveTimes>)
    ensures
        match r {
            Some(et) => overall.duration_ns_spec() > 0 && et == effective_times_spec(
                records.deep_view(),
                overall.duration_ns_spec(),
            ) && et.all_positive(),
            None => overall.duration_ns_spec() == 0,
        },
{
    let fallback = overall.duration_ns();
    if fallback == 0 {
        return None;
    }
    let ghost g = records.deep_view();
    let mut meta = cat_acc_new();
    let mut get = cat_acc_new();
    let mut put = cat_acc_new();
    let mut other = cat_acc_new();
    proof {
        assert(g.take(0) =~= Seq::<RecordModel>::empty());
        assert(category_records(g.take(0), OpCategory::Meta) =~= Seq::<RecordModel>::empty());
        assert(category_records(g.take(0), OpCategory::Get) =~= Seq::<RecordModel>::empty());
        assert(category_records(g.take(0), OpCategory::Put) =~= Seq::<RecordModel>::empty());
        assert(category_records(g.take(0), OpCategory::Other) =~= Seq::<RecordModel>::empty());
    }
    let mut i: usize = 0;
    while i < records.len()
        invariant
            g == records.deep_view(),
            g.len() == records@.len(),
            0 <= i <= g.len(),
            meta.matches(category_records(g.take(i as int), OpCategory::Meta)),
            get.matches(category_records(g.take(i as int), OpCategory::Get)),
            put.matches(category_records(g.take(i as int), OpCategory::Put)),
            other.matches(category_records(g.take(i as int), OpCategory::Other)),
        decreases g.len() - i,
    {
        let r = &records[i];
        let ghost rm = g[i as int];
        proof {
            assert(rm == records@[i as int].deep_view());
            assert(g.take(i + 1) =~= g.take(i as int).push(rm));
            lemma_filter_push(g.take(i as int), rm, category_pred(OpCategory::Meta));
            lemma_filter_push(g.take(i as int), rm, category_pred(OpCategory::Get));
            lemma_filter_push(g.take(i as int), rm, category_pred(OpCategory::Put));
            lemma_filter_push(g.take(i as int), rm, category_pred(OpCategory::Other));
        }
        match categorize(r.op.as_str()) {
            OpCategory::Meta => cat_acc_add(&mut meta, r.start_ns, r.end_ns,
                Ghost(category_records(g.take(i as int), OpCategory::Meta)), Ghost(rm)),
            OpCategory::Get => cat_acc_add(&mut get, r.start_ns, r.end_ns,
                Ghost(category_records(g.take(i as int), OpCategory::Get)), Ghost(rm)),
            OpCategory::Put => cat_acc_add(&mut put, r.start_ns, r.end_ns,
                Ghost(category_records(g.take(i as int), OpCategory::Put)), Ghost(rm)),
            OpCategory::Other => cat_acc_add(&mut other, r.start_ns, r.end_ns,
                Ghost(category_records(g.take(i as int), OpCategory::Other)), Ghost(rm)),
        }
        i += 1;
    }
    proof {
        assert(g.take(g.len() as int) =~= g);
    }
    let meta_ns = cat_acc_duration(&meta, fallback, Ghost(g), Ghost(OpCategory::Meta));
    let get_ns = cat_acc_duration(&get, fallback, Ghost(g), Ghost(OpCategory::Get));
    let put_ns = cat_acc_duration(&put, fallback, Ghost(g), Ghost(OpCategory::Put));
    let other_ns = cat_acc_duration(&other, fallback, Ghost(g), Ghost(OpCategory::Other));
    Some(EffectiveTimes { meta_ns, get_ns, put_ns, other_ns, overall_ns: fallback })
}

/// The skip cut-off: records starting at or before this instant are
/// discarded. It is the earliest start of the whole set plus the skip
/// duration.
pub open spec fn skip_threshold(g: Seq<RecordModel>, skip: SkipTime) -> int {
    min_start(g) + skip.nanos_spec()
}

/// Drop every record that starts at or before the skip cut-off.
///
/// This runs once per dataset, before any aggregation; everything
/// downstream, the effective-time derivation included, sees only the
/// surviving records.
pub fn filter_after_skip(records: &Vec<OperationRecord>, skip: SkipTime) -> (out: Vec<
    OperationRecord>)
    ensures
        out.deep_view() == records.deep_view().filter(
            |r: RecordModel| r.start_ns > skip_threshold(records.deep_view(), skip),
        ),
{
    let ghost g = records.deep_view();
    let ghost pred = |r: RecordModel| r.start_ns > skip_threshold(g, skip);
    let mut out: Vec<OperationRecord> = Vec::new();
    if records.len() == 0 {
        proof {
            assert(out.deep_view() =~= g.filter(pred));
        }
        return out;
    }
    let w = overall_window(records);
    let min_s = match w {
        Some(tw) => tw.start_ns,
        None => 0,
    };
    let nanos: u128 = match skip {
        SkipTime::Seconds(s) => (s as u128) * 1_000_000_000,
        SkipTime::Minutes(m) => (m as u128) * 60_000_000_000,
    };
    let threshold: u128 = (min_s as u128) + nanos;
    proof {
        lemma_min_start_in_range(g);
        assert(min_s == min_start(g));
        assert(threshold == skip_threshold(g, skip));
        assert(out.deep_view() =~= Seq::<RecordModel>::empty());
        assert(g.take(0) =~= Seq::<RecordModel>::empty());
        assert(g.take(0).filter(pred) =~= Seq::<RecordModel>::empty());
    }
    let mut i: usize = 0;
    while i < records.len()
        invariant
            g == records.deep_view(),
            g.len() == records@.len(),
            0 <= i <= g.len(),
            pred == (|r: RecordModel| r.start_ns > skip_threshold(g, skip)),
            threshold == skip_threshold(g, skip),
            out.deep_view() == g.take(i as int).filter(pred),
        decreases g.len() - i,
    {
        let r = &records[i];
        proof {
            assert(g[i as int] == records@[i as int].deep_view());
            assert(g.take(i + 1) =~= g.take(i as int).push(g[i as int]));
            lemma_filter_push(g.take(i as int), g[i as int], pred);
        }
        if (r.start_ns as u128) > threshold {
            let ghost before = out.deep_view();
            out.push(r.clone());
            proof {
                assert(out.deep_view() =~= before.push(g[i as int]));
            }
        }
        i += 1;
    }
    proof {
        assert(g.take(g.len() as int) =~= g);
    }
    out
}

/// Split a nanosecond duration into hours, minutes, seconds and the
/// remaining nanoseconds, for rendering as `h:mm:ss.fraction`. The four
/// parts recompose exactly to the input.
pub fn split_duration_ns(ns: u64) -> (parts: (u64, u64, u64, u64))
    ensures
        parts.0 == ns as int / 1_000_000_000 / 3600,
        parts.1 == (ns as int / 1_000_000_000 % 3600) / 60,
        parts.2 == ns as int / 1_000_000_000 % 60,
        parts.3 == ns as int % 1_000_000_000,
        parts.1 < 60,
        parts.2 < 60,
        parts.3 < 1_000_000_000,
        ns == ((parts.0 * 3600 + parts.1 * 60 + parts.2) as int) * 1_000_000_000 + parts.3,
{
    let frac = ns % 1_000_000_000;
    let total_secs = ns / 1_000_000_000;
    let h = total_secs / 3600;
    let m = (total_secs % 3600) / 60;
    let s = total_secs % 60;
    proof {
        let t = total_secs as int;
        assert(ns == t * 1_000_000_000 + frac) by (nonlinear_arith)
            requires
                t == ns as int / 1_000_000_000,
                frac == ns as int % 1_000_000_000,
        ;
        assert(t == (t / 3600) * 3600 + t % 3600) by (nonlinear_arith);
        assert(t % 3600 == ((t % 3600) / 60) * 60 + (t % 3600) % 60) by (nonlinear_arith);
        assert((t % 3600) % 60 == t % 60) by (nonlinear_arith);
    }
    (h, m, s, frac)
}

} // verus!
