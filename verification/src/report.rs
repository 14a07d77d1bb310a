//! Whole-dataset reports: grouped rows, category summaries, grand total
//! and throughput derivation, per dataset and consolidated.

use vstd::prelude::*;
use crate::aggregate::{aggregate_by_bucket, aggregate_category, category_sort_ordinal,
    rows_match_records, AggregateRow, CategorySummary};
use crate::consolidate::{concat_datasets, consolidate_windows, max_start_of, min_end_of};
use crate::error::PolarWarpError;
use crate::record::{OpCategory, OperationRecord, RecordModel};
use crate::window::{category_records, effective_times, effective_times_spec, overall_window,
    window_of, EffectiveTimes, TimeWindow};

verus! {

/// Operations per second scaled by 1000, exactly:
/// `count * 10^12 / duration_ns`, rounded down.
pub fn ops_per_sec_milli(count: usize, eff_duration_ns: u64) -> (r: u128)
    requires
        eff_duration_ns > 0,
    ensures
        r == count as int * 1_000_000_000_000 / eff_duration_ns as int,
{
    ((count as u128) * 1_000_000_000_000) / (eff_duration_ns as u128)
}

/// MiB per second scaled by 1000, exactly:
/// `sum_bytes * 10^12 / (2^20 * duration_ns)`, rounded down. Absent for
/// byte sums so large that the scaled numerator cannot be represented.
pub fn mib_per_sec_milli(sum_bytes: u128, eff_duration_ns: u64) -> (r: Option<u128>)
    requires
        eff_duration_ns > 0,
    ensures
        match r {
            Some(v) => sum_bytes <= u128::MAX / 1_000_000_000_000 && v == sum_bytes as int
                * 1_000_000_000_000 / (1_048_576 * eff_duration_ns as int),
            None => sum_bytes > u128::MAX / 1_000_000_000_000,
        },
{
    if sum_bytes <= u128::MAX / 1_000_000_000_000 {
        proof {
            assert(sum_bytes * 1_000_000_000_000 <= u128::MAX) by (nonlinear_arith)
                requires
                    sum_bytes <= u128::MAX / 1_000_000_000_000,
            ;
        }
        let num = sum_bytes * 1_000_000_000_000;
        let den = 1_048_576u128 * (eff_duration_ns as u128);
        Some(num / den)
    } else {
        None
    }
}

/// One summary entry is sound: its statistics are those of its category's
/// raw records, its sentinel ordinal and effective duration are the
/// category's, and it summarizes one of the three named categories.
pub open spec fn summary_ok(g: Seq<RecordModel>, et: EffectiveTimes, s: CategorySummary) -> bool {
    &&& crate::stats::group_stats_match(category_records(g, s.category), s.stats)
    &&& s.sort_ordinal == category_sort_ordinal(s.category)
    &&& s.eff_duration_ns == et.for_category(s.category)
    &&& s.category != OpCategory::Other
}

/// What the summary block states: one sound entry per non-empty named
/// category, in the fixed order META, GET, PUT, and no entry for an empty
/// category.
pub open spec fn summaries_match(
    g: Seq<RecordModel>,
    et: EffectiveTimes,
    sums: Seq<CategorySummary>,
) -> bool {
    &&& forall|i: int| 0 <= i < sums.len() ==> summary_ok(g, et, #[trigger] sums[i])
    &&& forall|i: int, j: int|
        0 <= i < j < sums.len() ==> category_sort_ordinal(sums[i].category)
            < category_sort_ordinal(sums[j].category)
    &&& (category_records(g, OpCategory::Meta).len() > 0 <==> exists|i: int|
        0 <= i < sums.len() && #[trigger] sums[i].category == OpCategory::Meta)
    &&& (category_records(g, OpCategory::Get).len() > 0 <==> exists|i: int|
        0 <= i < sums.len() && #[trigger] sums[i].category == OpCategory::Get)
    &&& (category_records(g, OpCategory::Put).len() > 0 <==> exists|i: int|
        0 <= i < sums.len() && #[trigger] sums[i].category == OpCategory::Put)
}

/// A complete report over one record set: the grouped rows, the category
/// summaries, the grand-total count and the run duration that the
/// top-line rate divides by. A run duration of 0 means no rate can be
/// derived anywhere; the rows and summaries are then omitted.
pub struct FileReport {
    pub rows: Vec<AggregateRow>,
    pub summaries: Vec<CategorySummary>,
    pub total_count: usize,
    pub run_duration_ns: u64,
    pub window: TimeWindow,
}

/// What a report over records `g` with overall window `window` states.
pub open spec fn report_matches(g: Seq<RecordModel>, window: TimeWindow, rep: FileReport) -> bool {
    let dur = window.duration_ns_spec();
    let et = effective_times_spec(g, dur);
    &&& rep.window == window
    &&& rep.run_duration_ns == dur
    &&& rep.total_count == g.len()
    &&& dur > 0 ==> rows_match_records(g, et, rep.rows.deep_view()) && summaries_match(
        g,
        et,
        rep.summaries@,
    )
    &&& dur == 0 ==> rep.rows@.len() == 0 && rep.summaries@.len() == 0
}

/// Build the report of a record set against a given overall window (for
/// consolidated runs the reconciled window is handed in; its duration is
/// the fallback run time). Fails with `NoValidData` exactly when the
/// record set is empty.
pub fn analyze_with_window(records: &Vec<OperationRecord>, window: TimeWindow) -> (r: Result<
    FileReport,
    PolarWarpError,
>)
    ensures
        match r {
            Ok(rep) => records@.len() > 0 && report_matches(records.deep_view(), window, rep),
            Err(e) => e matches PolarWarpError::NoValidData && records@.len() == 0,
        },
{
    let ghost g = records.deep_view();
    if records.len() == 0 {
        return Err(PolarWarpError::NoValidData);
    }
    let run_duration_ns = window.duration_ns();
    match effective_times(records, &window) {
        None => {
            let rep = FileReport {
                rows: Vec::new(),
                summaries: Vec::new(),
                total_count: records.len(),
                run_duration_ns,
                window,
            };
            proof {
                assert(rep.rows.deep_view() =~= Seq::<crate::aggregate::RowModel>::empty());
            }
            Ok(rep)
        },
        Some(et) => {
            let rows = aggregate_by_bucket(records, &et);
            let mut summaries: Vec<CategorySummary> = Vec::new();
            let meta = aggregate_category(records, OpCategory::Meta, &et);
            let get = aggregate_category(records, OpCategory::Get, &et);
            let put = aggregate_category(records, OpCategory::Put, &et);
            if let Some(s) = meta {
                summaries.push(s);
            }
            if let Some(s) = get {
                summaries.push(s);
            }
            if let Some(s) = put {
                summaries.push(s);
            }
            proof {
                let sums = summaries@;
                match (meta, get, put) {
                    (Some(m), Some(gt), Some(p)) => assert(sums =~= seq![m, gt, p]),
                    (Some(m), Some(gt), None) => assert(sums =~= seq![m, gt]),
                    (Some(m), None, Some(p)) => assert(sums =~= seq![m, p]),
                    (Some(m), None, None) => assert(sums =~= seq![m]),
                    (None, Some(gt), Some(p)) => assert(sums =~= seq![gt, p]),
                    (None, Some(gt), None) => assert(sums =~= seq![gt]),
                    (None, None, Some(p)) => assert(sums =~= seq![p]),
                    (None, None, None) => assert(sums =~= Seq::<CategorySummary>::empty()),
                }
                assert(forall|i: int|
                    0 <= i < sums.len() ==> summary_ok(g, et, #[trigger] sums[i]));
                if category_records(g, OpCategory::Meta).len() > 0 {
                    assert(meta is Some);
                    assert(sums[0].category == OpCategory::Meta);
                }
                if category_records(g, OpCategory::Get).len() > 0 {
                    assert(get is Some);
                    if meta is Some {
                        assert(sums[1].category == OpCategory::Get);
                    } else {
                        assert(sums[0].category == OpCategory::Get);
                    }
                }
                if category_records(g, OpCategory::Put).len() > 0 {
                    assert(put is Some);
                    assert(sums[sums.len() - 1].category == OpCategory::Put);
                }
                assert(summaries_match(g, et, sums));
            }
            Ok(
                FileReport {
                    rows,
                    summaries,
                    total_count: records.len(),
                    run_duration_ns,
                    window,
                },
            )
        },
    }
}

/// Build the report of a record set against its own overall window
/// (earliest start to latest end). Fails with `NoValidData` exactly when
/// the record set is empty.
pub fn analyze_file(records: &Vec<OperationRecord>) -> (r: Result<FileReport, PolarWarpError>)
    ensures
        match r {
            Ok(rep) => records@.len() > 0 && report_matches(
                records.deep_view(),
                window_of(records.deep_view()),
                rep,
            ),
            Err(e) => e matches PolarWarpError::NoValidData && records@.len() == 0,
        },
{
    match overall_window(records) {
        None => Err(PolarWarpError::NoValidData),
        Some(w) => analyze_with_window(records, w),
    }
}

/// Consolidate several datasets: intersect their windows, join their
/// record sets and report over the union with the reconciled window as
/// the run-time basis. The per-dataset reports are unaffected by a
/// failure here.
pub fn consolidated_report(datasets: &Vec<Vec<OperationRecord>>, windows: &Vec<TimeWindow>) -> (r:
    Result<FileReport, PolarWarpError>)
    ensures
        match r {
            Ok(rep) => {
                let w = TimeWindow {
                    start_ns: max_start_of(windows@) as u64,
                    end_ns: min_end_of(windows@) as u64,
                };
                &&& windows@.len() > 0
                &&& w.is_valid()
                &&& datasets.deep_view().flatten().len() > 0
                &&& report_matches(datasets.deep_view().flatten(), w, rep)
            },
            Err(e) => match e {
                PolarWarpError::NoValidData => windows@.len() == 0 || datasets.deep_view().flatten().len() == 0,
                PolarWarpError::NoOverlappingTimeRange => windows@.len() > 0 && max_start_of(
                    windows@,
                ) >= min_end_of(windows@),
                _ => false,
            },
        },
{
    let w = match consolidate_windows(windows) {
        Ok(w) => w,
        Err(e) => {
            return Err(e);
        },
    };
    let all = concat_datasets(datasets);
    analyze_with_window(&all, w)
}

} // verus!
