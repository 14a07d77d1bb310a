use polarwarp::record::OperationRecord;
use polarwarp::skip::SkipTime;
use polarwarp::window::{
    effective_times, filter_after_skip, overall_window, split_duration_ns, TimeWindow,
};

fn rec(op: &str, bytes: u64, duration_ns: u64, start_ns: u64, end_ns: u64) -> OperationRecord {
    OperationRecord {
        op: op.to_string(),
        bytes,
        duration_ns,
        start_ns,
        end_ns,
        thread_id: None,
        client_id: None,
        endpoint: None,
    }
}

const SEC: u64 = 1_000_000_000;

#[test]
fn overall_window_is_min_start_to_max_end() {
    let records = vec![
        rec("GET", 10, 5, 300, 400),
        rec("PUT", 10, 5, 100, 250),
        rec("GET", 10, 5, 200, 900),
    ];
    let w = overall_window(&records).unwrap();
    assert_eq!(w.start_ns, 100);
    assert_eq!(w.end_ns, 900);
    assert_eq!(w.duration_ns(), 800);
}

#[test]
fn overall_window_of_empty_set_is_absent() {
    let records: Vec<OperationRecord> = Vec::new();
    assert!(overall_window(&records).is_none());
}

#[test]
fn window_duration_is_zero_when_invalid() {
    assert_eq!(TimeWindow { start_ns: 5, end_ns: 5 }.duration_ns(), 0);
    assert_eq!(TimeWindow { start_ns: 9, end_ns: 4 }.duration_ns(), 0);
    assert_eq!(TimeWindow { start_ns: 4, end_ns: 9 }.duration_ns(), 5);
}

#[test]
fn sequential_phases_get_their_own_effective_time() {
    // PUT records all in [0, 10s), GET records all in [20s, 30s): each
    // phase's effective time is 10s, not the whole-file 30s span.
    let mut records = Vec::new();
    for i in 0..5u64 {
        records.push(rec("PUT", 1000, 100, i * SEC, (i + 1) * SEC));
    }
    for i in 20..25u64 {
        records.push(rec("GET", 1000, 100, i * SEC, (i + 1) * SEC));
    }
    // extend GET phase to end exactly at 30s
    records.push(rec("GET", 1000, 100, 25 * SEC, 30 * SEC));
    let w = overall_window(&records).unwrap();
    assert_eq!(w.start_ns, 0);
    assert_eq!(w.end_ns, 30 * SEC);
    let et = effective_times(&records, &w).unwrap();
    assert_eq!(et.put_ns, 5 * SEC); // PUT spans [0s, 5s)
    assert_eq!(et.get_ns, 10 * SEC); // GET spans [20s, 30s)
    assert_eq!(et.meta_ns, 30 * SEC); // empty category falls back
    assert_eq!(et.other_ns, 30 * SEC);
    assert_eq!(et.overall_ns, 30 * SEC);
}

#[test]
fn effective_times_absent_when_duration_zero() {
    let records = vec![rec("GET", 1, 1, 100, 100)];
    let w = overall_window(&records).unwrap();
    assert_eq!(w.duration_ns(), 0);
    assert!(effective_times(&records, &w).is_none());
}

#[test]
fn skip_filter_drops_records_at_or_before_cutoff() {
    // Earliest start is T = 1000; skip of 90s excludes every record with
    // start_ns <= T + 90e9 from all later computation.
    let t = 1000u64;
    let cutoff = t + 90 * SEC;
    let records = vec![
        rec("GET", 1, 1, t, t + 10),
        rec("GET", 1, 1, cutoff - 1, cutoff),
        rec("GET", 1, 1, cutoff, cutoff + 10),
        rec("PUT", 1, 1, cutoff + 1, cutoff + 10),
        rec("PUT", 1, 1, cutoff + 500, cutoff + 900),
    ];
    let kept = filter_after_skip(&records, SkipTime::Seconds(90));
    assert_eq!(kept.len(), 2);
    assert!(kept.iter().all(|r| r.start_ns > cutoff));
    // The effective-time derivation then sees only the survivors.
    let w = overall_window(&kept).unwrap();
    assert_eq!(w.start_ns, cutoff + 1);
    assert_eq!(w.end_ns, cutoff + 900);
}

#[test]
fn skip_filter_in_minutes() {
    let records = vec![
        rec("GET", 1, 1, 0, 10),
        rec("GET", 1, 1, 2 * 60 * SEC, 2 * 60 * SEC + 10),
    ];
    let kept = filter_after_skip(&records, SkipTime::Minutes(1));
    assert_eq!(kept.len(), 1);
    assert_eq!(kept[0].start_ns, 2 * 60 * SEC);
}

#[test]
fn split_duration_into_clock_parts() {
    let ns = ((1 * 3600 + 2 * 60 + 5) * SEC) + 123_456_789;
    assert_eq!(split_duration_ns(ns), (1, 2, 5, 123_456_789));
    assert_eq!(split_duration_ns(0), (0, 0, 0, 0));
    assert_eq!(split_duration_ns(59 * SEC + 999_999_999), (0, 0, 59, 999_999_999));
}
