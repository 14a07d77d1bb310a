use polarwarp::error::PolarWarpError;
use polarwarp::record::OperationRecord;
use polarwarp::report::{
    analyze_file, consolidated_report, mib_per_sec_milli, ops_per_sec_milli,
};
use polarwarp::window::TimeWindow;

const SEC: u64 = 1_000_000_000;

fn rec(op: &str, bytes: u64, duration_ns: u64, start_ns: u64, end_ns: u64) -> OperationRecord {
    OperationRecord {
        op: op.to_string(),
        bytes,
        duration_ns,
        start_ns,
        end_ns,
        thread_id: None,
        client_id: None,
        endpoint: None,
    }
}

#[test]
fn file_report_totals_and_rows() {
    let records = vec![
        rec("GET", 10, 100, 0, 10 * SEC),
        rec("PUT", 20, 200, 0, 10 * SEC),
        rec("GET", 30, 300, 5 * SEC, 10 * SEC),
    ];
    let rep = analyze_file(&records).unwrap();
    assert_eq!(rep.total_count, 3);
    assert_eq!(rep.run_duration_ns, 10 * SEC);
    assert_eq!(rep.window, TimeWindow { start_ns: 0, end_ns: 10 * SEC });
    assert_eq!(rep.rows.len(), 2); // GET and PUT share bucket 1
    assert_eq!(rep.summaries.len(), 2); // GET and PUT, no META
    assert_eq!(rep.summaries[0].sort_ordinal, 98);
    assert_eq!(rep.summaries[1].sort_ordinal, 99);
}

#[test]
fn empty_file_is_no_valid_data() {
    let records: Vec<OperationRecord> = Vec::new();
    assert!(matches!(analyze_file(&records), Err(PolarWarpError::NoValidData)));
}

#[test]
fn zero_duration_file_omits_rows() {
    // All records at one instant: no positive duration exists anywhere,
    // so rows and summaries are omitted instead of dividing by zero.
    let records = vec![rec("GET", 10, 100, 5, 5), rec("PUT", 20, 200, 5, 5)];
    let rep = analyze_file(&records).unwrap();
    assert_eq!(rep.total_count, 2);
    assert_eq!(rep.run_duration_ns, 0);
    assert!(rep.rows.is_empty());
    assert!(rep.summaries.is_empty());
}

#[test]
fn consolidation_reports_over_the_union() {
    let one = vec![rec("GET", 10, 100, 0, 100 * SEC)];
    let two = vec![rec("PUT", 20, 200, 50 * SEC, 150 * SEC)];
    let windows = vec![
        TimeWindow { start_ns: 0, end_ns: 100 * SEC },
        TimeWindow { start_ns: 50 * SEC, end_ns: 150 * SEC },
    ];
    let rep = consolidated_report(&vec![one, two], &windows).unwrap();
    assert_eq!(rep.window, TimeWindow { start_ns: 50 * SEC, end_ns: 100 * SEC });
    assert_eq!(rep.run_duration_ns, 50 * SEC);
    assert_eq!(rep.total_count, 2);
    assert_eq!(rep.rows.len(), 2);
}

#[test]
fn consolidation_of_disjoint_runs_is_refused() {
    let one = vec![rec("GET", 10, 100, 0, 10 * SEC)];
    let two = vec![rec("PUT", 20, 200, 20 * SEC, 30 * SEC)];
    let windows = vec![
        TimeWindow { start_ns: 0, end_ns: 10 * SEC },
        TimeWindow { start_ns: 20 * SEC, end_ns: 30 * SEC },
    ];
    assert!(matches!(
        consolidated_report(&vec![one, two], &windows),
        Err(PolarWarpError::NoOverlappingTimeRange)
    ));
}

#[test]
fn row_counts_sum_to_the_grand_total() {
    let records = vec![
        rec("GET", 10, 100, 0, 10 * SEC),
        rec("GET", 10, 110, 0, 10 * SEC),
        rec("PUT", 20_000_000, 200, 0, 10 * SEC),
        rec("LIST", 0, 50, 0, 10 * SEC),
        rec("COPY", 5, 60, 0, 10 * SEC),
    ];
    let rep = analyze_file(&records).unwrap();
    let summed: usize = rep.rows.iter().map(|r| r.stats.count).sum();
    assert_eq!(summed, rep.total_count);
    assert_eq!(rep.total_count, 5);
}

#[test]
fn throughput_derivation_is_exact() {
    // 5 operations over 10 seconds: 0.5 ops/s, scaled by 1000.
    assert_eq!(ops_per_sec_milli(5, 10 * SEC), 500);
    // 7 operations over 3 seconds: 2.333.../s rounds down at the third
    // decimal: 7000/3 = 2333.
    assert_eq!(ops_per_sec_milli(7, 3 * SEC), 2333);
    // 1 MiB over 1 second is 1.000 MiB/s.
    assert_eq!(mib_per_sec_milli(1_048_576, SEC), Some(1000));
    // 5 MiB over 2 seconds is 2.5 MiB/s.
    assert_eq!(mib_per_sec_milli(5 * 1_048_576, 2 * SEC), Some(2500));
    // An unrepresentably large byte sum is reported as absent.
    assert_eq!(mib_per_sec_milli(u128::MAX, SEC), None);
}
