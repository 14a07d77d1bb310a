use polarwarp::aggregate::{aggregate_by_bucket, aggregate_category, AggregateRow};
use polarwarp::quantile::percentile_scaled;
use polarwarp::record::{OpCategory, OperationRecord};
use polarwarp::report::ops_per_sec_milli;
use polarwarp::sorting::sort_u64s;
use polarwarp::window::{effective_times, overall_window};

const SEC: u64 = 1_000_000_000;

fn rec(op: &str, bytes: u64, duration_ns: u64, start_ns: u64, end_ns: u64) -> OperationRecord {
    OperationRecord {
        op: op.to_string(),
        bytes,
        duration_ns,
        start_ns,
        end_ns,
        thread_id: None,
        client_id: None,
        endpoint: None,
    }
}

fn rec_threaded(op: &str, duration_ns: u64, thread: u64) -> OperationRecord {
    OperationRecord {
        op: op.to_string(),
        bytes: 100,
        duration_ns,
        start_ns: 0,
        end_ns: SEC,
        thread_id: Some(thread),
        client_id: None,
        endpoint: None,
    }
}

fn aggregate(records: &Vec<OperationRecord>) -> Vec<AggregateRow> {
    let w = overall_window(records).unwrap();
    let et = effective_times(records, &w).unwrap();
    aggregate_by_bucket(records, &et)
}

#[test]
fn percentile_with_linear_interpolation() {
    // Latencies 1..=10 microseconds in nanoseconds: p90 sits at rank
    // 0.9 * 9 = 8.1, so 9.1 microseconds = 9100 ns = 910000 in
    // hundredths of a nanosecond.
    let sorted: Vec<u64> =
        vec![1000, 2000, 3000, 4000, 5000, 6000, 7000, 8000, 9000, 10000];
    assert_eq!(percentile_scaled(&sorted, 90), 910_000);
    assert_eq!(percentile_scaled(&sorted, 50), 550_000); // median 5.5 us
    assert_eq!(percentile_scaled(&sorted, 95), 955_000);
    assert_eq!(percentile_scaled(&sorted, 99), 991_000);
    assert_eq!(percentile_scaled(&sorted, 0), 100_000);
    assert_eq!(percentile_scaled(&sorted, 100), 1_000_000);
}

#[test]
fn percentile_of_single_sample() {
    let sorted: Vec<u64> = vec![42];
    assert_eq!(percentile_scaled(&sorted, 50), 4200);
    assert_eq!(percentile_scaled(&sorted, 99), 4200);
}

#[test]
fn sort_is_ascending_permutation() {
    let v: Vec<u64> = vec![5, 3, 9, 3, 1];
    let s = sort_u64s(&v);
    assert_eq!(s, vec![1, 3, 3, 5, 9]);
}

#[test]
fn grouped_rows_carry_exact_statistics() {
    let mut records = Vec::new();
    for d in [1000u64, 2000, 3000, 4000, 5000, 6000, 7000, 8000, 9000, 10000] {
        records.push(rec("GET", 100, d, 0, 30 * SEC));
    }
    let rows = aggregate(&records);
    assert_eq!(rows.len(), 1);
    let row = &rows[0];
    assert_eq!(row.op, "GET");
    assert_eq!(row.bucket.to_bucket_number(), 1);
    assert_eq!(row.stats.count, 10);
    assert_eq!(row.stats.sum_duration_ns, 55_000);
    assert_eq!(row.stats.median_scaled, 550_000);
    assert_eq!(row.stats.p90_scaled, 910_000);
    assert_eq!(row.stats.p95_scaled, 955_000);
    assert_eq!(row.stats.p99_scaled, 991_000);
    assert_eq!(row.stats.max_duration_ns, 10_000);
    assert_eq!(row.stats.sum_bytes, 1000);
    assert_eq!(row.stats.distinct_threads, None);
    assert_eq!(row.stats.mean_duration_ns(), 5500);
}

#[test]
fn rows_sorted_by_bucket_then_op_and_stable_under_shuffling() {
    let a = rec("PUT", 0, 10, 0, SEC);
    let b = rec("GET", 100, 20, 0, SEC);
    let c = rec("DELETE", 100, 30, 0, SEC);
    let d = rec("GET", 10_000_000, 40, 0, SEC);
    let one = vec![a.clone(), b.clone(), c.clone(), d.clone()];
    let two = vec![d, c, b, a];
    let rows1 = aggregate(&one);
    let rows2 = aggregate(&two);
    let keys1: Vec<(u8, String)> =
        rows1.iter().map(|r| (r.bucket.to_bucket_number(), r.op.clone())).collect();
    let keys2: Vec<(u8, String)> =
        rows2.iter().map(|r| (r.bucket.to_bucket_number(), r.op.clone())).collect();
    // ascending (bucket ordinal, op), ties on op broken lexically
    assert_eq!(
        keys1,
        vec![
            (0, "PUT".to_string()),
            (1, "DELETE".to_string()),
            (1, "GET".to_string()),
            (5, "GET".to_string()),
        ]
    );
    // shuffling the input changes nothing
    assert_eq!(keys1, keys2);
    for (r1, r2) in rows1.iter().zip(rows2.iter()) {
        assert_eq!(r1.stats, r2.stats);
        assert_eq!(r1.eff_duration_ns, r2.eff_duration_ns);
    }
}

#[test]
fn distinct_thread_count() {
    let records = vec![
        rec_threaded("GET", 10, 7),
        rec_threaded("GET", 20, 7),
        rec_threaded("GET", 30, 9),
    ];
    let rows = aggregate(&records);
    assert_eq!(rows.len(), 1);
    assert_eq!(rows[0].stats.distinct_threads, Some(2));
}

#[test]
fn sequential_phases_throughput_uses_phase_time() {
    // PUT all in [0, 10s), GET all in [20s, 30s): ops/sec for each phase
    // divides by 10s, so 5 operations give 0.5/s, not 5/30s.
    let mut records = Vec::new();
    for i in 0..5u64 {
        records.push(rec("PUT", 10, 100, i * 2 * SEC, (i * 2 + 2) * SEC));
        records.push(rec("GET", 10, 100, (20 + i * 2) * SEC, (22 + i * 2) * SEC));
    }
    let rows = aggregate(&records);
    assert_eq!(rows.len(), 2);
    for row in &rows {
        assert_eq!(row.eff_duration_ns, 10 * SEC);
        assert_eq!(row.stats.count, 5);
        // 5 ops / 10 s = 0.5/s; scaled by 1000 = 500 = count * 100
        assert_eq!(ops_per_sec_milli(row.stats.count, row.eff_duration_ns), 500);
    }
}

#[test]
fn empty_category_yields_no_summary() {
    // No PUT records: the PUT summary is omitted, not rendered as zeros.
    let records = vec![rec("GET", 10, 5, 0, SEC), rec("LIST", 0, 5, 0, SEC)];
    let w = overall_window(&records).unwrap();
    let et = effective_times(&records, &w).unwrap();
    assert!(aggregate_category(&records, OpCategory::Put, &et).is_none());
    let got = aggregate_category(&records, OpCategory::Get, &et).unwrap();
    assert_eq!(got.sort_ordinal, 98);
    assert_eq!(got.category, OpCategory::Get);
    assert_eq!(got.stats.count, 1);
    let meta = aggregate_category(&records, OpCategory::Meta, &et).unwrap();
    assert_eq!(meta.sort_ordinal, 97);
    assert_eq!(meta.stats.count, 1);
}

#[test]
fn category_summary_uses_raw_data_across_buckets() {
    // GET operations spread over two buckets; the summary percentiles
    // come from all raw GET samples, not from per-bucket aggregates.
    let records = vec![
        rec("GET", 10, 1000, 0, SEC),
        rec("GET", 10, 2000, 0, SEC),
        rec("GET", 100_000, 3000, 0, SEC),
        rec("GET", 100_000, 4000, 0, SEC),
    ];
    let w = overall_window(&records).unwrap();
    let et = effective_times(&records, &w).unwrap();
    let s = aggregate_category(&records, OpCategory::Get, &et).unwrap();
    assert_eq!(s.stats.count, 4);
    // median over {1000, 2000, 3000, 4000}: rank 1.5 -> 2500 ns
    assert_eq!(s.stats.median_scaled, 250_000);
    assert_eq!(s.stats.max_duration_ns, 4000);
}

#[test]
fn meta_groups_all_four_metadata_ops() {
    let records = vec![
        rec("LIST", 0, 10, 0, SEC),
        rec("HEAD", 0, 20, 0, SEC),
        rec("DELETE", 0, 30, 0, SEC),
        rec("STAT", 0, 40, 0, SEC),
        rec("GET", 0, 50, 0, SEC),
    ];
    let w = overall_window(&records).unwrap();
    let et = effective_times(&records, &w).unwrap();
    let meta = aggregate_category(&records, OpCategory::Meta, &et).unwrap();
    assert_eq!(meta.stats.count, 4);
    assert_eq!(meta.stats.max_duration_ns, 40);
}

#[test]
fn unknown_op_is_its_own_group() {
    let records = vec![rec("COPY", 10, 5, 0, SEC), rec("GET", 10, 6, 0, SEC)];
    let rows = aggregate(&records);
    assert_eq!(rows.len(), 2);
    assert_eq!(rows[0].op, "COPY");
    assert_eq!(rows[1].op, "GET");
    // COPY belongs to no named category; its throughput divides by the
    // fallback duration.
    assert_eq!(rows[0].eff_duration_ns, SEC);
}
