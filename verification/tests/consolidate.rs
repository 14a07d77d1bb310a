use polarwarp::consolidate::{concat_datasets, consolidate_windows};
use polarwarp::error::PolarWarpError;
use polarwarp::record::OperationRecord;
use polarwarp::window::TimeWindow;

const SEC: u64 = 1_000_000_000;

fn rec(op: &str, start_ns: u64, end_ns: u64) -> OperationRecord {
    OperationRecord {
        op: op.to_string(),
        bytes: 1,
        duration_ns: 1,
        start_ns,
        end_ns,
        thread_id: None,
        client_id: None,
        endpoint: None,
    }
}

#[test]
fn overlapping_windows_intersect() {
    // [0s, 100s) and [50s, 150s) consolidate to [50s, 100s): 50 seconds.
    let windows = vec![
        TimeWindow { start_ns: 0, end_ns: 100 * SEC },
        TimeWindow { start_ns: 50 * SEC, end_ns: 150 * SEC },
    ];
    let w = consolidate_windows(&windows).unwrap();
    assert_eq!(w.start_ns, 50 * SEC);
    assert_eq!(w.end_ns, 100 * SEC);
    assert_eq!(w.duration_ns(), 50 * SEC);
}

#[test]
fn disjoint_windows_fail_with_no_overlap() {
    // [0s, 10s) and [20s, 30s) share no span.
    let windows = vec![
        TimeWindow { start_ns: 0, end_ns: 10 * SEC },
        TimeWindow { start_ns: 20 * SEC, end_ns: 30 * SEC },
    ];
    assert!(matches!(
        consolidate_windows(&windows),
        Err(PolarWarpError::NoOverlappingTimeRange)
    ));
}

#[test]
fn touching_windows_fail_with_no_overlap() {
    let windows = vec![
        TimeWindow { start_ns: 0, end_ns: 10 * SEC },
        TimeWindow { start_ns: 10 * SEC, end_ns: 20 * SEC },
    ];
    assert!(matches!(
        consolidate_windows(&windows),
        Err(PolarWarpError::NoOverlappingTimeRange)
    ));
}

#[test]
fn no_windows_fail_with_no_valid_data() {
    let windows: Vec<TimeWindow> = Vec::new();
    assert!(matches!(consolidate_windows(&windows), Err(PolarWarpError::NoValidData)));
}

#[test]
fn three_way_intersection() {
    let windows = vec![
        TimeWindow { start_ns: 0, end_ns: 100 * SEC },
        TimeWindow { start_ns: 30 * SEC, end_ns: 90 * SEC },
        TimeWindow { start_ns: 10 * SEC, end_ns: 80 * SEC },
    ];
    let w = consolidate_windows(&windows).unwrap();
    assert_eq!(w.start_ns, 30 * SEC);
    assert_eq!(w.end_ns, 80 * SEC);
}

#[test]
fn concatenation_keeps_every_record_in_order() {
    let sets = vec![
        vec![rec("GET", 0, 1), rec("PUT", 2, 3)],
        vec![],
        vec![rec("LIST", 4, 5)],
    ];
    let all = concat_datasets(&sets);
    assert_eq!(all.len(), 3);
    assert_eq!(all[0].op, "GET");
    assert_eq!(all[1].op, "PUT");
    assert_eq!(all[2].op, "LIST");
}
