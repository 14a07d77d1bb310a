use polarwarp::breakdown::{aggregate_by_dimension, Dimension};
use polarwarp::record::{OpCategory, OperationRecord};
use polarwarp::window::{effective_times, overall_window, EffectiveTimes};

const SEC: u64 = 1_000_000_000;

fn rec(op: &str, client: Option<&str>, endpoint: Option<&str>, duration_ns: u64)
    -> OperationRecord {
    OperationRecord {
        op: op.to_string(),
        bytes: 100,
        duration_ns,
        start_ns: 0,
        end_ns: 10 * SEC,
        thread_id: None,
        client_id: client.map(|c| c.to_string()),
        endpoint: endpoint.map(|e| e.to_string()),
    }
}

fn times(records: &Vec<OperationRecord>) -> EffectiveTimes {
    let w = overall_window(records).unwrap();
    effective_times(records, &w).unwrap()
}

#[test]
fn absent_dimension_is_skipped() {
    let records = vec![rec("GET", None, None, 10), rec("PUT", None, None, 20)];
    let et = times(&records);
    assert!(aggregate_by_dimension(&records, Dimension::Client, &et).is_none());
    assert!(aggregate_by_dimension(&records, Dimension::Endpoint, &et).is_none());
}

#[test]
fn single_value_dimension_is_skipped() {
    let records = vec![
        rec("GET", Some("alpha"), None, 10),
        rec("PUT", Some("alpha"), None, 20),
    ];
    let et = times(&records);
    assert!(aggregate_by_dimension(&records, Dimension::Client, &et).is_none());
}

#[test]
fn per_client_rows_sorted_and_exact() {
    let records = vec![
        rec("GET", Some("beta"), None, 30),
        rec("GET", Some("alpha"), None, 10),
        rec("PUT", Some("beta"), None, 40),
        rec("GET", Some("alpha"), None, 20),
        rec("GET", None, None, 99), // no client: belongs to no row
    ];
    let et = times(&records);
    let b = aggregate_by_dimension(&records, Dimension::Client, &et).unwrap();
    assert_eq!(b.rows.len(), 2);
    assert_eq!(b.rows[0].value, "alpha");
    assert_eq!(b.rows[0].stats.count, 2);
    assert_eq!(b.rows[0].stats.max_duration_ns, 20);
    assert_eq!(b.rows[0].eff_duration_ns, et.overall_ns);
    assert_eq!(b.rows[1].value, "beta");
    assert_eq!(b.rows[1].stats.count, 2);
    assert_eq!(b.rows[1].stats.max_duration_ns, 40);
}

#[test]
fn per_client_category_rows() {
    let records = vec![
        rec("GET", Some("alpha"), None, 10),
        rec("PUT", Some("beta"), None, 40),
        rec("GET", Some("beta"), None, 30),
    ];
    let et = times(&records);
    let b = aggregate_by_dimension(&records, Dimension::Client, &et).unwrap();
    // alpha has only GET; beta has GET and PUT; nothing has META.
    assert_eq!(b.category_rows.len(), 3);
    let mut keys: Vec<(String, OpCategory)> =
        b.category_rows.iter().map(|r| (r.value.clone(), r.category)).collect();
    keys.sort_by(|a, b| (a.0.clone(), format!("{:?}", a.1)).cmp(&(b.0.clone(), format!("{:?}", b.1))));
    assert_eq!(
        keys,
        vec![
            ("alpha".to_string(), OpCategory::Get),
            ("beta".to_string(), OpCategory::Get),
            ("beta".to_string(), OpCategory::Put),
        ]
    );
    for row in &b.category_rows {
        assert_eq!(row.stats.count, 1);
        assert!(row.sort_ordinal >= 97);
    }
}

#[test]
fn per_endpoint_rows() {
    let records = vec![
        rec("GET", None, Some("https://one"), 10),
        rec("GET", None, Some("https://two"), 20),
        rec("PUT", None, Some("https://one"), 30),
    ];
    let et = times(&records);
    let b = aggregate_by_dimension(&records, Dimension::Endpoint, &et).unwrap();
    assert_eq!(b.rows.len(), 2);
    assert_eq!(b.rows[0].value, "https://one");
    assert_eq!(b.rows[0].stats.count, 2);
    assert_eq!(b.rows[1].value, "https://two");
    assert_eq!(b.rows[1].stats.count, 1);
}
