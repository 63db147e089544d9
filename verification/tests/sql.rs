use querier::sql::{
    dir_parquet_bytes, estimate_scan_bytes, handle_sql, is_parquet, scan_bytes, scan_guard,
    sql_error_status, SignalBytes,
};

const SIZES: SignalBytes = SignalBytes { logs: 10, traces: 200, metrics: 3000 };

#[test]
fn test_sql_guardrail_rejects_oversize_scan() {
    let mut log = Vec::new();
    let e = handle_sql(&SIZES, 1, "SELECT * FROM logs", &mut log).unwrap_err();
    assert_eq!(log[0].name, "querier_rejected_total");
    assert_eq!(log[0].labels, vec![("reason", "bytes".to_string())]);
    assert!(e.starts_with("guardrail:"), "clear guardrail error: {e}");
    assert!(e.contains("scan"), "{e}");
    assert_eq!(
        e,
        "guardrail: query would scan ~10 bytes, over the 1 byte limit (NFR9); narrow the time range or add a filter"
    );
    assert_eq!(sql_error_status(&e), 422);
}

#[test]
fn only_referenced_tables_count() {
    assert_eq!(estimate_scan_bytes(&SIZES, "SELECT 1"), 0);
    assert_eq!(estimate_scan_bytes(&SIZES, "select * from LOGS join Traces"), 210);
    assert_eq!(scan_bytes(&SIZES, "metrics, logs, traces"), 3210);
    let huge = SignalBytes { logs: u64::MAX, traces: 1, metrics: 1 };
    assert_eq!(estimate_scan_bytes(&huge, "logs traces metrics"), u64::MAX);
}

#[test]
fn queries_within_the_budget_run() {
    let mut log = Vec::new();
    assert!(handle_sql(&SIZES, 10, "SELECT * FROM logs", &mut log).is_ok());
    assert!(handle_sql(&SIZES, 0, "SELECT 1 AS one", &mut log).is_ok());
    assert!(log.is_empty());
    assert!(scan_guard(5, 5).is_ok());
    assert!(scan_guard(6, 5).is_err());
}

#[test]
fn other_failures_are_bad_requests() {
    assert_eq!(sql_error_status("no such table"), 400);
    assert_eq!(sql_error_status("a guardrail: elsewhere"), 400);
}

#[test]
fn parquet_files_are_known_by_their_extension() {
    assert!(is_parquet("f.parquet"));
    assert!(!is_parquet(".parquet"));
    assert!(!is_parquet("f.parquet.tmp"));
    let files = vec![
        ("a.parquet".to_string(), 5),
        ("b.txt".to_string(), 100),
        ("c.parquet".to_string(), 7),
    ];
    assert_eq!(dir_parquet_bytes(&files), 12);
}
