use querier::telemetry::{
    dec_inflight, inc_inflight, record_cache, record_coalesced, record_compaction,
    record_objectstore, record_rejected, record_request, record_retention_deleted, record_scan,
    record_shard_cache, record_shard_split, record_shed, record_unsupported, set_cache_memory,
    set_compactor_lag, Amount, Emission, InflightGuard,
};

fn is_counter(e: &Emission) -> bool {
    matches!(e.amount, Amount::Count(_))
}

fn is_histogram(e: &Emission) -> bool {
    matches!(e.amount, Amount::Observe(_) | Amount::ObserveNanos(_))
}

fn has_label(e: &Emission, key: &str, value: &str) -> bool {
    e.labels.iter().any(|(k, v)| *k == key && v == value)
}

#[test]
fn test_request_duration_histogram_emitted() {
    let mut log = Vec::new();
    record_request(&mut log, "prometheus", "metrics", 12_000_000);
    let h = log
        .iter()
        .find(|e| is_histogram(e) && e.name == "querier_request_duration_seconds")
        .expect("duration histogram emitted");
    assert!(has_label(h, "api", "prometheus"), "labels: {:?}", h.labels);
    assert!(has_label(h, "signal", "metrics"), "labels: {:?}", h.labels);
    assert_eq!(h.amount, Amount::ObserveNanos(12_000_000));
    assert!(log.iter().any(|e| is_counter(e) && e.name == "querier_requests_total"));
}

#[test]
fn test_record_scan_emits_bytes_and_files() {
    let mut log = Vec::new();
    record_scan(&mut log, "metrics", 8192, 2);
    let bytes = log
        .iter()
        .find(|e| is_histogram(e) && e.name == "querier_bytes_scanned")
        .expect("bytes_scanned histogram emitted");
    assert!(has_label(bytes, "signal", "metrics"), "labels: {:?}", bytes.labels);
    assert_eq!(bytes.amount, Amount::Observe(8192));
    let files = log
        .iter()
        .find(|e| is_histogram(e) && e.name == "querier_files_opened")
        .expect("files_opened histogram emitted");
    assert!(has_label(files, "signal", "metrics"), "labels: {:?}", files.labels);
    assert_eq!(files.amount, Amount::Observe(2));
}

#[test]
fn test_cache_hit_miss_counters() {
    let mut log = Vec::new();
    record_cache(&mut log, true);
    record_cache(&mut log, false);
    let hits = log.iter().filter(|e| {
        is_counter(e)
            && e.name == "querier_cache_requests_total"
            && has_label(e, "result", "hit")
            && has_label(e, "cache", "result")
    });
    assert_eq!(hits.count(), 1, "hit counter emitted with cache=result");
    let misses = log.iter().filter(|e| {
        is_counter(e) && e.name == "querier_cache_requests_total" && has_label(e, "result", "miss")
    });
    assert_eq!(misses.count(), 1, "miss counter emitted");
}

#[test]
fn test_objectstore_throttle_counter() {
    let mut log = Vec::new();
    record_objectstore(&mut log, 5_000_000, true);
    assert!(
        log.iter().any(|e| is_counter(e) && e.name == "objectstore_throttled_total"),
        "503 throttle counter emitted"
    );
    assert!(log.iter().any(|e| is_counter(e) && e.name == "objectstore_requests_total"));
    assert!(log
        .iter()
        .any(|e| is_histogram(e) && e.name == "objectstore_request_duration_seconds"));
    let mut calm = Vec::new();
    record_objectstore(&mut calm, 5_000_000, false);
    assert!(!calm.iter().any(|e| e.name == "objectstore_throttled_total"));
}

#[test]
fn test_guardrail_reject_counter() {
    let mut log = Vec::new();
    record_rejected(&mut log, "range");
    let e = log
        .iter()
        .find(|e| is_counter(e) && e.name == "querier_rejected_total")
        .expect("guardrail reject counter emitted");
    assert!(has_label(e, "reason", "range"), "labels: {:?}", e.labels);
}

#[test]
fn test_unsupported_construct_counter() {
    let mut log = Vec::new();
    record_unsupported(&mut log, "promql", "subquery");
    let e = log
        .iter()
        .find(|e| is_counter(e) && e.name == "querier_unsupported_total")
        .expect("unsupported construct counter emitted");
    assert!(has_label(e, "lang", "promql"), "labels: {:?}", e.labels);
    assert!(has_label(e, "construct", "subquery"), "labels: {:?}", e.labels);
}

#[test]
fn guards_raise_and_lower_the_gauge() {
    let mut log = Vec::new();
    let first = InflightGuard::new(&mut log);
    let second = InflightGuard::new(&mut log);
    record_shed(&mut log);
    first.release(&mut log);
    second.release(&mut log);
    inc_inflight(&mut log);
    dec_inflight(&mut log);
    let level: i64 = log
        .iter()
        .filter(|e| e.name == "querier_inflight")
        .map(|e| match e.amount {
            Amount::Increment => 1,
            Amount::Decrement => -1,
            _ => 0,
        })
        .sum();
    assert_eq!(level, 0);
    assert_eq!(log.iter().filter(|e| e.name == "querier_inflight").count(), 6);
}

#[test]
fn the_other_events_have_their_metrics() {
    let mut log = Vec::new();
    record_coalesced(&mut log);
    set_cache_memory(&mut log, 9);
    record_compaction(&mut log, 4, 1, 100, 5);
    record_retention_deleted(&mut log, 3);
    set_compactor_lag(&mut log, 2.5f64.to_bits());
    record_shard_split(&mut log, 7);
    record_shard_cache(&mut log, true);
    let seen: Vec<(&str, Amount)> = log.iter().map(|e| (e.name, e.amount)).collect();
    assert_eq!(
        seen,
        vec![
            ("querier_cache_requests_total", Amount::Count(1)),
            ("querier_cache_memory_bytes", Amount::Level(9)),
            ("compactor_files_input_total", Amount::Count(4)),
            ("compactor_files_output_total", Amount::Count(1)),
            ("compactor_rollup_rows_total", Amount::Count(100)),
            ("compactor_duration_seconds", Amount::ObserveNanos(5)),
            ("compactor_retention_deleted_total", Amount::Count(3)),
            ("compactor_lag_seconds", Amount::LevelBits(2.5f64.to_bits())),
            ("querier_shard_splits_total", Amount::Count(1)),
            ("querier_shards_per_query", Amount::Observe(7)),
            ("querier_shard_cache_requests_total", Amount::Count(1)),
        ]
    );
    assert!(has_label(&log[0], "result", "coalesced"));
    assert!(has_label(&log[10], "result", "hit"));
}
