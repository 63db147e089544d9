use querier::aggregate::aggregate_range_series;
use querier::classify::{
    as_count, detect_bucket_heatmap, detect_hist_quantile, histogram_quantile_parts,
    is_lag_range_op, matrix_range_ns, op_capability, range_to_ns, topk_parts, AggKind, CountError,
};
use querier::eval::{plan_instant, plan_range, Leaf, RangeWindow};
use querier::evaluate::{eval_instant, eval_range_window, LeafVal};
use querier::grid::{
    has_grid, points_within, resample_to_grid, staleness_for, timeline, MAX_GRID_POINTS,
    STALENESS_NS,
};
use querier::heatmap::handle_bucket_heatmap;
use querier::histogram::{
    handle_hist_quantile_range, handle_histogram, hist_instant_scan, hist_partition, hist_source,
    matrix_to_series, parse_f64_array, HistRow, LatestHist,
};
use querier::labels::{Labels, MatchKind};
use querier::matching::{cardinality, vector_vector_instant, vector_vector_range, Card};
use querier::number::{Arithmetic, Comparison, Number};
use querier::operators::{
    apply_binop, binary_op, clamp_value, histogram_quantile, reduce_end, reduce_step,
    scalar_op_scalar, BinaryOp,
};
use querier::plan::{
    lower_instant_df, lower_range_df, step_partition, Partition, Shape, Step, TimeTest,
};
use querier::promql::{parse, BinaryModifier, LabelMatcher, MatcherOp, PromExpr};
use querier::range::{
    column_role, finish_range, group_range_series, handle_range, instant_vector, merge_shard,
    scan_windows, ColumnRole, RangeQuery, SampleRow, Shard,
};
use querier::rank::{keep_top, select_top, Score};
use querier::response::{
    handle_instant, instant_samples, ts_number, PromMatrixResponse, PromResponse,
};
use querier::selector::{
    label_lhs_expr, matcher_expr, metric_value_expr, name_pred_expr, LabelSource, ValueExpr,
};
use querier::series::{instant_to_scalar, put, InstantVal, RangeSeries, RangeVal, Sample, Series};
use querier::textmap::TextMap;
use querier::windows::{
    instant_anchor, instant_scope, resolve_metric_windows, Capability, MetricWindow,
    SEALED_OFFSET_NS,
};

#[derive(Debug, Clone, Copy, PartialEq)]
struct Double(f64);

impl Number for Double {
    fn calculate(op: Arithmetic, l: Self, r: Self) -> Self {
        Double(match op {
            Arithmetic::Add => l.0 + r.0,
            Arithmetic::Sub => l.0 - r.0,
            Arithmetic::Mul => l.0 * r.0,
            Arithmetic::Div => l.0 / r.0,
            Arithmetic::Mod => l.0 % r.0,
            Arithmetic::Pow => l.0.powf(r.0),
            Arithmetic::Atan2 => l.0.atan2(r.0),
        })
    }
    fn holds(op: Comparison, l: Self, r: Self) -> bool {
        match op {
            Comparison::Equal => (l.0 - r.0).abs() < f64::EPSILON,
            Comparison::NotEqual => (l.0 - r.0).abs() >= f64::EPSILON,
            Comparison::Greater => l.0 > r.0,
            Comparison::Less => l.0 < r.0,
            Comparison::GreaterOrEqual => l.0 >= r.0,
            Comparison::LessOrEqual => l.0 <= r.0,
        }
    }
    fn least(l: Self, r: Self) -> Self {
        Double(l.0.min(r.0))
    }
    fn greatest(l: Self, r: Self) -> Self {
        Double(l.0.max(r.0))
    }
    fn negated(v: Self) -> Self {
        Double(-v.0)
    }
    fn of_bits(bits: u64) -> Self {
        Double(f64::from_bits(bits))
    }
    fn of_count(n: u64) -> Self {
        Double(n as f64)
    }
    fn of_nanos(ns: i64) -> Self {
        Double(ns as f64 / 1e9)
    }
    fn undefined() -> Self {
        Double(f64::NAN)
    }
    fn lowest() -> Self {
        Double(f64::MIN)
    }
    fn rank(v: Self) -> i64 {
        let bits = (v.0 + 0.0).to_bits() as i64;
        if bits < 0 {
            i64::MIN.wrapping_sub(bits)
        } else {
            bits
        }
    }
    fn text(v: Self) -> String {
        v.0.to_string()
    }
}

const SEC: i64 = 1_000_000_000;
const DAY_NS: i64 = 86_400_000_000_000;
const M5: i64 = 300_000_000_000;

fn d(x: f64) -> Double {
    Double(x)
}

fn ds(xs: &[f64]) -> Vec<Double> {
    xs.iter().map(|x| Double(*x)).collect()
}

fn labels(pairs: &[(&str, &str)]) -> Labels {
    let mut l = Labels::new();
    for (k, v) in pairs {
        l = l.with(k.to_string(), v.to_string());
    }
    l
}

fn pts(ps: &[(i64, f64)]) -> Vec<(i64, Double)> {
    ps.iter().map(|(t, v)| (t * SEC, Double(*v))).collect()
}

fn series(pairs: &[(&str, &str)], ps: &[(i64, f64)]) -> Series<Double> {
    Series { labels: labels(pairs), points: pts(ps) }
}

fn set_of(list: Vec<Series<Double>>) -> RangeSeries<Double> {
    let mut m: RangeSeries<Double> = TextMap::new();
    for s in list {
        m = put(m, s);
    }
    m
}

fn lines(m: RangeSeries<Double>) -> Vec<(Vec<(String, String)>, Vec<(i64, Double)>)> {
    m.into_entries()
        .into_iter()
        .map(|(_, s)| (s.labels.into_pairs(), s.points))
        .collect()
}

fn pair(k: &str, v: &str) -> (String, String) {
    (k.to_string(), v.to_string())
}

fn tables(names: &[&str]) -> Vec<String> {
    names.iter().map(|n| n.to_string()).collect()
}

fn with_5m() -> Vec<String> {
    tables(&["metrics", "metrics_5m"])
}

fn binop_of(q: &str) -> (BinaryOp, Option<BinaryModifier>) {
    match parse(q).unwrap() {
        PromExpr::Binary { op, modifier, .. } => (binary_op(&op), modifier),
        other => panic!("not a binary expr: {other:?}"),
    }
}

#[test]
fn test_matcher_value_is_bound_literal_not_injected() {
    let evil = r#"a' OR 1=1 && x"#;
    let m = LabelMatcher {
        op: MatcherOp::Equal,
        name: "pod".to_string(),
        value: evil.to_string(),
    };
    let e = matcher_expr(&m).expect("string matcher lowers");
    assert_eq!(e.value, evil, "value bound as one literal, not injected");
    assert_eq!(e.label, "pod");
}

#[test]
fn test_prom_vector_response_shape() {
    let resp = PromResponse::vector(vec![(
        labels(&[("service_name", "client")]),
        1_700_000_000 * SEC,
        d(42.0),
    )]);
    assert_eq!(resp.status, "success");
    let sample = &resp.data.result[0];
    let json = format!(
        r#"{{"resultType":"{}","value":[{},"{}"]}}"#,
        resp.data.result_type,
        ts_number(sample.value.0).expect("whole seconds"),
        sample.value.1,
    );
    assert!(json.contains(r#""resultType":"vector""#), "json: {json}");
    assert!(
        json.contains(r#""value":[1700000000,"42"]"#),
        "integer seconds (Mimir parity): {json}"
    );
    assert_eq!(sample.metric.get("service_name").unwrap(), "client");
}

#[test]
fn test_prom_matrix_response_shape() {
    let resp = PromMatrixResponse::matrix(&vec![series(
        &[("service_name", "client")],
        &[(1_700_000_000, 1.5), (1_700_000_060, 2.0)],
    )]);
    assert_eq!(resp.status, "success");
    let values: Vec<String> = resp.data.result[0]
        .values
        .iter()
        .map(|(t, v)| format!(r#"[{},"{}"]"#, ts_number(*t).expect("whole seconds"), v))
        .collect();
    let json = format!(
        r#"{{"resultType":"{}","values":[{}]}}"#,
        resp.data.result_type,
        values.join(",")
    );
    assert!(json.contains(r#""resultType":"matrix""#), "json: {json}");
    assert!(
        json.contains(r#""values":[[1700000000,"1.5"],[1700000060,"2"]]"#),
        "integer seconds (Mimir parity): {json}"
    );
    assert_eq!(resp.data.result[0].metric.get("service_name").unwrap(), "client");
}

#[test]
fn test_histogram_quantile_p95_interpolation() {
    let bounds = ds(&[10.0, 20.0, 30.0, 40.0, 50.0]);
    let counts = ds(&[0.0, 20.0, 30.0, 30.0, 15.0, 5.0]);
    let p95 = histogram_quantile(d(0.95), &counts, &bounds).unwrap().0;
    assert!((p95 - 50.0).abs() < 1e-9, "p95 = {p95}");
    let p50 = histogram_quantile(d(0.50), &counts, &bounds).unwrap().0;
    assert!((p50 - 30.0).abs() < 1e-9, "p50 = {p50}");
}

#[test]
fn test_histogram_quantile_handles_empty_buckets() {
    assert_eq!(
        histogram_quantile(d(0.95), &ds(&[0.0, 0.0, 0.0]), &ds(&[1.0, 2.0])),
        None
    );
    assert_eq!(histogram_quantile(d(0.95), &ds(&[]), &ds(&[])), None);
    let v = histogram_quantile(
        d(0.95),
        &ds(&[0.0, 0.0, 0.0, 0.0, 0.0, 100.0]),
        &ds(&[10.0, 20.0, 30.0, 40.0, 50.0]),
    );
    assert_eq!(v, Some(d(50.0)));
}

#[test]
fn test_histogram_quantile_parses_query() {
    let expr =
        parse(r#"histogram_quantile(0.95, http_req_duration{service_name="client"})"#).unwrap();
    let (phi, vs) = histogram_quantile_parts(&expr).expect("recognised as histogram_quantile");
    assert!((f64::from_bits(phi) - 0.95).abs() < 1e-9);
    assert_eq!(vs.name.as_deref(), Some("http_req_duration"));
    assert!(histogram_quantile_parts(&parse("rate(x[1m])").unwrap()).is_none());
}

#[test]
fn test_apply_binop_arithmetic_and_comparison() {
    let (add, _) = binop_of("a + b");
    assert_eq!(apply_binop(add, d(2.0), d(3.0), false, d(0.0)), Some(d(5.0)));
    let (gt, _) = binop_of("a > b");
    assert_eq!(apply_binop(gt, d(10.0), d(5.0), false, d(10.0)), Some(d(10.0)));
    assert_eq!(apply_binop(gt, d(3.0), d(5.0), false, d(3.0)), None);
    assert_eq!(apply_binop(gt, d(3.0), d(5.0), true, d(3.0)), Some(d(0.0)));
    assert_eq!(apply_binop(gt, d(9.0), d(5.0), true, d(9.0)), Some(d(1.0)));
}

#[test]
fn test_vector_vector_instant_matches_and_drops_name() {
    let (op, modifier) = binop_of("a / b");
    let mk = |name: &str, svc: &str, code: &str| {
        labels(&[("__name__", name), ("service_name", svc), ("code", code)])
    };
    let out = vector_vector_instant(
        op,
        vec![(mk("a", "x", "200"), d(10.0)), (mk("a", "x", "500"), d(4.0))],
        vec![(mk("b", "x", "200"), d(2.0)), (mk("b", "x", "500"), d(4.0))],
        &modifier,
        false,
    )
    .unwrap();
    let of = |code: &str| out.iter().find(|(m, _)| m.get("code").unwrap() == code).unwrap().1;
    assert_eq!(of("200"), d(5.0));
    assert_eq!(of("500"), d(1.0));
    assert!(out.iter().all(|(m, _)| !m.contains_key("__name__")), "drops __name__");
}

#[test]
fn test_ignoring_matches_across_extra_label() {
    let (op, modifier) = binop_of("a / ignoring(code) b");
    let a = labels(&[("__name__", "a"), ("service_name", "x"), ("code", "200")]);
    let b = labels(&[("__name__", "b"), ("service_name", "x")]);
    let out = vector_vector_instant(op, vec![(a, d(9.0))], vec![(b, d(3.0))], &modifier, false)
        .unwrap();
    assert_eq!(out.len(), 1);
    assert_eq!(out[0].1, d(3.0));
    assert!(!out[0].0.contains_key("code"), "result: {:?}", out[0].0);
    assert_eq!(out[0].0.get("service_name").unwrap(), "x");
}

#[test]
fn test_resample_to_grid_carries_forward() {
    let p = pts(&[(1, 10.0), (2, 30.0), (3, 60.0)]);
    let out = resample_to_grid(&p, 0, 5 * SEC, SEC, STALENESS_NS);
    assert_eq!(out, pts(&[(1, 10.0), (2, 30.0), (3, 60.0), (4, 60.0), (5, 60.0)]));
}

#[test]
fn test_resample_drops_stale_points() {
    let p = pts(&[(1, 7.0)]);
    let out = resample_to_grid(&p, 0, 5_000_000_000, 1_000_000_000, 1_500_000_000);
    assert_eq!(out, pts(&[(1, 7.0), (2, 7.0)]));
}

fn cap(q: &str) -> Capability {
    op_capability(&parse(q).unwrap())
}

#[test]
fn test_op_capability_classes() {
    assert_eq!(cap("rate(m[5m])"), Capability::Last);
    assert_eq!(cap("increase(m[5m])"), Capability::Last);
    assert_eq!(
        cap("topk(3, histogram_quantile(0.9, sum by(le)(rate(m_bucket[5m]))))"),
        Capability::Last
    );
    assert_eq!(cap("max_over_time(m[5m])"), Capability::MinMax);
    assert_eq!(cap("min_over_time(m[5m])"), Capability::MinMax);
    assert_eq!(cap("avg_over_time(m[5m])"), Capability::SumCount);
    assert_eq!(cap("sum_over_time(m[5m])"), Capability::SumCount);
    assert_eq!(cap("count_over_time(m[5m])"), Capability::SumCount);
    assert_eq!(cap("irate(m[5m])"), Capability::Raw);
    assert_eq!(cap("m"), Capability::Raw);
    assert_eq!(cap("quantile_over_time(0.5, m[5m])"), Capability::Raw);
    assert_eq!(cap("stddev_over_time(m[5m])"), Capability::Raw);
}

#[test]
fn test_op_capability_scalar_scaled_rate_is_last() {
    assert_eq!(cap("rate(m[5m]) * 2"), Capability::Last);
    assert_eq!(cap("2 * rate(m[5m])"), Capability::Last);
    assert_eq!(cap("rate(m[5m]) / 1024"), Capability::Last);
    assert_eq!(cap("rate(m[5m]) > 5"), Capability::Last);
    assert_eq!(cap("max_over_time(m[5m]) / 100"), Capability::MinMax);
    assert_eq!(cap("1 + 2"), Capability::Raw);
}

#[test]
fn test_op_capability_binary_mixed_is_none() {
    assert_eq!(cap("max_over_time(g[5m])/rate(g[5m])"), Capability::Raw);
    assert_eq!(cap("-rate(g[5m])"), Capability::Last);
}

#[test]
fn test_instant_anchor() {
    assert_eq!(instant_anchor(i64::MAX, 1000), 1000);
    assert_eq!(instant_anchor(500, 1000), 500);
}

#[test]
fn test_no_handler_hardcodes_tier_table() {
    // A tier table that is not registered is never read, and a registered one only
    // where the resolver puts it: every planned scan names a window of the resolver.
    let queries = [
        "m",
        "rate(m[5m])",
        "sum by (cpu) (rate(m[1h]))",
        "max_over_time(m[1d])",
        "histogram_quantile(0.9, m)",
        "topk(2, avg_over_time(m[5m]))",
    ];
    for q in queries {
        let expr = parse(q).unwrap();
        let needs = plan_instant(&tables(&["metrics"]), &expr, 100 * DAY_NS, 100 * DAY_NS);
        for leaf in &needs.leaves {
            let read: Vec<&String> = match leaf {
                Leaf::Instant(p) | Leaf::Range(p) => p.scans.iter().map(|s| &s.table).collect(),
                Leaf::InstantQuantile(_, _, s) => vec![&s.table],
                Leaf::Quantile(_) | Leaf::Heatmap(_) => vec![],
            };
            for table in read {
                for tier in ["metrics_5m", "metrics_1h", "metrics_1d"] {
                    assert_ne!(table, tier, "{q} reads a tier that is not registered");
                }
                assert_eq!(table, "metrics");
            }
        }
        if let RangeQuery::Windows(task) =
            handle_range(&tables(&["metrics"]), q, 0, 100 * DAY_NS, DAY_NS, 100 * DAY_NS).unwrap()
        {
            assert!(task.windows.iter().all(|w| w.0 == "metrics"), "{q}: {:?}", task.windows);
        }
    }
}

fn assert_disjoint_covering(windows: &[MetricWindow], start: i64, end: i64) {
    assert_eq!(windows.first().unwrap().1, start, "first window starts at start");
    assert_eq!(windows.last().unwrap().2, end, "last window ends at end");
    for pair in windows.windows(2) {
        assert!(pair[0].2 < pair[1].1, "windows disjoint: {:?} then {:?}", pair[0], pair[1]);
        assert_eq!(pair[1].1, pair[0].2 + 1, "windows contiguous (no gap)");
    }
}

#[test]
fn test_resolve_windows_none_is_all_raw() {
    let w = resolve_metric_windows(
        &with_5m(),
        0,
        2 * DAY_NS,
        300_000_000_000,
        Capability::Raw,
        2 * DAY_NS,
    );
    assert_eq!(w, vec![("metrics".to_string(), 0, 2 * DAY_NS)]);
}

#[test]
fn test_resolve_windows_splits_sealed_and_trailing() {
    let start = 0i64;
    let end = 2 * DAY_NS;
    let sealed = end - DAY_NS;
    let w = resolve_metric_windows(&with_5m(), start, end, M5, Capability::MinMax, end);
    assert_eq!(
        w,
        vec![
            ("metrics_5m".to_string(), start, sealed),
            ("metrics".to_string(), sealed + 1, end),
        ]
    );
    assert_disjoint_covering(&w, start, end);
}

#[test]
fn test_resolve_windows_short_span_all_live_is_raw() {
    let end = 10 * SEALED_OFFSET_NS;
    let start = end - SEALED_OFFSET_NS / 2;
    let w = resolve_metric_windows(&with_5m(), start, end, M5, Capability::MinMax, end);
    assert_eq!(w, vec![("metrics".to_string(), start, end)]);
    assert_disjoint_covering(&w, start, end);
}

#[test]
fn test_resolve_windows_fine_resolution_no_tier() {
    const M1: i64 = 60_000_000_000;
    let w = resolve_metric_windows(
        &with_5m(),
        0,
        2 * DAY_NS,
        M1,
        Capability::SumCount,
        2 * DAY_NS,
    );
    assert_eq!(w, vec![("metrics".to_string(), 0, 2 * DAY_NS)]);
}

#[test]
fn test_resolve_windows_historical_end_uses_tier() {
    let now_ns = 100 * DAY_NS;
    let start = now_ns - 50 * DAY_NS / 24;
    let end = now_ns - 30 * DAY_NS / 24;
    let w = resolve_metric_windows(&with_5m(), start, end, M5, Capability::MinMax, now_ns);
    assert_eq!(
        w,
        vec![("metrics_5m".to_string(), start, end)],
        "a fully-sealed historical span must route to the tier, not raw: {w:?}"
    );
    assert_disjoint_covering(&w, start, end);
    let old_sealed = end - DAY_NS;
    assert!(start > old_sealed, "precondition: old end-relative logic went all-raw");
}

#[test]
fn test_resolve_windows_now_relative_boundary() {
    let start = 0i64;
    let end = 3 * DAY_NS;
    let w_a = resolve_metric_windows(&with_5m(), start, end, M5, Capability::MinMax, end);
    assert_eq!(
        w_a,
        vec![
            ("metrics_5m".to_string(), start, 2 * DAY_NS),
            ("metrics".to_string(), 2 * DAY_NS + 1, end),
        ],
        "now == end → sealed at end - 1day: {w_a:?}"
    );
    let now_future = 10 * DAY_NS;
    let w_b = resolve_metric_windows(&with_5m(), start, end, M5, Capability::MinMax, now_future);
    assert_eq!(
        w_b,
        vec![("metrics_5m".to_string(), start, end)],
        "now ≫ end → whole span sealed, single tier window: {w_b:?}"
    );
    assert_ne!(w_a, w_b, "the split must depend on now_ns, not end_ns");
}

#[test]
fn the_coarsest_tier_that_is_fine_enough_serves() {
    let all = tables(&["metrics", "metrics_5m", "metrics_1h", "metrics_1d"]);
    let w = resolve_metric_windows(&all, 0, DAY_NS, 2 * 3600 * SEC, Capability::Last, 10 * DAY_NS);
    assert_eq!(w, vec![("metrics_1h".to_string(), 0, DAY_NS)]);
    let w = resolve_metric_windows(&all, 0, DAY_NS, i64::MAX, Capability::Last, 10 * DAY_NS);
    assert_eq!(w, vec![("metrics_1d".to_string(), 0, DAY_NS)]);
}

#[test]
fn an_omitted_time_scopes_to_now() {
    let s = instant_scope(i64::MAX, 77);
    assert_eq!((s.lo_ns, s.hi_ns), (77, 77));
    let s = instant_scope(5, 77);
    assert_eq!((s.lo_ns, s.hi_ns), (5, 5));
}

#[test]
fn operators_compute() {
    let op = |q: &str| binop_of(q).0;
    let v = |q: &str, l: f64, r: f64| apply_binop(op(q), d(l), d(r), false, d(l));
    assert_eq!(v("a - b", 2.0, 3.0), Some(d(-1.0)));
    assert_eq!(v("a * b", 2.0, 3.0), Some(d(6.0)));
    assert_eq!(v("a % b", 7.0, 4.0), Some(d(3.0)));
    assert_eq!(v("a ^ b", 2.0, 10.0), Some(d(1024.0)));
    assert_eq!(v("a == b", 2.0, 2.0), Some(d(2.0)));
    assert_eq!(v("a != b", 2.0, 2.0), None);
    assert_eq!(v("a <= b", 2.0, 2.0), Some(d(2.0)));
    assert_eq!(v("a >= b", 1.0, 2.0), None);
    assert_eq!(v("a < b", 1.0, 2.0), Some(d(1.0)));
    assert_eq!(binary_op("and"), BinaryOp::Other);
    assert_eq!(v("a and b", 1.0, 2.0), None);
    assert_eq!(scalar_op_scalar(op("a > b"), d(1.0), d(2.0)), d(0.0));
    assert_eq!(scalar_op_scalar(op("a + b"), d(1.0), d(2.0)), d(3.0));
    assert_eq!(clamp_value(true, d(1.0), d(2.0)), d(2.0));
    assert_eq!(clamp_value(false, d(3.0), d(2.0)), d(2.0));
}

#[test]
fn reductions_fold_and_end() {
    let fold = |op: AggKind, xs: &[f64]| {
        let mut acc = d(0.0);
        let mut n: u64 = 0;
        for x in xs {
            acc = reduce_step(op, acc, n, d(*x));
            n += 1;
        }
        reduce_end(op, acc, n)
    };
    assert_eq!(fold(AggKind::Sum, &[1.0, 2.0, 4.5]), d(7.5));
    assert_eq!(fold(AggKind::Max, &[1.0, 5.0, 4.5]), d(5.0));
    assert_eq!(fold(AggKind::Min, &[3.0, 2.0, 4.5]), d(2.0));
    assert_eq!(fold(AggKind::Avg, &[1.0, 2.0, 6.0]), d(3.0));
    assert_eq!(fold(AggKind::Count, &[9.0, 9.0, 9.0]), d(3.0));
}

#[test]
fn group_sides_take_labels_from_the_one_side() {
    let (op, modifier) = binop_of("a * on(host) group_left(zone) b");
    match cardinality(&modifier) {
        Ok(Card::ManyToOne(extra)) => assert_eq!(extra, vec!["zone".to_string()]),
        other => panic!("{other:?}"),
    }
    let out = vector_vector_instant(
        op,
        vec![
            (labels(&[("host", "h"), ("cpu", "0")]), d(2.0)),
            (labels(&[("host", "h"), ("cpu", "1")]), d(3.0)),
        ],
        vec![(labels(&[("host", "h"), ("zone", "z")]), d(10.0))],
        &modifier,
        false,
    )
    .unwrap();
    let got: Vec<(Vec<(String, String)>, Double)> =
        out.into_iter().map(|(m, v)| (m.into_pairs(), v)).collect();
    assert_eq!(
        got,
        vec![
            (vec![pair("host", "h"), pair("zone", "z")], d(20.0)),
            (vec![pair("host", "h"), pair("zone", "z")], d(30.0)),
        ]
    );
}

#[test]
fn ranges_combine_at_shared_times() {
    let (op, modifier) = binop_of("a / b");
    let out = vector_vector_range(
        op,
        set_of(vec![series(&[("__name__", "a"), ("h", "x")], &[(1, 10.0), (2, 20.0)])]),
        set_of(vec![series(&[("__name__", "b"), ("h", "x")], &[(2, 4.0), (3, 5.0)])]),
        &modifier,
        false,
    )
    .unwrap();
    assert_eq!(lines(out), vec![(vec![pair("h", "x")], pts(&[(2, 5.0)]))]);
}

#[test]
fn set_operators_between_vectors_are_refused() {
    let expr = parse("a and b").unwrap();
    let leaves: Vec<LeafVal<Double>> =
        vec![LeafVal::Instant(Vec::new()), LeafVal::Instant(Vec::new())];
    assert!(eval_instant(&expr, leaves).is_err());
    let refusal = "set operators (and/or/unless) not supported (v1)";
    let t = tables(&["metrics"]);
    let error = |q: &str| plan_instant(&t, &parse(q).unwrap(), 0, 0).error;
    assert_eq!(error("a and b").as_deref(), Some(refusal));
    assert_eq!(error("(a or b) + scalar(c)").as_deref(), Some(refusal));
    assert_eq!(error("a + b"), None);
}

#[test]
fn what_is_planned_can_be_evaluated() {
    let queries = [
        "1 + 2",
        "-a * 2",
        "a / on(x) b",
        "scalar(a) * b",
        "clamp_max(a, scalar(b)) > 3",
        "histogram_quantile(0.9, a)",
        "sum by (x) (rate(a[5m]))",
    ];
    for q in queries {
        let expr = parse(q).unwrap();
        let needs = plan_instant(&tables(&["metrics"]), &expr, 9, 9);
        assert!(needs.error.is_none(), "{q}: {:?}", needs.error);
        let data: Vec<LeafVal<Double>> =
            needs.leaves.iter().map(|_| LeafVal::Instant(Vec::new())).collect();
        assert!(eval_instant(&expr, data).is_ok(), "{q}");
        assert_eq!(eval_instant::<Double>(&expr, Vec::new()).is_ok(), needs.leaves.is_empty(), "{q}");
    }
}

#[test]
fn matrices_become_series_by_their_labels() {
    let m = matrix_to_series(vec![
        series(&[("a", "x")], &[(1, 1.0)]),
        series(&[("a", "y")], &[(1, 2.0)]),
        series(&[("a", "x")], &[(2, 3.0)]),
    ]);
    assert_eq!(
        lines(m),
        vec![
            (vec![pair("a", "x")], pts(&[(2, 3.0)])),
            (vec![pair("a", "y")], pts(&[(1, 2.0)])),
        ]
    );
    assert!(matches!(label_lhs_expr("service_name"), LabelSource::ServiceName));
    assert!(matches!(label_lhs_expr("pod"), LabelSource::Attribute(k) if k == "pod"));
}

#[test]
fn aggregations_align_series_to_the_grid() {
    let inner = set_of(vec![
        series(&[("__name__", "m"), ("cpu", "0"), ("mode", "a")], &[(1, 1.0), (2, 2.0)]),
        series(&[("__name__", "m"), ("cpu", "0"), ("mode", "b")], &[(1, 10.0)]),
        series(&[("__name__", "m"), ("cpu", "1"), ("mode", "a")], &[(2, 5.0)]),
    ]);
    let out = aggregate_range_series(
        AggKind::Sum,
        &MatchKind::On(vec!["cpu".to_string()]),
        &inner,
        SEC,
        2 * SEC,
        SEC,
    );
    assert_eq!(
        lines(out),
        vec![
            (vec![pair("cpu", "0")], pts(&[(1, 11.0), (2, 12.0)])),
            (vec![pair("cpu", "1")], pts(&[(2, 5.0)])),
        ]
    );
}

#[test]
fn without_keeps_the_complement() {
    let inner = set_of(vec![
        series(&[("cpu", "0"), ("mode", "a")], &[(1, 1.0)]),
        series(&[("cpu", "0"), ("mode", "b")], &[(1, 2.0)]),
    ]);
    let out = aggregate_range_series(
        AggKind::Max,
        &MatchKind::Ignoring(vec!["mode".to_string()]),
        &inner,
        SEC,
        SEC,
        SEC,
    );
    assert_eq!(lines(out), vec![(vec![pair("cpu", "0")], pts(&[(1, 2.0)]))]);
}

#[test]
fn scalar_functions_fold_a_single_series() {
    let expr = parse("scalar(http_total) * 2").unwrap();
    let needs = plan_instant(&tables(&["metrics"]), &expr, 3 * SEC, 3 * SEC);
    assert!(needs.error.is_none());
    assert_eq!(needs.leaves.len(), 1);
    let one: Vec<Sample<Double>> = vec![(labels(&[("__name__", "http_total")]), d(60.0))];
    match eval_instant(&expr, vec![LeafVal::Instant(one)]).unwrap() {
        InstantVal::Scalar(x) => assert_eq!(x, d(120.0)),
        other => panic!("{other:?}"),
    }
    let two: Vec<Sample<Double>> =
        vec![(labels(&[("a", "1")]), d(60.0)), (labels(&[("a", "2")]), d(60.0))];
    assert!(instant_to_scalar(&InstantVal::Vector(two)).0.is_nan());
}

#[test]
fn clamps_and_signs_change_every_value() {
    let expr = parse("-clamp_min(m, 2)").unwrap();
    let v: Vec<Sample<Double>> =
        vec![(labels(&[("a", "1")]), d(1.0)), (labels(&[("a", "2")]), d(7.0))];
    match eval_instant(&expr, vec![LeafVal::Instant(v)]).unwrap() {
        InstantVal::Vector(out) => {
            assert_eq!(out.iter().map(|s| s.1).collect::<Vec<_>>(), ds(&[-2.0, -7.0]));
        }
        other => panic!("{other:?}"),
    }
}

#[test]
fn missing_arguments_are_named() {
    let call = |name: &str| PromExpr::Call { name: name.to_string(), args: vec![] };
    let t = tables(&["metrics"]);
    let error = |e: PromExpr| plan_instant(&t, &e, 0, 0).error.unwrap();
    assert_eq!(error(call("scalar")), "scalar() requires one argument");
    assert_eq!(error(call("clamp_max")), "clamp_max() requires two arguments");
}

#[test]
fn range_expressions_evaluate_leaf_by_leaf() {
    let expr = parse("sum by (cpu) (rate(m[5m])) / 2").unwrap();
    let win = RangeWindow { scan_start: 0, start: SEC, end: 2 * SEC };
    let needs = plan_range(&tables(&["metrics"]), &expr, win, "metrics");
    assert!(needs.error.is_none(), "{:?}", needs.error);
    assert_eq!(needs.leaves.len(), 1);
    let data = set_of(vec![
        series(&[("cpu", "0"), ("h", "a")], &[(1, 1.0), (2, 2.0)]),
        series(&[("cpu", "0"), ("h", "b")], &[(1, 3.0), (2, 4.0)]),
    ]);
    match eval_range_window(&expr, win, SEC, vec![LeafVal::Range(data)]).unwrap() {
        RangeVal::Vector(m) => {
            assert_eq!(lines(m), vec![(vec![pair("cpu", "0")], pts(&[(1, 2.0), (2, 3.0)]))])
        }
        other => panic!("{other:?}"),
    }
}

#[test]
fn range_plans_read_the_window_of_the_range_function() {
    let expr = parse("rate(m[5m])").unwrap();
    let plan = lower_range_df(&expr, 10, 20, "metrics").unwrap();
    assert_eq!(plan.scans.len(), 1);
    assert_eq!(plan.scans[0].table, "metrics");
    assert!(matches!(plan.scans[0].time, TimeTest::Between(10, 20)));
    assert_eq!(plan.scans[0].value, ValueExpr::Plain);
    assert!(plan.steps.iter().any(|s| matches!(s, Step::Rate { range_ns: M5, per_second: true })));
    assert_eq!(plan.shape, Shape::Series);
    assert!(lower_range_df(&parse("stddev_over_time(m[5m])").unwrap(), 10, 20, "metrics").is_err());
}

#[test]
fn instant_selectors_read_the_latest_sample() {
    let plan =
        lower_instant_df(&tables(&["metrics"]), &parse("up{job=\"a\"}").unwrap(), 9, 9).unwrap();
    assert_eq!(plan.scans[0].name.exact, "up");
    assert_eq!(plan.scans[0].tests.len(), 1);
    assert!(matches!(plan.scans[0].time, TimeTest::AtMost(9)));
}

#[test]
fn histogram_suffixes_choose_the_value() {
    assert_eq!(metric_value_expr("x_count"), ValueExpr::Count);
    assert_eq!(metric_value_expr("x_sum"), ValueExpr::Sum);
    assert_eq!(metric_value_expr("x"), ValueExpr::Plain);
    assert_eq!(name_pred_expr("x_count").histogram.as_deref(), Some("x"));
    assert_eq!(name_pred_expr("x_sum").histogram.as_deref(), Some("x"));
    assert!(name_pred_expr("x_bucket").histogram.is_none());
    assert!(name_pred_expr("x").histogram.is_none());
}

#[test]
fn quantile_and_heatmap_queries_are_recognised() {
    let q = parse("topk(3, histogram_quantile(0.9, sum by (le, host) (rate(m_bucket{a=\"b\", le=\"5\"}[5m]))))")
        .unwrap();
    let h = detect_hist_quantile(&q).expect("quantile");
    assert_eq!(h.base, "m");
    assert_eq!(h.group_by, vec!["host".to_string()]);
    assert_eq!(h.topk, Some((3, true)));
    assert_eq!(h.tests.len(), 1, "le is no label of the stored histogram");
    assert_eq!(f64::from_bits(h.phi), 0.9);
    let b = detect_bucket_heatmap(&parse("sum by (le) (rate(m_bucket[5m]))").unwrap()).expect("heatmap");
    assert_eq!(b.base, "m");
    assert!(detect_bucket_heatmap(&parse("sum(rate(m[5m]))").unwrap()).is_none());
    assert!(is_lag_range_op(&parse("sum(rate(m[5m]))").unwrap()));
    assert_eq!(matrix_range_ns(&parse("rate(m[5m])").unwrap()), Some(M5));
    assert_eq!(range_to_ns(u128::MAX), i64::MAX);
}

#[test]
fn rank_counts_are_whole_numbers() {
    let count = |q: &str| as_count(&parse(q).unwrap());
    assert_eq!(count("3"), Ok(3));
    assert_eq!(count("2.5"), Err(CountError::NotAnInteger));
    assert_eq!(count("m"), Err(CountError::NotAScalar));
    let e = parse("bottomk(2, m)").unwrap();
    let (n, top, _) = topk_parts(&e).unwrap();
    assert_eq!((n, top), (2, false));
}

fn hist_row(t: i64, counts: &str, bounds: &str, label: &str) -> HistRow {
    HistRow {
        time: Some(t * SEC),
        counts: Some(counts.to_string()),
        bounds: Some(bounds.to_string()),
        labels: vec![Some(label.to_string())],
    }
}

#[test]
fn bucket_arrays_are_read_as_doubles() {
    assert_eq!(parse_f64_array::<Double>(&Some("[1, 2.5]".to_string())), ds(&[1.0, 2.5]));
    assert_eq!(parse_f64_array::<Double>(&Some("nonsense".to_string())), ds(&[]));
    assert_eq!(parse_f64_array::<Double>(&None), ds(&[]));
}

#[test]
fn quantiles_of_rows_sum_their_buckets() {
    let h = detect_hist_quantile(
        &parse("histogram_quantile(0.5, sum by (le, host) (rate(m_bucket[5m])))").unwrap(),
    )
    .unwrap();
    let rows = vec![
        hist_row(1, "[0, 20, 30]", "[10, 20]", "h"),
        hist_row(1, "[0, 20, 30]", "[10, 20]", "h"),
    ];
    let out: Vec<Series<Double>> = handle_hist_quantile_range(&h, &rows);
    assert_eq!(out.len(), 1);
    assert_eq!(out[0].labels.get("host").unwrap(), "h");
    let direct = histogram_quantile(d(0.5), &ds(&[0.0, 40.0, 60.0]), &ds(&[10.0, 20.0])).unwrap();
    assert_eq!(out[0].points, vec![(SEC, direct)]);
}

#[test]
fn heatmaps_give_the_rate_of_each_bucket() {
    let b = detect_bucket_heatmap(&parse("sum by (le) (rate(m_bucket[5m]))").unwrap()).unwrap();
    let row = |t: i64, counts: &str| HistRow {
        time: Some(t * SEC),
        counts: Some(counts.to_string()),
        bounds: Some("[10, 20]".to_string()),
        labels: vec![],
    };
    let out: Vec<Series<Double>> =
        handle_bucket_heatmap(&b, &vec![row(0, "[0, 0, 0]"), row(10, "[10, 10, 30]")]);
    let of = |le: &str| {
        out.iter().find(|s| s.labels.get("le").unwrap() == le).unwrap().points.last().unwrap().1
    };
    assert_eq!(of("10"), d(1.0));
    assert_eq!(of("20"), d(2.0));
    assert_eq!(of("+Inf"), d(5.0));
}

#[test]
fn latest_histograms_give_one_quantile_per_service() {
    let rows = vec![
        LatestHist {
            service: Some("client".to_string()),
            counts: Some("[0,20,30,30,15,5]".to_string()),
            bounds: Some("[10,20,30,40,50]".to_string()),
        },
        LatestHist { service: Some("idle".to_string()), counts: Some("[0]".to_string()), bounds: None },
    ];
    let out: Vec<Sample<Double>> = handle_histogram(0.5f64.to_bits(), "m", &rows);
    assert_eq!(out.len(), 1);
    assert_eq!(out[0].1, d(30.0));
    assert_eq!(out[0].0.get("service_name").unwrap(), "client");
}

#[test]
fn histogram_scans_follow_the_windows() {
    let scans = hist_source(&with_5m(), "m", &Vec::new(), 0, 2 * DAY_NS, M5, 2 * DAY_NS);
    let read: Vec<&str> = scans.iter().map(|s| s.table.as_str()).collect();
    assert_eq!(read, vec!["metrics_5m", "metrics"]);
    let e = parse("histogram_quantile(0.9, m)").unwrap();
    let (_, vs) = histogram_quantile_parts(&e).unwrap();
    let scan = hist_instant_scan(&with_5m(), vs, 7, 7).unwrap();
    assert_eq!(scan.table, "metrics");
    assert!(matches!(scan.time, TimeTest::AtMost(7)));
}

#[test]
fn the_grid_is_bounded() {
    assert!(has_grid(0, MAX_GRID_POINTS * SEC - SEC, SEC));
    assert!(!has_grid(0, 10 * MAX_GRID_POINTS * SEC, SEC));
    assert!(!has_grid(0, 10, 0));
    assert_eq!(staleness_for(SEC), STALENESS_NS);
    assert_eq!(staleness_for(10 * STALENESS_NS), 10 * STALENESS_NS);
    let p = pts(&[(1, 1.0), (2, 2.0), (3, 3.0)]);
    assert_eq!(points_within(&p, 2 * SEC, 3 * SEC), pts(&[(2, 2.0), (3, 3.0)]));
    let unordered = pts(&[(3, 3.0), (1, 1.0), (3, 9.0)]);
    assert_eq!(timeline(&unordered).iter().map(|p| p.0 / SEC).collect::<Vec<_>>(), vec![1, 3]);
}

#[test]
fn the_best_series_are_kept() {
    assert_eq!(select_top(&vec![5, 9, 7], 2, true), vec![1, 2]);
    assert_eq!(select_top(&vec![5, 9, 7], 1, false), vec![0]);
    let all = vec![
        series(&[("a", "low")], &[(1, 1.0), (2, 2.0)]),
        series(&[("a", "high")], &[(1, 9.0), (2, 1.0)]),
    ];
    let best = keep_top(all, 1, true, Score::Peak);
    assert_eq!(best.len(), 1);
    assert_eq!(best[0].labels.get("a").unwrap(), "high");
    assert_eq!(best[0].points, pts(&[(1, 9.0), (2, 1.0)]));
}

#[test]
fn range_queries_split_merge_and_finish() {
    let task = match handle_range(&with_5m(), "rate(m[5m])", 0, 2 * DAY_NS, M5, 2 * DAY_NS).unwrap() {
        RangeQuery::Windows(t) => t,
        other => panic!("{other:?}"),
    };
    assert_eq!(task.lookback_ns, M5);
    assert_eq!(task.windows.len(), 2);
    let shard = Shard { query_start_ns: -M5, start_ns: 0, end_ns: DAY_NS };
    let scans = scan_windows(&task.windows, &vec![vec![shard], vec![]], task.lookback_ns);
    assert_eq!(scans.len(), 2);
    assert_eq!(scans[0].0, "metrics_5m");
    assert_eq!(scans[0].1, RangeWindow { scan_start: -M5, start: 0, end: DAY_NS });
    assert_eq!(
        scans[1].1,
        RangeWindow { scan_start: DAY_NS + 1 - M5, start: DAY_NS + 1, end: 2 * DAY_NS }
    );

    let first = RangeVal::Vector(set_of(vec![series(&[("a", "x")], &[(1, 1.0), (2, 2.0)])]));
    let second = RangeVal::Vector(set_of(vec![series(&[("a", "x")], &[(2, 7.0), (3, 3.0)])]));
    let m: RangeSeries<Double> = TextMap::new();
    let m = merge_shard(m, first, RangeWindow { scan_start: 0, start: SEC, end: 2 * SEC });
    let m = merge_shard(m, second, RangeWindow { scan_start: 0, start: 2 * SEC, end: 3 * SEC });
    let out = finish_range(&m, None, SEC, 3 * SEC, SEC);
    assert_eq!(out.len(), 1);
    assert_eq!(out[0].points.iter().map(|p| p.0 / SEC).collect::<Vec<_>>(), vec![1, 2, 3]);
    assert!(handle_range(&with_5m(), "rate(", 0, 1, 1, 1).is_err());
}

#[test]
fn rows_become_series_and_vectors() {
    let row = |t: Option<i64>, v: Option<f64>| SampleRow {
        labels: labels(&[("a", "x")]),
        time: t,
        value: v.map(Double),
    };
    let rows = vec![row(Some(SEC), Some(1.0)), row(None, Some(2.0)), row(Some(2 * SEC), None), row(Some(3 * SEC), Some(3.0))];
    let m = group_range_series(&rows);
    assert_eq!(lines(m), vec![(vec![pair("a", "x")], pts(&[(1, 1.0), (3, 3.0)]))]);
    assert_eq!(instant_vector(&rows).len(), 3);
    assert!(matches!(column_role("attributes"), ColumnRole::Attributes));
}

#[test]
fn instant_answers_are_stamped() {
    let q = handle_instant(&tables(&["metrics"]), "up", i64::MAX, 5 * SEC).unwrap();
    assert_eq!(q.needs.leaves.len(), 1);
    assert!(handle_instant(&tables(&["metrics"]), "up{", 0, 0).is_err());
    let samples = instant_samples(&InstantVal::Scalar(d(2.0)), i64::MAX, 5 * SEC);
    assert_eq!(samples.len(), 1);
    assert_eq!((samples[0].1, samples[0].2), (5 * SEC, d(2.0)));
    assert_eq!(samples[0].0.copy().into_pairs(), vec![]);
    assert_eq!(ts_number(1_500_000_000), None);
    assert_eq!(ts_number(-2 * SEC), Some(-2));
}

#[test]
fn label_texts_order_the_series() {
    let l = labels(&[("b", "x\"y"), ("a", "1")]);
    assert_eq!(l.text(), r#"{"a": "1", "b": "x\"y"}"#);
    assert_eq!(Labels::new().text(), "{}");
}

#[test]
fn refused_query_texts_are_errors() {
    for q in [
        "",
        "sum(",
        "m[99999999999999999999]",
        "m[1e300]",
        "m offset 1e300",
        "m offset inf",
        "m[99999999999999999999y]x",
        "a / on (x, y) group_left (x, y) b",
        "{a=~\"(\"}",
    ] {
        assert!(parse(q).is_err(), "{q} is refused");
        assert!(handle_range(&tables(&["metrics"]), q, 0, 10, 1, 10).is_err());
    }
}

#[test]
fn a_shard_emits_its_own_span_alone() {
    let first = RangeVal::Vector(set_of(vec![series(&[("a", "x")], &[(1, 1.0), (2, 2.0)])]));
    let second = RangeVal::Vector(set_of(vec![series(&[("a", "x")], &[(2, 9.0), (3, 3.0)])]));
    let m: RangeSeries<Double> = TextMap::new();
    let m = merge_shard(m, first, RangeWindow { scan_start: 0, start: SEC, end: 3 * SEC - 1 });
    let m = merge_shard(m, second, RangeWindow { scan_start: 0, start: 3 * SEC, end: 4 * SEC });
    let out = finish_range(&m, None, SEC, 4 * SEC, 0);
    let got: Vec<(i64, f64)> = out[0].points.iter().map(|p| (p.0 / SEC, (p.1).0)).collect();
    assert_eq!(got, vec![(1, 1.0), (2, 2.0), (3, 3.0)]);
}

#[test]
fn evaluation_says_what_it_fails_with() {
    let missing = "evaluation is missing data";
    let refusal = "set operators (and/or/unless) not supported (v1)";
    let instant = |q: &str, n: usize| {
        let leaves: Vec<LeafVal<Double>> = (0..n).map(|_| LeafVal::Instant(Vec::new())).collect();
        match eval_instant(&parse(q).unwrap(), leaves) {
            Ok(_) => None,
            Err(m) => Some(m),
        }
    };
    assert_eq!(instant("a + b", 2), None);
    assert_eq!(instant("a + b", 1).as_deref(), Some(missing));
    assert_eq!(instant("a and b", 2).as_deref(), Some(refusal));
    assert_eq!(instant("a and b", 1).as_deref(), Some(missing));
    assert_eq!(instant("(a and b) + c", 2).as_deref(), Some(refusal));
    let win = RangeWindow { scan_start: 0, start: 0, end: SEC };
    let leaves: Vec<LeafVal<Double>> = vec![LeafVal::Instant(Vec::new())];
    match eval_range_window(&parse("rate(m[5m])").unwrap(), win, SEC, leaves) {
        Ok(_) => panic!("an instant leaf is no range"),
        Err(m) => assert_eq!(m, missing),
    }
}

#[test]
fn windows_run_over_one_series() {
    let plan = lower_range_df(&parse("rate(m[5m])").unwrap(), 10, 20, "metrics").unwrap();
    let parts: Vec<_> = plan.steps.iter().map(step_partition).collect();
    assert!(parts.contains(&Some(Partition::NameServiceSeries)));
    assert_eq!(step_partition(&Step::Irate), Some(Partition::NameServiceSeries));
    assert_eq!(step_partition(&Step::SortByTime), None);
    assert_eq!(step_partition(&Step::Latest(Partition::GroupKey)), Some(Partition::GroupKey));
    assert_eq!(hist_partition(), Partition::NameServiceSeries);
}

#[test]
fn different_label_sets_have_different_keys() {
    assert_eq!(labels(&[]).text(), "{}");
    assert_eq!(labels(&[("b", "y"), ("a", "x")]).text(), r#"{"a": "x", "b": "y"}"#);
    assert_eq!(labels(&[("a", r#"q"\"#)]).text(), r#"{"a": "q\"\\"}"#);
    let one = labels(&[("a", r#"x", "b": "y"#)]);
    let two = labels(&[("a", "x"), ("b", "y")]);
    assert_ne!(one.key(), two.key());
    let map = std::collections::BTreeMap::from([("a", "\n\t\0\u{7f}'é"), ("b", "\"\\")]);
    let written = labels(&[("a", "\n\t\0\u{7f}'é"), ("b", "\"\\")]);
    assert_eq!(written.text(), format!("{map:?}"));
    assert_eq!(labels(&[("a", "x\0\"")]).key(), "{\"a\": \"x\\0\\\"\"}\0a\"x\\0\\\"\"");
    let row = |l: Labels, t: i64| SampleRow { labels: l, time: Some(t), value: Some(d(1.0)) };
    let rows = vec![row(one, 1), row(two.copy(), 2), row(two, 3)];
    let got = lines(group_range_series(&rows));
    assert_eq!(got.iter().map(|s| s.1.len()).collect::<Vec<_>>(), vec![2, 1]);
}

#[test]
fn negation_negates_every_point() {
    let win = RangeWindow { scan_start: 0, start: 0, end: 9 * SEC };
    let data = || vec![LeafVal::Range(set_of(vec![series(&[("a", "x")], &[(1, 1.5), (2, -2.0)])]))];
    let value = |q: &str| match eval_range_window(&parse(q).unwrap(), win, 0, data()).unwrap() {
        RangeVal::Vector(m) => lines(m),
        RangeVal::Scalar(x) => panic!("{x:?}"),
    };
    assert_eq!(value("m"), vec![(vec![pair("a", "x")], pts(&[(1, 1.5), (2, -2.0)]))]);
    assert_eq!(value("-m"), vec![(vec![pair("a", "x")], pts(&[(1, -1.5), (2, 2.0)]))]);
}

#[test]
fn quantiles_grow_with_phi() {
    let counts = ds(&[0.0, 4.0, 0.0, 2.0, 1.0]);
    let bounds = ds(&[1.0, 2.0, 4.0, 8.0]);
    let q = |phi: f64| histogram_quantile(d(phi), &counts, &bounds).unwrap().0;
    let phis = [-1.0, 0.0, 0.1, 0.5, 0.6, 0.8, 0.9, 1.0, 3.0];
    for w in phis.windows(2) {
        assert!(q(w[0]) <= q(w[1]), "{w:?}");
    }
    assert_eq!(q(-1.0), q(0.0));
    assert_eq!(q(3.0), q(1.0));
    assert_eq!((q(0.0), q(1.0)), (1.0, 8.0));
}

#[test]
fn refusals_carry_the_message_of_the_parser() {
    let t = tables(&["metrics"]);
    for q in ["sum(", "m[1e300]", "rate(m)", "", "{}", "foo{a=~\"(\"}"] {
        let message = promql_parser::parser::parse(q).unwrap_err();
        assert_eq!(parse(q).unwrap_err(), message);
        assert_eq!(handle_range(&t, q, 0, 10, 1, 10).unwrap_err(), message);
        assert_eq!(handle_instant(&t, q, 0, 10).unwrap_err(), message);
    }
}
