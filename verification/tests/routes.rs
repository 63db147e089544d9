use querier::routes::{
    loki_query_range, loki_step_ns, make_routes, parse_i64, parse_ns, parse_step_ns, parse_time_ns,
    query_or_all, rec, request_window, series_window, step_digits, tempo_limit, wants_protobuf,
    Endpoint, Method, Routed, TimeParam,
};

fn get(path: &str) -> Option<(Endpoint, Option<String>)> {
    match make_routes(Method::Get, path) {
        Routed::Found(e, p) => Some((e, p)),
        _ => None,
    }
}

#[test]
fn test_ready_probe() {
    assert_eq!(get("/ready"), Some((Endpoint::Ready, None)));
}

#[test]
fn every_path_finds_its_endpoint() {
    let known = [
        ("/loki/api/v1/query_range", Endpoint::LokiQueryRange),
        ("/loki/api/v1/labels", Endpoint::LokiLabels),
        ("/loki/api/v1/series", Endpoint::LokiSeries),
        ("/loki/api/v1/index/stats", Endpoint::LokiIndexStats),
        ("/loki/api/v1/index/volume", Endpoint::LokiIndexVolume),
        ("/loki/api/v1/index/volume_range", Endpoint::LokiIndexVolumeRange),
        ("/prometheus/api/v1/query", Endpoint::PromQuery),
        ("/prometheus/api/v1/query_range", Endpoint::PromQueryRange),
        ("/prometheus/api/v1/labels", Endpoint::PromLabels),
        ("/prometheus/api/v1/rules", Endpoint::PromRules),
        ("/prometheus/api/v1/metadata", Endpoint::PromMetadata),
        ("/prometheus/api/v1/series", Endpoint::PromSeries),
        ("/tempo/api/search", Endpoint::TempoSearch),
        ("/tempo/api/search/tags", Endpoint::TempoTagsV1),
        ("/tempo/api/v2/search/tags", Endpoint::TempoTagsV2),
        ("/tempo/api/echo", Endpoint::TempoEcho),
    ];
    for (path, e) in known {
        assert_eq!(get(path), Some((e, None)), "{path}");
        assert_eq!(get(&format!("{path}/")), Some((e, None)), "{path}");
        assert!(get(&format!("{path}//")).is_none(), "{path}");
    }
    let open = [
        ("/loki/api/v1/label/job/values", Endpoint::LokiLabelValues, "job"),
        ("/prometheus/api/v1/label/__name__/values", Endpoint::PromLabelValues, "__name__"),
        ("/tempo/api/traces/abc", Endpoint::TempoTraceV1, "abc"),
        ("/tempo/api/v2/traces/abc", Endpoint::TempoTraceV2, "abc"),
        ("/tempo/api/search/tag/x/values", Endpoint::TempoTagValuesV1, "x"),
        ("/tempo/api/v2/search/tag/x/values", Endpoint::TempoTagValuesV2, "x"),
    ];
    for (path, e, segment) in open {
        assert_eq!(get(path), Some((e, Some(segment.to_string()))), "{path}");
    }
    assert!(get("/loki/api/v1/label//values").is_none());
}

#[test]
fn methods_are_held_to_the_endpoint() {
    assert!(matches!(make_routes(Method::Post, "/ready"), Routed::NotAllowed));
    assert!(matches!(make_routes(Method::Get, "/api/v1/sql"), Routed::NotAllowed));
    assert!(matches!(make_routes(Method::Other, "/ready"), Routed::NotAllowed));
    assert!(matches!(make_routes(Method::Get, "/nowhere"), Routed::NotFound));
    assert!(matches!(make_routes(Method::Get, "/"), Routed::NotFound));
    for path in [
        "/api/v1/sql",
        "/prometheus/api/v1/query",
        "/prometheus/api/v1/query_range",
        "/prometheus/api/v1/labels",
        "/prometheus/api/v1/series",
        "/loki/api/v1/series",
    ] {
        assert!(matches!(make_routes(Method::Post, path), Routed::Found(_, None)), "{path}");
    }
}

#[test]
fn served_requests_are_counted_by_api() {
    assert_eq!(rec(Endpoint::LokiQueryRange), Some(("loki", "logs")));
    assert_eq!(rec(Endpoint::PromQuery), Some(("prometheus", "metrics")));
    assert_eq!(rec(Endpoint::TempoSearch), Some(("tempo", "traces")));
    assert_eq!(rec(Endpoint::Sql), Some(("sql", "sql")));
    assert_eq!(rec(Endpoint::PromLabels), None);
}

#[test]
fn numbers_are_read_as_the_standard_library_reads_them() {
    for s in [
        "0", "-0", "+5", "12", "-12", "007", "", "-", "+", "1a", " 1", "1 ", "--1",
        "9223372036854775807", "9223372036854775808", "-9223372036854775808",
        "-9223372036854775809", "000000000000000000000000000000000000000000001",
        "99999999999999999999999999999999999999999999999999",
    ] {
        assert_eq!(parse_i64(s), s.parse::<i64>().ok(), "{s:?}");
    }
    assert_eq!(parse_ns(&None, 7), 7);
    assert_eq!(parse_ns(&Some("x".to_string()), 7), 7);
    assert_eq!(parse_ns(&Some("9".to_string()), 7), 9);
}

#[test]
fn loki_steps_fall_back_to_the_range() {
    let second = 1_000_000_000;
    assert_eq!(loki_step_ns(Some(5 * second), 0, 0), 5 * second);
    assert_eq!(loki_step_ns(Some(1), 0, 0), second);
    assert_eq!(loki_step_ns(Some(0), 0, 1000 * second), 10 * second);
    assert_eq!(loki_step_ns(None, 0, 50 * second), second);
    assert_eq!(loki_step_ns(None, 10, 0), second);
    assert_eq!(loki_step_ns(None, i64::MIN, i64::MAX), i64::MAX / 100);
    assert_eq!(step_digits("1.5m"), "1.5");
    assert_eq!(step_digits("m"), "");
}

#[test]
fn absent_parameters_have_their_defaults() {
    let absent = TimeParam { given: false, ns: None };
    let bad = TimeParam { given: true, ns: None };
    let at = |ns: i64| TimeParam { given: true, ns: Some(ns) };
    assert_eq!(request_window(&absent, &absent), (0, i64::MAX));
    assert_eq!(request_window(&bad, &at(9)), (i64::MAX, 9));
    assert_eq!(series_window(&absent, &at(9)), None);
    assert_eq!(series_window(&at(3), &absent), Some((3, i64::MAX)));
    assert_eq!(parse_time_ns(None), i64::MAX);
    assert_eq!(parse_step_ns(None), 0);
    assert_eq!(parse_step_ns(Some(4)), 4);
    assert_eq!(tempo_limit(None), 20);
    assert_eq!(query_or_all(&None), "{}");
    let r = loki_query_range(&None, &None, None, &None);
    assert_eq!((r.start, r.end, r.limit, r.forward), (0, i64::MAX, 100, false));
    let r = loki_query_range(
        &Some("1".to_string()),
        &Some("2".to_string()),
        Some(3),
        &Some("forward".to_string()),
    );
    assert_eq!((r.start, r.end, r.limit, r.forward), (1, 2, 3, true));
}

#[test]
fn protobuf_is_served_when_asked_for() {
    assert!(wants_protobuf(&Some("text/html, application/protobuf".to_string())));
    assert!(wants_protobuf(&Some("application/x-protobuf".to_string())));
    assert!(!wants_protobuf(&Some("application/json".to_string())));
    assert!(!wants_protobuf(&None));
}
