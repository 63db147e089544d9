use querier::metadata::{
    apply_match_selector, build_label_values, build_series, handle_label_values, handle_labels,
    handle_series, sql_ident, tests_of_expr, ValueColumn, ValueStep, MAX_ATTRIBUTE_ROWS,
};
use querier::promql::parse;
use querier::text::trim;

const DAY_NS: i64 = 86_400_000_000_000;

fn tables() -> Vec<String> {
    vec!["metrics".to_string(), "metrics_5m".to_string()]
}

#[test]
fn identifiers_hold_letters_and_digits() {
    assert_eq!(sql_ident("http.route-1"), "http_route_1");
    assert_eq!(sql_ident("été"), "été");
    assert_eq!(sql_ident("a_b c"), "a_b_c");
    assert_eq!(trim("  up \n"), "up");
    assert_eq!(trim(" \t "), "");
}

#[test]
fn match_selectors_narrow_or_are_refused() {
    let t = apply_match_selector(&Some(" up{service_name=\"a\"} ".to_string())).unwrap();
    assert_eq!(t.name.unwrap().exact, "up");
    assert_eq!(t.tests.len(), 1);
    assert!(apply_match_selector(&None).unwrap().name.is_none());
    assert!(apply_match_selector(&Some("   ".to_string())).unwrap().tests.is_empty());
    assert_eq!(
        apply_match_selector(&Some("rate(m[5m])".to_string())).unwrap_err(),
        "match[] must be a metric selector"
    );
    assert!(apply_match_selector(&Some("up{".to_string())).is_err());
    assert!(tests_of_expr(&parse("1").unwrap()).is_err());
}

#[test]
fn series_without_a_range_scan_raw_samples() {
    let s = build_series(&tables(), &None, None, 100 * DAY_NS).unwrap();
    assert_eq!(s.len(), 1);
    assert_eq!(s[0].table, "metrics");
    assert!(s[0].window.is_none());
    let s = build_series(&tables(), &None, Some((0, 99 * DAY_NS)), 100 * DAY_NS).unwrap();
    assert_eq!(s.len(), 1);
    assert_eq!(s[0].table, "metrics_5m");
    let w = s[0].window.unwrap();
    assert_eq!((w.lo_ns, w.hi_ns), (0, 99 * DAY_NS));
}

#[test]
fn metric_names_come_with_their_histogram_series() {
    let plan = build_label_values(&tables(), "__name__", 0, DAY_NS, &None, 100 * DAY_NS).unwrap();
    let steps = vec![ValueStep::NotNull, ValueStep::Distinct, ValueStep::SortAscending];
    assert_eq!(plan.steps, steps);
    let columns: Vec<String> = plan.scans.iter().map(|(_, c)| format!("{c:?}")).collect();
    assert_eq!(
        columns,
        vec![
            "Name",
            "BucketName(\"_bucket\")",
            "BucketName(\"_count\")",
            "BucketName(\"_sum\")",
        ]
    );
    let plan = build_label_values(&tables(), "host", 0, DAY_NS, &None, 100 * DAY_NS).unwrap();
    assert_eq!(plan.steps, steps);
    assert_eq!(plan.scans.len(), 1);
    assert!(matches!(&plan.scans[0].1, ValueColumn::Label(l) if l == "host"));
}

#[test]
fn label_names_are_sorted_and_distinct() {
    let keys: Vec<String> =
        ["http.route", "b", "http_route", "b"].iter().map(|s| s.to_string()).collect();
    assert_eq!(
        handle_labels(&keys),
        vec![
            "__name__".to_string(),
            "b".to_string(),
            "http_route".to_string(),
            "service_name".to_string(),
        ]
    );
}

#[test]
fn rows_become_label_sets_and_values() {
    let rows = vec![
        (Some("up".to_string()), Some("svc".to_string())),
        (Some("up".to_string()), None),
    ];
    let sets = handle_series(&rows);
    assert_eq!(sets[0].text(), r#"{"__name__": "up", "service_name": "svc"}"#);
    assert_eq!(sets[1].text(), r#"{"__name__": "up"}"#);
    let values = vec![Some("a".to_string()), None, Some("b".to_string())];
    assert_eq!(handle_label_values(&values), vec!["a".to_string(), "b".to_string()]);
}

#[test]
fn label_values_and_series_come_once() {
    let text = |s: &str| Some(s.to_string());
    let values = vec![text("b"), None, text("a"), text("b"), text("é"), text("Z")];
    assert_eq!(handle_label_values(&values), vec!["Z", "a", "b", "é"]);
    let rows = vec![
        (text("up"), text("x")),
        (text("down"), None),
        (text("up"), text("x")),
        (text("up"), text("y")),
    ];
    let sets = handle_series(&rows);
    assert_eq!(sets.len(), 3);
    assert_eq!(sets[1].text(), r#"{"__name__": "down"}"#);
    assert_eq!(sets[2].get("service_name").unwrap(), "y");
    assert_eq!(MAX_ATTRIBUTE_ROWS, 10_000);
}

#[test]
fn refused_selectors_carry_the_message_of_the_parser() {
    let message = promql_parser::parser::parse("up{").unwrap_err();
    let text = Some("  up{ ".to_string());
    assert_eq!(apply_match_selector(&text).unwrap_err(), message);
    assert_eq!(build_series(&tables(), &text, None, 0).unwrap_err(), message);
    assert_eq!(build_label_values(&tables(), "a", 0, 1, &text, 2).unwrap_err(), message);
}
