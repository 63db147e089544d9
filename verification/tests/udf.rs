use querier::udf::{
    attribute_keys, eval_prom_attr, lookup_json, lookup_map, lookup_members,
    map_row_normalized_labels, normalize, prom_attr_udf, row_labels, Attributes, JsonValue, MapRow,
};

fn map_row(entries: &[(&str, &str)]) -> MapRow {
    Some(
        entries
            .iter()
            .map(|(k, v)| (Some(k.to_string()), Some(v.to_string())))
            .collect(),
    )
}

#[test]
fn test_normalize_otlp_to_prometheus() {
    assert_eq!(normalize("http.route"), "http_route");
    assert_eq!(normalize("deployment.environment"), "deployment_environment");
    assert_eq!(normalize("already_ok"), "already_ok");
    assert_eq!(normalize("url.scheme"), "url_scheme");
}

#[test]
fn test_lookup_reads_map_columnar() {
    let m = map_row(&[("http.route", "/x"), ("deployment.environment", "dev"), ("n", "5")]);
    assert_eq!(lookup_map(&m, "http_route").as_deref(), Some("/x"));
    assert_eq!(lookup_map(&m, "deployment_environment").as_deref(), Some("dev"));
    assert_eq!(lookup_map(&m, "n").as_deref(), Some("5"));
    assert_eq!(lookup_map(&m, "absent"), None);
    assert_eq!(lookup_map(&None, "x"), None);
}

#[test]
fn test_prom_attr_reads_map_column() {
    let map = Attributes::Maps(vec![map_row(&[("http.route", "/x"), ("code", "200")]), None]);
    let names = vec![Some("http_route".to_string()), Some("code".to_string())];
    let out = eval_prom_attr(&map, &names);
    assert_eq!(out[0].as_deref(), Some("/x"));
    assert!(out[1].is_none());
    assert_eq!(prom_attr_udf(), "prom_attr");
}

#[test]
fn test_materialization_reads_map_no_json() {
    let rows = [
        [("http.route", "/a"), ("code", "200")],
        [("http.route", "/b"), ("code", "500")],
        [("http.route", "/a"), ("code", "200")],
    ];
    let promoted = vec![("service_name".to_string(), Some("client".to_string()))];
    let labels: Vec<_> = rows.iter().map(|r| row_labels(&promoted, &map_row(r))).collect();
    for m in &labels {
        assert_eq!(m.get("service_name").unwrap(), "client");
        assert!(m.contains_key("http_route") && m.contains_key("code"));
    }
    assert_eq!(labels[0].get("http_route").unwrap(), "/a");
    assert_eq!(labels[1].get("http_route").unwrap(), "/b");
}

#[test]
fn names_are_normalized_once() {
    for key in ["a.b-c", "été", "x/y", "_", "9a"] {
        let once = normalize(key);
        assert_eq!(normalize(&once), once);
    }
}

#[test]
fn promoted_columns_win_over_attributes() {
    let promoted = vec![("service_name".to_string(), Some("client".to_string()))];
    let m = row_labels(&promoted, &map_row(&[("service.name", "other")]));
    assert_eq!(m.get("service_name").unwrap(), "client");
    let m = map_row_normalized_labels(&map_row(&[("service.name", "other")]));
    assert_eq!(m.get("service_name").unwrap(), "other");
}

#[test]
fn json_attributes_are_looked_up_by_prometheus_name() {
    let json = r#"{"http.route": "/x", "n": 5, "gone": null}"#;
    assert_eq!(lookup_json(json, "http_route").as_deref(), Some("/x"));
    assert_eq!(lookup_json(json, "n").as_deref(), Some("5"));
    assert_eq!(lookup_json(json, "gone"), None);
    assert_eq!(lookup_json(json, "absent"), None);
    assert_eq!(lookup_json("not json", "x"), None);
    let members = vec![("a.b".to_string(), JsonValue::Text("v".to_string()))];
    assert_eq!(lookup_members(&members, "a_b").as_deref(), Some("v"));
    let column = Attributes::Json(vec![Some(json.to_string()), None]);
    let names = vec![Some("n".to_string()), Some("n".to_string())];
    assert_eq!(eval_prom_attr(&column, &names), vec![Some("5".to_string()), None]);
}

#[test]
fn attribute_keys_of_both_kinds_of_column() {
    let maps = Attributes::Maps(vec![map_row(&[("a.b", "1")]), None, map_row(&[("c", "2")])]);
    assert_eq!(attribute_keys(&maps), vec!["a.b".to_string(), "c".to_string()]);
    let json = Attributes::Json(vec![Some(r#"{"k": 1}"#.to_string()), None]);
    assert_eq!(attribute_keys(&json), vec!["k".to_string()]);
}
