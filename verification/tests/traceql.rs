use querier::traceql::ast::{AttrScope, Field, FieldExpr, FieldOp, SpansetExpr, SpansetOp};
use querier::traceql::parse;

fn filter(input: &str) -> FieldExpr {
    match parse(input).unwrap() {
        SpansetExpr::Filter(Some(fe)) => fe,
        other => panic!("expected a single filter, got {other:?}"),
    }
}

#[test]
fn test_parse_bare_dotted_attr_is_unscoped() {
    let fe = filter(r#"{ service.name = "client" }"#);
    let FieldExpr::Cmp { lhs, rhs, .. } = fe else { panic!("expected a comparison") };
    assert_eq!(
        *lhs,
        Field::Attr { scope: AttrScope::Unscoped, path: "service.name".into() }
    );
    assert_eq!(*rhs, Field::Str("client".into()));
    let fe = filter(r#"{ name = "x" }"#);
    let FieldExpr::Cmp { lhs, .. } = fe else { panic!("expected a comparison") };
    assert_eq!(*lhs, Field::Intrinsic("name".into()));
}

#[test]
fn test_parse_parity_cases() {
    let fe = filter(r#"{ name="GET" && span.http.status_code != "500" }"#);
    let FieldExpr::And(l, r) = fe else { panic!("expected &&: {fe:?}") };
    assert_eq!(
        *l,
        FieldExpr::Cmp {
            lhs: Box::new(Field::Intrinsic("name".into())),
            op: FieldOp::Eq,
            rhs: Box::new(Field::Str("GET".into())),
        }
    );
    let FieldExpr::Cmp { lhs, op, rhs } = *r else { panic!("rhs cmp") };
    assert_eq!(
        *lhs,
        Field::Attr { scope: AttrScope::Span, path: "http.status_code".into() }
    );
    assert_eq!(op, FieldOp::Neq);
    assert_eq!(*rhs, Field::Str("500".into()));
}

#[test]
fn test_parse_empty_set() {
    assert_eq!(parse("{}").unwrap(), SpansetExpr::Filter(None));
}

#[test]
fn test_parse_comparisons_and_literals() {
    let fe = filter(r#"{ duration > 1.5s }"#);
    let FieldExpr::Cmp { lhs, op, rhs } = fe else { panic!() };
    assert_eq!(*lhs, Field::Intrinsic("duration".into()));
    assert_eq!(op, FieldOp::Gt);
    assert_eq!(*rhs, Field::Duration("1.5s".into()));

    let fe = filter(r#"{ .ok = true }"#);
    let FieldExpr::Cmp { lhs, rhs, .. } = fe else { panic!() };
    assert_eq!(*lhs, Field::Attr { scope: AttrScope::Unscoped, path: "ok".into() });
    assert_eq!(*rhs, Field::Bool(true));
}

#[test]
fn test_parse_or_and_spanset_operators() {
    let fe = filter(r#"{ resource.service.name="a" || name=~"GET.*" }"#);
    assert!(matches!(fe, FieldExpr::Or(_, _)), "{fe:?}");

    let e = parse(r#"{ name="a" } >> { name="b" }"#).unwrap();
    let SpansetExpr::Op { op, .. } = e else { panic!("expected spanset op: {e:?}") };
    assert_eq!(op, SpansetOp::Descendant);

    let e = parse(r#"{ name="a" } && { resource.service.name="s" }"#).unwrap();
    assert!(matches!(e, SpansetExpr::Op { op: SpansetOp::And, .. }), "{e:?}");
}

#[test]
fn test_parse_never_panics_on_adversarial_input() {
    let inputs = [
        "",
        "{",
        "}",
        "{}{}",
        "{ a }",
        "{ =\"b\" }",
        "{ a = }",
        "{ a == }",
        "{ name }",
        "span.",
        ".",
        "{ name=\"a\" &&",
        "<<",
        "{ a } >>",
        "(((",
        "{ a=~\"(unclosed\" }",
        "{ duration > }",
        "\u{1f600}{a=\"b\"}",
    ];
    for q in inputs {
        let _ = parse(q);
    }
}

#[test]
fn malformed_queries_are_refused() {
    for q in [
        "", "{", "}", "{}{}", "{ a = }", "{ a == }", "span.", ".", "<<", "(((", "{ a } >>",
        "{ a = \"x }", "{ a = \"\\q\" }", "{ 5x = 1 }", "{ ( a } )", "{ a >> b }", "{ span. = 1 }",
    ] {
        let e = parse(q).expect_err(q);
        assert_eq!(e.message(), "invalid TraceQL: 1 parse error(s)");
    }
}

#[test]
fn operators_group_by_how_they_bind() {
    let e = parse("{a} && {b} >> {c}").unwrap();
    let SpansetExpr::Op { op, rhs, .. } = e else { panic!() };
    assert_eq!(op, SpansetOp::And);
    assert!(matches!(*rhs, SpansetExpr::Op { op: SpansetOp::Descendant, .. }));

    let e = parse("{a} || {b} && {c}").unwrap();
    let SpansetExpr::Op { lhs, op, .. } = e else { panic!() };
    assert_eq!(op, SpansetOp::And);
    assert!(matches!(*lhs, SpansetExpr::Op { op: SpansetOp::Or, .. }));

    let e = parse("{a} << ({b} && {c})").unwrap();
    let SpansetExpr::Op { op, rhs, .. } = e else { panic!() };
    assert_eq!(op, SpansetOp::Ancestor);
    assert!(matches!(*rhs, SpansetExpr::Op { op: SpansetOp::And, .. }));
}

#[test]
fn every_comparison_and_literal_is_read() {
    let of = |q: &str| match filter(q) {
        FieldExpr::Cmp { op, rhs, .. } => (op, *rhs),
        other => panic!("{other:?}"),
    };
    assert_eq!(of("{ a = 1 }"), (FieldOp::Eq, Field::Num("1".into())));
    assert_eq!(of("{ a != -2.5 }"), (FieldOp::Neq, Field::Num("-2.5".into())));
    assert_eq!(of("{ a =~ \"x\" }"), (FieldOp::Re, Field::Str("x".into())));
    assert_eq!(of("{ a !~ `x\\d` }"), (FieldOp::Nre, Field::Str("x\\d".into())));
    assert_eq!(of("{ a >= 5ms }"), (FieldOp::Gte, Field::Duration("5ms".into())));
    assert_eq!(of("{ a < 1h30m }"), (FieldOp::Lt, Field::Duration("1h30m".into())));
    assert_eq!(of("{ a <= false }"), (FieldOp::Lte, Field::Bool(false)));
    assert_eq!(of("{ a > \"q\\\"\\n\" }"), (FieldOp::Gt, Field::Str("q\"\n".into())));
}

#[test]
fn every_scope_is_read() {
    let scopes = [
        ("span.", AttrScope::Span),
        ("resource.", AttrScope::Resource),
        ("event.", AttrScope::Event),
        ("instrumentation.", AttrScope::Instrumentation),
        ("link.", AttrScope::Link),
        ("parent.", AttrScope::Parent),
        (".", AttrScope::Unscoped),
    ];
    for (prefix, scope) in scopes {
        let fe = filter(&format!("{{ {prefix}a.b-c }}"));
        assert_eq!(
            fe,
            FieldExpr::Field(Box::new(Field::Attr { scope, path: "a.b-c".into() }))
        );
    }
}

#[test]
fn what_is_written_with_parentheses_is_read_back() {
    let plain = parse("{ a = 1 && (b || c) }").unwrap();
    let written = parse("{ (a = 1) && ((b) || (c)) }").unwrap();
    assert_eq!(plain, written);
}
