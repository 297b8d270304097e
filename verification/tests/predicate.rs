//! Predicates on rows.

use nostos::predicate::{ColumnValue, Float, FloatReadings, Predicate, PredicateExpr, Row};

fn float(x: f64) -> Float {
    Float {
        bits: x.to_bits(),
        display: format!("{x}"),
        debug: format!("{x:?}"),
    }
}

fn row_view(pairs: &[(&str, ColumnValue)]) -> Row {
    let mut row = Row::new();
    for (column, value) in pairs {
        if let ColumnValue::Text(text) = value {
            if let Ok(x) = text.parse::<f64>() {
                row.reads_as(text, float(x));
            }
        }
        row.set(column, value.clone());
    }
    row
}

#[test]
fn match_all_predicate() {
    let p = Predicate::all("tasks");
    assert!(p.matches(&Row::new()));
}

#[test]
fn single_equality_match() {
    let p = Predicate::eq("tasks", "org_id", ColumnValue::text("acme"));
    assert!(p.matches(&row_view(&[("org_id", ColumnValue::text("acme"))])));
    assert!(!p.matches(&row_view(&[("org_id", ColumnValue::text("other"))])));
}

#[test]
fn conjunction_of_filters_via_and_eq() {
    let p = Predicate::eq("tasks", "org_id", ColumnValue::text("acme"))
        .and_eq("assignee_id", ColumnValue::text("u1"));
    let both = row_view(&[
        ("org_id", ColumnValue::text("acme")),
        ("assignee_id", ColumnValue::text("u1")),
    ]);
    let partial = row_view(&[("org_id", ColumnValue::text("acme"))]);
    assert!(p.matches(&both));
    assert!(!p.matches(&partial));
}

#[test]
fn any_value_wildcard() {
    let p = Predicate::eq("tasks", "org_id", ColumnValue::Any);
    assert!(p.matches(&row_view(&[("org_id", ColumnValue::text("whatever"))])));
}

#[test]
fn missing_column_does_not_over_deliver() {
    let p = Predicate::eq("tasks", "org_id", ColumnValue::text("acme"));
    assert!(!p.matches(&Row::new()));
}

#[test]
fn ne_matches_when_value_differs() {
    let p = Predicate::ne("tasks", "status", ColumnValue::text("archived"));
    assert!(p.matches(&row_view(&[("status", ColumnValue::text("open"))])));
    assert!(!p.matches(&row_view(&[("status", ColumnValue::text("archived"))])));
}

#[test]
fn ne_missing_column_is_defensive() {
    let p = Predicate::ne("tasks", "status", ColumnValue::text("archived"));
    assert!(!p.matches(&Row::new()));
}

#[test]
fn or_eq_matches_either_branch() {
    let p = Predicate::eq("tasks", "status", ColumnValue::text("open"))
        .or_eq("status", ColumnValue::text("in_progress"));
    assert!(p.matches(&row_view(&[("status", ColumnValue::text("open"))])));
    assert!(p.matches(&row_view(&[("status", ColumnValue::text("in_progress"))])));
    assert!(!p.matches(&row_view(&[("status", ColumnValue::text("done"))])));
}

#[test]
fn or_eq_off_match_all_is_still_match_all() {
    let p = Predicate::all("tasks").or_eq("status", ColumnValue::text("open"));
    assert!(p.matches(&row_view(&[("status", ColumnValue::text("done"))])));
    assert!(p.matches(&Row::new()));
}

#[test]
fn not_inverts_a_match() {
    let p = !Predicate::eq("tasks", "status", ColumnValue::text("archived"));
    assert!(!p.matches(&row_view(&[("status", ColumnValue::text("archived"))])));
    assert!(p.matches(&row_view(&[("status", ColumnValue::text("open"))])));
}

#[test]
fn not_of_missing_eq_returns_true_pinned_edge() {
    let p = !Predicate::eq("tasks", "status", ColumnValue::text("archived"));
    assert!(p.matches(&Row::new()));
}

#[test]
fn and_eq_collapses_any_to_eq() {
    let p = Predicate::all("tasks").and_eq("org_id", ColumnValue::text("acme"));
    assert_eq!(
        p.expr,
        PredicateExpr::eq("org_id", ColumnValue::text("acme"))
    );
}

#[test]
fn nested_and_or_not_tree() {
    let p = Predicate::eq("tasks", "org_id", ColumnValue::text("acme"))
        .or_eq("status", ColumnValue::text("open"))
        .and_eq("owner", ColumnValue::text("bob"));
    let tree = PredicateExpr::And(vec![
        PredicateExpr::eq("org_id", ColumnValue::text("acme")),
        PredicateExpr::Or(vec![
            PredicateExpr::eq("status", ColumnValue::text("open")),
            PredicateExpr::eq("status", ColumnValue::text("in_progress")),
        ]),
        PredicateExpr::Not(Box::new(PredicateExpr::eq(
            "owner",
            ColumnValue::text("bob"),
        ))),
    ]);
    let _ = p;
    assert!(tree.matches(&row_view(&[
        ("org_id", ColumnValue::text("acme")),
        ("status", ColumnValue::text("open")),
        ("owner", ColumnValue::text("alice")),
    ])));
    assert!(!tree.matches(&row_view(&[
        ("org_id", ColumnValue::text("acme")),
        ("status", ColumnValue::text("done")),
        ("owner", ColumnValue::text("alice")),
    ])));
    assert!(!tree.matches(&row_view(&[
        ("org_id", ColumnValue::text("acme")),
        ("status", ColumnValue::text("open")),
        ("owner", ColumnValue::text("bob")),
    ])));
    assert!(!tree.matches(&row_view(&[
        ("org_id", ColumnValue::text("other")),
        ("status", ColumnValue::text("open")),
        ("owner", ColumnValue::text("alice")),
    ])));
}

#[test]
fn empty_and_is_true_empty_or_is_false() {
    assert!(PredicateExpr::And(vec![]).matches(&Row::new()));
    assert!(!PredicateExpr::Or(vec![]).matches(&Row::new()));
}

#[test]
fn lt_number_with_text_row_coercion() {
    let p = Predicate::lt("tasks", "priority", ColumnValue::number(10));
    assert!(p.matches(&row_view(&[("priority", ColumnValue::text("5"))])));
    assert!(!p.matches(&row_view(&[("priority", ColumnValue::text("10"))])));
    assert!(!p.matches(&row_view(&[("priority", ColumnValue::text("20"))])));
}

#[test]
fn gt_ge_le_boundaries() {
    let gt = Predicate::gt("t", "n", ColumnValue::number(10));
    let ge = Predicate::ge("t", "n", ColumnValue::number(10));
    let le = Predicate::le("t", "n", ColumnValue::number(10));
    assert!(!gt.matches(&row_view(&[("n", ColumnValue::text("10"))])));
    assert!(ge.matches(&row_view(&[("n", ColumnValue::text("10"))])));
    assert!(le.matches(&row_view(&[("n", ColumnValue::text("10"))])));
    assert!(gt.matches(&row_view(&[("n", ColumnValue::text("11"))])));
    assert!(ge.matches(&row_view(&[("n", ColumnValue::text("11"))])));
    assert!(!le.matches(&row_view(&[("n", ColumnValue::text("11"))])));
}

#[test]
fn float_comparison() {
    let p = Predicate::gt("t", "score", ColumnValue::float(float(1.5)));
    assert!(p.matches(&row_view(&[("score", ColumnValue::text("2.7"))])));
    assert!(!p.matches(&row_view(&[("score", ColumnValue::text("1.5"))])));
    assert!(!p.matches(&row_view(&[("score", ColumnValue::text("0.9"))])));
}

#[test]
fn bool_orders_false_before_true() {
    let p = Predicate::ge("t", "active", ColumnValue::boolean(true));
    assert!(p.matches(&row_view(&[("active", ColumnValue::text("true"))])));
    assert!(!p.matches(&row_view(&[("active", ColumnValue::text("false"))])));
    assert!(p.matches(&row_view(&[("active", ColumnValue::text("1"))])));
    assert!(!p.matches(&row_view(&[("active", ColumnValue::text("0"))])));
}

#[test]
fn typed_leaf_unparseable_row_does_not_match() {
    let p = Predicate::lt("t", "n", ColumnValue::number(10));
    assert!(!p.matches(&row_view(&[("n", ColumnValue::text("abc"))])));
}

#[test]
fn typed_leaf_missing_column_does_not_match() {
    let p = Predicate::gt("t", "n", ColumnValue::number(0));
    assert!(!p.matches(&Row::new()));
}

#[test]
fn cross_type_mismatch_does_not_match() {
    let p = Predicate::lt("t", "n", ColumnValue::number(10));
    assert!(!p.matches(&row_view(&[("n", ColumnValue::float(float(5.0)))])));
}

#[test]
fn ordered_inside_or_and_not() {
    let tree = PredicateExpr::Or(vec![
        PredicateExpr::And(vec![
            PredicateExpr::gt("priority", ColumnValue::number(5)),
            PredicateExpr::eq("active", ColumnValue::boolean(true)),
        ]),
        !PredicateExpr::lt("score", ColumnValue::float(float(1.0))),
    ]);
    assert!(tree.matches(&row_view(&[
        ("priority", ColumnValue::text("9")),
        ("active", ColumnValue::text("true")),
        ("score", ColumnValue::text("0.5")),
    ])));
    assert!(tree.matches(&row_view(&[
        ("priority", ColumnValue::text("1")),
        ("active", ColumnValue::text("false")),
        ("score", ColumnValue::text("2.0")),
    ])));
    assert!(!tree.matches(&row_view(&[
        ("priority", ColumnValue::text("1")),
        ("active", ColumnValue::text("false")),
        ("score", ColumnValue::text("0.5")),
    ])));
}

#[test]
fn unbound_param_eq_never_matches() {
    let p = Predicate::eq("tasks", "owner", ColumnValue::param("owner"));
    assert!(!p.matches(&row_view(&[("owner", ColumnValue::text("u1"))])));
    assert!(!p.matches(&row_view(&[])));
    assert!(!p.matches(&row_view(&[("owner", ColumnValue::param("owner"))])));
}

#[test]
fn unbound_param_ne_does_not_invert_into_match_everything() {
    let p = Predicate::ne("tasks", "owner", ColumnValue::param("owner"));
    assert!(!p.matches(&row_view(&[("owner", ColumnValue::text("u1"))])));
    assert!(!p.matches(&row_view(&[("owner", ColumnValue::text("other"))])));
    assert!(!p.matches(&row_view(&[])));
}

#[test]
fn unbound_param_ordered_leaves_never_match() {
    for p in [
        Predicate::lt("tasks", "priority", ColumnValue::param("min")),
        Predicate::gt("tasks", "priority", ColumnValue::param("min")),
        Predicate::le("tasks", "priority", ColumnValue::param("min")),
        Predicate::ge("tasks", "priority", ColumnValue::param("min")),
    ] {
        assert!(!p.matches(&row_view(&[("priority", ColumnValue::number(5))])));
    }
}

#[test]
fn unbound_param_inside_boolean_tree_still_never_delivers() {
    let tree = PredicateExpr::Or(vec![
        PredicateExpr::eq("owner", ColumnValue::param("owner")),
        PredicateExpr::eq("status", ColumnValue::text("open")),
    ]);
    assert!(tree.matches(&row_view(&[("status", ColumnValue::text("open"))])));
    assert!(!tree.matches(&row_view(&[
        ("owner", ColumnValue::text("u1")),
        ("status", ColumnValue::text("archived")),
    ])));
}

#[test]
fn any_collapses_under_and_and_absorbs_under_or() {
    let leaf = || PredicateExpr::eq("status", ColumnValue::text("open"));

    assert_eq!(PredicateExpr::Any.and(leaf()), leaf());
    assert_eq!(leaf().and(PredicateExpr::Any), leaf());
    assert_eq!(PredicateExpr::Any.and(PredicateExpr::Any), PredicateExpr::Any);

    assert_eq!(PredicateExpr::Any.or(leaf()), PredicateExpr::Any);
    assert_eq!(leaf().or(PredicateExpr::Any), PredicateExpr::Any);

    assert!(matches!(leaf().and(leaf()), PredicateExpr::And(v) if v.len() == 2));
    assert!(matches!(leaf().or(leaf()), PredicateExpr::Or(v) if v.len() == 2));
}

#[test]
fn collapse_does_not_change_which_rows_match() {
    let scoped = PredicateExpr::Any.and(PredicateExpr::eq("status", ColumnValue::text("open")));
    let row = |status: &str| row_view(&[("status", ColumnValue::text(status))]);
    assert!(scoped.matches(&row("open")));
    assert!(!scoped.matches(&row("archived")));
}

#[test]
fn expr_roundtrips_through_serde() {
    let tree = PredicateExpr::And(vec![
        PredicateExpr::eq("org_id", ColumnValue::text("acme")),
        PredicateExpr::Not(Box::new(PredicateExpr::ne(
            "status",
            ColumnValue::text("archived"),
        ))),
        PredicateExpr::Or(vec![
            PredicateExpr::eq("a", ColumnValue::Any),
            PredicateExpr::Any,
        ]),
    ]);
    let json = tree.to_json();
    let back = PredicateExpr::from_json(&json, &FloatReadings::new()).expect("deserialize");
    assert_eq!(tree, back);
}

#[test]
fn typed_value_roundtrips_through_serde() {
    let tree = PredicateExpr::And(vec![
        PredicateExpr::lt("n", ColumnValue::number(100)),
        PredicateExpr::gt("score", ColumnValue::Float(float(1.5))),
        PredicateExpr::ge("active", ColumnValue::boolean(true)),
    ]);
    let json = tree.to_json();
    let mut readings = FloatReadings::new();
    readings.record("1.5".to_string(), float(1.5));
    let back = PredicateExpr::from_json(&json, &readings).expect("deserialize");
    assert_eq!(tree, back);
}

#[test]
fn what_is_no_predicate_is_not_read() {
    let none = FloatReadings::new();
    for text in [
        "",
        "7",
        "\"And\"",
        "{\"And\":5}",
        "{\"Eq\":{\"column\":\"a\"}}",
        "{\"Eq\":{\"column\":\"a\",\"value\":\"Text\"}}",
        "{\"Eq\":{\"column\":\"a\",\"value\":{\"Float\":1.5}}}",
        "{\"And\":[],\"Or\":[]}",
    ] {
        assert_eq!(PredicateExpr::from_json(text, &none), None, "{text}");
    }
    assert_eq!(
        PredicateExpr::from_json("{\"Any\":null}", &none),
        Some(PredicateExpr::Any)
    );
    assert_eq!(
        PredicateExpr::from_json("{\"Lt\":[\"a\",{\"Number\":-3}]}", &none),
        Some(PredicateExpr::lt("a", ColumnValue::number(-3)))
    );
    assert_eq!(
        PredicateExpr::eq("a", ColumnValue::text("x")).to_json(),
        "{\"Eq\":{\"column\":\"a\",\"value\":{\"Text\":\"x\"}}}"
    );
}
