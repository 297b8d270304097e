//! Reading predicates, and binding their placeholders.

use nostos::lexer::Dialect;
use nostos::ordered::OrderedMap;
use nostos::predicate::{ColumnValue, Float, FloatReadings, PredicateExpr, Row};
use nostos::predicate_compile::{
    bind_params, float_literals, parse_predicate_expr, BindError, ParseError,
};

fn float(x: f64) -> Float {
    Float {
        bits: x.to_bits(),
        display: format!("{x}"),
        debug: format!("{x:?}"),
    }
}

fn parse(input: &str) -> Result<PredicateExpr, ParseError> {
    let mut readings = FloatReadings::new();
    for text in float_literals(input, Dialect::Predicate) {
        if let Ok(x) = text.parse::<f64>() {
            readings.record(text, float(x));
        }
    }
    parse_predicate_expr(input, &readings)
}

fn row(pairs: &[(&str, ColumnValue)]) -> Row {
    let mut row = Row::new();
    for (column, value) in pairs {
        if let ColumnValue::Text(text) = value {
            if let Ok(x) = text.parse::<f64>() {
                row.reads_as(text, float(x));
            }
        }
        row.set(column, value.clone());
    }
    row
}

#[test]
fn equality_operator() {
    let e = parse("status = open").unwrap();
    assert_eq!(e, PredicateExpr::eq("status", ColumnValue::text("open")));
}

#[test]
fn all_six_operators() {
    assert_eq!(
        parse("a = 1").unwrap(),
        PredicateExpr::eq("a", ColumnValue::number(1))
    );
    assert_eq!(
        parse("a != 1").unwrap(),
        PredicateExpr::ne("a", ColumnValue::number(1))
    );
    assert_eq!(
        parse("a < 1").unwrap(),
        PredicateExpr::lt("a", ColumnValue::number(1))
    );
    assert_eq!(
        parse("a > 1").unwrap(),
        PredicateExpr::gt("a", ColumnValue::number(1))
    );
    assert_eq!(
        parse("a <= 1").unwrap(),
        PredicateExpr::le("a", ColumnValue::number(1))
    );
    assert_eq!(
        parse("a >= 1").unwrap(),
        PredicateExpr::ge("a", ColumnValue::number(1))
    );
}

#[test]
fn literal_types() {
    assert_eq!(
        parse("a = 42").unwrap(),
        PredicateExpr::eq("a", ColumnValue::number(42))
    );
    assert_eq!(
        parse("a = 3.5").unwrap(),
        PredicateExpr::eq("a", ColumnValue::float(float(3.5)))
    );
    assert_eq!(
        parse("a = true").unwrap(),
        PredicateExpr::eq("a", ColumnValue::boolean(true))
    );
    assert_eq!(
        parse("a = 'open'").unwrap(),
        PredicateExpr::eq("a", ColumnValue::text("open"))
    );
    assert_eq!(
        parse("a > -5").unwrap(),
        PredicateExpr::gt("a", ColumnValue::number(-5))
    );
}

#[test]
fn and_conjunction() {
    let e = parse("a = 1 AND b = 2").unwrap();
    assert_eq!(
        e,
        PredicateExpr::And(vec![
            PredicateExpr::eq("a", ColumnValue::number(1)),
            PredicateExpr::eq("b", ColumnValue::number(2)),
        ])
    );
}

#[test]
fn or_disjunction() {
    let e = parse("a = 1 OR a = 2").unwrap();
    assert_eq!(
        e,
        PredicateExpr::Or(vec![
            PredicateExpr::eq("a", ColumnValue::number(1)),
            PredicateExpr::eq("a", ColumnValue::number(2)),
        ])
    );
}

#[test]
fn not_negation() {
    let e = parse("NOT a = 1").unwrap();
    assert_eq!(
        e,
        PredicateExpr::Not(Box::new(PredicateExpr::eq("a", ColumnValue::number(1))))
    );
}

#[test]
fn and_binds_tighter_than_or() {
    let e = parse("a = 1 AND b = 2 OR c = 3").unwrap();
    assert_eq!(
        e,
        PredicateExpr::Or(vec![
            PredicateExpr::And(vec![
                PredicateExpr::eq("a", ColumnValue::number(1)),
                PredicateExpr::eq("b", ColumnValue::number(2)),
            ]),
            PredicateExpr::eq("c", ColumnValue::number(3)),
        ])
    );
}

#[test]
fn parens_override_precedence() {
    let e = parse("(a = 1 OR b = 2) AND c = 3").unwrap();
    assert_eq!(
        e,
        PredicateExpr::And(vec![
            PredicateExpr::Or(vec![
                PredicateExpr::eq("a", ColumnValue::number(1)),
                PredicateExpr::eq("b", ColumnValue::number(2)),
            ]),
            PredicateExpr::eq("c", ColumnValue::number(3)),
        ])
    );
}

#[test]
fn not_binds_tighter_than_and() {
    let e = parse("NOT a = 1 AND b = 2").unwrap();
    assert_eq!(
        e,
        PredicateExpr::And(vec![
            PredicateExpr::Not(Box::new(PredicateExpr::eq("a", ColumnValue::number(1)))),
            PredicateExpr::eq("b", ColumnValue::number(2)),
        ])
    );
}

#[test]
fn parsed_predicate_matches_same_rows_as_handbuilt() {
    let parsed = parse("status = open AND priority >= 3").unwrap();
    let handbuilt = PredicateExpr::And(vec![
        PredicateExpr::eq("status", ColumnValue::text("open")),
        PredicateExpr::ge("priority", ColumnValue::number(3)),
    ]);
    assert_eq!(parsed, handbuilt);
    let matching = row(&[
        ("status", ColumnValue::text("open")),
        ("priority", ColumnValue::text("5")),
    ]);
    let nonmatching = row(&[
        ("status", ColumnValue::text("open")),
        ("priority", ColumnValue::text("2")),
    ]);
    assert!(parsed.matches(&matching));
    assert!(!parsed.matches(&nonmatching));
    assert_eq!(parsed.matches(&matching), handbuilt.matches(&matching));
    assert_eq!(
        parsed.matches(&nonmatching),
        handbuilt.matches(&nonmatching)
    );
}

#[test]
fn empty_string_errors() {
    assert_eq!(parse(""), Err(ParseError::Empty));
    assert_eq!(parse("   "), Err(ParseError::Empty));
}

#[test]
fn unbalanced_parens_error() {
    assert_eq!(
        parse("(a = 1"),
        Err(ParseError::UnbalancedParens)
    );
}

#[test]
fn missing_operator_error() {
    assert!(matches!(
        parse("a 1"),
        Err(ParseError::UnexpectedToken { .. })
    ));
}

#[test]
fn trailing_input_error() {
    assert!(matches!(
        parse("a = 1 garbage"),
        Err(ParseError::TrailingInput(_))
    ));
}

#[test]
fn lone_operator_error() {
    assert!(matches!(
        parse("a ! 1"),
        Err(ParseError::UnexpectedToken { .. })
    ));
}

#[test]
fn param_parses_in_literal_position() {
    let e = parse("owner = :owner").unwrap();
    assert_eq!(e, PredicateExpr::eq("owner", ColumnValue::param("owner")));
}

#[test]
fn param_in_all_six_operators() {
    assert_eq!(
        parse("a = :p").unwrap(),
        PredicateExpr::eq("a", ColumnValue::param("p"))
    );
    assert_eq!(
        parse("a != :p").unwrap(),
        PredicateExpr::ne("a", ColumnValue::param("p"))
    );
    assert_eq!(
        parse("a < :p").unwrap(),
        PredicateExpr::lt("a", ColumnValue::param("p"))
    );
    assert_eq!(
        parse("a > :p").unwrap(),
        PredicateExpr::gt("a", ColumnValue::param("p"))
    );
    assert_eq!(
        parse("a <= :p").unwrap(),
        PredicateExpr::le("a", ColumnValue::param("p"))
    );
    assert_eq!(
        parse("a >= :p").unwrap(),
        PredicateExpr::ge("a", ColumnValue::param("p"))
    );
}

#[test]
fn param_in_compound_template() {
    let e = parse("owner_id = :owner AND priority >= :min").unwrap();
    assert_eq!(
        e,
        PredicateExpr::And(vec![
            PredicateExpr::eq("owner_id", ColumnValue::param("owner")),
            PredicateExpr::ge("priority", ColumnValue::param("min")),
        ])
    );
}

#[test]
fn param_underscore_and_digit_suffix_names() {
    let e = parse("a = :min_2").unwrap();
    assert_eq!(e, PredicateExpr::eq("a", ColumnValue::param("min_2")));
}

#[test]
fn param_in_column_position_is_a_parse_error() {
    assert!(parse(":owner = 1").is_err());
}

#[test]
fn param_standing_alone_is_a_parse_error() {
    assert!(parse(":owner").is_err());
    assert!(parse("a = 1 AND :owner").is_err());
}

#[test]
fn param_colon_without_identifier_is_a_parse_error() {
    assert!(matches!(
        parse("a = :"),
        Err(ParseError::UnexpectedToken { .. })
    ));
    assert!(matches!(
        parse("a = :1abc"),
        Err(ParseError::UnexpectedToken { .. })
    ));
}

#[test]
fn quoted_colon_ident_is_ordinary_text_not_a_placeholder() {
    let e = parse("a = ':owner'").unwrap();
    assert_eq!(e, PredicateExpr::eq("a", ColumnValue::text(":owner")));
}

#[test]
fn join_subquery_and_metachar_shapes_stay_rejected() {
    assert!(parse("a = 1 AND b IN (SELECT id FROM t)").is_err());
    assert!(parse("a = 1 JOIN t ON t.a = 1").is_err());
    assert!(parse("owner = :owner; DROP TABLE tasks;--").is_err());
    assert!(parse("owner = :owner UNION SELECT * FROM tasks").is_err());
}

fn stream_template() -> PredicateExpr {
    parse("owner = :owner AND priority >= :min").unwrap()
}

fn params(pairs: &[(&str, ColumnValue)]) -> OrderedMap<String, ColumnValue> {
    let mut map = OrderedMap::new();
    for (name, value) in pairs {
        map.insert((*name).to_string(), value.clone());
    }
    map
}

#[test]
fn bind_substitutes_typed_leaves_shape_preserved() {
    let bound = bind_params(
        &stream_template(),
        &params(&[
            ("owner", ColumnValue::text("u1")),
            ("min", ColumnValue::number(3)),
        ]),
    )
    .unwrap();
    assert_eq!(
        bound,
        PredicateExpr::And(vec![
            PredicateExpr::eq("owner", ColumnValue::text("u1")),
            PredicateExpr::ge("priority", ColumnValue::number(3)),
        ])
    );
}

#[test]
fn bind_missing_param_is_a_loud_error() {
    let err = bind_params(
        &stream_template(),
        &params(&[("owner", ColumnValue::text("u1"))]),
    )
    .unwrap_err();
    assert_eq!(err, BindError::MissingParam { name: "min".into() });
}

#[test]
fn bind_extra_param_is_a_loud_error() {
    let err = bind_params(
        &stream_template(),
        &params(&[
            ("owner", ColumnValue::text("u1")),
            ("min", ColumnValue::number(3)),
            ("org_id", ColumnValue::text("tenant-b")),
        ]),
    )
    .unwrap_err();
    assert_eq!(
        err,
        BindError::ExtraParam {
            name: "org_id".into()
        }
    );
}

#[test]
fn bind_nested_placeholder_is_rejected() {
    let err = bind_params(
        &stream_template(),
        &params(&[
            ("owner", ColumnValue::param("evil")),
            ("min", ColumnValue::number(3)),
        ]),
    )
    .unwrap_err();
    assert_eq!(
        err,
        BindError::NestedParam {
            name: "owner".into()
        }
    );
}

#[test]
fn bind_through_not_and_or() {
    let e = parse("NOT (a = :x OR b = :y)").unwrap();
    let bound = bind_params(
        &e,
        &params(&[
            ("x", ColumnValue::number(1)),
            ("y", ColumnValue::boolean(true)),
        ]),
    )
    .unwrap();
    assert_eq!(
        bound,
        PredicateExpr::Not(Box::new(PredicateExpr::Or(vec![
            PredicateExpr::eq("a", ColumnValue::number(1)),
            PredicateExpr::eq("b", ColumnValue::boolean(true)),
        ])))
    );
}

#[test]
fn a_fully_bound_tree_evaluates_against_rows() {
    let bound = bind_params(
        &stream_template(),
        &params(&[
            ("owner", ColumnValue::text("u1")),
            ("min", ColumnValue::number(3)),
        ]),
    )
    .unwrap();
    let yes = row(&[
        ("owner", ColumnValue::text("u1")),
        ("priority", ColumnValue::number(5)),
    ]);
    let wrong_owner = row(&[
        ("owner", ColumnValue::text("u2")),
        ("priority", ColumnValue::number(5)),
    ]);
    let too_low = row(&[
        ("owner", ColumnValue::text("u1")),
        ("priority", ColumnValue::number(1)),
    ]);
    assert!(bound.matches(&yes));
    assert!(!bound.matches(&wrong_owner));
    assert!(!bound.matches(&too_low));
    let unbound = stream_template();
    assert!(!unbound.matches(&row(&[
        ("owner", ColumnValue::text("u1")),
        ("priority", ColumnValue::number(5)),
    ])));
}
