//! Scopes.

use nostos::ordered::OrderedMap;
use nostos::predicate::{ColumnValue, FloatReadings, PredicateExpr, Row, ScopeOp};
use nostos::principal::Principal;
use nostos::scope::{ScopeError, ScopeExpr, ScopeTerm, ScopeValue};

fn principal_with(claims: &[(&str, &str)]) -> Principal {
    let mut extra = OrderedMap::new();
    for (name, value) in claims {
        extra.insert((*name).to_string(), (*value).to_string());
    }
    Principal::with_claims("u1", "t1", extra)
}

fn parse(input: &str) -> Result<ScopeExpr, ScopeError> {
    ScopeExpr::parse(input, &FloatReadings::new())
}

#[test]
fn parses_single_claim_term() {
    let scope = parse("owner_id = claims.sub").unwrap();
    assert_eq!(
        scope.terms,
        vec![ScopeTerm {
            column: "owner_id".to_string(),
            op: ScopeOp::Eq,
            value: ScopeValue::Claim("sub".to_string()),
        }]
    );
}

#[test]
fn parses_and_composition() {
    let scope = parse("org_id = claims.org_id AND status != 'archived'").unwrap();
    assert_eq!(scope.terms.len(), 2);
    assert_eq!(
        scope.terms[1].value,
        ScopeValue::Literal(ColumnValue::Text("archived".to_string()))
    );
}

#[test]
fn rejects_or() {
    assert_eq!(
        parse("a = 1 OR b = 2"),
        Err(ScopeError::Unsupported("OR".to_string()))
    );
}

#[test]
fn rejects_not() {
    assert_eq!(
        parse("NOT a = 1"),
        Err(ScopeError::Unsupported("NOT".to_string()))
    );
}

#[test]
fn rejects_parens() {
    assert_eq!(
        parse("(a = 1)"),
        Err(ScopeError::Unsupported("(".to_string()))
    );
}

#[test]
fn rejects_lone_operator() {
    assert!(matches!(
        parse("owner_id ="),
        Err(ScopeError::MissingValue(_) | ScopeError::MissingOperator(_))
    ));
}

#[test]
fn rejects_non_claims_dotted_ident() {
    assert!(matches!(
        parse("owner_id = claim.sub"),
        Err(ScopeError::UnexpectedToken(_))
    ));
}

#[test]
fn resolve_missing_claim_denies() {
    let scope = parse("org_id = claims.org_id").unwrap();
    let principal = principal_with(&[]);
    assert_eq!(scope.resolve(&principal), None);
}

#[test]
fn resolve_denies_when_second_term_claim_missing() {
    let scope = parse("status = 'open' AND org_id = claims.org_id").unwrap();
    let principal = principal_with(&[]);
    assert_eq!(scope.resolve(&principal), None);
}

#[test]
fn resolve_builds_and_chain() {
    let scope = parse("a = 1 AND b = 2").unwrap();
    let principal = principal_with(&[]);
    assert_eq!(
        scope.resolve(&principal),
        Some(PredicateExpr::And(vec![
            PredicateExpr::eq("a", ColumnValue::number(1)),
            PredicateExpr::eq("b", ColumnValue::number(2)),
        ]))
    );
}

#[test]
fn parses_case_insensitive_bool_literal() {
    let scope = parse("flag = TRUE").unwrap();
    assert_eq!(
        scope.terms[0].value,
        ScopeValue::Literal(ColumnValue::boolean(true))
    );
    let scope = parse("flag = False").unwrap();
    assert_eq!(
        scope.terms[0].value,
        ScopeValue::Literal(ColumnValue::boolean(false))
    );
}

#[test]
fn quoted_uppercase_true_stays_text() {
    let scope = parse("flag = 'TRUE'").unwrap();
    assert_eq!(
        scope.terms[0].value,
        ScopeValue::Literal(ColumnValue::text("TRUE"))
    );
}

#[test]
fn uppercase_bool_literal_does_not_widen_ne_comparison() {
    let scope = parse("flag != TRUE").unwrap();
    let principal = principal_with(&[]);
    let expr = scope.resolve(&principal).expect("no claims referenced");
    let mut row_flag_true = Row::new();
    row_flag_true.set("flag", ColumnValue::boolean(true));
    assert!(
        !expr.matches(&row_flag_true),
        "flag != TRUE must not match a row where flag is true"
    );
}

#[test]
fn canonical_is_order_insensitive() {
    let a = parse("a = 1 AND b = 2").unwrap();
    let b = parse("b=2   AND   a=1").unwrap();
    assert_eq!(a.canonical(), b.canonical());
    assert_eq!(a.canonical(), "a = 1 AND b = 2");
}

#[test]
fn referenced_claims_are_listed_once_in_order() {
    let scope = parse("b = claims.tenant_id AND a = claims.sub AND c = claims.sub").unwrap();
    assert_eq!(scope.referenced_claims(), vec!["sub".to_string(), "tenant_id".to_string()]);
}

#[test]
fn a_scope_starts_without_comparisons() {
    let every = ScopeExpr::default();
    assert!(every.terms.is_empty());
    assert_eq!(every.clone(), every);
    assert_eq!(every.canonical(), "");
}
