//! Bounds on the predicates that clients send.

use nostos::predicate::{FloatReadings, PredicateExpr};
use nostos::predicate_compile::{parse_predicate_expr, ParseError};

fn parse(input: &str) -> Result<PredicateExpr, ParseError> {
    parse_predicate_expr(input, &FloatReadings::new())
}

#[test]
fn deep_not_chain_is_rejected_not_fatal() {
    for n in [100usize, 1_000, 50_000, 200_000] {
        let src = format!("{}col = 1", "NOT ".repeat(n));
        let err = parse(&src)
            .expect_err(&format!("depth {n} must be rejected, not parsed"));
        assert!(
            matches!(
                err,
                ParseError::TooDeep { .. } | ParseError::TooLarge { .. }
            ),
            "depth {n} rejected for the wrong reason: {err:?}"
        );
    }
}

#[test]
fn deep_paren_nesting_is_rejected_not_fatal() {
    let n = 100_000;
    let src = format!("{}col = 1{}", "(".repeat(n), ")".repeat(n));
    let err = parse(&src).expect_err("deep parens must be rejected");
    assert!(
        matches!(
            err,
            ParseError::TooDeep { .. } | ParseError::TooLarge { .. }
        ),
        "deep parens rejected for the wrong reason: {err:?}"
    );
}

#[test]
fn wide_flat_disjunction_is_rejected() {
    let src = std::iter::repeat_n("col = 1", 500_000)
        .collect::<Vec<_>>()
        .join(" OR ");
    let err = parse(&src).expect_err("a 500k-term OR must be rejected");
    assert!(
        matches!(err, ParseError::TooLarge { .. }),
        "wide disjunction rejected for the wrong reason: {err:?}"
    );
}

#[test]
fn realistic_predicates_still_parse() {
    for src in [
        "tenant_id = 'acme'",
        "status = 'open' AND (priority > 3 OR assignee = 'me')",
        "NOT (archived = 1)",
        "NOT NOT NOT NOT NOT NOT NOT NOT archived = 1",
        "a = 1 OR b = 2 OR c = 3 OR d = 4 OR e = 5 OR f = 6 OR g = 7 OR h = 8",
        "((((((a = 1))))))",
    ] {
        parse(src)
            .unwrap_or_else(|e| panic!("legit predicate {src:?} rejected: {e:?}"));
    }
}
