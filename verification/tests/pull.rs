//! Pulling a change log.

use nostos::apply::ApplyEngine;
use nostos::in_memory::InMemoryStorage;
use nostos::lsn::Lsn;
use nostos::pull::{Horizon, PullCursor, PullError};
use nostos::storage::Storage;

fn row(horizon: &str, seq: u64, xid: &str, table: &str, pk: &str, op: &str) -> String {
    let img = if op == "delete" {
        "null".to_string()
    } else {
        format!(r#"{{"id":"{pk}"}}"#)
    };
    format!(
        r#"{{"horizon":"{horizon}","seq":{seq},"xid":"{xid}","table_name":"{table}","pk":"{pk}","op":"{op}","row":{img}}}"#
    )
}

fn page(rows: &[String]) -> String {
    format!("[{}]", rows.join(","))
}

fn engine() -> ApplyEngine<InMemoryStorage> {
    ApplyEngine::new(InMemoryStorage::new())
}

#[test]
fn request_body_sends_the_horizon_as_a_string() {
    let c = PullCursor::fresh();
    assert_eq!(c.request_body(), r#"{"max_rows":2000,"since":"0"}"#);

    let big = PullCursor::resume(Horizon::new("9007199254740995"), 10);
    assert_eq!(
        big.request_body(),
        r#"{"max_rows":10,"since":"9007199254740995"}"#
    );
}

#[test]
fn zero_max_rows_falls_back_to_the_default() {
    assert_eq!(PullCursor::resume(Horizon::fresh(), 0).max_rows(), 2000);
}

#[test]
fn two_transactions_across_three_tables_apply_and_advance_the_horizon() {
    let mut e = engine();
    let mut c = PullCursor::fresh();
    let body = page(&[
        row("500", 1, "100", "orders", "o1", "insert"),
        row("500", 2, "100", "order_lines", "l1", "insert"),
        row("500", 3, "100", "audit", "a1", "insert"),
        row("500", 4, "101", "orders", "o1", "update"),
    ]);

    let out = c.apply(&mut e, &body).unwrap();
    assert_eq!(out.rows_applied, 4);
    assert!(!out.more);
    assert_eq!(out.horizon, Some(Horizon::new("500")));
    assert_eq!(c.since(), &Horizon::new("500"));
    assert_eq!(e.storage().row_count(), 3);
    assert_eq!(e.checkpoint().unwrap(), Lsn::new(4));
}

#[test]
fn a_full_page_holds_its_trailing_transaction_back_whole() {
    let mut e = engine();
    let mut c = PullCursor::resume(Horizon::new("99"), 3);
    let body = page(&[
        row("500", 1, "100", "orders", "o1", "insert"),
        row("500", 2, "100", "order_lines", "l1", "insert"),
        row("500", 3, "101", "orders", "o2", "insert"),
    ]);

    let out = c.apply(&mut e, &body).unwrap();
    assert!(out.more, "a full page is assumed cut mid-transaction");
    assert_eq!(out.rows_applied, 2);
    assert_eq!(c.since(), &Horizon::new("100"));
    assert_eq!(e.storage().rows_for("orders").len(), 1);
}

#[test]
fn a_transaction_bigger_than_a_page_is_an_error_not_a_half_apply() {
    let mut e = engine();
    let mut c = PullCursor::resume(Horizon::new("99"), 2);
    let body = page(&[
        row("500", 1, "100", "orders", "o1", "insert"),
        row("500", 2, "100", "orders", "o2", "insert"),
    ]);

    let err = c.apply(&mut e, &body).unwrap_err();
    assert!(matches!(err, PullError::PageTooSmall { max_rows: 2, .. }));
    assert_eq!(e.storage().row_count(), 0, "nothing may land");
    assert_eq!(c.since(), &Horizon::new("99"), "cursor must not move");
}

#[test]
fn a_delete_row_carries_no_payload_and_removes_the_row() {
    let mut e = engine();
    let mut c = PullCursor::fresh();
    c.apply(
        &mut e,
        &page(&[row("500", 1, "100", "orders", "o1", "insert")]),
    )
    .unwrap();
    assert_eq!(e.storage().row_count(), 1);

    c.apply(
        &mut e,
        &page(&[row("600", 2, "101", "orders", "o1", "delete")]),
    )
    .unwrap();
    assert_eq!(e.storage().row_count(), 0);
    assert_eq!(c.since(), &Horizon::new("600"));
}

#[test]
fn an_empty_response_leaves_the_cursor_alone() {
    let mut e = engine();
    let mut c = PullCursor::resume(Horizon::new("400"), 10);
    let out = c.apply(&mut e, "[]").unwrap();
    assert_eq!(out.rows_applied, 0);
    assert_eq!(out.horizon, None);
    assert!(!out.more);
    assert_eq!(c.since(), &Horizon::new("400"));
}

#[test]
fn ids_decode_from_json_numbers_too() {
    let mut e = engine();
    let mut c = PullCursor::fresh();
    let body = r#"[{"horizon":500,"seq":1,"xid":100,"table_name":"orders","pk":"o1","op":"insert","row":{"id":"o1"}}]"#;
    let out = c.apply(&mut e, body).unwrap();
    assert_eq!(out.horizon, Some(Horizon::new("500")));
    assert_eq!(e.storage().row_count(), 1);
}

#[test]
fn an_unknown_op_is_rejected() {
    let mut e = engine();
    let mut c = PullCursor::fresh();
    let body = page(&[row("500", 1, "100", "orders", "o1", "truncate")]);
    assert!(matches!(
        c.apply(&mut e, &body).unwrap_err(),
        PullError::UnknownOp { .. }
    ));
}

#[test]
fn an_unparseable_xid_is_fatal() {
    let mut e = engine();
    let mut c = PullCursor::fresh();
    let body = page(&[row("500", 1, "not-an-xid", "orders", "o1", "insert")]);
    assert!(matches!(
        c.apply(&mut e, &body).unwrap_err(),
        PullError::BadXid(_)
    ));
}

#[test]
fn the_horizon_is_persisted_through_storage() {
    let mut e = engine();
    let mut c = PullCursor::fresh();
    c.apply(
        &mut e,
        &page(&[row("777", 1, "100", "orders", "o1", "insert")]),
    )
    .unwrap();
    assert_eq!(e.storage().horizon().unwrap().as_deref(), Some("777"));
}

#[test]
fn a_cloned_cursor_goes_on_by_itself() {
    let mut c = PullCursor::resume(Horizon::new("99"), 3);
    let kept = c.clone();
    assert_eq!(kept.request_body(), c.request_body());
    c = PullCursor::fresh();
    assert_eq!(kept.request_body(), r#"{"max_rows":3,"since":"99"}"#);
    assert_eq!(c.request_body(), r#"{"max_rows":2000,"since":"0"}"#);
}
