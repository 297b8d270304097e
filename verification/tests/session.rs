//! Sync sessions.

use nostos::predicate::{ColumnValue, Predicate};
use nostos::principal::Principal;
use nostos::session::{SessionId, SyncSession};

#[test]
fn session_ids_are_unique() {
    let a = SessionId::new();
    let b = SessionId::new();
    assert_ne!(a, b);
}

#[test]
fn session_exposes_table_for_indexing() {
    let s = SyncSession::new(Predicate::eq("tasks", "org_id", ColumnValue::text("acme")));
    assert_eq!(s.table(), "tasks");
}

#[test]
fn authenticated_session_carries_principal() {
    let s = SyncSession::new_authenticated(
        Predicate::all("tasks"),
        Principal::new("u1", "org-acme"),
    );
    let p = s
        .principal()
        .expect("authenticated session has a principal");
    assert_eq!(p.account_id, "u1");
    assert_eq!(p.tenant_id, "org-acme");
}

#[test]
fn unauthenticated_session_has_no_principal() {
    let s = SyncSession::new(Predicate::all("tasks"));
    assert!(s.principal().is_none());
}

#[test]
fn a_session_is_equal_to_its_clone() {
    let s = SyncSession::new_authenticated(Predicate::all("orders"), Principal::new("u", "t"));
    assert!(s.clone() == s);
    assert!(SyncSession::new(Predicate::all("orders")) != s);
    assert!(Principal::new("u", "t") == Principal::new("u", "t"));
    assert!(Principal::new("u", "t") != Principal::new("u", "s"));
}
