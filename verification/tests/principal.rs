//! Accounts and their claims.

use nostos::ordered::OrderedMap;
use nostos::principal::Principal;

#[test]
fn tenant_scope_none_when_anonymous() {
    let p = Principal::anonymous();
    assert!(p.tenant_scope(Some("org_id")).is_none());
}

#[test]
fn tenant_scope_none_when_no_column_configured() {
    let p = Principal::new("u1", "acme");
    assert!(p.tenant_scope(None).is_none());
}

#[test]
fn tenant_scope_some_for_authenticated_principal_with_column() {
    let p = Principal::new("u1", "acme");
    let scope = p.tenant_scope(Some("org_id")).expect("scoped");
    assert_eq!(scope.column, "org_id");
    assert_eq!(scope.value, "acme");
}

#[test]
fn anonymous_is_flagged() {
    let p = Principal::anonymous();
    assert!(p.is_anonymous());
    assert_eq!(p.account_id, "");
    assert_eq!(p.tenant_id, "");
}

#[test]
fn real_principal_is_not_anonymous() {
    let p = Principal::new("user-123", "org-acme");
    assert!(!p.is_anonymous());
    assert_eq!(p.account_id, "user-123");
    assert_eq!(p.tenant_id, "org-acme");
}

#[test]
fn claim_resolves_sub_tenant_and_extra() {
    let mut extra = OrderedMap::new();
    extra.insert("org_id".to_string(), "acme".to_string());
    let p = Principal::with_claims("u1", "t1", extra);
    assert_eq!(p.claim("sub"), Some("u1"));
    assert_eq!(p.claim("tenant_id"), Some("t1"));
    assert_eq!(p.claim("org_id"), Some("acme"));
    assert_eq!(p.claim("role"), None);
}

#[test]
fn anonymous_has_no_claims() {
    let p = Principal::anonymous();
    assert_eq!(p.claim("sub"), None);
}

#[test]
fn claims_do_not_leak_into_logs() {
    let mut extra = OrderedMap::new();
    extra.insert("secret_token".to_string(), "hunter2".to_string());
    let p = Principal::with_claims("u1", "t1", extra);
    let rendered = p.debug_text();
    assert!(
        !rendered.contains("hunter2"),
        "Debug rendering must not leak claim values: {rendered}"
    );
}
