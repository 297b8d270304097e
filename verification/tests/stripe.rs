//! Messages of the payment provider.

use std::time::{SystemTime, UNIX_EPOCH};

use hmac::{Hmac, Mac};
use nostos::json::Json;
use nostos::stripe::{extract_subscription_ids, verify_webhook, DEFAULT_TOLERANCE_SECS};
use sha2::Sha256;

fn sign(timestamp: i64, body: &[u8], secret: &str) -> String {
    let mut mac = Hmac::<Sha256>::new_from_slice(secret.as_bytes()).unwrap();
    mac.update(timestamp.to_string().as_bytes());
    mac.update(b".");
    mac.update(body);
    format!(
        "t={timestamp},v1={}",
        hex::encode(mac.finalize().into_bytes())
    )
}

#[test]
fn verifies_a_well_formed_webhook() {
    let secret = "whsec_test";
    let body = br#"{"type":"checkout.session.completed"}"#;
    let now = SystemTime::now()
        .duration_since(UNIX_EPOCH)
        .unwrap()
        .as_secs() as i64;
    let header = sign(now, body, secret);
    verify_webhook(&header, body, secret, DEFAULT_TOLERANCE_SECS).unwrap();
}

#[test]
fn rejects_tampered_body() {
    let secret = "whsec_test";
    let body = br#"{"type":"x"}"#;
    let now = SystemTime::now()
        .duration_since(UNIX_EPOCH)
        .unwrap()
        .as_secs() as i64;
    let header = sign(now, body, secret);
    let tampered = br#"{"type":"y"}"#;
    assert!(verify_webhook(&header, tampered, secret, DEFAULT_TOLERANCE_SECS).is_err());
}

#[test]
fn rejects_replay_outside_tolerance() {
    let secret = "whsec_test";
    let body = b"x";
    let old = SystemTime::now()
        .duration_since(UNIX_EPOCH)
        .unwrap()
        .as_secs() as i64
        - 3600;
    let header = sign(old, body, secret);
    assert!(verify_webhook(&header, body, secret, DEFAULT_TOLERANCE_SECS).is_err());
}

#[test]
fn extracts_sub_and_customer_from_checkout_object() {
    let obj = Json::Record(vec![
        ("subscription".to_string(), Json::Text("sub_abc".to_string())),
        ("customer".to_string(), Json::Text("cus_xyz".to_string())),
    ]);
    let (sub, cust) = extract_subscription_ids(&obj).unwrap();
    assert_eq!(sub, "sub_abc");
    assert_eq!(cust, "cus_xyz");
}
