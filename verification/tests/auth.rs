//! Tokens of the identity provider.

use hmac::{Hmac, Mac};
use nostos::auth::{Hs256Verifier, JwtVerifier, TestVerifier};
use nostos::base64url::base64url_encode;
use sha2::Sha256;

fn fake_jwt(sub: &str) -> String {
    let header = base64url_encode(br#"{"alg":"HS256","typ":"JWT"}"#);
    let payload = base64url_encode(format!("{{\"sub\":\"{sub}\"}}").as_bytes());
    format!("{header}.{payload}.sig")
}

#[test]
fn jwt_verifier_resolves_sub() {
    let verifier = TestVerifier;
    assert_eq!(
        verifier.verify_sub(&fake_jwt("user_42")),
        Some("user_42".into())
    );
}

#[test]
fn hs256_verifier_rejects_bad_signature() {
    let v = Hs256Verifier::new(b"secret".to_vec());
    let token = fake_jwt("user_42");
    assert!(v.verify_sub(&token).is_none());
}

#[test]
fn hs256_verifier_accepts_real_signature() {
    let secret = b"super-secret";
    let header = base64url_encode(br#"{"alg":"HS256","typ":"JWT"}"#);
    let payload = base64url_encode(br#"{"sub":"real_user"}"#);
    let signing = format!("{header}.{payload}").into_bytes();
    let mut mac = Hmac::<Sha256>::new_from_slice(secret).unwrap();
    mac.update(&signing);
    let sig = base64url_encode(&mac.finalize().into_bytes());
    let token = format!("{header}.{payload}.{sig}");
    let v = Hs256Verifier::new(secret.to_vec());
    assert_eq!(v.verify_sub(&token).as_deref(), Some("real_user"));
}
