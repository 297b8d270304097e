//! The decisions of the control plane.

use hmac::{Hmac, Mac};
use nostos::auth::{accept_claims, Hs256Verifier, TestVerifier};
use nostos::base64url::base64url_encode;
use nostos::config::Config;
use nostos::identity::{hash_password, id_of, random_id, verify_password};
use nostos::json::Json;
use nostos::license::{LicenseClaims, LicenseError};
use nostos::payments::{
    stripe_outcome, CheckoutRequest, PaymentError, PaymentProvider, PaypalProvider,
};
use nostos::records::{
    listed_keys, role_for_signup, Account, ApiKey, ListedKey, Project, Role, Subscription,
};
use nostos::routes::{
    admin_path, bearer_token, check_login, check_signup, check_waitlist_email, confirm_session,
    current_account_id, identify, license_claims, own_account, plan_checkout, price_to_tier, provision,
    stripe_webhook, stripe_webhook_at, ApiError, Header, Identity, LICENSE_VALID_SECS,
};
use nostos::stripe::{
    checkout_form, checkout_reply, parse_event, read_signature, verify_webhook_at,
    CheckoutSession, CreateCheckout, StripeError,
};
use nostos::tier::Tier;
use sha2::Sha256;

fn text(s: &str) -> Json {
    Json::Text(s.to_string())
}

fn record(fields: Vec<(&str, Json)>) -> Json {
    Json::Record(fields.into_iter().map(|(k, v)| (k.to_string(), v)).collect())
}

fn prices() -> Vec<(Tier, String)> {
    vec![
        (Tier::Pro, "price_pro".to_string()),
        (Tier::Scale, "price_scale".to_string()),
    ]
}

fn tag(key: &[u8], data: &[u8]) -> Vec<u8> {
    let mut mac = Hmac::<Sha256>::new_from_slice(key).unwrap();
    mac.update(data);
    mac.finalize().into_bytes().to_vec()
}

fn signed_header(time: i64, body: &[u8], secret: &str) -> String {
    let mut data = format!("{time}.").into_bytes();
    data.extend_from_slice(body);
    format!("t={time},v1={}", hex::encode(tag(secret.as_bytes(), &data)))
}

fn items(list: &str, price: &str) -> Json {
    record(vec![(
        list,
        record(vec![(
            "data",
            Json::List(vec![record(vec![("price", record(vec![("id", text(price))]))])]),
        )]),
    )])
}

fn account(id: &str) -> Account {
    Account {
        id: id.to_string(),
        email: format!("{id}@nostos.run"),
        password_hash: hash_password("password123"),
        role: Role::Member,
        created_at: 0,
    }
}

fn subscription(status: &str) -> Subscription {
    Subscription {
        id: "s".to_string(),
        project_id: "p".to_string(),
        stripe_customer_id: "c".to_string(),
        stripe_subscription_id: "s".to_string(),
        tier: Tier::Scale,
        status: status.to_string(),
        created_at: 0,
    }
}

fn said(status: u16, message: &str) -> ApiError {
    ApiError(status, message.to_string())
}

#[test]
fn first_signup_is_founder() {
    let acc = Account::create("f@nostos.run", "h", role_for_signup(0));
    assert_eq!(acc.role, Role::Founder);
    assert_eq!(role_for_signup(1), Role::Member);
}

#[test]
fn price_to_tier_maps_known_price() {
    assert_eq!(price_to_tier(&items("line_items", "price_pro"), &prices()), Tier::Pro);
    assert_eq!(price_to_tier(&items("items", "price_scale"), &prices()), Tier::Scale);
}

#[test]
fn price_to_tier_defaults_pro_for_unknown() {
    assert_eq!(price_to_tier(&record(vec![]), &prices()), Tier::Pro);
    assert_eq!(price_to_tier(&items("items", "price_x"), &prices()), Tier::Pro);
}

#[test]
fn mint_license_yields_hobby_without_subscription() {
    let claims = license_claims("proj_1", None, 1_000);
    let token = claims.sign(b"test-secret");
    assert!(token.contains('.'), "license is payload.sig");
    let back = LicenseClaims::verify(&token, b"test-secret").unwrap();
    assert_eq!(back.tier, Tier::Hobby);
    assert_eq!(back.project_id, "proj_1");
    assert_eq!(back.expires_at, 1_000 + LICENSE_VALID_SECS);
    assert_eq!(
        LicenseClaims::verify(&token, b"other"),
        Err(LicenseError::BadSignature)
    );
    assert_eq!(
        LicenseClaims::verify("nothing", b"other"),
        Err(LicenseError::Malformed)
    );
}

#[test]
fn a_license_goes_by_the_active_subscription() {
    assert_eq!(license_claims("p", Some(subscription("active")), 0).tier, Tier::Scale);
    assert_eq!(license_claims("p", Some(subscription("canceled")), 0).tier, Tier::Hobby);
}

#[test]
fn signups_are_checked() {
    assert!(check_signup("a@b.c", "12345678").is_ok());
    let no = said(400, "email required and password >= 8 chars");
    assert_eq!(check_signup("  ", "12345678"), Err(no.clone()));
    assert_eq!(check_signup("a@b.c", "1234567"), Err(no));
}

#[test]
fn logins_are_checked() {
    let a = account("acc_1");
    assert!(check_login(Some(&a), "password123").is_ok());
    assert_eq!(
        check_login(Some(&a), "password124"),
        Err(said(400, "invalid credentials"))
    );
    assert_eq!(
        check_login(None, "password123"),
        Err(said(400, "invalid credentials"))
    );
}

#[test]
fn passwords_are_digests() {
    assert_eq!(
        hash_password("abc"),
        "ba7816bf8f01cfea414140de5dae2223b00361a396177a9cb410ff61f20015ad"
    );
    assert!(verify_password("abc", &hash_password("abc")));
    assert!(!verify_password("abd", &hash_password("abc")));
}

#[test]
fn ids_are_random() {
    let a = random_id();
    assert_eq!(a.len(), 24);
    assert!(a.chars().all(|c| c.is_ascii_hexdigit() && !c.is_ascii_uppercase()));
    assert_ne!(a, random_id());
    assert!(Project::create("acc", "P").id.starts_with("proj_"));
    let key = ApiKey::create("proj");
    assert!(key.id.starts_with("key_") && key.key.starts_with("cak_"));
}

#[test]
fn a_list_of_keys_does_not_show_them() {
    let a = ApiKey::create("p");
    let b = ApiKey::create("q");
    let of = |k: &ApiKey| ListedKey {
        id: k.id.clone(),
        project_id: k.project_id.clone(),
        created_at: k.created_at,
    };
    let expected = vec![of(&a), of(&b)];
    assert_eq!(listed_keys(&vec![a, b]), expected);
    assert!(listed_keys(&vec![]).is_empty());
}

#[test]
fn bearers() {
    assert_eq!(bearer_token(Some("Bearer abc")).as_deref(), Some("abc"));
    assert_eq!(bearer_token(Some("Bearer ")), None);
    assert_eq!(bearer_token(Some("Basic abc")), None);
    assert_eq!(bearer_token(None), None);
}

#[test]
fn whose_request_it_is() {
    let payload = base64url_encode(br#"{"sub":"u1"}"#);
    let header = format!("Bearer h.{payload}.s");
    assert!(matches!(
        identify(Some(&TestVerifier), Some(&header), Some("acc_1")),
        Identity::Account(id) if id == "u1"
    ));
    assert!(matches!(
        identify(Some(&TestVerifier), Some("Bearer x"), Some("acc_1")),
        Identity::Session(id) if id == "acc_1"
    ));
    assert!(matches!(
        identify::<TestVerifier>(None, Some(&header), None),
        Identity::Refused(e) if e == said(401, "not authenticated")
    ));
    let accounts = vec![account("acc_0"), account("acc_1")];
    let of = |header: Option<&str>, session: Option<&str>, accounts: &Vec<Account>| {
        current_account_id(Some(&TestVerifier), header, session, accounts)
    };
    assert_eq!(of(Some(&header), None, &accounts), Err(said(401, "session invalid")));
    assert_eq!(of(Some(&header), Some("acc_1"), &accounts), Err(said(401, "session invalid")));
    assert_eq!(of(Some("Bearer x"), Some("acc_1"), &accounts), Ok("acc_1".to_string()));
    assert_eq!(of(None, None, &accounts), Err(said(401, "not authenticated")));
    assert_eq!(of(Some(&header), None, &vec![account("u1")]), Ok("u1".to_string()));
    assert_eq!(confirm_session("acc_1", &accounts), Ok("acc_1".to_string()));
    assert_eq!(
        confirm_session("acc_2", &accounts),
        Err(said(401, "session invalid"))
    );
    assert_eq!(own_account("acc_1", &accounts).unwrap().email, "acc_1@nostos.run");
    assert!(matches!(
        own_account("acc_2", &accounts),
        Err(e) if e == said(401, "no such account")
    ));
}

#[test]
fn tokens_expire_after_the_leeway() {
    let payload = base64url_encode(br#"{"sub":"u1","exp":1000}"#);
    assert_eq!(accept_claims(&payload, 1060).as_deref(), Some("u1"));
    assert_eq!(accept_claims(&payload, 1061), None);
    let never = base64url_encode(br#"{"sub":"u1"}"#);
    assert_eq!(accept_claims(&never, i64::MAX).as_deref(), Some("u1"));
    let no_sub = base64url_encode(br#"{"exp":1000}"#);
    assert_eq!(accept_claims(&no_sub, 0), None);
    let signed = format!("h.{payload}");
    let token = format!("{signed}.{}", base64url_encode(&tag(b"k", signed.as_bytes())));
    let v = Hs256Verifier::new(b"k".to_vec());
    assert_eq!(v.verify_sub_at(&token, 1000).as_deref(), Some("u1"));
    assert_eq!(v.verify_sub_at(&token, 2000), None);
    assert_eq!(v.verify_sub_at("h.p", 0), None);
}

#[test]
fn checkouts_are_planned() {
    let p = plan_checkout(Some("sk"), &prices(), Tier::Scale, "http://x//", "p1").unwrap();
    assert_eq!(p.price_id, "price_scale");
    assert_eq!(p.success_url, "http://x/v1/projects/p1/checkout/ok");
    assert_eq!(p.cancel_url, "http://x/admin/#/projects/p1");
    assert_eq!(p.client_reference_id, "p1");
    assert_eq!(admin_path("p1"), "/admin/#/projects/p1");
    assert!(matches!(
        plan_checkout(None, &prices(), Tier::Pro, "http://x", "p1"),
        Err(e) if e == said(503, "Stripe not configured")
    ));
    assert!(matches!(
        plan_checkout(Some("sk"), &prices(), Tier::Enterprise, "http://x", "p1"),
        Err(e) if e == said(503, "no price configured for tier")
    ));
}

#[test]
fn checkout_fields_and_replies() {
    let req = CreateCheckout {
        price_id: "price",
        success_url: "ok",
        cancel_url: "no",
        client_reference_id: "p1",
    };
    let form = checkout_form(&req);
    assert_eq!(form.len(), 6);
    assert_eq!(form[0], ("mode".to_string(), "subscription".to_string()));
    assert_eq!(
        form[1],
        ("line_items[0][price]".to_string(), "price".to_string())
    );
    let ok = checkout_reply(true, "200 OK", r#"{"id":"cs_1","url":"http://pay","x":1}"#).unwrap();
    assert_eq!((ok.url.as_str(), ok.id.as_str()), ("http://pay", "cs_1"));
    assert!(matches!(
        checkout_reply(true, "200 OK", "{}"),
        Err(StripeError::Http(e)) if e == "error decoding response body"
    ));
    let refused = checkout_reply(false, "402 Payment Required", "broke").unwrap_err();
    assert_eq!(refused.to_text(), "stripe api error: 402 Payment Required: broke");
    assert!(matches!(
        stripe_outcome(Err(refused)),
        Err(PaymentError::Other(e)) if e == "stripe api error: 402 Payment Required: broke"
    ));
    let session = CheckoutSession {
        url: "u".to_string(),
        id: "i".to_string(),
    };
    assert_eq!(stripe_outcome(Ok(session)).unwrap().url, "u");
}

#[test]
fn paypal_is_not_written_yet() {
    let req = CheckoutRequest {
        tier: Tier::Pro,
        price_id: "p",
        success_url: "s",
        cancel_url: "c",
        client_reference_id: "r",
    };
    assert_eq!(PaypalProvider.name(), "paypal");
    assert_eq!(
        PaypalProvider.create_checkout(&req).unwrap_err().to_text(),
        "the paypal provider is configured but not yet implemented"
    );
}

fn why(r: Result<(i64, Vec<u8>), StripeError>) -> String {
    match r {
        Err(StripeError::BadSignature(e)) => e,
        _ => String::new(),
    }
}

#[test]
fn signature_headers() {
    assert_eq!(
        read_signature("t=1,v1=00, t=7,t= 5 ,v1= ff ", 10, 5).unwrap(),
        (5, vec![255])
    );
    assert_eq!(why(read_signature("v1=00", 10, 5)), "missing t");
    assert_eq!(why(read_signature("t=5,t=x,v1=00", 10, 5)), "missing t");
    assert_eq!(why(read_signature("t=5", 10, 5)), "missing v1");
    assert_eq!(
        why(read_signature("t=16,v1=00", 10, 5)),
        "timestamp outside tolerance"
    );
    assert_eq!(
        why(read_signature("t=-9223372036854775808,v1=00", 10, 5)),
        "timestamp outside tolerance"
    );
    assert_eq!(why(read_signature("t=5,v1=0", 10, 5)), "v1 not hex");
}

#[test]
fn messages_are_verified_at_a_time() {
    let body = b"x";
    let header = signed_header(100, body, "whsec");
    assert!(verify_webhook_at(&header, body, "whsec", 300, 400).is_ok());
    assert!(verify_webhook_at(&header, body, "whsec", 300, 401).is_err());
    assert_eq!(
        verify_webhook_at(&header, b"y", "whsec", 300, 100)
            .unwrap_err()
            .to_text(),
        "webhook signature invalid: hmac mismatch"
    );
}

const CHECKOUT: &[u8] = br#"{"id":"evt_1","type":"checkout.session.completed","data":{"object":{"subscription":"sub_1","customer":"cus_1","client_reference_id":"proj_1","line_items":{"data":[{"price":{"id":"price_scale"}}]}}}}"#;

#[test]
fn a_message_of_the_provider_provisions() {
    let header = signed_header(100, CHECKOUT, "whsec");
    let s = stripe_webhook_at(Header::Text(&header), CHECKOUT, Some("whsec"), &prices(), 110)
        .unwrap()
        .unwrap();
    assert_eq!(s.id, "sub_1");
    assert_eq!(s.stripe_subscription_id, "sub_1");
    assert_eq!(s.stripe_customer_id, "cus_1");
    assert_eq!(s.project_id, "proj_1");
    assert_eq!(s.tier, Tier::Scale);
    assert_eq!(s.status, "active");
    assert_eq!(s.created_at, 110);
}

fn refused(r: Result<Option<Subscription>, ApiError>) -> ApiError {
    match r {
        Err(e) => e,
        Ok(_) => said(200, ""),
    }
}

#[test]
fn messages_that_are_refused() {
    let header = signed_header(100, b"x", "whsec");
    assert_eq!(
        refused(stripe_webhook(Header::Missing, b"x", Some("whsec"), &prices())),
        said(400, "missing Stripe-Signature header")
    );
    assert_eq!(
        refused(stripe_webhook(Header::Unreadable, b"x", Some("whsec"), &prices())),
        said(400, "invalid header")
    );
    assert_eq!(
        refused(stripe_webhook(Header::Text(&header), b"x", None, &prices())),
        said(400, "webhook secret not configured")
    );
    assert_eq!(
        refused(stripe_webhook(Header::Text(&header), b"x", Some("whsec"), &prices())),
        said(400, "webhook signature invalid: timestamp outside tolerance")
    );
    assert_eq!(
        refused(stripe_webhook_at(
            Header::Text(&header),
            b"x",
            Some("whsec"),
            &prices(),
            100
        )),
        said(400, "bad json: expected value at line 1 column 1")
    );
}

#[test]
fn messages_without_a_project_are_passed_over() {
    let object = record(vec![("id", text("sub_2")), ("customer", text("cus_2"))]);
    assert!(provision(&object, &prices(), 0).is_none());
    assert!(provision(&record(vec![("client_reference_id", text("p"))]), &prices(), 0).is_none());
    let event = parse_event(CHECKOUT).unwrap();
    assert_eq!(event.id, "evt_1");
    assert_eq!(event.event_type, "checkout.session.completed");
    assert!(parse_event(br#"{"id":"e","type":"t","data":{}}"#).is_none());
}

#[test]
fn waiting_list_addresses() {
    assert!(check_waitlist_email("w@nostos.run").is_ok());
    assert_eq!(check_waitlist_email("w"), Err(said(400, "valid email required")));
    assert_eq!(check_waitlist_email(" "), Err(said(400, "valid email required")));
}

#[test]
fn roles_read_back() {
    for role in [Role::Founder, Role::Member] {
        assert_eq!(Role::parse(role.as_str()), Some(role));
    }
    assert_eq!(Role::parse("boss"), None);
    assert_eq!(Role::stored("boss"), Role::Member);
}

#[test]
fn prices_that_are_set() {
    let config = Config {
        bind: String::new(),
        license_secret: String::new(),
        db: String::new(),
        stripe_secret_key: None,
        stripe_webhook_secret: None,
        price_pro: Some("a".to_string()),
        price_scale: None,
        price_enterprise: Some("c".to_string()),
        public_base_url: String::new(),
        supabase_jwt_secret: None,
        log: String::new(),
    };
    assert_eq!(
        config.price_ids(),
        vec![(Tier::Pro, "a".to_string()), (Tier::Enterprise, "c".to_string())]
    );
}

#[test]
fn an_id_is_the_digits_of_its_bytes() {
    assert_eq!(id_of(&[0, 1, 0xab, 0xff]), "0001abff");
    assert_eq!(random_id().len(), 24);
    assert_ne!(random_id(), random_id());
}
