//! What the control plane answers: the decisions behind each of its addresses.
//! Serving, storing and asking other services are left to the caller.

use vstd::prelude::*;
use crate::auth::JwtVerifier;
use crate::digest::{clock, clock_read};
use crate::identity::{password_hash, verify_password};
use crate::json::{json_fault, json_read, member, parse_or_fault, part, Json, JsonView};
use crate::license::{ClaimsView, LicenseClaims};
use crate::records::{account_place, find_account, Account, Subscription};
use crate::stripe::{
    extract_subscription_ids, member_text, named_ids, parse_event, read_event, refusal,
    stripe_error_text, text_member, verify_webhook_at, StripeError, DEFAULT_TOLERANCE_SECS,
};
use crate::text::{chars_of, same_text, slice_text, trim_text, trimmed};
use crate::tier::Tier;
use crate::transport::optional_str;

verus! {

/// How long a license is granted for, in seconds: a year.
pub const LICENSE_VALID_SECS: i64 = 31_536_000;

/// The name of the cookie that holds a session.
pub const SESSION_COOKIE: &'static str = "nostos_session";

/// A refusal: its status and its message.
#[derive(Debug, Clone, PartialEq, Eq)]
pub struct ApiError(pub u16, pub String);

/// Whether an error has the given status and message.
pub open spec fn says(e: ApiError, status: u16, message: Seq<char>) -> bool {
    e.0 == status && e.1@ == message
}

impl ApiError {
    /// The refusal of a request that is wrong in itself.
    pub fn bad(msg: &str) -> (r: Self)
        ensures
            says(r, 400, msg@),
    {
        ApiError(400, msg.to_owned())
    }

    /// What is answered where the payment provider failed: a message that is not
    /// from it is the fault of whoever sent it.
    pub fn of_stripe(e: &StripeError) -> (r: Self)
        ensures
            says(
                r,
                if e is BadSignature {
                    400
                } else {
                    500
                },
                stripe_error_text(*e),
            ),
    {
        let status: u16 = match e {
            StripeError::BadSignature(_) => 400,
            _ => 500,
        };
        ApiError(status, e.to_text())
    }

    /// What is answered where something failed inside.
    pub fn internal(msg: &str) -> (r: Self)
        ensures
            says(r, 500, msg@),
    {
        ApiError(500, msg.to_owned())
    }
}

// ---- accounts ----

/// Whether an account may be made: an email address that is not blank, and a password
/// of at least eight bytes.
pub open spec fn may_sign_up(email: Seq<char>, password: Seq<char>) -> bool {
    trimmed(email).len() > 0 && vstd::utf8::encode_utf8(password).len() >= 8
}

/// Checks that an account may be made.
pub fn check_signup(email: &str, password: &str) -> (r: Result<(), ApiError>)
    ensures
        may_sign_up(email@, password@) ==> r is Ok,
        !may_sign_up(email@, password@) ==> (r matches Err(e) && says(
            e,
            400,
            "email required and password >= 8 chars"@,
        )),
{
    let address = trim_text(email);
    let bytes = password.as_bytes_vec();
    if address.as_str().is_empty() || bytes.len() < 8 {
        return Err(ApiError::bad("email required and password >= 8 chars"));
    }
    Ok(())
}

/// Checks the password against the account that was found under the email address.
/// Whether there is such an account is not told.
pub fn check_login(account: Option<&Account>, password: &str) -> (r: Result<(), ApiError>)
    ensures
        r is Ok <==> account is Some && password_hash(password@) == account->0.password_hash@,
        r is Err ==> says(r->Err_0, 400, "invalid credentials"@),
{
    match account {
        Some(a) => if verify_password(password, a.password_hash.as_str()) {
            Ok(())
        } else {
            Err(ApiError::bad("invalid credentials"))
        },
        None => Err(ApiError::bad("invalid credentials")),
    }
}

/// The token that an authorization header bears.
pub open spec fn borne(header: Option<Seq<char>>) -> Option<Seq<char>> {
    match header {
        Some(h) => if h.len() > 7 && h.take(7) == "Bearer "@ {
            Some(h.skip(7))
        } else {
            None
        },
        None => None,
    }
}

/// The token that an authorization header bears.
pub fn bearer_token(authorization: Option<&str>) -> (r: Option<String>)
    ensures
        match borne(optional_str(authorization)) {
            Some(t) => r matches Some(s) && s@ == t,
            None => r is None,
        },
{
    match authorization {
        Some(h) => {
            let chars = chars_of(h);
            let n: usize = chars.len();
            if n > 7 {
                let word = slice_text(&chars, 0, 7);
                assert(h@.subrange(0, 7) =~= h@.take(7));
                if same_text(word.as_str(), "Bearer ") {
                    assert(h@.subrange(7, n as int) =~= h@.skip(7));
                    return Some(slice_text(&chars, 7, n));
                }
            }
            None
        },
        None => None,
    }
}

/// Whom a request names.
pub enum Identity {
    /// The account that an accepted token names.
    Account(String),
    /// The account that the session names.
    Session(String),
    /// Nobody.
    Refused(ApiError),
}

/// Whom a request names: an accepted token counts before the session.
pub fn choose_identity(sub: Option<String>, session: Option<&str>) -> (r: Identity)
    ensures
        match sub {
            Some(s) => r matches Identity::Account(id) && id@ == s@,
            None => match session {
                Some(s) => r matches Identity::Session(id) && id@ == s@,
                None => r matches Identity::Refused(e) && says(e, 401, "not authenticated"@),
            },
        },
{
    match sub {
        Some(s) => Identity::Account(s),
        None => match session {
            Some(s) => Identity::Session(s.to_owned()),
            None => Identity::Refused(ApiError(401, "not authenticated".to_owned())),
        },
    }
}

/// Whom a request names. A token counts only where tokens are verified, and a token
/// that is not accepted leaves the session.
pub fn identify<V: JwtVerifier>(
    verifier: Option<&V>,
    authorization: Option<&str>,
    session: Option<&str>,
) -> (r: Identity)
    ensures
        match (verifier, borne(optional_str(authorization))) {
            (Some(v), Some(t)) => exists|token: &str, sub: Option<String>| #[trigger]
                call_ensures(V::verify_sub, (v, token), sub) && token@ == t && match sub {
                    Some(s) => r matches Identity::Account(id) && id@ == s@,
                    None => match session {
                        Some(s) => r matches Identity::Session(id) && id@ == s@,
                        None => r matches Identity::Refused(e) && says(
                            e,
                            401,
                            "not authenticated"@,
                        ),
                    },
                },
            _ => match session {
                Some(s) => r matches Identity::Session(id) && id@ == s@,
                None => r matches Identity::Refused(e) && says(e, 401, "not authenticated"@),
            },
        },
{
    match verifier {
        Some(v) => match bearer_token(authorization) {
            Some(token) => {
                let sub = v.verify_sub(token.as_str());
                choose_identity(sub, session)
            },
            None => choose_identity(None, session),
        },
        None => choose_identity(None, session),
    }
}

/// Checks that a session names an account that is there.
pub fn confirm_session(id: &str, accounts: &Vec<Account>) -> (r: Result<String, ApiError>)
    ensures
        account_place(accounts@, id@, 0) < accounts@.len() ==> (r matches Ok(s) && s@ == id@),
        account_place(accounts@, id@, 0) >= accounts@.len() ==> (r matches Err(e) && says(
            e,
            401,
            "session invalid"@,
        )),
{
    match find_account(accounts, id) {
        Some(_) => Ok(id.to_owned()),
        None => Err(ApiError(401, "session invalid".to_owned())),
    }
}

/// The account that a request is let in as: the one that it names, by a token or by a
/// session, where that account is there.
pub open spec fn let_in(named: Identity, accounts: Seq<Account>) -> Option<Seq<char>> {
    match named {
        Identity::Account(id) | Identity::Session(id) => if account_place(accounts, id@, 0)
            < accounts.len() {
            Some(id@)
        } else {
            None
        },
        Identity::Refused(_) => None,
    }
}

/// Checks whom a request names against the accounts. An account that is not there is
/// refused, by whichever credential it was named.
pub fn confirm_identity(named: Identity, accounts: &Vec<Account>) -> (r: Result<String, ApiError>)
    ensures
        match let_in(named, accounts@) {
            Some(id) => r matches Ok(s) && s@ == id,
            None => match named {
                Identity::Refused(e) => r matches Err(f) && f == e,
                _ => r matches Err(e) && says(e, 401, "session invalid"@),
            },
        },
{
    match named {
        Identity::Account(id) => confirm_session(id.as_str(), accounts),
        Identity::Session(id) => confirm_session(id.as_str(), accounts),
        Identity::Refused(e) => Err(e),
    }
}

/// The account of a request: the one that an accepted token names, else the one that
/// the session names, and in either case one that is there.
pub fn current_account_id<V: JwtVerifier>(
    verifier: Option<&V>,
    authorization: Option<&str>,
    session: Option<&str>,
    accounts: &Vec<Account>,
) -> (r: Result<String, ApiError>)
    ensures
        r is Ok ==> account_place(accounts@, r->Ok_0@, 0) < accounts@.len(),
        r is Err ==> r->Err_0.0 == 401,
        match (verifier, borne(optional_str(authorization))) {
            (Some(v), Some(t)) => exists|token: &str, sub: Option<String>| #[trigger]
                call_ensures(V::verify_sub, (v, token), sub) && token@ == t && account_answer(
                    named_by(sub, session),
                    accounts@,
                    r,
                ),
            _ => account_answer(named_by(None, session), accounts@, r),
        },
{
    confirm_identity(identify(verifier, authorization, session), accounts)
}

/// The account that is named: by an accepted token, else by the session.
pub open spec fn named_by(sub: Option<String>, session: Option<&str>) -> Option<Seq<char>> {
    match sub {
        Some(s) => Some(s@),
        None => optional_str(session),
    }
}

/// Whether `r` is the answer to a request that names an account, or none.
pub open spec fn account_answer(
    named: Option<Seq<char>>,
    accounts: Seq<Account>,
    r: Result<String, ApiError>,
) -> bool {
    match named {
        Some(id) => if account_place(accounts, id, 0) < accounts.len() {
            r is Ok && r->Ok_0@ == id
        } else {
            r is Err && says(r->Err_0, 401, "session invalid"@)
        },
        None => r is Err && says(r->Err_0, 401, "not authenticated"@),
    }
}

/// The account of a request.
pub fn own_account<'a>(id: &str, accounts: &'a Vec<Account>) -> (r: Result<&'a Account, ApiError>)
    ensures
        ({
            let i = account_place(accounts@, id@, 0);
            &&& i < accounts@.len() ==> (r matches Ok(a) && *a == accounts@[i])
            &&& i >= accounts@.len() ==> (r matches Err(e) && says(e, 401, "no such account"@))
        }),
{
    match find_account(accounts, id) {
        Some(a) => Ok(a),
        None => Err(ApiError(401, "no such account".to_owned())),
    }
}

// ---- billing ----

/// The price of a tier: the first one that is set for it.
pub open spec fn set_price(prices: Seq<(Tier, String)>, tier: Tier) -> Option<Seq<char>>
    decreases prices.len(),
{
    if prices.len() == 0 {
        None
    } else if prices[0].0 == tier {
        Some(prices[0].1@)
    } else {
        set_price(prices.drop_first(), tier)
    }
}

/// The price of a tier.
pub fn price_for<'a>(prices: &'a Vec<(Tier, String)>, tier: Tier) -> (r: Option<&'a str>)
    ensures
        optional_str(r) == set_price(prices@, tier),
{
    let mut i: usize = 0;
    assert(prices@.skip(0) =~= prices@);
    while i < prices.len()
        invariant
            i <= prices@.len(),
            set_price(prices@, tier) == set_price(prices@.skip(i as int), tier),
        decreases prices@.len() - i,
    {
        if prices[i].0 == tier {
            return Some(prices[i].1.as_str());
        }
        assert(prices@.skip(i as int).drop_first() =~= prices@.skip(i + 1));
        i += 1;
    }
    None
}

/// An address without the slashes at its end.
pub open spec fn without_slashes(s: Seq<char>) -> Seq<char>
    decreases s.len(),
{
    if s.len() > 0 && s.last() == '/' {
        without_slashes(s.drop_last())
    } else {
        s
    }
}

/// An address without the slashes at its end.
fn strip_slashes(s: &str) -> (r: String)
    ensures
        r@ == without_slashes(s@),
{
    let chars = chars_of(s);
    let mut n: usize = chars.len();
    assert(chars@.take(n as int) =~= chars@);
    while n > 0 && chars[n - 1] == '/'
        invariant
            n <= chars@.len(),
            chars@ == s@,
            without_slashes(s@) == without_slashes(chars@.take(n as int)),
        decreases n,
    {
        assert(chars@.take(n as int).drop_last() =~= chars@.take(n - 1));
        n -= 1;
    }
    assert(chars@.subrange(0, n as int) =~= chars@.take(n as int));
    slice_text(&chars, 0, n)
}

/// Where the admin page of a project is.
pub open spec fn project_page(id: Seq<char>) -> Seq<char> {
    "/admin/#/projects/"@ + id
}

/// Where the admin page of a project is: the buyer goes there after a checkout.
pub fn admin_path(id: &str) -> (r: String)
    ensures
        r@ == project_page(id@),
{
    let mut out: String = "/admin/#/projects/".to_owned();
    out.append(id);
    out
}

/// A checkout that is to be asked for.
pub struct CheckoutPlan {
    /// The secret of the provider.
    pub secret: String,
    pub price_id: String,
    pub success_url: String,
    pub cancel_url: String,
    pub client_reference_id: String,
}

/// The checkout of a tier for a project. There is none where the provider or the
/// price of the tier is not set.
pub fn plan_checkout(
    secret: Option<&str>,
    prices: &Vec<(Tier, String)>,
    tier: Tier,
    public_base_url: &str,
    id: &str,
) -> (r: Result<CheckoutPlan, ApiError>)
    ensures
        match (secret, set_price(prices@, tier)) {
            (None, _) => r matches Err(e) && says(e, 503, "Stripe not configured"@),
            (Some(_), None) => r matches Err(e) && says(e, 503, "no price configured for tier"@),
            (Some(s), Some(price)) => r matches Ok(p) && p.secret@ == s@ && p.price_id@ == price
                && p.success_url@ == without_slashes(public_base_url@) + "/v1/projects/"@ + id@
                + "/checkout/ok"@ && p.cancel_url@ == without_slashes(public_base_url@)
                + project_page(id@) && p.client_reference_id@ == id@,
        },
{
    let secret = match secret {
        Some(s) => s,
        None => {
            return Err(ApiError(503, "Stripe not configured".to_owned()));
        },
    };
    let price_id = match price_for(prices, tier) {
        Some(p) => p,
        None => {
            return Err(ApiError(503, "no price configured for tier".to_owned()));
        },
    };
    let base = strip_slashes(public_base_url);
    let mut success_url: String = base.clone();
    success_url.append("/v1/projects/");
    success_url.append(id);
    success_url.append("/checkout/ok");
    let page = admin_path(id);
    let mut cancel_url: String = base;
    cancel_url.append(page.as_str());
    Ok(
        CheckoutPlan {
            secret: secret.to_owned(),
            price_id: price_id.to_owned(),
            success_url,
            cancel_url,
            client_reference_id: id.to_owned(),
        },
    )
}

/// The tier that a project is licensed for: that of its subscription while it is
/// active, else the free one.
pub open spec fn licensed_tier(subscription: Option<Subscription>) -> Tier {
    match subscription {
        Some(s) => if s.status@ == "active"@ {
            s.tier
        } else {
            Tier::Hobby
        },
        None => Tier::Hobby,
    }
}

/// What the license of a project grants at `now`.
pub fn license_claims(project_id: &str, subscription: Option<Subscription>, now: i64) -> (r:
    LicenseClaims)
    requires
        now <= i64::MAX - 31_536_000,
    ensures
        r@ == (ClaimsView {
            project_id: project_id@,
            tier: licensed_tier(subscription),
            expires_at: (now + 31_536_000) as i64,
            device_cap: None,
        }),
{
    let tier = match &subscription {
        Some(s) => if same_text(s.status.as_str(), "active") {
            s.tier
        } else {
            Tier::Hobby
        },
        None => Tier::Hobby,
    };
    LicenseClaims {
        project_id: project_id.to_owned(),
        tier,
        expires_at: now + LICENSE_VALID_SECS,
        device_cap: None,
    }
}

// ---- messages of the payment provider ----

/// The member of a record.
pub open spec fn within(v: Option<JsonView>, name: Seq<char>) -> Option<JsonView> {
    match v {
        Some(JsonView::Record(fields)) => member(fields, name),
        _ => None,
    }
}

/// The first of a list, or the member of a record that is called `0`.
pub open spec fn first_of(v: Option<JsonView>) -> Option<JsonView> {
    match v {
        Some(x) => part(x, 0, "0"@),
        None => None,
    }
}

/// The price of the first of the items that an object lists under the given name.
pub open spec fn listed_price(v: JsonView, list: Seq<char>) -> Option<Seq<char>> {
    match within(
        within(first_of(within(within(Some(v), list), "data"@)), "price"@),
        "id"@,
    ) {
        Some(JsonView::Text(s)) => Some(s),
        _ => None,
    }
}

/// The price that an object is about; the empty text where it names none.
pub open spec fn object_price(v: JsonView) -> Seq<char> {
    match listed_price(v, "line_items"@) {
        Some(p) => p,
        None => match listed_price(v, "items"@) {
            Some(p) => p,
            None => seq![],
        },
    }
}

/// The first tier with the given price; a price that is not known is that of the
/// tier `Pro`.
pub open spec fn tier_of_price(prices: Seq<(Tier, String)>, price: Seq<char>) -> Tier
    decreases prices.len(),
{
    if prices.len() == 0 {
        Tier::Pro
    } else if prices[0].1@ == price {
        prices[0].0
    } else {
        tier_of_price(prices.drop_first(), price)
    }
}

/// The member of a record.
fn step_in<'a>(v: Option<&'a Json>, name: &str) -> (r: Option<&'a Json>)
    ensures
        ({
            let start = match v {
                Some(x) => Some(x@),
                None => None,
            };
            match within(start, name@) {
                Some(y) => r matches Some(z) && z@ == y,
                None => r is None,
            }
        }),
{
    match v {
        Some(x) => x.field(name),
        None => None,
    }
}

/// The price of the first of the items that an object lists under the given name.
fn price_in(object: &Json, list: &str) -> (r: Option<String>)
    ensures
        match listed_price(object@, list@) {
            Some(p) => r matches Some(s) && s@ == p,
            None => r is None,
        },
{
    let data = step_in(step_in(Some(object), list), "data");
    let first = match data {
        Some(x) => x.part(0, "0"),
        None => None,
    };
    match step_in(step_in(first, "price"), "id") {
        Some(x) => match x.as_text() {
            Some(s) => Some(s.clone()),
            None => None,
        },
        None => None,
    }
}

/// The tier of the price that an object is about.
pub fn price_to_tier(object: &Json, prices: &Vec<(Tier, String)>) -> (r: Tier)
    ensures
        r == tier_of_price(prices@, object_price(object@)),
{
    let price: String = match price_in(object, "line_items") {
        Some(p) => p,
        None => match price_in(object, "items") {
            Some(p) => p,
            None => String::new(),
        },
    };
    assert(price@ =~= object_price(object@));
    let mut i: usize = 0;
    assert(prices@.skip(0) =~= prices@);
    while i < prices.len()
        invariant
            i <= prices@.len(),
            price@ == object_price(object@),
            tier_of_price(prices@, price@) == tier_of_price(prices@.skip(i as int), price@),
        decreases prices@.len() - i,
    {
        if same_text(prices[i].1.as_str(), price.as_str()) {
            return prices[i].0;
        }
        assert(prices@.skip(i as int).drop_first() =~= prices@.skip(i + 1));
        i += 1;
    }
    Tier::Pro
}

/// The project that an object is about.
pub open spec fn object_project(v: JsonView) -> Seq<char> {
    match text_member(v, "client_reference_id"@) {
        Some(p) => p,
        None => seq![],
    }
}

/// Whether a subscription is the one that an object asks for, made at `now`.
pub open spec fn provisions(
    s: Subscription,
    object: JsonView,
    prices: Seq<(Tier, String)>,
    now: i64,
) -> bool {
    &&& named_ids(object) matches Some(ids) && s.id@ == ids.0 && s.stripe_subscription_id@ == ids.0
        && s.stripe_customer_id@ == ids.1
    &&& s.project_id@ == object_project(object)
    &&& s.tier == tier_of_price(prices, object_price(object))
    &&& s.status@ == "active"@
    &&& s.created_at == now
}

/// The subscription that an object asks for: nothing where it names no subscription,
/// no customer or no project.
pub fn provision(object: &Json, prices: &Vec<(Tier, String)>, now: i64) -> (r: Option<
    Subscription,
>)
    ensures
        r is Some <==> named_ids(object@) is Some && object_project(object@).len() > 0,
        r is Some ==> provisions(r->0, object@, prices@, now),
{
    let ids = match extract_subscription_ids(object) {
        Some(p) => p,
        None => {
            return None;
        },
    };
    let project_id: String = match member_text(object, "client_reference_id") {
        Some(p) => p,
        None => String::new(),
    };
    assert(project_id@ =~= object_project(object@));
    if project_id.as_str().is_empty() {
        return None;
    }
    let tier = price_to_tier(object, prices);
    Some(
        Subscription {
            id: ids.0.clone(),
            project_id,
            stripe_customer_id: ids.1,
            stripe_subscription_id: ids.0,
            tier,
            status: "active".to_owned(),
            created_at: now,
        },
    )
}

/// A header of a request.
pub enum Header<'a> {
    Missing,
    /// It is there, but it is no text.
    Unreadable,
    Text(&'a str),
}

/// What is said of a message that is no event: what the parser says where it is no JSON.
pub open spec fn event_fault(body: Seq<u8>) -> Seq<char> {
    "bad json: "@ + match json_read(body) {
        None => json_fault(body),
        Some(_) => "not an event"@,
    }
}

/// What comes of a message of the payment provider at `now`.
pub open spec fn webhook_answer(
    signature: Header<'_>,
    body: Seq<u8>,
    secret: Option<&str>,
    prices: Seq<(Tier, String)>,
    now: i64,
    r: Result<Option<Subscription>, ApiError>,
) -> bool {
    match (signature, secret) {
        (Header::Missing, _) => r matches Err(e) && says(
            e,
            400,
            "missing Stripe-Signature header"@,
        ),
        (Header::Unreadable, _) => r matches Err(e) && says(e, 400, "invalid header"@),
        (Header::Text(_), None) => r matches Err(e) && says(
            e,
            400,
            "webhook secret not configured"@,
        ),
        (Header::Text(header), Some(key)) => match refusal(header@, body, key@, 300, now) {
            Some(why) => r matches Err(e) && says(e, 400, "webhook signature invalid: "@ + why),
            None => match read_event(body) {
                None => r matches Err(e) && says(e, 400, event_fault(body)),
                Some(event) => r matches Ok(s) && (s is Some <==> named_ids(event.object) is Some
                    && object_project(event.object).len() > 0) && (s is Some ==> provisions(
                    s->0,
                    event.object,
                    prices,
                    now,
                )),
            },
        },
    }
}

/// Takes a message of the payment provider at `now`: refuses what is not from it, and
/// gives the subscription that is to be stored, where there is one.
pub fn stripe_webhook_at(
    signature: Header<'_>,
    body: &[u8],
    secret: Option<&str>,
    prices: &Vec<(Tier, String)>,
    now: i64,
) -> (r: Result<Option<Subscription>, ApiError>)
    ensures
        webhook_answer(signature, body@, secret, prices@, now, r),
{
    let header: &str = match signature {
        Header::Missing => {
            return Err(ApiError::bad("missing Stripe-Signature header"));
        },
        Header::Unreadable => {
            return Err(ApiError::bad("invalid header"));
        },
        Header::Text(h) => h,
    };
    let key = match secret {
        Some(k) => k,
        None => {
            return Err(ApiError::bad("webhook secret not configured"));
        },
    };
    match verify_webhook_at(header, body, key, DEFAULT_TOLERANCE_SECS, now) {
        Ok(_) => {},
        Err(e) => {
            return Err(ApiError::of_stripe(&e));
        },
    }
    match parse_event(body) {
        None => {
            let mut text: String = "bad json: ".to_owned();
            match parse_or_fault(body) {
                Err(fault) => text.append(fault.as_str()),
                Ok(_) => text.append("not an event"),
            }
            Err(ApiError::bad(text.as_str()))
        },
        Some(event) => Ok(provision(&event.data.object, prices, now)),
    }
}

/// Takes a message of the payment provider by the clock.
pub fn stripe_webhook(
    signature: Header<'_>,
    body: &[u8],
    secret: Option<&str>,
    prices: &Vec<(Tier, String)>,
) -> (r: Result<Option<Subscription>, ApiError>)
    ensures
        exists|now: i64| #[trigger]
            clock_read(now) && webhook_answer(signature, body@, secret, prices@, now, r),
{
    let now: i64 = clock();
    let r = stripe_webhook_at(signature, body, secret, prices, now);
    assert(webhook_answer(signature, body@, secret, prices@, now, r));
    r
}

// ---- the waiting list ----

/// Checks an address for the waiting list: it is not blank, and it has an at sign.
pub fn check_waitlist_email(email: &str) -> (r: Result<(), ApiError>)
    ensures
        r is Ok <==> trimmed(email@).len() > 0 && email@.contains('@'),
        r is Err ==> says(r->Err_0, 400, "valid email required"@),
{
    let address = trim_text(email);
    if !address.as_str().is_empty() {
        let chars = chars_of(email);
        let mut i: usize = 0;
        while i < chars.len()
            invariant
                i <= chars@.len(),
                chars@ == email@,
                trimmed(email@).len() > 0,
                forall|k: int| 0 <= k < i ==> #[trigger] chars@[k] != '@',
            decreases chars@.len() - i,
        {
            if chars[i] == '@' {
                assert(email@[i as int] == '@');
                return Ok(());
            }
            i += 1;
        }
    }
    Err(ApiError::bad("valid email required"))
}

// ---- laws ----

/// A message that the provider sends twice asks for the same subscription.
pub proof fn law_message_twice_is_one_subscription(
    a: Subscription,
    b: Subscription,
    object: JsonView,
    prices: Seq<(Tier, String)>,
    first: i64,
    second: i64,
)
    requires
        provisions(a, object, prices, first),
        provisions(b, object, prices, second),
    ensures
        a.id@ == b.id@,
        a.project_id@ == b.project_id@,
        a.tier == b.tier,
        a.status@ == b.status@,
{
}

/// A message that is not from the provider changes nothing.
pub proof fn law_forged_message_is_refused(
    header: &str,
    body: Seq<u8>,
    secret: &str,
    prices: Seq<(Tier, String)>,
    now: i64,
    r: Result<Option<Subscription>, ApiError>,
)
    requires
        webhook_answer(Header::Text(header), body, Some(secret), prices, now, r),
        refusal(header@, body, secret@, 300, now) is Some,
    ensures
        r is Err,
        r->Err_0.0 == 400,
{
}

/// A project without an active subscription is licensed for the free tier.
pub proof fn law_unpaid_is_free(s: Subscription)
    requires
        s.status@ != "active"@,
    ensures
        licensed_tier(Some(s)) == Tier::Hobby,
        licensed_tier(None) == Tier::Hobby,
{
}

} // verus!
