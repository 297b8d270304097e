//! What the service is for: payments reach the project that they are for, and nobody is
//! let in, licensed or charged for anything else than what they are entitled to.

use vstd::prelude::*;
use vstd::utf8::encode_utf8;
use crate::auth::Hs256Verifier;
use crate::base64url::{
    base64url_decode, base64url_encode, decoded, encoded, law_encoded_reads_back, symbol,
    symbol_value,
};
use crate::config::Config;
use crate::digest::{hex_text, hmac_sha256_tag};
use crate::identity::{hash_password, verify_password};
use crate::json::{json_read, member, Json, JsonView};
use crate::license::{lemma_no_dot, lemma_until_dot, LicenseClaims, LicenseError};
use crate::match_laws::lemma_signed_round_trip;
use crate::numbers::{lemma_digits_round_trip, signed_decimal};
use crate::payments::{stripe_outcome, stripe_request, Checkout, CheckoutRequest, PaymentError};
use crate::records::{
    find_account, listed_keys, role_for_signup, Account, ApiKey, ListedKey, Role, Subscription,
};
use crate::routes::{
    bearer_token, check_login, check_signup, choose_identity, confirm_identity, license_claims,
    own_account, plan_checkout, price_for, price_to_tier, provision, stripe_webhook_at, ApiError,
    CheckoutPlan, Header, Identity,
};
use crate::stripe::{
    checkout_form, checkout_reply, extract_subscription_ids, parse_event, pieces, said_signature,
    said_time, verify_webhook_at, CheckoutSession, CreateCheckout, StripeError, StripeEvent,
};
use crate::text::{lemma_trimmed, trimmed, white_space};
use crate::tier::{tier_from_str, tier_str, Tier};
use crate::transport::hex_bytes;

verus! {

// ---- messages of the payment provider ----

/// Whether a record has a text under a name.
pub open spec fn has_text(f: Seq<(Seq<char>, JsonView)>, name: Seq<char>) -> bool {
    member(f, name) is Some && member(f, name)->0 is Text
}

/// The text that a record has under a name.
pub open spec fn text_at(f: Seq<(Seq<char>, JsonView)>, name: Seq<char>) -> Seq<char> {
    member(f, name)->0->Text_0
}

/// An object that names a subscription is about that one, whatever else it holds: its
/// own id counts only where it names none. Nothing is read of an object without a
/// customer.
pub proof fn law_named_subscription_counts(
    object: &Json,
    f: Seq<(Seq<char>, JsonView)>,
    r: Option<(String, String)>,
)
    requires
        call_ensures(extract_subscription_ids, (object,), r),
        object@ == JsonView::Record(f),
    ensures
        r is Some <==> has_text(f, "customer"@) && (has_text(f, "subscription"@) || has_text(
            f,
            "id"@,
        )),
        r is Some ==> (r->0).1@ == text_at(f, "customer"@),
        r is Some && has_text(f, "subscription"@) ==> (r->0).0@ == text_at(f, "subscription"@),
        r is Some && !has_text(f, "subscription"@) ==> (r->0).0@ == text_at(f, "id"@),
{
}

/// A message provisions the subscription that it names, for the customer that it names
/// and the project that the checkout was started for, as one that is paid from now on.
/// Without any of the three it provisions nothing.
pub proof fn law_provisioned_as_named(
    object: &Json,
    prices: &Vec<(Tier, String)>,
    now: i64,
    r: Option<Subscription>,
    f: Seq<(Seq<char>, JsonView)>,
    ids: Option<(String, String)>,
    tier: Tier,
)
    requires
        call_ensures(provision, (object, prices, now), r),
        call_ensures(extract_subscription_ids, (object,), ids),
        call_ensures(price_to_tier, (object, prices), tier),
        object@ == JsonView::Record(f),
    ensures
        r is Some <==> ids is Some && has_text(f, "client_reference_id"@) && text_at(
            f,
            "client_reference_id"@,
        ).len() > 0,
        r is Some ==> {
            let s = r->0;
            &&& s.id@ == (ids->0).0@
            &&& s.stripe_subscription_id@ == (ids->0).0@
            &&& s.stripe_customer_id@ == (ids->0).1@
            &&& s.project_id@ == text_at(f, "client_reference_id"@)
            &&& s.tier == tier
            &&& s.status@ == "active"@
            &&& s.created_at == now
        },
{
}

/// Whether an object lists a price first among its items: the first of the `data` of the
/// list has a `price` with that `id`.
pub open spec fn lists_price(
    f: Seq<(Seq<char>, JsonView)>,
    list: Seq<char>,
    price: Seq<char>,
) -> bool {
    member(f, list) matches Some(JsonView::Record(l)) && (member(l, "data"@) matches Some(
        JsonView::List(items),
    ) && items.len() > 0 && (items[0] matches JsonView::Record(item) && (member(
        item,
        "price"@,
    ) matches Some(JsonView::Record(p)) && member(p, "id"@) == Some(JsonView::Text(price)))))
}

/// The tier of a purchase is the first one that is sold at the price of its first item,
/// and `Pro` where none is. The line items of a checkout count before the items of a
/// subscription.
pub proof fn law_tier_of_the_price(
    object: &Json,
    prices: &Vec<(Tier, String)>,
    r: Tier,
    f: Seq<(Seq<char>, JsonView)>,
    price: Seq<char>,
)
    requires
        call_ensures(price_to_tier, (object, prices), r),
        object@ == JsonView::Record(f),
        lists_price(f, "line_items"@, price) || (member(f, "line_items"@) is None && lists_price(
            f,
            "items"@,
            price,
        )),
    ensures
        (forall|i: int| 0 <= i < prices@.len() ==> (#[trigger] prices@[i]).1@ != price) ==> r
            == Tier::Pro,
        forall|i: int|
            0 <= i < prices@.len() && (#[trigger] prices@[i]).1@ == price && (forall|k: int|
                0 <= k < i ==> (#[trigger] prices@[k]).1@ != price) ==> r == prices@[i].0,
{
    lemma_tier_of_price(prices@, price);
}

proof fn lemma_tier_of_price(prices: Seq<(Tier, String)>, price: Seq<char>)
    ensures
        (forall|i: int| 0 <= i < prices.len() ==> (#[trigger] prices[i]).1@ != price)
            ==> crate::routes::tier_of_price(prices, price) == Tier::Pro,
        forall|i: int|
            0 <= i < prices.len() && (#[trigger] prices[i]).1@ == price && (forall|k: int|
                0 <= k < i ==> (#[trigger] prices[k]).1@ != price) ==> crate::routes::tier_of_price(
                prices,
                price,
            ) == prices[i].0,
    decreases prices.len(),
{
    if prices.len() > 0 && prices[0].1@ != price {
        let rest = prices.drop_first();
        lemma_tier_of_price(rest, price);
        assert forall|i: int| 0 <= i < rest.len() implies #[trigger] rest[i] == prices[i + 1] by {}
        assert forall|i: int|
            0 <= i < prices.len() && (#[trigger] prices[i]).1@ == price && (forall|k: int|
                0 <= k < i ==> (#[trigger] prices[k]).1@ != price) implies crate::routes::tier_of_price(
            prices,
            price,
        ) == prices[i].0 by {
            assert(rest[i - 1] == prices[i]);
            assert forall|k: int| 0 <= k < i - 1 implies (#[trigger] rest[k]).1@ != price by {
                assert(prices[k + 1].1@ != price);
            }
        }
    }
}

/// A message whose JSON is a record of an event is that event, by its `id`, its `type`
/// and the `object` of its `data`.
pub proof fn law_event_is_read_by_name(
    body: &[u8],
    r: Option<StripeEvent>,
    f: Seq<(Seq<char>, JsonView)>,
    g: Seq<(Seq<char>, JsonView)>,
    object: JsonView,
)
    requires
        call_ensures(parse_event, (body,), r),
        json_read(body@) == Some(JsonView::Record(f)),
        has_text(f, "id"@),
        has_text(f, "type"@),
        member(f, "data"@) == Some(JsonView::Record(g)),
        member(g, "object"@) == Some(object),
    ensures
        r is Some,
        r->0.id@ == text_at(f, "id"@),
        r->0.event_type@ == text_at(f, "type"@),
        r->0.data.object@ == object,
{
}

pub(crate) proof fn lemma_pieces_of_one(a: Seq<char>)
    requires
        !a.contains(','),
    ensures
        pieces(a) == seq![a],
    decreases a.len(),
{
    if a.len() > 0 {
        let b = a.drop_last();
        assert(!b.contains(',')) by {
            if b.contains(',') {
                let i = choose|i: int| 0 <= i < b.len() && b[i] == ',';
                assert(a[i] == ',');
            }
        }
        assert(a.last() != ',') by {
            assert(a[a.len() - 1] == a.last());
        }
        lemma_pieces_of_one(b);
        assert(b.push(a.last()) =~= a);
        assert(pieces(a) =~= seq![a]);
    } else {
        let none: Seq<char> = seq![];
        assert(a =~= none);
        assert(pieces(a) =~= seq![a]);
    }
}

pub(crate) proof fn lemma_pieces_of_two(a: Seq<char>, b: Seq<char>)
    requires
        !a.contains(','),
        !b.contains(','),
    ensures
        pieces(a + seq![','] + b) == seq![a, b],
    decreases b.len(),
{
    let s = a + seq![','] + b;
    if b.len() > 0 {
        let c = b.drop_last();
        assert(!c.contains(',')) by {
            if c.contains(',') {
                let i = choose|i: int| 0 <= i < c.len() && c[i] == ',';
                assert(b[i] == ',');
            }
        }
        assert(b.last() != ',') by {
            assert(b[b.len() - 1] == b.last());
        }
        lemma_pieces_of_two(a, c);
        assert(s.drop_last() =~= a + seq![','] + c);
        assert(s.last() == b.last());
        assert(c.push(b.last()) =~= b);
        assert(pieces(s) =~= seq![a, b]);
    } else {
        lemma_pieces_of_one(a);
        assert(s.drop_last() =~= a);
        assert(s.last() == ',');
        let none: Seq<char> = seq![];
        assert(b =~= none);
        assert(pieces(s) =~= seq![a, b]);
    }
}

pub(crate) proof fn lemma_hex_reads_back(b: Seq<u8>)
    ensures
        hex_bytes(hex_text(b)) == Some(b),
        hex_text(b).len() == 2 * b.len(),
        forall|i: int|
            0 <= i < hex_text(b).len() ==> 48 <= (#[trigger] hex_text(b)[i]) as int <= 57 || 97
                <= hex_text(b)[i] as int <= 102,
    decreases b.len(),
{
    let s = hex_text(b);
    assert forall|i: int| 0 <= i < s.len() implies 48 <= (#[trigger] s[i]) as int <= 57 || 97
        <= s[i] as int <= 102 by {
        assert(b[i / 2] / 16 < 16 && b[i / 2] % 16 < 16);
    }
    if b.len() > 0 {
        let front = b.drop_last();
        let n = b.len() as int;
        lemma_hex_reads_back(front);
        assert(s.take(s.len() - 2) =~= hex_text(front));
        let x = b[n - 1];
        assert(s[s.len() - 2] == crate::numbers::hex_char((x / 16) as nat));
        assert(s[s.len() - 1] == crate::numbers::hex_char((x % 16) as nat));
        assert((x / 16) * 16 + x % 16 == x) by (nonlinear_arith);
        assert(front.push(x) =~= b);
    } else {
        assert(b =~= seq![]);
        assert(s =~= seq![]);
    }
}

/// A header that says a time and a signature.
pub open spec fn signature_header(time: i64, tag: Seq<u8>) -> Seq<char> {
    "t="@ + signed_decimal(time as int) + seq![','] + ("v1="@ + hex_text(tag))
}

pub(crate) proof fn lemma_header(time: i64, tag: Seq<u8>)
    ensures
        said_time(pieces(signature_header(time, tag))) == Some(time as int),
        said_signature(pieces(signature_header(time, tag))) == Some(hex_text(tag)),
{
    reveal_strlit("t=");
    reveal_strlit("v1=");
    let d = signed_decimal(time as int);
    let h = hex_text(tag);
    let a = "t="@ + d;
    let b = "v1="@ + h;
    lemma_signed_round_trip(time);
    lemma_hex_reads_back(tag);
    let m: nat = if time < 0 {
        (-time) as nat
    } else {
        time as nat
    };
    lemma_digits_round_trip(m, 10);
    assert forall|i: int| 0 <= i < d.len() implies #[trigger] d[i] == '-' || 48 <= d[i] as int
        <= 57 by {
        let digits = crate::numbers::decimal(m);
        if time < 0 && i > 0 {
            assert(d[i] == digits[i - 1]);
            assert(crate::numbers::is_digit(digits[i - 1], 10));
        } else if time >= 0 {
            assert(crate::numbers::is_digit(digits[i], 10));
        }
    }
    assert(!a.contains(',')) by {
        if a.contains(',') {
            let i = choose|i: int| 0 <= i < a.len() && a[i] == ',';
            assert(i >= 2);
            assert(a[i] == d[i - 2]);
        }
    }
    assert(!b.contains(',')) by {
        if b.contains(',') {
            let i = choose|i: int| 0 <= i < b.len() && b[i] == ',';
            assert(i >= 3);
            assert(b[i] == h[i - 3]);
        }
    }
    lemma_pieces_of_two(a, b);
    let p = seq![a, b];
    assert(a.skip(2) =~= d);
    assert(b.skip(3) =~= h);
    assert(!white_space(d[0]) && !white_space(d.last())) by {
        assert(d[0] == '-' || 48 <= d[0] as int <= 57);
        assert(d[d.len() - 1] == d.last());
    }
    lemma_trimmed(d);
    if h.len() > 0 {
        assert(!white_space(h[0]) && !white_space(h.last())) by {
            assert(h[h.len() - 1] == h.last());
            assert(48 <= h[0] as int <= 57 || 97 <= h[0] as int <= 102);
            assert(48 <= h[h.len() - 1] as int <= 57 || 97 <= h[h.len() - 1] as int <= 102);
        }
    }
    lemma_trimmed(h);
    assert(p.last() == b);
    assert(p.drop_last() =~= seq![a]);
    assert(p.drop_last().last() == a);
    assert(b[0] == 'v' && a[0] == 't' && a[1] == '=' && b[1] == '1' && b[2] == '=');
    reveal_with_fuel(said_time, 3);
    reveal_with_fuel(said_signature, 2);
}

/// A message is from the provider exactly where its time is within the tolerance of the
/// clock, before or after, and its signature is that of the secret over the time, a full
/// stop and the body.
pub proof fn law_signed_in_time(
    header: &str,
    body: &[u8],
    secret: &str,
    tolerance: u64,
    now: i64,
    r: Result<(), StripeError>,
    time: i64,
    tag: Seq<u8>,
)
    requires
        call_ensures(verify_webhook_at, (header, body, secret, tolerance, now), r),
        header@ == signature_header(time, tag),
    ensures
        r is Ok <==> -(tolerance as int) <= time - now <= tolerance && tag == hmac_sha256_tag(
            encode_utf8(secret@),
            encode_utf8(signed_decimal(time as int)) + seq![46u8] + body@,
        ),
{
    lemma_header(time, tag);
    lemma_hex_reads_back(tag);
}

/// The service takes a message that was signed with its secret no more than five minutes
/// ago or ahead, and no other; what it then stores is what the message provisions.
pub proof fn law_service_takes_signed_messages(
    header: &str,
    body: &[u8],
    secret: &str,
    prices: &Vec<(Tier, String)>,
    now: i64,
    r: Result<Option<Subscription>, ApiError>,
    time: i64,
    tag: Seq<u8>,
    event: Option<StripeEvent>,
    stored: Option<Subscription>,
)
    requires
        call_ensures(
            stripe_webhook_at,
            (Header::Text(header), body, Some(secret), prices, now),
            r,
        ),
        header@ == signature_header(time, tag),
        call_ensures(parse_event, (body,), event),
        event is Some ==> call_ensures(
            provision,
            (&event->0.data.object, prices, now),
            stored,
        ),
    ensures
        !(-300 <= time - now <= 300) || tag != hmac_sha256_tag(
            encode_utf8(secret@),
            encode_utf8(signed_decimal(time as int)) + seq![46u8] + body@,
        ) ==> r is Err && r->Err_0.0 == 400,
        -300 <= time - now <= 300 && tag == hmac_sha256_tag(
            encode_utf8(secret@),
            encode_utf8(signed_decimal(time as int)) + seq![46u8] + body@,
        ) ==> {
            &&& event is None ==> r is Err && r->Err_0.0 == 400
            &&& event is Some ==> r is Ok && (r->Ok_0 is Some <==> stored is Some)
            &&& event is Some && stored is Some ==> r->Ok_0->0.id@ == stored->0.id@
                && r->Ok_0->0.project_id@ == stored->0.project_id@ && r->Ok_0->0.tier
                == stored->0.tier && r->Ok_0->0.stripe_customer_id@
                == stored->0.stripe_customer_id@ && r->Ok_0->0.stripe_subscription_id@
                == stored->0.stripe_subscription_id@ && r->Ok_0->0.status@ == stored->0.status@
                && r->Ok_0->0.created_at == now
        },
{
    lemma_header(time, tag);
    lemma_hex_reads_back(tag);
}

/// Without a header, or without a secret to check it by, a message is refused.
pub proof fn law_unsigned_messages_are_refused(
    header: &str,
    body: &[u8],
    secret: Option<&str>,
    prices: &Vec<(Tier, String)>,
    now: i64,
    r: Result<Option<Subscription>, ApiError>,
)
    requires
        call_ensures(stripe_webhook_at, (Header::Missing, body, secret, prices, now), r)
            || call_ensures(stripe_webhook_at, (Header::Unreadable, body, secret, prices, now), r)
            || call_ensures(
            stripe_webhook_at,
            (Header::Text(header), body, None::<&str>, prices, now),
            r,
        ),
    ensures
        r is Err,
        r->Err_0.0 == 400,
{
}

// ---- checkouts ----

/// What is asked of the provider is one subscription at the price, with the two
/// addresses and the project that were given.
pub proof fn law_checkout_asks_for_one_subscription(
    req: &CreateCheckout<'_>,
    r: Vec<(String, String)>,
)
    requires
        call_ensures(checkout_form, (req,), r),
    ensures
        r@.len() == 6,
        r@[0].0@ == "mode"@ && r@[0].1@ == "subscription"@,
        r@[1].0@ == "line_items[0][price]"@ && r@[1].1@ == req.price_id@,
        r@[2].0@ == "line_items[0][quantity]"@ && r@[2].1@ == "1"@,
        r@[3].0@ == "success_url"@ && r@[3].1@ == req.success_url@,
        r@[4].0@ == "cancel_url"@ && r@[4].1@ == req.cancel_url@,
        r@[5].0@ == "client_reference_id"@ && r@[5].1@ == req.client_reference_id@,
{
    let v = crate::stripe::field_views(r@);
    assert(v.len() == 6);
    assert(v[0] == (r@[0].0@, r@[0].1@));
    assert(v[1] == (r@[1].0@, r@[1].1@));
    assert(v[2] == (r@[2].0@, r@[2].1@));
    assert(v[3] == (r@[3].0@, r@[3].1@));
    assert(v[4] == (r@[4].0@, r@[4].1@));
    assert(v[5] == (r@[5].0@, r@[5].1@));
}

/// What was asked for goes to the provider as it is, and its answer comes back as it is.
pub proof fn law_checkout_passes_through(
    req: &CheckoutRequest<'_>,
    asked: CreateCheckout<'_>,
    body: &str,
    status: &str,
    f: Seq<(Seq<char>, JsonView)>,
    reply: Result<CheckoutSession, StripeError>,
    r: Result<Checkout, PaymentError>,
)
    requires
        call_ensures(stripe_request, (req,), asked),
        json_read(encode_utf8(body@)) == Some(JsonView::Record(f)),
        call_ensures(checkout_reply, (true, status, body), reply),
        call_ensures(stripe_outcome, (reply,), r),
    ensures
        asked.price_id@ == req.price_id@,
        asked.success_url@ == req.success_url@,
        asked.cancel_url@ == req.cancel_url@,
        asked.client_reference_id@ == req.client_reference_id@,
        r is Ok <==> has_text(f, "url"@) && has_text(f, "id"@),
        r is Ok ==> r->Ok_0.url@ == text_at(f, "url"@) && r->Ok_0.id@ == text_at(f, "id"@),
{
}

/// A checkout is planned at the first price that is set for the tier, for the project,
/// and leads back to the address of the service, without the slashes at its end.
pub proof fn law_checkout_is_for_the_project(
    secret: Option<&str>,
    prices: &Vec<(Tier, String)>,
    tier: Tier,
    base: &str,
    id: &str,
    price: Option<&str>,
    r: Result<CheckoutPlan, ApiError>,
)
    requires
        call_ensures(plan_checkout, (secret, prices, tier, base, id), r),
        call_ensures(price_for, (prices, tier), price),
    ensures
        r is Ok <==> secret is Some && price is Some,
        r is Err ==> r->Err_0.0 == 503,
        r is Ok ==> {
            &&& r->Ok_0.secret@ == secret->0@
            &&& r->Ok_0.price_id@ == price->0@
            &&& r->Ok_0.client_reference_id@ == id@
            &&& base@.len() > 0 && base@.last() != '/' ==> r->Ok_0.success_url@ == base@
                + "/v1/projects/"@ + id@ + "/checkout/ok"@ && r->Ok_0.cancel_url@ == base@ + (
            "/admin/#/projects/"@ + id@)
        },
{
}

/// Slashes at the end of the address make no difference.
pub proof fn law_slashes_make_no_difference(base: Seq<char>)
    ensures
        crate::routes::without_slashes(base.push('/')) == crate::routes::without_slashes(base),
{
    assert(base.push('/').drop_last() =~= base);
}

/// The price of a tier is the first that stands beside it in the list.
pub proof fn law_price_of_the_tier(prices: &Vec<(Tier, String)>, tier: Tier, r: Option<&str>)
    requires
        call_ensures(price_for, (prices, tier), r),
    ensures
        r is None <==> forall|i: int| 0 <= i < prices@.len() ==> (#[trigger] prices@[i]).0 != tier,
        forall|i: int|
            0 <= i < prices@.len() && (#[trigger] prices@[i]).0 == tier && (forall|k: int|
                0 <= k < i ==> (#[trigger] prices@[k]).0 != tier) ==> r is Some && r->0@
                == prices@[i].1@,
{
    let i = lemma_set_price(prices@, tier);
    if i < prices@.len() {
        assert(prices@[i].0 == tier);
    }
}

proof fn lemma_set_price(prices: Seq<(Tier, String)>, tier: Tier) -> (i: int)
    ensures
        0 <= i <= prices.len(),
        forall|k: int| 0 <= k < i ==> (#[trigger] prices[k]).0 != tier,
        crate::routes::set_price(prices, tier) is None <==> i == prices.len(),
        i < prices.len() ==> prices[i].0 == tier && crate::routes::set_price(prices, tier) == Some(
            prices[i].1@,
        ),
    decreases prices.len(),
{
    if prices.len() == 0 || prices[0].0 == tier {
        0
    } else {
        let rest = prices.drop_first();
        let i = lemma_set_price(rest, tier);
        assert forall|k: int| 0 <= k < i + 1 implies (#[trigger] prices[k]).0 != tier by {
            if k > 0 {
                assert(rest[k - 1] == prices[k]);
            }
        }
        i + 1
    }
}

/// Each tier is sold at the price that is set for it, and the free one at none.
pub proof fn law_prices_are_as_set(
    config: &Config,
    prices: Vec<(Tier, String)>,
    tier: Tier,
    r: Option<&str>,
)
    requires
        call_ensures(Config::price_ids, (config,), prices),
        call_ensures(price_for, (&prices, tier), r),
    ensures
        tier == Tier::Hobby ==> r is None,
        tier == Tier::Pro ==> (r is Some <==> config.price_pro is Some) && (r is Some ==> r->0@
            == config.price_pro->0@),
        tier == Tier::Scale ==> (r is Some <==> config.price_scale is Some) && (r is Some ==> r->0@
            == config.price_scale->0@),
        tier == Tier::Enterprise ==> (r is Some <==> config.price_enterprise is Some) && (r is Some
            ==> r->0@ == config.price_enterprise->0@),
{
    let v = crate::config::price_views(prices@);
    let place = lemma_set_price(prices@, tier);
    assert forall|i: int| 0 <= i < prices@.len() implies (#[trigger] prices@[i]).0 == v[i].0
        && prices@[i].1@ == v[i].1 by {}
    let p: int = if config.price_pro is Some { 1 } else { 0 };
    let s: int = if config.price_scale is Some { 1 } else { 0 };
    let e: int = if config.price_enterprise is Some { 1 } else { 0 };
    assert(v.len() == p + s + e);
    if config.price_pro is Some {
        assert(v[0] == (Tier::Pro, config.price_pro->0@));
        assert(prices@[0].0 == Tier::Pro);
    }
    if config.price_scale is Some {
        assert(v[p] == (Tier::Scale, config.price_scale->0@));
        assert(prices@[p].0 == Tier::Scale);
    }
    if config.price_enterprise is Some {
        assert(v[p + s] == (Tier::Enterprise, config.price_enterprise->0@));
        assert(prices@[p + s].0 == Tier::Enterprise);
    }
}

// ---- tiers and licenses ----

/// What each tier is called, and how many devices it allows.
pub proof fn law_tiers(t: Tier, word: &'static str, cap: u64, s: &str, read: Tier)
    requires
        call_ensures(tier_str, (t,), word),
        call_ensures(Tier::device_cap, (t,), cap),
        call_ensures(tier_from_str, (s,), read),
    ensures
        t == Tier::Hobby ==> word@ == "hobby"@ && cap == 100,
        t == Tier::Pro ==> word@ == "pro"@ && cap == 1000,
        t == Tier::Scale ==> word@ == "scale"@ && cap == 10000,
        t == Tier::Enterprise ==> word@ == "enterprise"@ && cap == 0xffff_ffff_ffff_ffff,
        s@ == word@ ==> read == t,
        s@ != "pro"@ && s@ != "scale"@ && s@ != "enterprise"@ ==> read == Tier::Hobby,
{
    crate::tier::law_tier_round_trip(t);
}

/// A license grants a project its own tier while the subscription is active and the free
/// one otherwise, for a year of 365 days from now.
pub proof fn law_license_grants_what_is_paid(
    project: &str,
    subscription: Option<Subscription>,
    now: i64,
    r: LicenseClaims,
)
    requires
        call_ensures(license_claims, (project, subscription, now), r),
        now <= i64::MAX - 365 * 24 * 60 * 60,
    ensures
        r.project_id@ == project@,
        subscription is Some && subscription->0.status@ == "active"@ ==> r.tier
            == subscription->0.tier,
        subscription is None || subscription->0.status@ != "active"@ ==> r.tier == Tier::Hobby,
        r.expires_at == now + 365 * 24 * 60 * 60,
        r.device_cap is None,
{
}

/// What is signed as a license reads back with the same secret as what was granted.
pub proof fn law_license_reads_back(
    claims: &LicenseClaims,
    secret: &[u8],
    text: String,
    token: &str,
    r: Result<LicenseClaims, LicenseError>,
)
    requires
        call_ensures(LicenseClaims::sign, (claims, secret), text),
        token@ == text@,
        call_ensures(LicenseClaims::verify, (token, secret), r),
    ensures
        r is Ok,
        r->Ok_0.project_id@ == claims.project_id@,
        r->Ok_0.tier == claims.tier,
        r->Ok_0.expires_at == claims.expires_at,
        r->Ok_0.device_cap == claims.device_cap,
{
}

/// A license is the claims in Base64, a full stop, and the signature over what stands
/// before it. It is accepted exactly where that signature is the one of the secret, and
/// grants what its JSON says by name.
pub proof fn law_license_is_what_was_signed(
    token: &str,
    secret: &[u8],
    r: Result<LicenseClaims, LicenseError>,
    payload: Seq<u8>,
    tag: Seq<u8>,
    f: Seq<(Seq<char>, JsonView)>,
    tier: Tier,
    word: &'static str,
)
    requires
        call_ensures(LicenseClaims::verify, (token, secret), r),
        token@ == encoded(payload) + seq!['.'] + encoded(tag),
        json_read(payload) == Some(JsonView::Record(f)),
        has_text(f, "project_id"@),
        call_ensures(tier_str, (tier,), word),
        member(f, "tier"@) == Some(JsonView::Text(word@)),
        member(f, "expires_at"@) is Some,
        member(f, "expires_at"@)->0 is Unsigned,
        member(f, "expires_at"@)->0->Unsigned_0 <= i64::MAX,
        member(f, "device_cap"@) is None,
    ensures
        tag != hmac_sha256_tag(secret@, encode_utf8(encoded(payload))) ==> r is Err && r->Err_0
            == LicenseError::BadSignature,
        tag == hmac_sha256_tag(secret@, encode_utf8(encoded(payload))) ==> r is Ok
            && r->Ok_0.project_id@ == text_at(f, "project_id"@) && r->Ok_0.tier == tier
            && r->Ok_0.expires_at == member(f, "expires_at"@)->0->Unsigned_0
            && r->Ok_0.device_cap is None,
{
    let body = encoded(payload);
    let s = token@;
    lemma_no_dot(payload);
    assert forall|i: int| 0 <= i < body.len() implies #[trigger] s[i] != '.' by {
        assert(s[i] == body[i]);
    }
    assert(s[body.len() as int] == '.');
    lemma_until_dot(s, 0, body.len() as int);
    assert(s.subrange(0, body.len() as int) =~= body);
    assert(s.skip(body.len() as int + 1) =~= encoded(tag));
    law_encoded_reads_back(payload);
    law_encoded_reads_back(tag);
    crate::tier::law_tier_round_trip(tier);
}

// ---- who is asking ----

/// A token is a header, a payload and a signature with full stops between them. It is
/// accepted exactly where the signature is that of the secret over the first two, and
/// the payload names an account and no expiry that is more than a minute past.
pub proof fn law_token_is_accepted_while_it_lasts(
    verifier: &Hs256Verifier,
    token: &str,
    now: i64,
    r: Option<String>,
    head: Seq<char>,
    payload: Seq<u8>,
    tag: Seq<u8>,
    f: Seq<(Seq<char>, JsonView)>,
)
    requires
        call_ensures(Hs256Verifier::verify_sub_at, (verifier, token, now), r),
        !head.contains('.'),
        token@ == head + seq!['.'] + encoded(payload) + seq!['.'] + encoded(tag),
        json_read(payload) == Some(JsonView::Record(f)),
        has_text(f, "sub"@),
    ensures
        tag != hmac_sha256_tag(
            verifier.key(),
            encode_utf8(head + seq!['.'] + encoded(payload)),
        ) ==> r is None,
        tag == hmac_sha256_tag(verifier.key(), encode_utf8(head + seq!['.'] + encoded(payload)))
            ==> {
            &&& r is Some ==> r->0@ == text_at(f, "sub"@)
            &&& member(f, "exp"@) is None ==> r is Some
            &&& member(f, "exp"@) matches Some(JsonView::Unsigned(e)) ==> (e <= i64::MAX ==> (r is Some
                <==> now <= e + 60))
        },
{
    let s = token@;
    let body = encoded(payload);
    let a = head.len() as int;
    let b = a + 1 + body.len();
    let n = s.len() as int;
    lemma_no_dot(payload);
    lemma_no_dot(tag);
    assert forall|i: int| 0 <= i < a implies #[trigger] s[i] != '.' by {
        assert(s[i] == head[i]);
        if s[i] == '.' {
            assert(head.contains('.'));
        }
    }
    assert(s[a] == '.');
    lemma_until_dot(s, 0, a);
    assert forall|i: int| a + 1 <= i < b implies #[trigger] s[i] != '.' by {
        assert(s[i] == body[i - a - 1]);
    }
    assert(s[b] == '.');
    lemma_until_dot(s, a + 1, b);
    assert forall|i: int| b + 1 <= i < n implies #[trigger] s[i] != '.' by {
        assert(s[i] == encoded(tag)[i - b - 1]);
    }
    lemma_no_more_dots(s, b + 1);
    assert(s.subrange(0, b) =~= head + seq!['.'] + body);
    assert(s.subrange(a + 1, b) =~= body);
    assert(s.subrange(b + 1, n) =~= encoded(tag));
    law_encoded_reads_back(payload);
    law_encoded_reads_back(tag);
}

pub(crate) proof fn lemma_no_more_dots(s: Seq<char>, from: int)
    requires
        0 <= from <= s.len(),
        forall|i: int| from <= i < s.len() ==> #[trigger] s[i] != '.',
    ensures
        crate::auth::until_dot(s, from) == s.len(),
    decreases s.len() - from,
{
    if from < s.len() {
        assert(s[from] != '.');
        lemma_no_more_dots(s, from + 1);
    }
}

/// A header bears the token behind the word `Bearer` and a space, and none where it
/// begins otherwise or ends there.
pub proof fn law_bearer(header: &str, r: Option<String>, token: Seq<char>)
    requires
        call_ensures(bearer_token, (Some(header),), r),
    ensures
        header@ == "Bearer "@ + token && token.len() > 0 ==> r is Some && r->0@ == token,
        header@.len() <= 7 ==> r is None,
        r is Some ==> header@ == "Bearer "@ + r->0@,
{
    reveal_strlit("Bearer ");
    if header@ == "Bearer "@ + token {
        assert(header@.take(7) =~= "Bearer "@);
        assert(header@.skip(7) =~= token);
    }
    if r is Some {
        assert(header@ =~= header@.take(7) + header@.skip(7));
    }
}

/// A request is let in as the account that its token names, and only without one as the
/// account of its session; in either case only where that account exists.
pub proof fn law_token_before_session(
    sub: Option<String>,
    session: Option<&str>,
    named: Identity,
    accounts: &Vec<Account>,
    r: Result<String, ApiError>,
)
    requires
        call_ensures(choose_identity, (sub, session), named),
        call_ensures(confirm_identity, (named, accounts), r),
    ensures
        r is Ok ==> exists|i: int| 0 <= i < accounts@.len() && (#[trigger] accounts@[i]).id@
            == r->Ok_0@,
        sub is Some && r is Ok ==> r->Ok_0@ == sub->0@,
        sub is None && session is Some && r is Ok ==> r->Ok_0@ == session->0@,
        sub is None && session is None ==> r is Err,
        sub is Some && (exists|i: int|
            0 <= i < accounts@.len() && (#[trigger] accounts@[i]).id@ == sub->0@) ==> r is Ok,
        sub is None && session is Some && (exists|i: int|
            0 <= i < accounts@.len() && (#[trigger] accounts@[i]).id@ == session->0@) ==> r is Ok,
        r is Err ==> r->Err_0.0 == 401,
{
    if sub is Some {
        lemma_account_place(accounts@, sub->0@, 0);
    } else if session is Some {
        lemma_account_place(accounts@, session->0@, 0);
    }
}

pub(crate) proof fn lemma_account_place(accounts: Seq<Account>, id: Seq<char>, from: int)
    requires
        0 <= from <= accounts.len(),
    ensures
        ({
            let i = crate::records::account_place(accounts, id, from);
            &&& from <= i <= accounts.len()
            &&& i < accounts.len() ==> accounts[i].id@ == id
            &&& forall|k: int| from <= k < i ==> (#[trigger] accounts[k]).id@ != id
        }),
    decreases accounts.len() - from,
{
    if from < accounts.len() && accounts[from].id@ != id {
        lemma_account_place(accounts, id, from + 1);
    }
}

/// An account is found by its id, the first where there are several, and not found where
/// there is none.
pub proof fn law_account_is_found_by_id(
    accounts: &Vec<Account>,
    id: &str,
    r: Option<&Account>,
    own: Result<&Account, ApiError>,
)
    requires
        call_ensures(find_account, (accounts, id), r),
        call_ensures(own_account, (id, accounts), own),
    ensures
        r is None <==> forall|i: int|
            0 <= i < accounts@.len() ==> (#[trigger] accounts@[i]).id@ != id@,
        r is Some ==> exists|i: int|
            0 <= i < accounts@.len() && (#[trigger] accounts@[i]) == *r->0 && accounts@[i].id@ == id@
                && forall|k: int| 0 <= k < i ==> (#[trigger] accounts@[k]).id@ != id@,
        own is Ok <==> r is Some,
        own is Ok ==> *own->Ok_0 == *r->0,
        own is Err ==> own->Err_0.0 == 401,
{
    lemma_account_place(accounts@, id@, 0);
}

/// The password that an account was made with lets its owner in, and one with another
/// hash does not; nor does any where there is no account.
pub proof fn law_password_lets_in(
    account: &Account,
    stored: &str,
    hash: String,
    password: &str,
    given: String,
    r: Result<(), ApiError>,
    nobody: Result<(), ApiError>,
    same: bool,
)
    requires
        call_ensures(hash_password, (stored,), hash),
        account.password_hash@ == hash@,
        call_ensures(hash_password, (password,), given),
        call_ensures(check_login, (Some(account), password), r),
        call_ensures(check_login, (None::<&Account>, password), nobody),
        call_ensures(verify_password, (password, stored), same),
    ensures
        password@ == stored@ ==> r is Ok,
        r is Ok <==> given@ == hash@,
        r is Err ==> r->Err_0.0 == 400,
        nobody is Err && nobody->Err_0.0 == 400,
        same == (given@ == stored@),
{
}

/// An account needs an address that is not blank and a password of eight bytes.
pub proof fn law_signup_needs_both(email: &str, password: &str, r: Result<(), ApiError>)
    requires
        call_ensures(check_signup, (email, password), r),
    ensures
        r is Ok <==> trimmed(email@).len() > 0 && encode_utf8(password@).len() >= 8,
        r is Err ==> r->Err_0.0 == 400,
{
}

/// The first account founds the service, and every later one is a member.
pub proof fn law_first_account_founds(accounts: usize, r: Role)
    requires
        call_ensures(role_for_signup, (accounts,), r),
    ensures
        accounts == 0 ==> r == Role::Founder,
        accounts > 0 ==> r == Role::Member,
{
}

/// What each role is called; what is stored is read as a member where it is no role.
pub proof fn law_roles(role: Role, word: &'static str, s: &str, read: Option<Role>, stored: Role)
    requires
        call_ensures(Role::as_str, (role,), word),
        call_ensures(Role::parse, (s,), read),
        call_ensures(Role::stored, (s,), stored),
    ensures
        role == Role::Founder ==> word@ == "founder"@,
        role == Role::Member ==> word@ == "member"@,
        s@ == word@ ==> read == Some(role) && stored == role,
        s@ != "founder"@ && s@ != "member"@ ==> read is None && stored == Role::Member,
{
    crate::records::law_role_round_trip(role);
}

/// A list of keys shows each by its id, its project and its time.
pub proof fn law_keys_are_listed(keys: &Vec<ApiKey>, r: Vec<ListedKey>)
    requires
        call_ensures(listed_keys, (keys,), r),
    ensures
        r@.len() == keys@.len(),
        forall|i: int|
            0 <= i < keys@.len() ==> (#[trigger] r@[i]).id@ == keys@[i].id@ && r@[i].project_id@
                == keys@[i].project_id@ && r@[i].created_at == keys@[i].created_at,
{
    assert forall|i: int| 0 <= i < keys@.len() implies (#[trigger] r@[i]).id@ == keys@[i].id@
        && r@[i].project_id@ == keys@[i].project_id@ && r@[i].created_at == keys@[i].created_at by {
        assert(crate::records::lists_key(r@[i], keys@[i]));
    }
}

// ---- Base64 ----

/// The alphabet.
pub open spec fn alphabet() -> Seq<char> {
    "ABCDEFGHIJKLMNOPQRSTUVWXYZabcdefghijklmnopqrstuvwxyz0123456789-_"@
}

/// The symbols are those of the alphabet for addresses, in its order, and no other
/// character is one.
pub proof fn law_alphabet(v: int, c: char)
    ensures
        0 <= v < 64 ==> symbol(v) == alphabet()[v] && symbol_value(alphabet()[v]) == Some(v),
        symbol_value(c) is Some ==> 0 <= symbol_value(c)->0 < 64 && symbol(symbol_value(c)->0) == c,
{
    reveal_strlit("ABCDEFGHIJKLMNOPQRSTUVWXYZabcdefghijklmnopqrstuvwxyz0123456789-_");
}

/// Four symbols write three bytes: read in the base of 64 they are the number that the
/// bytes are in the base of 256.
pub proof fn law_symbols_write_the_bits(bytes: &[u8], r: String, j: int)
    requires
        call_ensures(base64url_encode, (bytes,), r),
        0 <= j,
        3 * j + 2 < bytes@.len(),
    ensures
        4 * j + 3 < r@.len(),
        symbol_value(r@[4 * j])->0 * 262144 + symbol_value(r@[4 * j + 1])->0 * 4096 + symbol_value(
            r@[4 * j + 2],
        )->0 * 64 + symbol_value(r@[4 * j + 3])->0 == bytes@[3 * j] * 65536 + bytes@[3 * j + 1] * 256
            + bytes@[3 * j + 2],
{
    lemma_bits(bytes@, j);
}

proof fn lemma_bits(b: Seq<u8>, j: int)
    requires
        0 <= j,
        3 * j + 2 < b.len(),
    ensures
        4 * j + 3 < encoded(b).len(),
        symbol_value(encoded(b)[4 * j])->0 * 262144 + symbol_value(encoded(b)[4 * j + 1])->0 * 4096
            + symbol_value(encoded(b)[4 * j + 2])->0 * 64 + symbol_value(encoded(b)[4 * j + 3])->0
            == b[3 * j] * 65536 + b[3 * j + 1] * 256 + b[3 * j + 2],
    decreases j,
{
    let s = encoded(b);
    if j == 0 {
        let x = b[0] as int;
        let y = b[1] as int;
        let z = b[2] as int;
        law_alphabet(x / 4, 'A');
        law_alphabet(x % 4 * 16 + y / 16, 'A');
        law_alphabet(y % 16 * 4 + z / 64, 'A');
        law_alphabet(z % 64, 'A');
        assert(s[0] == symbol(x / 4));
        assert(s[1] == symbol(x % 4 * 16 + y / 16));
        assert(s[2] == symbol(y % 16 * 4 + z / 64));
        assert(s[3] == symbol(z % 64));
    } else {
        let rest = b.skip(3);
        lemma_bits(rest, j - 1);
        assert(s[4 * j] == encoded(rest)[4 * (j - 1)]);
        assert(s[4 * j + 1] == encoded(rest)[4 * (j - 1) + 1]);
        assert(s[4 * j + 2] == encoded(rest)[4 * (j - 1) + 2]);
        assert(s[4 * j + 3] == encoded(rest)[4 * (j - 1) + 3]);
    }
}

/// What was encoded is decoded again, and nothing else is decoded to it.
pub proof fn law_base64_round_trip(
    bytes: &[u8],
    text: String,
    s: &str,
    r: Option<Vec<u8>>,
)
    requires
        call_ensures(base64url_encode, (bytes,), text),
        call_ensures(base64url_decode, (s,), r),
    ensures
        s@ == text@ ==> r is Some && r->0@ == bytes@,
        r is Some && r->0@ == bytes@ ==> s@ == text@,
{
    law_encoded_reads_back(bytes@);
    if decoded(s@) is Some {
        crate::base64url::law_one_text(s@);
    }
}

} // verus!
