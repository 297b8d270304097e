//! The payment provider Stripe: checking what it sends, and building what is asked
//! of it.

use vstd::prelude::*;
use vstd::utf8::encode_utf8;
use crate::digest::{clock, clock_read, hex_decode, hmac_sha256_matches, hmac_sha256_tag};
use crate::json::{json_read, member, parse_json, part, shaped, Json, JsonView};
use crate::numbers::{parse_signed, read_signed, signed_decimal, signed_decimal_text};
use crate::text::{chars_of, string_of, trim_chars, trimmed};
use crate::transport::hex_bytes;

verus! {

/// How far the time of a message may be from the clock, in seconds.
pub const DEFAULT_TOLERANCE_SECS: u64 = 300;

/// What failed.
#[derive(Debug)]
pub enum StripeError {
    /// A message is not from the provider.
    BadSignature(String),
    /// A secret cannot be used.
    BadSecret,
    /// The provider was not reached, or its answer was not understood.
    Http(String),
    /// The provider refused.
    Api(String),
}

/// The text of an error.
pub open spec fn stripe_error_text(e: StripeError) -> Seq<char> {
    match e {
        StripeError::BadSignature(s) => "webhook signature invalid: "@ + s@,
        StripeError::BadSecret => "bad secret"@,
        StripeError::Http(s) => "http error: "@ + s@,
        StripeError::Api(s) => "stripe api error: "@ + s@,
    }
}

/// Two texts, one after the other.
fn joined(a: &str, b: &str) -> (r: String)
    ensures
        r@ == a@ + b@,
{
    let mut out: String = a.to_owned();
    out.append(b);
    out
}

impl StripeError {
    /// The error as text.
    pub fn to_text(&self) -> (r: String)
        ensures
            r@ == stripe_error_text(*self),
    {
        match self {
            StripeError::BadSignature(s) => joined("webhook signature invalid: ", s.as_str()),
            StripeError::BadSecret => "bad secret".to_owned(),
            StripeError::Http(s) => joined("http error: ", s.as_str()),
            StripeError::Api(s) => joined("stripe api error: ", s.as_str()),
        }
    }
}

// ---- the signature of a message ----

/// The pieces of a text between commas.
pub open spec fn pieces(s: Seq<char>) -> Seq<Seq<char>>
    decreases s.len(),
{
    if s.len() == 0 {
        seq![seq![]]
    } else {
        let front = pieces(s.drop_last());
        if s.last() == ',' {
            front.push(seq![])
        } else {
            front.drop_last().push(front.last().push(s.last()))
        }
    }
}

/// Whether a piece says the time.
pub open spec fn says_time(p: Seq<char>) -> bool {
    p.len() >= 2 && p[0] == 't' && p[1] == '='
}

/// Whether a piece says the signature.
pub open spec fn says_signature(p: Seq<char>) -> bool {
    p.len() >= 3 && p[0] == 'v' && p[1] == '1' && p[2] == '='
}

/// The time that the last piece which says one says, if that is a number.
pub open spec fn said_time(p: Seq<Seq<char>>) -> Option<int>
    decreases p.len(),
{
    if p.len() == 0 {
        None
    } else if says_time(p.last()) {
        read_signed(trimmed(p.last().skip(2)))
    } else {
        said_time(p.drop_last())
    }
}

/// The signature that the last piece which says one says.
pub open spec fn said_signature(p: Seq<Seq<char>>) -> Option<Seq<char>>
    decreases p.len(),
{
    if p.len() == 0 {
        None
    } else if says_signature(p.last()) {
        Some(trimmed(p.last().skip(3)))
    } else {
        said_signature(p.drop_last())
    }
}

/// The distance of two times.
pub open spec fn apart(a: int, b: int) -> int {
    if a >= b {
        a - b
    } else {
        b - a
    }
}

/// The time and the tag that a header says at `now`, or why it is refused.
pub open spec fn read_header(header: Seq<char>, tolerance: u64, now: i64) -> Result<
    (int, Seq<u8>),
    Seq<char>,
> {
    match said_time(pieces(header)) {
        None => Err("missing t"@),
        Some(t) => match said_signature(pieces(header)) {
            None => Err("missing v1"@),
            Some(v1) => if apart(t, now as int) > tolerance {
                Err("timestamp outside tolerance"@)
            } else {
                match hex_bytes(v1) {
                    None => Err("v1 not hex"@),
                    Some(tag) => Ok((t, tag)),
                }
            },
        },
    }
}

/// What a message is signed over: the time in decimal digits, a dot, and the body.
pub open spec fn signed_bytes(time: int, body: Seq<u8>) -> Seq<u8> {
    encode_utf8(signed_decimal(time)) + seq![46u8] + body
}

/// Why a message is refused, where it is.
pub open spec fn refusal(
    header: Seq<char>,
    body: Seq<u8>,
    secret: Seq<char>,
    tolerance: u64,
    now: i64,
) -> Option<Seq<char>> {
    match read_header(header, tolerance, now) {
        Err(e) => Some(e),
        Ok(h) => if h.1 == hmac_sha256_tag(encode_utf8(secret), signed_bytes(h.0, body)) {
            None
        } else {
            Some("hmac mismatch"@)
        },
    }
}

/// The pieces by their characters.
pub open spec fn piece_views(s: Seq<Vec<char>>) -> Seq<Seq<char>> {
    Seq::new(s.len(), |i: int| s[i]@)
}

/// The pieces of a text between commas.
fn split_pieces(s: &Vec<char>) -> (r: Vec<Vec<char>>)
    ensures
        piece_views(r@) == pieces(s@),
{
    let mut out: Vec<Vec<char>> = Vec::new();
    let mut piece: Vec<char> = Vec::new();
    let mut i: usize = 0;
    proof {
        assert(s@.take(0) =~= seq![]);
        assert(piece_views(out@).push(piece@) =~= seq![seq![]]);
    }
    while i < s.len()
        invariant
            i <= s@.len(),
            pieces(s@.take(i as int)) == piece_views(out@).push(piece@),
        decreases s@.len() - i,
    {
        let ghost before = piece_views(out@);
        let ghost current = piece@;
        proof {
            assert(s@.take(i + 1).drop_last() =~= s@.take(i as int));
            assert(before.push(current).drop_last() =~= before);
        }
        if s[i] == ',' {
            out.push(piece);
            piece = Vec::new();
            assert(piece_views(out@) =~= before.push(current));
            assert(piece@ =~= seq![]);
        } else {
            piece.push(s[i]);
        }
        i += 1;
    }
    assert(s@.take(i as int) =~= s@);
    let ghost before = piece_views(out@);
    let ghost current = piece@;
    out.push(piece);
    assert(piece_views(out@) =~= before.push(current));
    out
}

/// A list without its first `n` characters and the white space around the rest.
fn trimmed_rest(p: &Vec<char>, n: usize) -> (r: Vec<char>)
    requires
        n <= p@.len(),
    ensures
        r@ == trimmed(p@.skip(n as int)),
{
    let mut rest: Vec<char> = Vec::new();
    let mut i: usize = n;
    while i < p.len()
        invariant
            n <= i <= p@.len(),
            rest@ == p@.subrange(n as int, i as int),
        decreases p@.len() - i,
    {
        rest.push(p[i]);
        i += 1;
        assert(p@.subrange(n as int, i as int) =~= p@.subrange(n as int, i - 1).push(p@[i - 1]));
    }
    assert(p@.subrange(n as int, i as int) =~= p@.skip(n as int));
    trim_chars(&rest)
}

/// The time and the tag that a header says at `now`. A header has comma separated
/// pieces; of those that say the same thing the last counts.
pub fn read_signature(header: &str, tolerance_secs: u64, now: i64) -> (r: Result<
    (i64, Vec<u8>),
    StripeError,
>)
    ensures
        match read_header(header@, tolerance_secs, now) {
            Ok(h) => r matches Ok(g) && g.0 == h.0 && g.1@ == h.1,
            Err(e) => r matches Err(StripeError::BadSignature(t)) && t@ == e,
        },
{
    let chars = chars_of(header);
    let parts = split_pieces(&chars);
    let ghost views = piece_views(parts@);
    let mut time: Option<i64> = None;
    let mut v1: Option<Vec<char>> = None;
    let mut i: usize = 0;
    assert(views.take(0) =~= seq![]);
    while i < parts.len()
        invariant
            i <= parts@.len(),
            views == piece_views(parts@),
            match said_time(views.take(i as int)) {
                Some(t) => time is Some && time->0 == t,
                None => time is None,
            },
            match said_signature(views.take(i as int)) {
                Some(s) => v1 is Some && v1->0@ == s,
                None => v1 is None,
            },
        decreases parts@.len() - i,
    {
        let p = &parts[i];
        proof {
            assert(views.take(i + 1).drop_last() =~= views.take(i as int));
            assert(views.take(i + 1).last() == p@);
        }
        if p.len() >= 2 && p[0] == 't' && p[1] == '=' {
            let rest = trimmed_rest(p, 2);
            time = parse_signed(&rest);
        } else if p.len() >= 3 && p[0] == 'v' && p[1] == '1' && p[2] == '=' {
            v1 = Some(trimmed_rest(p, 3));
        }
        i += 1;
    }
    assert(views.take(i as int) =~= views);
    let time: i64 = match time {
        Some(t) => t,
        None => {
            return Err(StripeError::BadSignature("missing t".to_owned()));
        },
    };
    let v1 = match v1 {
        Some(s) => s,
        None => {
            return Err(StripeError::BadSignature("missing v1".to_owned()));
        },
    };
    let distance: u64 = if time >= now {
        (time as i128 - now as i128) as u64
    } else {
        (now as i128 - time as i128) as u64
    };
    if distance > tolerance_secs {
        return Err(StripeError::BadSignature("timestamp outside tolerance".to_owned()));
    }
    let text = string_of(v1.as_slice());
    match hex_decode(text.as_str()) {
        Some(tag) => Ok((time, tag)),
        None => Err(StripeError::BadSignature("v1 not hex".to_owned())),
    }
}

/// Checks at `now` that a message is from the provider.
pub fn verify_webhook_at(
    signature_header: &str,
    raw_body: &[u8],
    secret: &str,
    tolerance_secs: u64,
    now: i64,
) -> (r: Result<(), StripeError>)
    ensures
        match refusal(signature_header@, raw_body@, secret@, tolerance_secs, now) {
            None => r is Ok,
            Some(e) => r matches Err(StripeError::BadSignature(t)) && t@ == e,
        },
{
    let signature = match read_signature(signature_header, tolerance_secs, now) {
        Ok(s) => s,
        Err(e) => {
            return Err(e);
        },
    };
    let time_text = signed_decimal_text(signature.0);
    let mut data: Vec<u8> = time_text.as_str().as_bytes_vec();
    let ghost start = data@;
    data.push(46);
    let mut i: usize = 0;
    while i < raw_body.len()
        invariant
            i <= raw_body@.len(),
            data@ == start.push(46) + raw_body@.take(i as int),
        decreases raw_body@.len() - i,
    {
        data.push(raw_body[i]);
        assert(raw_body@.take(i + 1) =~= raw_body@.take(i as int).push(raw_body@[i as int]));
        i += 1;
    }
    assert(data@ =~= signed_bytes(signature.0 as int, raw_body@));
    let key = secret.as_bytes_vec();
    if hmac_sha256_matches(key.as_slice(), data.as_slice(), signature.1.as_slice()) {
        Ok(())
    } else {
        Err(StripeError::BadSignature("hmac mismatch".to_owned()))
    }
}

/// Checks by the clock that a message is from the provider.
pub fn verify_webhook(
    signature_header: &str,
    raw_body: &[u8],
    secret: &str,
    tolerance_secs: u64,
) -> (r: Result<(), StripeError>)
    ensures
        exists|now: i64| #[trigger]
            clock_read(now) && match refusal(
                signature_header@,
                raw_body@,
                secret@,
                tolerance_secs,
                now,
            ) {
                None => r is Ok,
                Some(e) => r matches Err(StripeError::BadSignature(t)) && t@ == e,
            },
{
    let now: i64 = clock();
    let r = verify_webhook_at(signature_header, raw_body, secret, tolerance_secs, now);
    assert(match refusal(signature_header@, raw_body@, secret@, tolerance_secs, now) {
        None => r is Ok,
        Some(e) => r matches Err(StripeError::BadSignature(t)) && t@ == e,
    });
    r
}

// ---- what a message says ----

/// What a message says, as far as it is read.
#[derive(Debug, Clone)]
pub struct StripeEvent {
    pub id: String,
    pub event_type: String,
    pub data: StripeEventData,
}

/// What a message is about.
#[derive(Debug, Clone)]
pub struct StripeEventData {
    pub object: Json,
}

/// A message by its values.
pub struct EventView {
    pub id: Seq<char>,
    pub event_type: Seq<char>,
    pub object: JsonView,
}

impl View for StripeEvent {
    type V = EventView;

    open spec fn view(&self) -> EventView {
        EventView { id: self.id@, event_type: self.event_type@, object: self.data.object@ }
    }
}

/// What a message is about, where that stands in it.
pub open spec fn read_object(v: Option<JsonView>) -> Option<JsonView> {
    match v {
        Some(d) => if shaped(d, 1) {
            part(d, 0, "object"@)
        } else {
            None
        },
        None => None,
    }
}

/// Reads a message.
pub open spec fn read_event(body: Seq<u8>) -> Option<EventView> {
    match json_read(body) {
        Some(v) => if shaped(v, 3) {
            match (part(v, 0, "id"@), part(v, 1, "type"@), read_object(part(v, 2, "data"@))) {
                (
                    Some(JsonView::Text(id)),
                    Some(JsonView::Text(event_type)),
                    Some(object),
                ) => Some(EventView { id, event_type, object }),
                _ => None,
            }
        } else {
            None
        },
        None => None,
    }
}

/// The text of a part.
fn text_in(v: &Json, i: usize, name: &str) -> (r: Option<String>)
    ensures
        match part(v@, i as int, name@) {
            Some(JsonView::Text(s)) => r matches Some(t) && t@ == s,
            _ => r is None,
        },
{
    match v.part(i, name) {
        Some(x) => match x.as_text() {
            Some(s) => Some(s.clone()),
            None => None,
        },
        None => None,
    }
}

/// Reads a message.
pub fn parse_event(body: &[u8]) -> (r: Option<StripeEvent>)
    ensures
        match read_event(body@) {
            Some(e) => r matches Some(f) && f@ == e,
            None => r is None,
        },
{
    let v = match parse_json(body) {
        Some(v) => v,
        None => {
            return None;
        },
    };
    if !v.shaped(3) {
        return None;
    }
    let object: Json = match v.part(2, "data") {
        Some(d) => {
            if !d.shaped(1) {
                return None;
            }
            match d.part(0, "object") {
                Some(o) => o.clone(),
                None => {
                    return None;
                },
            }
        },
        None => {
            return None;
        },
    };
    match (text_in(&v, 0, "id"), text_in(&v, 1, "type")) {
        (Some(id), Some(event_type)) => Some(
            StripeEvent { id, event_type, data: StripeEventData { object } },
        ),
        _ => None,
    }
}

/// The text of a member.
pub open spec fn text_member(v: JsonView, name: Seq<char>) -> Option<Seq<char>> {
    match v {
        JsonView::Record(fields) => match member(fields, name) {
            Some(JsonView::Text(s)) => Some(s),
            _ => None,
        },
        _ => None,
    }
}

/// The subscription and the customer that an object names: a checkout names the
/// subscription as such, a subscription by its own id.
pub open spec fn named_ids(v: JsonView) -> Option<(Seq<char>, Seq<char>)> {
    let subscription = match text_member(v, "subscription"@) {
        Some(s) => Some(s),
        None => text_member(v, "id"@),
    };
    match (subscription, text_member(v, "customer"@)) {
        (Some(s), Some(c)) => Some((s, c)),
        _ => None,
    }
}

/// The text of a member.
pub fn member_text(v: &Json, name: &str) -> (r: Option<String>)
    ensures
        match text_member(v@, name@) {
            Some(s) => r matches Some(t) && t@ == s,
            None => r is None,
        },
{
    match v.field(name) {
        Some(x) => match x.as_text() {
            Some(s) => Some(s.clone()),
            None => None,
        },
        None => None,
    }
}

/// The subscription and the customer that an object names.
pub fn extract_subscription_ids(object: &Json) -> (r: Option<(String, String)>)
    ensures
        match named_ids(object@) {
            Some(p) => r matches Some(q) && q.0@ == p.0 && q.1@ == p.1,
            None => r is None,
        },
{
    let subscription = match member_text(object, "subscription") {
        Some(s) => s,
        None => match member_text(object, "id") {
            Some(s) => s,
            None => {
                return None;
            },
        },
    };
    match member_text(object, "customer") {
        Some(c) => Some((subscription, c)),
        None => None,
    }
}

// ---- asking for a checkout ----

/// A checkout to be created.
#[derive(Debug, Clone)]
pub struct CreateCheckout<'a> {
    /// The provider's id of the price.
    pub price_id: &'a str,
    /// Where the buyer goes afterwards.
    pub success_url: &'a str,
    /// Where the buyer goes who gives up.
    pub cancel_url: &'a str,
    /// The project, which comes back with the messages about the checkout.
    pub client_reference_id: &'a str,
}

/// A checkout that was created.
#[derive(Debug, Clone)]
pub struct CheckoutSession {
    pub url: String,
    pub id: String,
}

/// The fields that ask for a checkout.
pub open spec fn checkout_fields(
    price_id: Seq<char>,
    success_url: Seq<char>,
    cancel_url: Seq<char>,
    client_reference_id: Seq<char>,
) -> Seq<(Seq<char>, Seq<char>)> {
    seq![
        ("mode"@, "subscription"@),
        ("line_items[0][price]"@, price_id),
        ("line_items[0][quantity]"@, "1"@),
        ("success_url"@, success_url),
        ("cancel_url"@, cancel_url),
        ("client_reference_id"@, client_reference_id),
    ]
}

/// The fields by their characters.
pub open spec fn field_views(s: Seq<(String, String)>) -> Seq<(Seq<char>, Seq<char>)> {
    Seq::new(s.len(), |i: int| (s[i].0@, s[i].1@))
}

/// The fields that ask for a checkout.
pub fn checkout_form(req: &CreateCheckout<'_>) -> (r: Vec<(String, String)>)
    ensures
        field_views(r@) == checkout_fields(
            req.price_id@,
            req.success_url@,
            req.cancel_url@,
            req.client_reference_id@,
        ),
{
    let mut form: Vec<(String, String)> = Vec::new();
    form.push(("mode".to_owned(), "subscription".to_owned()));
    form.push(("line_items[0][price]".to_owned(), req.price_id.to_owned()));
    form.push(("line_items[0][quantity]".to_owned(), "1".to_owned()));
    form.push(("success_url".to_owned(), req.success_url.to_owned()));
    form.push(("cancel_url".to_owned(), req.cancel_url.to_owned()));
    form.push(("client_reference_id".to_owned(), req.client_reference_id.to_owned()));
    assert(field_views(form@) =~= checkout_fields(
        req.price_id@,
        req.success_url@,
        req.cancel_url@,
        req.client_reference_id@,
    ));
    form
}

/// Reads the answer of the provider: the address and the id of the checkout.
pub open spec fn read_session(body: Seq<char>) -> Option<(Seq<char>, Seq<char>)> {
    match json_read(encode_utf8(body)) {
        Some(v) => if shaped(v, 2) {
            match (part(v, 0, "url"@), part(v, 1, "id"@)) {
                (Some(JsonView::Text(url)), Some(JsonView::Text(id))) => Some((url, id)),
                _ => None,
            }
        } else {
            None
        },
        None => None,
    }
}

/// What the provider answered: a checkout where it agreed, and its status and words
/// where it did not.
pub fn checkout_reply(success: bool, status: &str, body: &str) -> (r: Result<
    CheckoutSession,
    StripeError,
>)
    ensures
        !success ==> (r matches Err(StripeError::Api(t)) && t@ == status@ + ": "@ + body@),
        success ==> match read_session(body@) {
            Some(s) => r matches Ok(c) && c.url@ == s.0 && c.id@ == s.1,
            None => r matches Err(StripeError::Http(t)) && t@
                == "error decoding response body"@,
        },
{
    if !success {
        let mut text: String = status.to_owned();
        text.append(": ");
        text.append(body);
        return Err(StripeError::Api(text));
    }
    let bytes = body.as_bytes_vec();
    let session = match parse_json(bytes.as_slice()) {
        Some(v) => if v.shaped(2) {
            match (text_in(&v, 0, "url"), text_in(&v, 1, "id")) {
                (Some(url), Some(id)) => Some(CheckoutSession { url, id }),
                _ => None,
            }
        } else {
            None
        },
        None => None,
    };
    match session {
        Some(s) => Ok(s),
        None => Err(StripeError::Http("error decoding response body".to_owned())),
    }
}

// ---- laws ----

/// A message whose time is further from the clock than is tolerated is refused,
/// whatever its signature: it cannot be sent again later.
pub proof fn law_no_replay(
    header: Seq<char>,
    body: Seq<u8>,
    secret: Seq<char>,
    tolerance: u64,
    now: i64,
)
    requires
        said_time(pieces(header)) is Some,
        apart(said_time(pieces(header))->0, now as int) > tolerance,
    ensures
        refusal(header, body, secret, tolerance, now) is Some,
{
}

/// A message is accepted only with the tag of its own time and body under the secret.
pub proof fn law_accepted_is_signed(
    header: Seq<char>,
    body: Seq<u8>,
    secret: Seq<char>,
    tolerance: u64,
    now: i64,
)
    requires
        refusal(header, body, secret, tolerance, now) is None,
    ensures
        said_time(pieces(header)) is Some,
        said_signature(pieces(header)) is Some,
        hex_bytes(said_signature(pieces(header))->0) == Some(
            hmac_sha256_tag(
                encode_utf8(secret),
                signed_bytes(said_time(pieces(header))->0, body),
            ),
        ),
        apart(said_time(pieces(header))->0, now as int) <= tolerance,
{
}

} // verus!
