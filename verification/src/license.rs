//! Licenses: what a project may use until when, signed so that it can be checked
//! without asking anyone. A license is `payload.signature`, both in Base64; the
//! signature is the HMAC-SHA256 of the payload as it is written.

use vstd::prelude::*;
use vstd::utf8::encode_utf8;
use crate::auth::until_dot;
use crate::base64url::{
    base64url_decode, base64url_encode, decoded, encoded, law_encoded_reads_back, law_one_text,
};
use crate::digest::{hmac_sha256, hmac_sha256_matches, hmac_sha256_tag};
use crate::json::{
    json_read, json_text, lemma_plain_fields, lemma_record_nesting, lemma_record_view, member,
    nesting, parse_json, plain, record_view, render_json, Json, JsonView,
};
use crate::text::{chars_of, same_text, slice_text};
use crate::tier::{tier_from_str, tier_name, tier_named, tier_str, Tier};

verus! {

/// What a license grants.
#[derive(Debug, Clone, PartialEq, Eq)]
pub struct LicenseClaims {
    pub project_id: String,
    pub tier: Tier,
    /// Until when, in seconds since the start of 1970.
    pub expires_at: i64,
    /// The number of devices, where it is not that of the tier.
    pub device_cap: Option<u64>,
}

/// What a license grants, by its values.
pub struct ClaimsView {
    pub project_id: Seq<char>,
    pub tier: Tier,
    pub expires_at: i64,
    pub device_cap: Option<u64>,
}

impl View for LicenseClaims {
    type V = ClaimsView;

    open spec fn view(&self) -> ClaimsView {
        ClaimsView {
            project_id: self.project_id@,
            tier: self.tier,
            expires_at: self.expires_at,
            device_cap: self.device_cap,
        }
    }
}

/// Why a license is not accepted.
#[derive(Debug, Clone, Copy, PartialEq, Eq, Structural)]
pub enum LicenseError {
    /// It is not made of a payload and a signature, or the payload says no claims.
    Malformed,
    /// It was not signed with the secret.
    BadSignature,
}

/// A whole number as a JSON value.
pub open spec fn integer_json(n: i64) -> JsonView {
    if n >= 0 {
        JsonView::Unsigned(n as u64)
    } else {
        JsonView::Negative(n)
    }
}

/// The claims as a JSON value.
pub open spec fn claims_json(c: ClaimsView) -> JsonView {
    JsonView::Record(
        seq![
            ("project_id"@, JsonView::Text(c.project_id)),
            ("tier"@, JsonView::Text(tier_name(c.tier))),
            ("expires_at"@, integer_json(c.expires_at)),
            (
                "device_cap"@,
                match c.device_cap {
                    Some(n) => JsonView::Unsigned(n),
                    None => JsonView::Null,
                },
            ),
        ],
    )
}

/// Reads a whole number.
pub open spec fn read_integer(v: Option<JsonView>) -> Option<i64> {
    match v {
        Some(JsonView::Unsigned(n)) => if n <= i64::MAX {
            Some(n as i64)
        } else {
            None
        },
        Some(JsonView::Negative(n)) => Some(n),
        _ => None,
    }
}

/// Reads the spelling of a tier.
pub open spec fn read_tier(v: Option<JsonView>) -> Option<Tier> {
    match v {
        Some(JsonView::Text(s)) => if tier_name(tier_named(s)) == s {
            Some(tier_named(s))
        } else {
            None
        },
        _ => None,
    }
}

/// Reads a number of devices.
pub open spec fn read_cap(v: Option<JsonView>) -> Option<Option<u64>> {
    match v {
        None => Some(None),
        Some(JsonView::Null) => Some(None),
        Some(JsonView::Unsigned(n)) => Some(Some(n)),
        _ => None,
    }
}

/// Reads claims.
pub open spec fn read_claims(v: JsonView) -> Option<ClaimsView> {
    match v {
        JsonView::Record(f) => match (
            member(f, "project_id"@),
            read_tier(member(f, "tier"@)),
            read_integer(member(f, "expires_at"@)),
            read_cap(member(f, "device_cap"@)),
        ) {
            (
                Some(JsonView::Text(project_id)),
                Some(tier),
                Some(expires_at),
                Some(device_cap),
            ) => Some(ClaimsView { project_id, tier, expires_at, device_cap }),
            _ => None,
        },
        _ => None,
    }
}

/// The text of a license with the given payload.
pub open spec fn license_text(secret: Seq<u8>, payload: Seq<u8>) -> Seq<char> {
    encoded(payload) + seq!['.'] + encoded(hmac_sha256_tag(secret, encode_utf8(encoded(payload))))
}

/// What a license grants.
pub open spec fn read_license(secret: Seq<u8>, token: Seq<char>) -> Result<
    ClaimsView,
    LicenseError,
> {
    let a = until_dot(token, 0);
    if a == token.len() {
        Err(LicenseError::Malformed)
    } else {
        let payload = token.subrange(0, a);
        match decoded(token.skip(a + 1)) {
            None => Err(LicenseError::Malformed),
            Some(tag) => if tag != hmac_sha256_tag(secret, encode_utf8(payload)) {
                Err(LicenseError::BadSignature)
            } else {
                match decoded(payload) {
                    None => Err(LicenseError::Malformed),
                    Some(bytes) => match json_read(bytes) {
                        None => Err(LicenseError::Malformed),
                        Some(v) => match read_claims(v) {
                            None => Err(LicenseError::Malformed),
                            Some(c) => Ok(c),
                        },
                    },
                }
            },
        }
    }
}

pub(crate) proof fn lemma_no_dot(b: Seq<u8>)
    ensures
        forall|i: int| 0 <= i < encoded(b).len() ==> #[trigger] encoded(b)[i] != '.',
    decreases b.len(),
{
    if b.len() > 2 {
        lemma_no_dot(b.skip(3));
        assert forall|i: int| 0 <= i < encoded(b).len() implies #[trigger] encoded(b)[i] != '.' by {
            if i >= 4 {
                assert(encoded(b)[i] == encoded(b.skip(3))[i - 4]);
            }
        }
    }
}

pub(crate) proof fn lemma_until_dot(s: Seq<char>, from: int, at: int)
    requires
        0 <= from <= at < s.len(),
        s[at] == '.',
        forall|i: int| from <= i < at ==> #[trigger] s[i] != '.',
    ensures
        until_dot(s, from) == at,
    decreases at - from,
{
    if from < at {
        assert(s[from] != '.');
        lemma_until_dot(s, from + 1, at);
    }
}

/// A license that was signed over claims is accepted with the same secret, and grants
/// what they say.
proof fn lemma_license_reads_back(secret: Seq<u8>, payload: Seq<u8>, c: ClaimsView)
    requires
        json_read(payload) == Some(claims_json(c)),
    ensures
        read_license(secret, license_text(secret, payload)) == Ok::<ClaimsView, LicenseError>(c),
{
    let token = license_text(secret, payload);
    let body = encoded(payload);
    let tag = hmac_sha256_tag(secret, encode_utf8(body));
    lemma_no_dot(payload);
    assert forall|i: int| 0 <= i < body.len() implies #[trigger] token[i] != '.' by {
        assert(token[i] == body[i]);
    }
    assert(token[body.len() as int] == '.');
    lemma_until_dot(token, 0, body.len() as int);
    assert(token.subrange(0, body.len() as int) =~= body);
    assert(token.skip(body.len() as int + 1) =~= encoded(tag));
    law_encoded_reads_back(payload);
    law_encoded_reads_back(tag);
    lemma_claims_read_back(c);
}

proof fn lemma_claims_read_back(c: ClaimsView)
    ensures
        read_claims(claims_json(c)) == Some(c),
{
    reveal_strlit("project_id");
    reveal_strlit("tier");
    reveal_strlit("expires_at");
    reveal_strlit("device_cap");
    reveal_strlit("hobby");
    reveal_strlit("pro");
    reveal_strlit("scale");
    reveal_strlit("enterprise");
    let f = claims_json(c)->Record_0;
    reveal_with_fuel(member, 5);
    assert(f.drop_first()[0] == f[1]);
    assert(f.drop_first().drop_first()[0] == f[2]);
    assert(f.drop_first().drop_first().drop_first()[0] == f[3]);
    assert("tier"@.len() != "project_id"@.len());
    assert("expires_at"@[0] != "project_id"@[0]);
    assert("device_cap"@[0] != "project_id"@[0]);
    assert("device_cap"@[0] != "expires_at"@[0]);
    assert("tier"@.len() != "expires_at"@.len());
    assert("tier"@.len() != "device_cap"@.len());
    assert(tier_named(tier_name(c.tier)) == c.tier) by {
        assert("hobby"@[0] != "pro"@[0]);
        assert("scale"@[0] != "pro"@[0]);
        assert("enterprise"@[0] != "pro"@[0]);
        assert("hobby"@[0] != "scale"@[0]);
        assert("enterprise"@[0] != "scale"@[0]);
        assert("hobby"@[0] != "enterprise"@[0]);
    }
}

proof fn lemma_claims_plain(c: ClaimsView)
    ensures
        plain(claims_json(c)),
        nesting(claims_json(c)) <= 127,
{
    reveal_strlit("project_id");
    reveal_strlit("tier");
    reveal_strlit("expires_at");
    reveal_strlit("device_cap");
    let f = claims_json(c)->Record_0;
    assert("tier"@.len() != "project_id"@.len());
    assert("expires_at"@[0] != "project_id"@[0]);
    assert("device_cap"@[0] != "project_id"@[0]);
    assert("device_cap"@[0] != "expires_at"@[0]);
    lemma_plain_fields(f);
    lemma_record_nesting(f, 0);
}

impl LicenseClaims {
    /// The license: the claims, signed with the secret. It is accepted with the same
    /// secret, and grants what the claims say.
    pub fn sign(&self, secret: &[u8]) -> (r: String)
        ensures
            r@ == license_text(secret@, encode_utf8(json_text(claims_json(self@)))),
            read_license(secret@, r@) == Ok::<ClaimsView, LicenseError>(self@),
    {
        let expires_at = if self.expires_at >= 0 {
            Json::Unsigned(self.expires_at as u64)
        } else {
            Json::Negative(self.expires_at)
        };
        let device_cap = match self.device_cap {
            Some(n) => Json::Unsigned(n),
            None => Json::Null,
        };
        let mut fields: Vec<(String, Json)> = Vec::new();
        fields.push(("project_id".to_owned(), Json::Text(self.project_id.clone())));
        fields.push(("tier".to_owned(), Json::Text(tier_str(self.tier).to_owned())));
        fields.push(("expires_at".to_owned(), expires_at));
        fields.push(("device_cap".to_owned(), device_cap));
        proof {
            lemma_record_view(fields@);
            assert(record_view(fields@) =~= claims_json(self@)->Record_0);
            lemma_claims_plain(self@);
        }
        let text = render_json(&Json::Record(fields));
        let payload = text.as_str().as_bytes_vec();
        let mut out = base64url_encode(payload.as_slice());
        let signed = out.as_str().as_bytes_vec();
        let tag = hmac_sha256(secret, signed.as_slice());
        let signature = base64url_encode(tag.as_slice());
        out.push('.');
        out.append(signature.as_str());
        proof {
            assert(out@ =~= license_text(secret@, payload@));
            lemma_license_reads_back(secret@, payload@, self@);
        }
        out
    }

    /// What a license grants, where it was signed with the secret.
    pub fn verify(token: &str, secret: &[u8]) -> (r: Result<Self, LicenseError>)
        ensures
            match read_license(secret@, token@) {
                Ok(c) => r matches Ok(d) && d@ == c,
                Err(e) => r matches Err(f) && f == e,
            },
    {
        let s = chars_of(token);
        let mut a: usize = 0;
        while a < s.len() && s[a] != '.'
            invariant
                a <= s@.len(),
                until_dot(s@, 0) == until_dot(s@, a as int),
            decreases s@.len() - a,
        {
            a += 1;
        }
        if a == s.len() {
            return Err(LicenseError::Malformed);
        }
        let payload = slice_text(&s, 0, a);
        let signature = slice_text(&s, a + 1, s.len());
        assert(s@.subrange(a + 1, s@.len() as int) =~= s@.skip(a + 1));
        let tag = match base64url_decode(signature.as_str()) {
            Some(t) => t,
            None => {
                return Err(LicenseError::Malformed);
            },
        };
        let signed = payload.as_str().as_bytes_vec();
        if !hmac_sha256_matches(secret, signed.as_slice(), tag.as_slice()) {
            return Err(LicenseError::BadSignature);
        }
        match base64url_decode(payload.as_str()) {
            Some(bytes) => match parse_json(bytes.as_slice()) {
                Some(v) => match claims_of(&v) {
                    Some(c) => Ok(c),
                    None => Err(LicenseError::Malformed),
                },
                None => Err(LicenseError::Malformed),
            },
            None => Err(LicenseError::Malformed),
        }
    }
}

/// Reads claims.
fn claims_of(v: &Json) -> (r: Option<LicenseClaims>)
    ensures
        match read_claims(v@) {
            Some(c) => r matches Some(d) && d@ == c,
            None => r is None,
        },
{
    let project_id = match v.field("project_id") {
        Some(Json::Text(s)) => s.clone(),
        _ => {
            return None;
        },
    };
    let tier = match v.field("tier") {
        Some(Json::Text(s)) => {
            let t = tier_from_str(s.as_str());
            if !same_text(tier_str(t), s.as_str()) {
                return None;
            }
            t
        },
        _ => {
            return None;
        },
    };
    let expires_at: i64 = match v.field("expires_at") {
        Some(Json::Unsigned(n)) => {
            if *n > 0x7fff_ffff_ffff_ffff {
                return None;
            }
            *n as i64
        },
        Some(Json::Negative(n)) => *n,
        _ => {
            return None;
        },
    };
    let device_cap: Option<u64> = match v.field("device_cap") {
        None => None,
        Some(Json::Null) => None,
        Some(Json::Unsigned(n)) => Some(*n),
        _ => {
            return None;
        },
    };
    Some(LicenseClaims { project_id, tier, expires_at, device_cap })
}

// ---- laws ----

proof fn lemma_stops_at_a_dot(s: Seq<char>, from: int)
    requires
        0 <= from <= s.len(),
    ensures
        from <= until_dot(s, from) <= s.len(),
        until_dot(s, from) < s.len() ==> s[until_dot(s, from)] == '.',
    decreases s.len() - from,
{
    if from < s.len() && s[from] != '.' {
        lemma_stops_at_a_dot(s, from + 1);
    }
}

/// What is accepted as a license is what signing gives: its text is that of some
/// payload under the same secret.
pub proof fn law_accepted_license_was_signed(secret: Seq<u8>, token: Seq<char>)
    requires
        read_license(secret, token) is Ok,
    ensures
        exists|payload: Seq<u8>| token == #[trigger] license_text(secret, payload),
{
    let a = until_dot(token, 0);
    lemma_stops_at_a_dot(token, 0);
    let front = token.subrange(0, a);
    let back = token.skip(a + 1);
    law_one_text(front);
    law_one_text(back);
    let payload = decoded(front)->0;
    assert(token =~= front + seq!['.'] + back);
    assert(token == license_text(secret, payload));
}

} // verus!
