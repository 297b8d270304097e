//! Tokens of the identity provider: `header.payload.signature`, each part in Base64,
//! signed by HMAC-SHA256.

use vstd::prelude::*;
use vstd::utf8::encode_utf8;
use crate::base64url::{base64url_decode, decoded};
use crate::digest::{clock, clock_read, hmac_sha256_matches, hmac_sha256_tag};
use crate::json::{json_read, parse_json, part, shaped, Json, JsonView};
use crate::text::{chars_of, slice_text};

verus! {

/// The seconds that a token is accepted for after it has expired.
pub const EXPIRY_LEEWAY_SECS: i64 = 60;

/// The place of the first dot from `from` on, or the end.
pub open spec fn until_dot(s: Seq<char>, from: int) -> int
    decreases s.len() - from,
{
    if from < 0 || from >= s.len() {
        s.len() as int
    } else if s[from] == '.' {
        from
    } else {
        until_dot(s, from + 1)
    }
}

/// What a token is made of.
pub struct TokenParts {
    /// The header and the payload as they were signed, with the dot between them.
    pub signed: Seq<char>,
    pub payload: Seq<char>,
    pub signature: Seq<char>,
}

/// The parts of a token. Whatever follows a third dot is passed over.
pub open spec fn token_parts(s: Seq<char>) -> Option<TokenParts> {
    let a = until_dot(s, 0);
    let b = until_dot(s, a + 1);
    let c = until_dot(s, b + 1);
    if a < s.len() && b < s.len() {
        Some(
            TokenParts {
                signed: s.subrange(0, b),
                payload: s.subrange(a + 1, b),
                signature: s.subrange(b + 1, c),
            },
        )
    } else {
        None
    }
}

/// The payload of a token: the part after the first dot.
pub open spec fn second_part(s: Seq<char>) -> Option<Seq<char>> {
    let a = until_dot(s, 0);
    if a < s.len() {
        Some(s.subrange(a + 1, until_dot(s, a + 1)))
    } else {
        None
    }
}

/// Reads a time that may be missing: `None` where it is no time.
pub open spec fn read_expiry(v: Option<JsonView>) -> Option<Option<i64>> {
    match v {
        None => Some(None),
        Some(JsonView::Null) => Some(None),
        Some(JsonView::Unsigned(n)) => if n <= i64::MAX {
            Some(Some(n as i64))
        } else {
            None
        },
        Some(JsonView::Negative(n)) => Some(Some(n)),
        Some(_) => None,
    }
}

/// The account and the expiry that a payload claims.
pub open spec fn claimed(payload: Seq<u8>) -> Option<(Seq<char>, Option<i64>)> {
    match json_read(payload) {
        Some(v) => if shaped(v, 2) {
            match (part(v, 0, "sub"@), read_expiry(part(v, 1, "exp"@))) {
                (Some(JsonView::Text(sub)), Some(exp)) => Some((sub, exp)),
                _ => None,
            }
        } else {
            None
        },
        None => None,
    }
}

/// Whether a token that expires at `exp` is refused at `now`.
pub open spec fn expired(exp: Option<i64>, now: i64) -> bool {
    match exp {
        Some(t) => now > t + 60,
        None => false,
    }
}

/// The account that a payload claims at `now`, unless it has expired.
pub open spec fn accepted(payload: Seq<char>, now: i64) -> Option<Seq<char>> {
    match decoded(payload) {
        Some(bytes) => match claimed(bytes) {
            Some(c) => if expired(c.1, now) {
                None
            } else {
                Some(c.0)
            },
            None => None,
        },
        None => None,
    }
}

/// Whether a token was signed with the secret.
pub open spec fn genuine(secret: Seq<u8>, p: TokenParts) -> bool {
    decoded(p.signature) == Some(hmac_sha256_tag(secret, encode_utf8(p.signed)))
}

/// The account that a token is accepted for at `now`.
pub open spec fn verified_sub(secret: Seq<u8>, token: Seq<char>, now: i64) -> Option<Seq<char>> {
    match token_parts(token) {
        Some(p) => if genuine(secret, p) {
            accepted(p.payload, now)
        } else {
            None
        },
        None => None,
    }
}

/// The place of the first dot from `from` on, or the end.
fn find_dot(s: &Vec<char>, from: usize) -> (r: usize)
    requires
        from <= s@.len(),
    ensures
        r == until_dot(s@, from as int),
        from <= r <= s@.len(),
{
    let mut i: usize = from;
    while i < s.len()
        invariant
            from <= i <= s@.len(),
            until_dot(s@, from as int) == until_dot(s@, i as int),
        decreases s@.len() - i,
    {
        if s[i] == '.' {
            return i;
        }
        i += 1;
    }
    i
}

/// The account and the expiry that a payload claims.
pub fn read_claims(payload: &[u8]) -> (r: Option<(String, Option<i64>)>)
    ensures
        match claimed(payload@) {
            Some(c) => r matches Some(d) && d.0@ == c.0 && d.1 == c.1,
            None => r is None,
        },
{
    let v = match parse_json(payload) {
        Some(v) => v,
        None => {
            return None;
        },
    };
    if !v.shaped(2) {
        return None;
    }
    let exp: Option<i64> = match v.part(1, "exp") {
        None => None,
        Some(e) => match e {
            Json::Null => None,
            Json::Unsigned(n) => {
                if *n <= 0x7fff_ffff_ffff_ffff {
                    Some(*n as i64)
                } else {
                    return None;
                }
            },
            Json::Negative(n) => Some(*n),
            _ => {
                return None;
            },
        },
    };
    match v.part(0, "sub") {
        Some(sub) => match sub.as_text() {
            Some(s) => Some((s.clone(), exp)),
            None => None,
        },
        None => None,
    }
}

/// The account that a payload claims at `now`, unless it has expired. A payload
/// without an expiry never expires.
pub fn accept_claims(payload: &str, now: i64) -> (r: Option<String>)
    ensures
        match accepted(payload@, now) {
            Some(sub) => r matches Some(s) && s@ == sub,
            None => r is None,
        },
{
    let bytes = match base64url_decode(payload) {
        Some(b) => b,
        None => {
            return None;
        },
    };
    match read_claims(bytes.as_slice()) {
        Some(claims) => {
            let late = match claims.1 {
                Some(t) => t < 0x7fff_ffff_ffff_ffff - 60 && now > t + EXPIRY_LEEWAY_SECS,
                None => false,
            };
            if late {
                None
            } else {
                Some(claims.0)
            }
        },
        None => None,
    }
}

/// Resolves a token to an account.
pub trait JwtVerifier: Send + Sync {
    /// The account of the token, or nothing where the token is not accepted.
    fn verify_sub(&self, token: &str) -> Option<String>;
}

/// Accepts tokens that were signed with a shared secret.
pub struct Hs256Verifier {
    secret: Vec<u8>,
}

impl Hs256Verifier {
    /// The secret.
    pub closed spec fn key(&self) -> Seq<u8> {
        self.secret@
    }

    /// A verifier for the secret.
    pub fn new(secret: Vec<u8>) -> (r: Self)
        ensures
            r.key() == secret@,
    {
        Hs256Verifier { secret }
    }

    /// The account that the token is accepted for at `now`.
    pub fn verify_sub_at(&self, token: &str, now: i64) -> (r: Option<String>)
        ensures
            match verified_sub(self.key(), token@, now) {
                Some(sub) => r matches Some(s) && s@ == sub,
                None => r is None,
            },
    {
        let s = chars_of(token);
        let a: usize = find_dot(&s, 0);
        if a == s.len() {
            return None;
        }
        let b: usize = find_dot(&s, a + 1);
        if b == s.len() {
            return None;
        }
        let c: usize = find_dot(&s, b + 1);
        let signed = slice_text(&s, 0, b);
        let payload = slice_text(&s, a + 1, b);
        let signature = slice_text(&s, b + 1, c);
        let tag = match base64url_decode(signature.as_str()) {
            Some(t) => t,
            None => {
                return None;
            },
        };
        let data = signed.as_str().as_bytes_vec();
        if !hmac_sha256_matches(self.secret.as_slice(), data.as_slice(), tag.as_slice()) {
            return None;
        }
        accept_claims(payload.as_str(), now)
    }
}

impl JwtVerifier for Hs256Verifier {
    /// The account that the token is accepted for by the clock.
    fn verify_sub(&self, token: &str) -> (r: Option<String>)
        ensures
            exists|now: i64| #[trigger]
                clock_read(now) && match verified_sub(self.key(), token@, now) {
                    Some(sub) => r matches Some(s) && s@ == sub,
                    None => r is None,
                },
    {
        let now: i64 = clock();
        let r = self.verify_sub_at(token, now);
        assert(match verified_sub(self.key(), token@, now) {
            Some(sub) => r matches Some(s) && s@ == sub,
            None => r is None,
        });
        r
    }
}

/// Accepts every token, whatever its signature and its expiry: for tests.
pub struct TestVerifier;

impl JwtVerifier for TestVerifier {
    fn verify_sub(&self, token: &str) -> (r: Option<String>)
        ensures
            match second_part(token@) {
                Some(p) => match decoded(p) {
                    Some(bytes) => match claimed(bytes) {
                        Some(c) => r matches Some(s) && s@ == c.0,
                        None => r is None,
                    },
                    None => r is None,
                },
                None => r is None,
            },
    {
        let s = chars_of(token);
        let a: usize = find_dot(&s, 0);
        if a == s.len() {
            return None;
        }
        let b: usize = find_dot(&s, a + 1);
        let payload = slice_text(&s, a + 1, b);
        match base64url_decode(payload.as_str()) {
            Some(bytes) => match read_claims(bytes.as_slice()) {
                Some(claims) => Some(claims.0),
                None => None,
            },
            None => None,
        }
    }
}

/// A token whose signature is not that of the secret is refused, whatever it claims.
pub proof fn law_forged_token_is_refused(secret: Seq<u8>, token: Seq<char>, now: i64)
    requires
        token_parts(token) is Some ==> !genuine(secret, token_parts(token)->0),
    ensures
        verified_sub(secret, token, now) is None,
{
}

/// A token that is refused because it has expired is refused ever after.
pub proof fn law_expired_stays_expired(exp: Option<i64>, now: i64, later: i64)
    requires
        expired(exp, now),
        now <= later,
    ensures
        expired(exp, later),
{
}

} // verus!
