//! Ids of records, and passwords.

use vstd::prelude::*;
use vstd::utf8::encode_utf8;
use crate::digest::{draw, drawn, hex_encode, hex_text, sha256, sha256_digest};
use crate::text::same_text;

verus! {

/// Whether a text is 24 lower case hexadecimal digits.
pub open spec fn is_random_id(s: Seq<char>) -> bool {
    s.len() == 24 && forall|i: int|
        0 <= i < s.len() ==> ('0' <= #[trigger] s[i] && s[i] <= '9') || ('a' <= s[i] && s[i] <= 'f')
}

/// Whether a text is the hexadecimal digits of twelve bytes that were drawn.
pub open spec fn is_drawn_id(s: Seq<char>) -> bool {
    exists|bytes: Seq<u8>| #[trigger] drawn(12, bytes) && s == hex_text(bytes)
}

/// A short random id: the 24 hexadecimal digits of twelve random bytes.
pub fn random_id() -> (r: String)
    ensures
        is_random_id(r@),
        is_drawn_id(r@),
{
    let bytes = draw(12);
    id_of(bytes.as_slice())
}

/// The id that some bytes make: their hexadecimal digits.
pub fn id_of(bytes: &[u8]) -> (r: String)
    ensures
        r@ == hex_text(bytes@),
        bytes@.len() == 12 ==> is_random_id(r@),
{
    hex_encode(bytes)
}

/// What is stored of a password: the hexadecimal digits of its SHA-256 digest.
pub open spec fn password_hash(password: Seq<char>) -> Seq<char> {
    hex_text(sha256_digest(encode_utf8(password)))
}

/// What is stored of a password.
pub fn hash_password(password: &str) -> (r: String)
    ensures
        r@ == password_hash(password@),
        r@.len() == 64,
{
    let digest = sha256(password.as_bytes_vec().as_slice());
    hex_encode(digest.as_slice())
}

/// Whether a password is the one that was stored.
pub fn verify_password(password: &str, expected_hex: &str) -> (r: bool)
    ensures
        r == (password_hash(password@) == expected_hex@),
{
    let digest = hash_password(password);
    same_text(digest.as_str(), expected_hex)
}

} // verus!
