//! Digests, keyed digests, hexadecimal text, chance and the clock, from the crates
//! that provide them.

use vstd::prelude::*;
use crate::numbers::hex_char;
use crate::transport::hex_bytes;
use hmac::Mac;
use rand::RngCore;
use sha2::Digest;

verus! {

/// What `sha2::Sha256` gives for the bytes.
pub uninterp spec fn sha256_digest(data: Seq<u8>) -> Seq<u8>;

/// What `hmac::Hmac` over `sha2::Sha256` gives for a key and the bytes.
pub uninterp spec fn hmac_sha256_tag(key: Seq<u8>, data: Seq<u8>) -> Seq<u8>;

/// The two lower case hexadecimal digits of each byte.
pub open spec fn hex_text(b: Seq<u8>) -> Seq<char> {
    Seq::new(
        2 * b.len(),
        |i: int|
            if i % 2 == 0 {
                hex_char((b[i / 2] / 16) as nat)
            } else {
                hex_char((b[i / 2] % 16) as nat)
            },
    )
}

/// `sha2::Sha256::digest`: the digest of the bytes, which is 32 bytes long. Which
/// bytes those are, only the name says.
#[verifier::external_body]
pub(crate) fn sha256(data: &[u8]) -> (r: Vec<u8>)
    ensures
        r@ == sha256_digest(data@),
        r@.len() == 32,
{
    sha2::Sha256::digest(data).to_vec()
}

/// `hmac::Mac` of `hmac::Hmac<sha2::Sha256>`, made for the key (which may have any
/// length), fed with the bytes and finalized: the tag, which is 32 bytes long. Which
/// bytes those are, only the name says.
#[verifier::external_body]
pub(crate) fn hmac_sha256(key: &[u8], data: &[u8]) -> (r: Vec<u8>)
    ensures
        r@ == hmac_sha256_tag(key@, data@),
        r@.len() == 32,
{
    let mut mac = hmac::Hmac::<sha2::Sha256>::new_from_slice(key).expect("any key length");
    mac.update(data);
    mac.finalize().into_bytes().to_vec()
}

/// `hmac::Mac::verify_slice` of `hmac::Hmac<sha2::Sha256>`, made for the key and fed
/// with the bytes: whether `tag` is the tag, compared in constant time.
#[verifier::external_body]
pub(crate) fn hmac_sha256_matches(key: &[u8], data: &[u8], tag: &[u8]) -> (r: bool)
    ensures
        r == (tag@ == hmac_sha256_tag(key@, data@)),
{
    let mut mac = hmac::Hmac::<sha2::Sha256>::new_from_slice(key).expect("any key length");
    mac.update(data);
    mac.verify_slice(tag).is_ok()
}

/// `hex::encode`: two lower case hexadecimal digits for each byte.
#[verifier::external_body]
pub(crate) fn hex_encode(data: &[u8]) -> (r: String)
    ensures
        r@ == hex_text(data@),
{
    hex::encode(data)
}

/// `hex::decode`: the bytes that hexadecimal digits of either case write, two for
/// each; nothing for a text of odd length or with any other character.
#[verifier::external_body]
pub(crate) fn hex_decode(s: &str) -> (r: Option<Vec<u8>>)
    ensures
        match hex_bytes(s@) {
            Some(bytes) => r is Some && r->0@ == bytes,
            None => r is None,
        },
{
    hex::decode(s).ok()
}

/// `rand::RngCore::fill_bytes` of `rand::thread_rng`: `n` random bytes.
#[verifier::external_body]
fn random_bytes(n: usize) -> (r: Vec<u8>)
    ensures
        r@.len() == n,
{
    let mut buf = vec![0u8; n];
    rand::thread_rng().fill_bytes(&mut buf);
    buf
}

/// `time::OffsetDateTime::now_utc`, as its `unix_timestamp`: the seconds since the
/// start of 1970.
#[verifier::external_body]
fn unix_now() -> (r: i64) {
    time::OffsetDateTime::now_utc().unix_timestamp()
}

/// Whether the clock showed `now`.
pub closed spec fn clock_read(now: i64) -> bool {
    call_ensures(unix_now, (), now)
}

/// Reads the clock.
pub(crate) fn clock() -> (r: i64)
    ensures
        clock_read(r),
{
    unix_now()
}

/// Whether `n` random bytes were drawn as these.
pub closed spec fn drawn(n: usize, bytes: Seq<u8>) -> bool {
    exists|v: Vec<u8>| #[trigger] call_ensures(random_bytes, (n,), v) && v@ == bytes
}

/// Draws `n` random bytes.
pub(crate) fn draw(n: usize) -> (r: Vec<u8>)
    ensures
        r@.len() == n,
        drawn(n, r@),
{
    random_bytes(n)
}

} // verus!
