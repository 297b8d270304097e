//! The 64-bit FNV-1a hash, and the sync epoch that it composes.

use vstd::prelude::*;
use vstd::bytes::{spec_u64_to_le_bytes_open, spec_u64_to_le_bytes_to_open, u64_to_le_bytes};

verus! {

/// The hash of no bytes.
pub const FNV_OFFSET_BASIS: u64 = 0xcbf2_9ce4_8422_2325;

/// What each step multiplies by.
pub const FNV_PRIME: u64 = 0x0000_0100_0000_01b3;

/// The hash after one more byte: the byte is mixed in, then the whole is
/// multiplied, modulo two to the sixty-fourth.
pub open spec fn fnv_step(hash: u64, byte: u8) -> u64 {
    (hash ^ (byte as u64)).wrapping_mul(FNV_PRIME)
}

/// The FNV-1a hash of the bytes.
pub open spec fn fnv1a(bytes: Seq<u8>) -> u64
    decreases bytes.len(),
{
    if bytes.len() == 0 {
        FNV_OFFSET_BASIS
    } else {
        fnv_step(fnv1a(bytes.drop_last()), bytes.last())
    }
}

/// The FNV-1a hash of `bytes`.
pub fn fnv1a_64(bytes: &[u8]) -> (r: u64)
    ensures
        r == fnv1a(bytes@),
{
    let mut hash: u64 = FNV_OFFSET_BASIS;
    let mut i: usize = 0;
    while i < bytes.len()
        invariant
            i <= bytes@.len(),
            hash == fnv1a(bytes@.take(i as int)),
        decreases bytes@.len() - i,
    {
        assert(bytes@.take(i + 1).drop_last() == bytes@.take(i as int));
        hash = (hash ^ bytes[i] as u64).wrapping_mul(FNV_PRIME);
        i += 1;
    }
    assert(bytes@.take(i as int) == bytes@);
    hash
}

/// The epoch of a slot under a set of rules: the hash of the slot's epoch and the
/// rules' checksum, each in eight bytes, the least significant first.
pub open spec fn sync_epoch(slot_epoch: u64, rules_checksum: u64) -> u64 {
    fnv1a(spec_u64_to_le_bytes_open(slot_epoch) + spec_u64_to_le_bytes_open(rules_checksum))
}

/// The epoch of a slot under a set of rules.
pub fn compose_sync_epoch(slot_epoch: u64, rules_checksum: u64) -> (r: u64)
    ensures
        r == sync_epoch(slot_epoch, rules_checksum),
{
    proof {
        spec_u64_to_le_bytes_to_open(slot_epoch);
        spec_u64_to_le_bytes_to_open(rules_checksum);
    }
    let mut bytes: Vec<u8> = u64_to_le_bytes(slot_epoch);
    let mut rest: Vec<u8> = u64_to_le_bytes(rules_checksum);
    bytes.append(&mut rest);
    fnv1a_64(bytes.as_slice())
}

/// Multiplying by the prime loses nothing.
proof fn lemma_prime_loses_nothing(a: u64, b: u64)
    requires
        a.wrapping_mul(FNV_PRIME) == b.wrapping_mul(FNV_PRIME),
    ensures
        a == b,
{
    let m: int = 0x1_0000_0000_0000_0000;
    let x: int = a * FNV_PRIME;
    let y: int = b * FNV_PRIME;
    assert(x % m == y % m);
    let k: int = x / m - y / m;
    let d: int = a - b;
    assert(x == m * (x / m) + x % m);
    assert(y == m * (y / m) + y % m);
    assert(d * 0x0000_0100_0000_01b3 == k * m);
    let t: int = k * 0xce96_5057_aff6_957b - d * 887285111055;
    assert(d == m * t);
    assert(-m < d < m);
    assert(t == 0);
}

/// A step tells hashes apart that differ, and bytes that differ.
proof fn lemma_step_tells_apart(h: u64, g: u64, b: u8, c: u8)
    requires
        fnv_step(h, b) == fnv_step(g, c),
    ensures
        h == g ==> b == c,
        b == c ==> h == g,
{
    lemma_prime_loses_nothing(h ^ (b as u64), g ^ (c as u64));
    assert((h ^ (b as u64)) == (g ^ (c as u64)) && h == g ==> b == c) by (bit_vector);
    assert((h ^ (b as u64)) == (g ^ (c as u64)) && b == c ==> h == g) by (bit_vector);
}

/// A change of one byte changes the hash.
pub proof fn law_one_byte_changes_the_hash(a: Seq<u8>, b: Seq<u8>, k: int)
    requires
        a.len() == b.len(),
        0 <= k < a.len(),
        a[k] != b[k],
        forall|i: int| 0 <= i < a.len() && i != k ==> a[i] == b[i],
    ensures
        fnv1a(a) != fnv1a(b),
    decreases a.len(),
{
    let n = a.len() - 1;
    if fnv1a(a) == fnv1a(b) {
        lemma_step_tells_apart(fnv1a(a.drop_last()), fnv1a(b.drop_last()), a[n], b[n]);
        if k == n {
            assert(a.drop_last() =~= b.drop_last());
        } else {
            law_one_byte_changes_the_hash(a.drop_last(), b.drop_last(), k);
        }
    }
}

/// A change of one byte, of the slot's epoch or of the rules' checksum, changes the
/// epoch.
pub proof fn law_one_byte_changes_the_epoch(s1: u64, c1: u64, s2: u64, c2: u64, k: int)
    requires
        0 <= k < 16,
        ({
            let a = spec_u64_to_le_bytes_open(s1) + spec_u64_to_le_bytes_open(c1);
            let b = spec_u64_to_le_bytes_open(s2) + spec_u64_to_le_bytes_open(c2);
            &&& a[k] != b[k]
            &&& forall|i: int| 0 <= i < 16 && i != k ==> a[i] == b[i]
        }),
    ensures
        sync_epoch(s1, c1) != sync_epoch(s2, c2),
{
    let a = spec_u64_to_le_bytes_open(s1) + spec_u64_to_le_bytes_open(c1);
    let b = spec_u64_to_le_bytes_open(s2) + spec_u64_to_le_bytes_open(c2);
    assert(a.len() == 16 && b.len() == 16);
    law_one_byte_changes_the_hash(a, b, k);
}

} // verus!
