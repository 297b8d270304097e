//! Base64 in the alphabet for addresses, without padding.

use vstd::prelude::*;
use crate::text::chars_of;

verus! {

/// The symbol of six bits.
pub open spec fn symbol(v: int) -> char {
    if v < 26 {
        (v + 65) as char
    } else if v < 52 {
        (v - 26 + 97) as char
    } else if v < 62 {
        (v - 52 + 48) as char
    } else if v == 62 {
        '-'
    } else {
        '_'
    }
}

/// The six bits of a symbol.
pub open spec fn symbol_value(c: char) -> Option<int> {
    if 'A' <= c && c <= 'Z' {
        Some(c as int - 65)
    } else if 'a' <= c && c <= 'z' {
        Some(c as int - 97 + 26)
    } else if '0' <= c && c <= '9' {
        Some(c as int - 48 + 52)
    } else if c == '-' {
        Some(62)
    } else if c == '_' {
        Some(63)
    } else {
        None
    }
}

/// The text of bytes: four symbols for three bytes, and two or three symbols for one
/// or two bytes at the end.
pub open spec fn encoded(b: Seq<u8>) -> Seq<char>
    decreases b.len(),
{
    if b.len() == 0 {
        seq![]
    } else if b.len() == 1 {
        seq![symbol(b[0] as int / 4), symbol(b[0] as int % 4 * 16)]
    } else if b.len() == 2 {
        seq![
            symbol(b[0] as int / 4),
            symbol(b[0] as int % 4 * 16 + b[1] as int / 16),
            symbol(b[1] as int % 16 * 4),
        ]
    } else {
        seq![
            symbol(b[0] as int / 4),
            symbol(b[0] as int % 4 * 16 + b[1] as int / 16),
            symbol(b[1] as int % 16 * 4 + b[2] as int / 64),
            symbol(b[2] as int % 64),
        ] + encoded(b.skip(3))
    }
}

/// The bytes of a text. The bits that the last symbol has to spare are zero.
pub open spec fn decoded(s: Seq<char>) -> Option<Seq<u8>>
    decreases s.len(),
{
    if s.len() == 0 {
        Some(seq![])
    } else if s.len() == 1 {
        None
    } else if s.len() == 2 {
        match (symbol_value(s[0]), symbol_value(s[1])) {
            (Some(a), Some(b)) => if b % 16 == 0 {
                Some(seq![(a * 4 + b / 16) as u8])
            } else {
                None
            },
            _ => None,
        }
    } else if s.len() == 3 {
        match (symbol_value(s[0]), symbol_value(s[1]), symbol_value(s[2])) {
            (Some(a), Some(b), Some(c)) => if c % 4 == 0 {
                Some(seq![(a * 4 + b / 16) as u8, (b % 16 * 16 + c / 4) as u8])
            } else {
                None
            },
            _ => None,
        }
    } else {
        match (
            symbol_value(s[0]),
            symbol_value(s[1]),
            symbol_value(s[2]),
            symbol_value(s[3]),
            decoded(s.skip(4)),
        ) {
            (Some(a), Some(b), Some(c), Some(d), Some(rest)) => Some(
                seq![
                    (a * 4 + b / 16) as u8,
                    (b % 16 * 16 + c / 4) as u8,
                    (c % 4 * 64 + d) as u8,
                ] + rest,
            ),
            _ => None,
        }
    }
}

proof fn lemma_symbol(v: int)
    requires
        0 <= v < 64,
    ensures
        symbol_value(symbol(v)) == Some(v),
{
}

proof fn lemma_symbol_value(c: char)
    requires
        symbol_value(c) is Some,
    ensures
        0 <= symbol_value(c)->0 < 64,
        symbol(symbol_value(c)->0) == c,
{
}

/// What is written of bytes reads back as those bytes.
pub proof fn law_encoded_reads_back(b: Seq<u8>)
    ensures
        decoded(encoded(b)) == Some(b),
    decreases b.len(),
{
    let s = encoded(b);
    if b.len() == 1 {
        lemma_symbol(b[0] as int / 4);
        lemma_symbol(b[0] as int % 4 * 16);
        assert(decoded(s)->0 =~= b);
    } else if b.len() == 2 {
        lemma_symbol(b[0] as int / 4);
        lemma_symbol(b[0] as int % 4 * 16 + b[1] as int / 16);
        lemma_symbol(b[1] as int % 16 * 4);
        assert(decoded(s)->0 =~= b);
    } else if b.len() > 2 {
        law_encoded_reads_back(b.skip(3));
        lemma_symbol(b[0] as int / 4);
        lemma_symbol(b[0] as int % 4 * 16 + b[1] as int / 16);
        lemma_symbol(b[1] as int % 16 * 4 + b[2] as int / 64);
        lemma_symbol(b[2] as int % 64);
        assert(s.skip(4) =~= encoded(b.skip(3)));
        assert(decoded(s)->0 =~= b);
    } else {
        assert(decoded(s)->0 =~= b);
    }
}

proof fn lemma_bits(a: int, b: int, c: int, d: int)
    requires
        0 <= a < 64,
        0 <= b < 64,
        0 <= c < 64,
        0 <= d < 64,
    ensures
        ({
            let x = a * 4 + b / 16;
            let y = b % 16 * 16 + c / 4;
            let z = c % 4 * 64 + d;
            &&& 0 <= x < 256 && 0 <= y < 256 && 0 <= z < 256
            &&& x / 4 == a
            &&& x % 4 * 16 + y / 16 == b
            &&& y % 16 * 4 + z / 64 == c
            &&& z % 64 == d
            &&& b % 16 == 0 ==> x % 4 * 16 == b
            &&& c % 4 == 0 ==> y % 16 * 4 == c
        }),
{
}

proof fn lemma_one_ending(s: Seq<char>)
    requires
        s.len() < 4,
        decoded(s) is Some,
    ensures
        encoded(decoded(s)->0) == s,
{
    let b = decoded(s)->0;
    if s.len() == 0 {
        assert(encoded(b) =~= s);
    } else if s.len() == 2 {
        lemma_symbol_value(s[0]);
        lemma_symbol_value(s[1]);
        lemma_bits(symbol_value(s[0])->0, symbol_value(s[1])->0, 0, 0);
        assert(encoded(b) =~= s);
    } else {
        lemma_symbol_value(s[0]);
        lemma_symbol_value(s[1]);
        lemma_symbol_value(s[2]);
        lemma_bits(symbol_value(s[0])->0, symbol_value(s[1])->0, symbol_value(s[2])->0, 0);
        assert(encoded(b) =~= s);
    }
}

/// A text that reads as bytes is what is written of those bytes: every list of bytes
/// has one text.
pub proof fn law_one_text(s: Seq<char>)
    requires
        decoded(s) is Some,
    ensures
        encoded(decoded(s)->0) == s,
    decreases s.len(),
{
    if s.len() < 4 {
        lemma_one_ending(s);
    } else {
        let b = decoded(s)->0;
        let rest = decoded(s.skip(4))->0;
        lemma_symbol_value(s[0]);
        lemma_symbol_value(s[1]);
        lemma_symbol_value(s[2]);
        lemma_symbol_value(s[3]);
        lemma_bits(
            symbol_value(s[0])->0,
            symbol_value(s[1])->0,
            symbol_value(s[2])->0,
            symbol_value(s[3])->0,
        );
        law_one_text(s.skip(4));
        assert(b.skip(3) =~= rest);
        let front = seq![s[0], s[1], s[2], s[3]];
        assert(encoded(b) =~= front + encoded(b.skip(3)));
        assert(front + s.skip(4) =~= s);
    }
}

/// The symbol of six bits.
fn symbol_of(v: u8) -> (r: char)
    requires
        v < 64,
    ensures
        r == symbol(v as int),
{
    if v < 26 {
        (v + 65) as char
    } else if v < 52 {
        (v - 26 + 97) as char
    } else if v < 62 {
        (v - 52 + 48) as char
    } else if v == 62 {
        '-'
    } else {
        '_'
    }
}

/// The six bits of a symbol.
fn value_of_symbol(c: char) -> (r: Option<u8>)
    ensures
        match symbol_value(c) {
            Some(v) => r is Some && r->0 as int == v,
            None => r is None,
        },
        r is Some ==> r->0 < 64,
{
    if 'A' <= c && c <= 'Z' {
        Some((c as u32 - 65) as u8)
    } else if 'a' <= c && c <= 'z' {
        Some((c as u32 - 97 + 26) as u8)
    } else if '0' <= c && c <= '9' {
        Some((c as u32 - 48 + 52) as u8)
    } else if c == '-' {
        Some(62)
    } else if c == '_' {
        Some(63)
    } else {
        None
    }
}

/// The text of bytes.
pub fn base64url_encode(b: &[u8]) -> (r: String)
    ensures
        r@ == encoded(b@),
{
    let mut out: String = String::new();
    let n: usize = b.len();
    let mut i: usize = 0;
    assert(b@.skip(0) =~= b@);
    assert(out@ + encoded(b@) =~= encoded(b@));
    while n - i >= 3
        invariant
            n == b@.len(),
            i <= n,
            encoded(b@) == out@ + encoded(b@.skip(i as int)),
        decreases n - i,
    {
        let ghost before = out@;
        let ghost rest = b@.skip(i as int);
        assert(rest.skip(3) =~= b@.skip(i + 3));
        out.push(symbol_of(b[i] / 4));
        out.push(symbol_of(b[i] % 4 * 16 + b[i + 1] / 16));
        out.push(symbol_of(b[i + 1] % 16 * 4 + b[i + 2] / 64));
        out.push(symbol_of(b[i + 2] % 64));
        assert(encoded(b@) =~= out@ + encoded(b@.skip(i + 3)));
        i += 3;
    }
    let ghost before = out@;
    let ghost rest = b@.skip(i as int);
    if n - i == 1 {
        out.push(symbol_of(b[i] / 4));
        out.push(symbol_of(b[i] % 4 * 16));
    } else if n - i == 2 {
        out.push(symbol_of(b[i] / 4));
        out.push(symbol_of(b[i] % 4 * 16 + b[i + 1] / 16));
        out.push(symbol_of(b[i + 1] % 16 * 4));
    }
    assert(out@ =~= before + encoded(rest));
    out
}

/// The bytes of a text, where it is one of some bytes.
pub fn base64url_decode(text: &str) -> (r: Option<Vec<u8>>)
    ensures
        match decoded(text@) {
            Some(b) => r is Some && r->0@ == b,
            None => r is None,
        },
{
    let s = chars_of(text);
    let mut out: Vec<u8> = Vec::new();
    let n: usize = s.len();
    let mut i: usize = 0;
    proof {
        assert(s@.skip(0) =~= s@);
        if decoded(s@) is Some {
            assert(out@ + decoded(s@)->0 =~= decoded(s@)->0);
        }
    }
    while n - i >= 4
        invariant
            s@ == text@,
            n == s@.len(),
            i <= n,
            decoded(s@) is Some <==> decoded(s@.skip(i as int)) is Some,
            decoded(s@) is Some ==> decoded(s@)->0 == out@ + decoded(s@.skip(i as int))->0,
        decreases n - i,
    {
        let ghost rest = s@.skip(i as int);
        assert(rest.skip(4) =~= s@.skip(i + 4));
        match (
            value_of_symbol(s[i]),
            value_of_symbol(s[i + 1]),
            value_of_symbol(s[i + 2]),
            value_of_symbol(s[i + 3]),
        ) {
            (Some(a), Some(b), Some(c), Some(d)) => {
                out.push(a * 4 + b / 16);
                out.push(b % 16 * 16 + c / 4);
                out.push(c % 4 * 64 + d);
                proof {
                    if decoded(s@) is Some {
                        assert(decoded(s@)->0 =~= out@ + decoded(s@.skip(i + 4))->0);
                    }
                }
            },
            _ => {
                return None;
            },
        }
        i += 4;
    }
    let ghost before = out@;
    let ghost rest = s@.skip(i as int);
    if n - i == 1 {
        return None;
    }
    if n - i == 2 {
        match (value_of_symbol(s[i]), value_of_symbol(s[i + 1])) {
            (Some(a), Some(b)) => {
                if b % 16 != 0 {
                    return None;
                }
                out.push(a * 4 + b / 16);
            },
            _ => {
                return None;
            },
        }
    }
    if n - i == 3 {
        match (value_of_symbol(s[i]), value_of_symbol(s[i + 1]), value_of_symbol(s[i + 2])) {
            (Some(a), Some(b), Some(c)) => {
                if c % 4 != 0 {
                    return None;
                }
                out.push(a * 4 + b / 16);
                out.push(b % 16 * 16 + c / 4);
            },
            _ => {
                return None;
            },
        }
    }
    assert(out@ =~= before + decoded(rest)->0);
    Some(out)
}

} // verus!
