//! Log sequence numbers: positions in a write-ahead log.

use vstd::prelude::*;
use crate::numbers::{
    append_digits, digits_of, fault_of_number, lemma_digits_round_trip, number_fault,
    parse_unsigned, read_unsigned, without_plus, NumberFault,
};
use crate::text::{chars_of, lemma_trimmed, trim_chars, trimmed, white_space};

verus! {

/// A position in the write-ahead log.
#[derive(Debug, Clone, Copy, PartialEq, Eq, Hash, PartialOrd, Ord, Structural)]
pub struct Lsn(pub u64);

/// Why a text is no position.
#[derive(Debug, Clone, Copy, PartialEq, Eq, Structural)]
pub enum LsnParseError {
    /// There is no slash.
    MissingSeparator,
    /// A half is no hexadecimal number of 32 bits.
    InvalidHex(NumberFault),
}

/// The text of a position: its upper and its lower 32 bits in hexadecimal, with a
/// slash between them.
pub open spec fn lsn_text(n: u64) -> Seq<char> {
    digits_of(n as nat / 0x1_0000_0000, 16).push('/') + digits_of(n as nat % 0x1_0000_0000, 16)
}

/// The place of the first slash.
pub open spec fn first_slash(s: Seq<char>) -> Option<int>
    decreases s.len(),
{
    if s.len() == 0 {
        None
    } else if s[0] == '/' {
        Some(0)
    } else {
        match first_slash(s.drop_first()) {
            Some(i) => Some(i + 1),
            None => None,
        }
    }
}

/// The position that a text writes. White space around either half does not
/// matter.
pub open spec fn read_lsn(s: Seq<char>) -> Result<Lsn, LsnParseError> {
    match first_slash(s) {
        None => Err(LsnParseError::MissingSeparator),
        Some(i) => match (
            read_unsigned(trimmed(s.take(i)), 16, 0xffff_ffff),
            read_unsigned(trimmed(s.skip(i + 1)), 16, 0xffff_ffff),
        ) {
            (Some(hi), Some(lo)) => Ok(Lsn((hi * 0x1_0000_0000 + lo) as u64)),
            (None, _) => Err(
                LsnParseError::InvalidHex(number_fault(trimmed(s.take(i)), 16, 0xffff_ffff)),
            ),
            (Some(_), None) => Err(
                LsnParseError::InvalidHex(number_fault(trimmed(s.skip(i + 1)), 16, 0xffff_ffff)),
            ),
        },
    }
}

proof fn lemma_first_slash(s: Seq<char>, i: int)
    requires
        0 <= i <= s.len(),
        forall|k: int| 0 <= k < i ==> #[trigger] s[k] != '/',
        i < s.len() ==> s[i] == '/',
    ensures
        first_slash(s) == (if i < s.len() {
            Some(i)
        } else {
            None
        }),
    decreases s.len(),
{
    if i > 0 {
        let rest = s.drop_first();
        assert forall|k: int| 0 <= k < i - 1 implies #[trigger] rest[k] != '/' by {
            assert(rest[k] == s[k + 1]);
        }
        assert(s[0] != '/');
        lemma_first_slash(rest, i - 1);
    }
}

impl Lsn {
    /// The position before all others.
    #[verifier::allow_in_spec]
    pub fn zero() -> (r: Lsn)
        returns
            Lsn(0),
    {
        Lsn(0)
    }

    /// The position with the number `v`.
    pub fn new(v: u64) -> (r: Lsn)
        ensures
            r == Lsn(v),
    {
        Lsn(v)
    }

    /// The number of the position.
    pub fn raw(self) -> (r: u64)
        ensures
            r == self.0,
    {
        self.0
    }

    /// Moves on to `next` if that is further, and says whether it was.
    pub fn advance(&mut self, next: Lsn) -> (r: bool)
        ensures
            r == (next.0 > old(self).0),
            final(self).0 == if next.0 > old(self).0 {
                next.0
            } else {
                old(self).0
            },
    {
        if next.0 > self.0 {
            self.0 = next.0;
            true
        } else {
            false
        }
    }

    /// The earlier of two positions.
    pub fn min(self, other: Lsn) -> (r: Lsn)
        ensures
            r == (if self.0 <= other.0 {
                self
            } else {
                other
            }),
    {
        if self.0 <= other.0 {
            self
        } else {
            other
        }
    }

    /// Reads a position.
    pub fn parse(s: &str) -> (r: Result<Lsn, LsnParseError>)
        ensures
            r == read_lsn(s@),
    {
        let chars = chars_of(s);
        let mut i: usize = 0;
        while i < chars.len() && chars[i] != '/'
            invariant
                i <= chars@.len(),
                forall|k: int| 0 <= k < i ==> #[trigger] chars@[k] != '/',
            ensures
                i <= chars@.len(),
                forall|k: int| 0 <= k < i ==> #[trigger] chars@[k] != '/',
                i < chars@.len() ==> chars@[i as int] == '/',
            decreases chars@.len() - i,
        {
            i += 1;
        }
        proof {
            lemma_first_slash(chars@, i as int);
        }
        if i == chars.len() {
            return Err(LsnParseError::MissingSeparator);
        }
        let mut high: Vec<char> = Vec::new();
        let mut low: Vec<char> = Vec::new();
        let mut k: usize = 0;
        while k < chars.len()
            invariant
                i < chars@.len(),
                k <= chars@.len(),
                k <= i ==> high@ == chars@.take(k as int) && low@.len() == 0,
                k > i ==> high@ == chars@.take(i as int) && low@ == chars@.subrange(
                    i + 1,
                    k as int,
                ),
            decreases chars@.len() - k,
        {
            if k < i {
                high.push(chars[k]);
                assert(chars@.take(k + 1) == chars@.take(k as int).push(chars@[k as int]));
            } else if k > i {
                low.push(chars[k]);
                assert(chars@.subrange(i + 1, k + 1) == chars@.subrange(i + 1, k as int).push(
                    chars@[k as int],
                ));
            } else {
                assert(chars@.subrange(i + 1, k + 1) =~= seq![]);
            }
            k += 1;
        }
        assert(chars@.subrange(i + 1, k as int) == chars@.skip(i + 1));
        let high = trim_chars(&high);
        let low = trim_chars(&low);
        match (parse_unsigned(&high, 16, 0xffff_ffff), parse_unsigned(&low, 16, 0xffff_ffff)) {
            (Some(hi), Some(lo)) => Ok(Lsn(hi * 0x1_0000_0000 + lo)),
            (None, _) => Err(LsnParseError::InvalidHex(fault_of_number(&high, 16, 0xffff_ffff))),
            (Some(_), None) => Err(
                LsnParseError::InvalidHex(fault_of_number(&low, 16, 0xffff_ffff)),
            ),
        }
    }

    /// The text of the position.
    pub fn to_text(self) -> (r: String)
        ensures
            r@ == lsn_text(self.0),
    {
        let mut out: String = String::new();
        append_digits(&mut out, self.0 / 0x1_0000_0000, 16);
        out.push('/');
        append_digits(&mut out, self.0 % 0x1_0000_0000, 16);
        out
    }
}

impl Default for Lsn {
    fn default() -> (r: Self)
        ensures
            r == Lsn(0),
    {
        Lsn(0)
    }
}

impl std::str::FromStr for Lsn {
    type Err = LsnParseError;

    fn from_str(s: &str) -> (r: Result<Self, LsnParseError>)
        ensures
            r == read_lsn(s@),
    {
        Lsn::parse(s)
    }
}

proof fn lemma_digits_are_plain(n: nat, i: int)
    requires
        0 <= i < digits_of(n, 16).len(),
    ensures
        digits_of(n, 16)[i] != '/',
        !white_space(digits_of(n, 16)[i]),
{
    lemma_digits_round_trip(n, 16);
}

/// The text of a position reads back as that position.
pub proof fn law_lsn_round_trip(n: u64)
    ensures
        read_lsn(lsn_text(n)) == Ok::<Lsn, LsnParseError>(Lsn(n)),
{
    let hi = n as nat / 0x1_0000_0000;
    let lo = n as nat % 0x1_0000_0000;
    let a = digits_of(hi, 16);
    let b = digits_of(lo, 16);
    let s = lsn_text(n);
    lemma_digits_round_trip(hi, 16);
    lemma_digits_round_trip(lo, 16);
    assert forall|k: int| 0 <= k < a.len() implies #[trigger] s[k] != '/' by {
        lemma_digits_are_plain(hi, k);
        assert(s[k] == a[k]);
    }
    lemma_first_slash(s, a.len() as int);
    assert(s.take(a.len() as int) =~= a);
    assert(s.skip(a.len() as int + 1) =~= b);
    lemma_digits_are_plain(hi, 0);
    lemma_digits_are_plain(hi, a.len() - 1);
    lemma_digits_are_plain(lo, 0);
    lemma_digits_are_plain(lo, b.len() - 1);
    lemma_trimmed(a);
    lemma_trimmed(b);
    assert(without_plus(a) == a && without_plus(b) == b);
}

/// A position never moves back.
pub proof fn law_advance_is_monotone(before: Lsn, next: Lsn)
    ensures
        ({
            let after = if next.0 > before.0 {
                next.0
            } else {
                before.0
            };
            after >= before.0 && after >= next.0 && (after == before.0 || after == next.0)
        }),
{
}

} // verus!
