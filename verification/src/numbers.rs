//! Integers as text: digits in a radix up to sixteen, decimal and signed forms,
//! and the readings that `str::parse` and `from_str_radix` give of them.

use vstd::prelude::*;

verus! {

/// The digit for `d`: `0` to `9`, then `A` to `F`.
pub open spec fn digit_char(d: nat) -> char {
    if d < 10 {
        ('0' as u32 + d) as char
    } else {
        ('A' as u32 + d - 10) as char
    }
}

/// The hexadecimal digit for `d`: `0` to `9`, then `a` to `f`.
pub open spec fn hex_char(d: nat) -> char {
    if d < 10 {
        ('0' as u32 + d) as char
    } else {
        ('a' as u32 + d - 10) as char
    }
}

/// What a digit stands for; letters count from ten in either case.
pub open spec fn digit_value(c: char) -> Option<nat> {
    if '0' <= c && c <= '9' {
        Some((c as u32 - '0' as u32) as nat)
    } else if 'a' <= c && c <= 'f' {
        Some((c as u32 - 'a' as u32 + 10) as nat)
    } else if 'A' <= c && c <= 'F' {
        Some((c as u32 - 'A' as u32 + 10) as nat)
    } else {
        None
    }
}

/// Whether `c` is a digit of the radix.
pub open spec fn is_digit(c: char, radix: nat) -> bool {
    digit_value(c) is Some && digit_value(c)->0 < radix
}

/// Whether every character of `s` is a digit of the radix.
pub open spec fn all_digits(s: Seq<char>, radix: nat) -> bool {
    forall|i: int| 0 <= i < s.len() ==> is_digit(#[trigger] s[i], radix)
}

/// The number that the digits `s` write, most significant digit first.
pub open spec fn digits_value(s: Seq<char>, radix: nat) -> nat
    decreases s.len(),
{
    if s.len() == 0 {
        0
    } else {
        digits_value(s.drop_last(), radix) * radix + digit_value(s.last())->0
    }
}

/// The digits of `n` in the radix, without leading zeros.
pub open spec fn digits_of(n: nat, radix: nat) -> Seq<char>
    decreases n,
{
    if radix < 2 || n < radix {
        seq![digit_char(n)]
    } else {
        proof {
            vstd::arithmetic::div_mod::lemma_div_decreases(n as int, radix as int);
        }
        digits_of(n / radix, radix).push(digit_char(n % radix))
    }
}

/// The decimal form of `n`.
pub open spec fn decimal(n: nat) -> Seq<char> {
    digits_of(n, 10)
}

/// The decimal form of `n`, with a minus sign where `n` is negative.
pub open spec fn signed_decimal(n: int) -> Seq<char> {
    if n < 0 {
        seq!['-'] + decimal((-n) as nat)
    } else {
        decimal(n as nat)
    }
}

/// The number that `s` writes in the radix: one digit or more, and no others.
pub open spec fn read_digits(s: Seq<char>, radix: nat) -> Option<nat> {
    if s.len() > 0 && all_digits(s, radix) {
        Some(digits_value(s, radix))
    } else {
        None
    }
}

/// `s` without a leading plus sign.
pub open spec fn without_plus(s: Seq<char>) -> Seq<char> {
    if s.len() > 0 && s[0] == '+' {
        s.drop_first()
    } else {
        s
    }
}

/// The unsigned number no larger than `max` that `s` writes: an optional plus
/// sign, then digits.
pub open spec fn read_unsigned(s: Seq<char>, radix: nat, max: nat) -> Option<nat> {
    match read_digits(without_plus(s), radix) {
        Some(n) => if n <= max { Some(n) } else { None },
        None => None,
    }
}

/// The `i64` that `s` writes in decimal: an optional sign, then digits.
pub open spec fn read_signed(s: Seq<char>) -> Option<int> {
    if s.len() > 0 && s[0] == '-' {
        match read_digits(s.drop_first(), 10) {
            Some(n) => if n <= 0x8000_0000_0000_0000 { Some(-(n as int)) } else { None },
            None => None,
        }
    } else {
        match read_unsigned(s, 10, 0x7fff_ffff_ffff_ffff) {
            Some(n) => Some(n as int),
            None => None,
        }
    }
}

proof fn lemma_push_value(s: Seq<char>, c: char, radix: nat)
    ensures
        digits_value(s.push(c), radix) == digits_value(s, radix) * radix + digit_value(c)->0,
{
    assert(s.push(c).drop_last() == s);
}

/// A longer run of digits writes no smaller a number.
proof fn lemma_value_grows(s: Seq<char>, i: int, radix: nat)
    requires
        0 <= i <= s.len(),
        radix >= 1,
    ensures
        digits_value(s.take(i), radix) <= digits_value(s, radix),
    decreases s.len(),
{
    if i == s.len() {
        assert(s.take(i) == s);
    } else {
        lemma_value_grows(s.drop_last(), i, radix);
        assert(s.drop_last().take(i) == s.take(i));
        let v = digits_value(s.drop_last(), radix);
        assert(v <= v * radix) by (nonlinear_arith)
            requires
                radix >= 1,
        ;
    }
}

/// What a digit is written with reads back as that digit.
proof fn lemma_digit_char(d: nat)
    requires
        d < 16,
    ensures
        digit_value(digit_char(d)) == Some(d),
{
}

/// The digits of a number read back as that number.
pub proof fn lemma_digits_round_trip(n: nat, radix: nat)
    requires
        2 <= radix <= 16,
    ensures
        digits_of(n, radix).len() > 0,
        all_digits(digits_of(n, radix), radix),
        digits_value(digits_of(n, radix), radix) == n,
        digits_of(n, radix)[0] != '+',
        digits_of(n, radix)[0] != '-',
    decreases n,
{
    let s = digits_of(n, radix);
    if n < radix {
        lemma_digit_char(n);
        assert(s.drop_last() == Seq::<char>::empty());
        assert(digits_value(s.drop_last(), radix) == 0);
        assert(0 * radix == 0);
    } else {
        vstd::arithmetic::div_mod::lemma_div_decreases(n as int, radix as int);
        lemma_digits_round_trip(n / radix, radix);
        lemma_digit_char(n % radix);
        lemma_push_value(digits_of(n / radix, radix), digit_char(n % radix), radix);
        vstd::arithmetic::div_mod::lemma_fundamental_div_mod(n as int, radix as int);
        assert((n / radix) * radix == radix * (n / radix)) by (nonlinear_arith);
    }
}

/// A number in decimal form is the digits of a tenth of it and one more digit, and a
/// number below ten is one digit.
pub proof fn law_decimal_is_positional(n: nat, d: nat)
    requires
        d < 10,
    ensures
        decimal(d).len() == 1,
        decimal(d)[0] as int == 48 + d,
        n > 0 ==> decimal(10 * n + d) == decimal(n).push(decimal(d)[0]),
{
    if n > 0 {
        assert((10 * n + d) / 10 == n);
        assert((10 * n + d) % 10 == d);
    }
}

/// A number in hexadecimal form is the digits of a sixteenth of it and one more digit,
/// which is one of the ten or a capital from `A` to `F`.
pub proof fn law_hexadecimal_is_positional(n: nat, d: nat)
    requires
        d < 16,
    ensures
        digits_of(d, 16).len() == 1,
        d < 10 ==> digits_of(d, 16)[0] as int == 48 + d,
        d >= 10 ==> digits_of(d, 16)[0] as int == 55 + d,
        n > 0 ==> digits_of(16 * n + d, 16) == digits_of(n, 16).push(digits_of(d, 16)[0]),
{
    if n > 0 {
        assert((16 * n + d) / 16 == n);
        assert((16 * n + d) % 16 == d);
    }
}

/// What is read of digits is a tenth of it ten times and the last digit; a sign of plus
/// is passed over, and nothing else is taken.
pub proof fn law_digits_are_read_by_place(s: Seq<char>, c: char, max: nat)
    ensures
        read_unsigned(seq![], 10, max) is None,
        read_unsigned(s.push(c), 10, max) is Some ==> 48 <= c as int <= 57,
        s.len() > 0 && s[0] != '+' && read_unsigned(s.push(c), 10, max) is Some ==> read_unsigned(
            s,
            10,
            max,
        ) is Some && read_unsigned(s.push(c), 10, max)->0 == 10 * read_unsigned(s, 10, max)->0 + (
        c as int - 48) && read_unsigned(s.push(c), 10, max)->0 <= max,
        read_unsigned(seq!['+'] + s, 10, max) is Some && s.len() > 0 && s[0] != '+' ==> read_unsigned(
            seq!['+'] + s,
            10,
            max,
        ) == read_unsigned(s, 10, max),
{
    let t = s.push(c);
    if read_unsigned(t, 10, max) is Some {
        let d = without_plus(t);
        assert(d.last() == c) by {
            if t[0] == '+' && s.len() == 0 {
                assert(d.len() == 0);
            }
        }
        assert(is_digit(d[d.len() - 1], 10));
        if s.len() > 0 && s[0] != '+' {
            assert(d == t);
            assert(t.drop_last() =~= s);
            assert forall|i: int| 0 <= i < s.len() implies is_digit(#[trigger] s[i], 10) by {
                assert(is_digit(t[i], 10));
            }
        }
    }
    assert((seq!['+'] + s).drop_first() =~= s);
}

/// A decimal form reads back as the number it was made of.
pub proof fn lemma_decimal_round_trip(n: nat, max: nat)
    requires
        n <= max,
    ensures
        read_unsigned(decimal(n), 10, max) == Some(n),
{
    lemma_digits_round_trip(n, 10);
    assert(without_plus(decimal(n)) == decimal(n));
}

/// The digit for `d`.
fn digit_to_char(d: u64) -> (r: char)
    requires
        d < 16,
    ensures
        r == digit_char(d as nat),
{
    if d < 10 {
        (48 + d as u8) as char
    } else {
        (65 + (d - 10) as u8) as char
    }
}

/// What a digit stands for.
pub(crate) fn char_to_digit(c: char) -> (r: Option<u64>)
    ensures
        r is Some <==> digit_value(c) is Some,
        r is Some ==> r->0 as nat == digit_value(c)->0 && r->0 < 16,
{
    if '0' <= c && c <= '9' {
        Some((c as u32 - 48) as u64)
    } else if 'a' <= c && c <= 'f' {
        Some((c as u32 - 87) as u64)
    } else if 'A' <= c && c <= 'F' {
        Some((c as u32 - 55) as u64)
    } else {
        None
    }
}

/// Appends the digits of `n` in the radix.
pub fn append_digits(out: &mut String, n: u64, radix: u64)
    requires
        2 <= radix <= 16,
    ensures
        final(out)@ == old(out)@ + digits_of(n as nat, radix as nat),
    decreases n,
{
    if n >= radix {
        proof {
            vstd::arithmetic::div_mod::lemma_div_decreases(n as int, radix as int);
        }
        append_digits(out, n / radix, radix);
    }
    let ghost before = out@;
    proof {
        vstd::arithmetic::div_mod::lemma_fundamental_div_mod(n as int, radix as int);
        vstd::arithmetic::div_mod::lemma_mod_bound(n as int, radix as int);
        if n < radix {
            vstd::arithmetic::div_mod::lemma_small_mod(n as nat, radix as nat);
        }
    }
    out.push(digit_to_char(n % radix));
    assert(before.push(digit_char((n % radix) as nat)) == old(out)@ + digits_of(
        n as nat,
        radix as nat,
    ));
}

/// The decimal form of `n`.
pub fn decimal_text(n: u64) -> (r: String)
    ensures
        r@ == decimal(n as nat),
{
    let mut out: String = String::new();
    append_digits(&mut out, n, 10);
    out
}

/// The decimal form of `n`, signed.
pub fn signed_decimal_text(n: i64) -> (r: String)
    ensures
        r@ == signed_decimal(n as int),
{
    let mut out: String = String::new();
    if n < 0 {
        out.push('-');
        let magnitude: u64 = if n == i64::MIN {
            0x8000_0000_0000_0000
        } else {
            (-n) as u64
        };
        append_digits(&mut out, magnitude, 10);
    } else {
        append_digits(&mut out, n as u64, 10);
    }
    out
}

/// Reads the digits of `s` from `from` on.
fn parse_digits(s: &Vec<char>, from: usize, radix: u64, max: u64) -> (r: Option<u64>)
    requires
        from <= s@.len(),
        2 <= radix <= 16,
    ensures
        r is Some <==> (read_digits(s@.skip(from as int), radix as nat) is Some
            && read_digits(s@.skip(from as int), radix as nat)->0 <= max),
        r is Some ==> r->0 as nat == read_digits(s@.skip(from as int), radix as nat)->0,
{
    let ghost body = s@.skip(from as int);
    if from == s.len() {
        return None;
    }
    let mut value: u64 = 0;
    let mut i: usize = from;
    while i < s.len()
        invariant
            from <= i <= s@.len(),
            body == s@.skip(from as int),
            2 <= radix <= 16,
            value <= max,
            value as nat == digits_value(body.take(i - from), radix as nat),
            forall|j: int| 0 <= j < i - from ==> is_digit(#[trigger] body[j], radix as nat),
        decreases s@.len() - i,
    {
        assert(body[i - from] == s@[i as int]);
        let d: u64 = match char_to_digit(s[i]) {
            Some(d) => d,
            None => {
                return None;
            },
        };
        if d >= radix {
            return None;
        }
        proof {
            assert(body.take(i - from + 1) == body.take(i - from).push(s@[i as int]));
            lemma_push_value(body.take(i - from), s@[i as int], radix as nat);
            lemma_value_grows(body, i - from + 1, radix as nat);
        }
        value = match value.checked_mul(radix) {
            Some(scaled) => match scaled.checked_add(d) {
                Some(sum) => if sum <= max { sum } else {
                    return None;
                },
                None => {
                    return None;
                },
            },
            None => {
                return None;
            },
        };
        i += 1;
    }
    assert(body.take(i - from) == body);
    Some(value)
}

/// The unsigned number no larger than `max` that `s` writes in the radix.
pub fn parse_unsigned(s: &Vec<char>, radix: u64, max: u64) -> (r: Option<u64>)
    requires
        2 <= radix <= 16,
    ensures
        r is Some <==> read_unsigned(s@, radix as nat, max as nat) is Some,
        r is Some ==> Some(r->0 as nat) == read_unsigned(s@, radix as nat, max as nat),
{
    assert(s@.skip(0) == s@);
    if s.len() > 0 && s[0] == '+' {
        assert(s@.skip(1) == s@.drop_first());
        parse_digits(s, 1, radix, max)
    } else {
        parse_digits(s, 0, radix, max)
    }
}

/// The `i64` that `s` writes in decimal.
pub fn parse_signed(s: &Vec<char>) -> (r: Option<i64>)
    ensures
        r is Some <==> read_signed(s@) is Some,
        r is Some ==> Some(r->0 as int) == read_signed(s@),
{
    if s.len() > 0 && s[0] == '-' {
        assert(s@.skip(1) == s@.drop_first());
        match parse_digits(s, 1, 10, 0x8000_0000_0000_0000) {
            Some(n) => if n == 0x8000_0000_0000_0000 {
                Some(i64::MIN)
            } else {
                Some(-(n as i64))
            },
            None => None,
        }
    } else {
        match parse_unsigned(s, 10, 0x7fff_ffff_ffff_ffff) {
            Some(n) => Some(n as i64),
            None => None,
        }
    }
}

// ---- why a text is no number ----

/// Why a text is no number.
#[derive(Debug, Clone, Copy, PartialEq, Eq, Structural)]
pub enum NumberFault {
    /// There is nothing in it.
    Empty,
    /// A character is no digit.
    InvalidDigit,
    /// The digits write too large a number.
    TooLarge,
}

/// The number of digits that `s` begins with.
pub open spec fn leading_digits(s: Seq<char>, radix: nat) -> nat
    decreases s.len(),
{
    if s.len() > 0 && is_digit(s[0], radix) {
        1 + leading_digits(s.drop_first(), radix)
    } else {
        0
    }
}

/// What is wrong with a text that writes no number up to `max`: what is seen first, from
/// the left.
pub open spec fn number_fault(s: Seq<char>, radix: nat, max: nat) -> NumberFault {
    let d = without_plus(s);
    if s.len() == 0 {
        NumberFault::Empty
    } else if digits_value(d.take(leading_digits(d, radix) as int), radix) > max {
        NumberFault::TooLarge
    } else {
        NumberFault::InvalidDigit
    }
}

proof fn lemma_leading_digits(s: Seq<char>, radix: nat, i: int)
    requires
        0 <= i <= s.len(),
        forall|k: int| 0 <= k < i ==> is_digit(#[trigger] s[k], radix),
    ensures
        i <= leading_digits(s, radix) <= s.len(),
        i < s.len() && !is_digit(s[i], radix) ==> leading_digits(s, radix) == i,
    decreases s.len(),
{
    if s.len() > 0 && is_digit(s[0], radix) {
        let rest = s.drop_first();
        let j = if i > 0 {
            i - 1
        } else {
            0
        };
        assert forall|k: int| 0 <= k < j implies is_digit(#[trigger] rest[k], radix) by {
            assert(rest[k] == s[k + 1]);
        }
        lemma_leading_digits(rest, radix, j);
    }
}

/// What is wrong with a text that writes no number up to `max`.
pub fn fault_of_number(s: &Vec<char>, radix: u64, max: u64) -> (r: NumberFault)
    requires
        2 <= radix <= 16,
        max <= 0xffff_ffff,
        read_unsigned(s@, radix as nat, max as nat) is None,
    ensures
        r == number_fault(s@, radix as nat, max as nat),
{
    if s.len() == 0 {
        return NumberFault::Empty;
    }
    let from: usize = if s[0] == '+' {
        1
    } else {
        0
    };
    let ghost d = without_plus(s@);
    assert(d =~= s@.skip(from as int));
    let mut value: u64 = 0;
    let mut i: usize = from;
    assert(d.take(0) =~= seq![]);
    while i < s.len()
        invariant
            from <= i <= s@.len(),
            2 <= radix <= 16,
            max <= 0xffff_ffff,
            s@.len() > 0,
            d == s@.skip(from as int),
            d == without_plus(s@),
            forall|k: int| 0 <= k < i - from ==> is_digit(#[trigger] d[k], radix as nat),
            value == digits_value(d.take(i - from), radix as nat),
            value <= max,
        decreases s@.len() - i,
    {
        let ghost j = i - from;
        assert(d[j] == s@[i as int]);
        proof {
            lemma_leading_digits(d, radix as nat, j);
        }
        match char_to_digit(s[i]) {
            Some(x) if x < radix => {
                assert(value * radix <= 0xffff_ffff * 16) by (nonlinear_arith)
                    requires
                        value <= 0xffff_ffff,
                        radix <= 16,
                ;
                value = value * radix + x;
                proof {
                    assert(d.take(j + 1) =~= d.take(j).push(d[j]));
                    lemma_push_value(d.take(j), d[j], radix as nat);
                    if value > max {
                        lemma_leading_digits(d, radix as nat, j + 1);
                        let n = leading_digits(d, radix as nat) as int;
                        lemma_value_grows(d.take(n), j + 1, radix as nat);
                        assert(d.take(n).take(j + 1) =~= d.take(j + 1));
                    }
                }
                if value > max {
                    return NumberFault::TooLarge;
                }
            },
            _ => {
                return NumberFault::InvalidDigit;
            },
        }
        i += 1;
    }
    proof {
        assert(d.take(i - from) =~= d);
        lemma_leading_digits(d, radix as nat, d.len() as int);
        assert(d.len() == 0);
    }
    NumberFault::InvalidDigit
}

} // verus!
