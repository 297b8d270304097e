//! Text primitives: conversions between strings and characters, the order of
//! strings, trimming, and the decimal and hexadecimal forms of integers.
//!
//! The model of a string is its sequence of characters.

use vstd::prelude::*;

verus! {

broadcast use vstd::string::group_string_axioms;

// ---- std functions without a specification in vstd ----

/// `String::push`: appends one character at the end.
pub assume_specification[ String::push ](s: &mut String, c: char)
    ensures
        final(s)@ == old(s)@.push(c),
;

/// What `char::is_whitespace` answers beyond ASCII: the Unicode `White_Space`
/// property.
pub uninterp spec fn unicode_white_space(c: char) -> bool;

/// What `char::is_alphabetic` answers beyond ASCII: the Unicode `Alphabetic`
/// property.
pub uninterp spec fn unicode_alphabetic(c: char) -> bool;

/// Whether a character beyond ASCII is in one of the Unicode numeric general
/// categories, which `char::is_alphanumeric` takes in beside what is alphabetic.
pub uninterp spec fn unicode_numeric(c: char) -> bool;

/// The ASCII letters.
pub open spec fn ascii_letter(c: char) -> bool {
    ('a' <= c && c <= 'z') || ('A' <= c && c <= 'Z')
}

/// The ASCII decimal digits.
pub open spec fn ascii_digit(c: char) -> bool {
    '0' <= c && c <= '9'
}

/// White space: in ASCII tab, line feed, vertical tab, form feed, carriage return
/// and space.
pub open spec fn white_space(c: char) -> bool {
    if c <= '\x7f' {
        c == ' ' || ('\x09' <= c && c <= '\x0d')
    } else {
        unicode_white_space(c)
    }
}

/// Letters: in ASCII the twenty-six in either case.
pub open spec fn alphabetic(c: char) -> bool {
    if c <= '\x7f' {
        ascii_letter(c)
    } else {
        unicode_alphabetic(c)
    }
}

/// Letters and numerals: in ASCII the letters and the digits.
pub open spec fn alphanumeric(c: char) -> bool {
    if c <= '\x7f' {
        ascii_letter(c) || ascii_digit(c)
    } else {
        unicode_alphabetic(c) || unicode_numeric(c)
    }
}

/// `char::is_whitespace`. Of an ASCII character the answer is stated; of the rest
/// only a name is given.
pub assume_specification[ char::is_whitespace ](c: char) -> (r: bool)
    ensures
        c <= '\x7f' ==> r == (c == ' ' || ('\x09' <= c && c <= '\x0d')),
        c > '\x7f' ==> r == unicode_white_space(c),
;

/// `char::is_alphabetic`. Of an ASCII character the answer is stated; of the rest
/// only a name is given.
pub assume_specification[ char::is_alphabetic ](c: char) -> (r: bool)
    ensures
        c <= '\x7f' ==> r == ascii_letter(c),
        c > '\x7f' ==> r == unicode_alphabetic(c),
;

/// `char::is_alphanumeric`. Of an ASCII character the answer is stated; of the
/// rest it is that the character is alphabetic or numeric.
pub assume_specification[ char::is_alphanumeric ](c: char) -> (r: bool)
    ensures
        c <= '\x7f' ==> r == (ascii_letter(c) || ascii_digit(c)),
        c > '\x7f' ==> r == (unicode_alphabetic(c) || unicode_numeric(c)),
;

/// The control characters: the Unicode general category `Cc`, which is fixed.
pub open spec fn control(c: char) -> bool {
    c <= '\x1f' || ('\x7f' <= c && c <= '\u{9f}')
}

/// `char::is_control`: membership in the general category `Cc`.
pub assume_specification[ char::is_control ](c: char) -> (r: bool)
    ensures
        r == control(c),
;

/// What the `Debug` form of a `str` is: the text in quotes, with escapes.
pub uninterp spec fn debug_quoted(s: Seq<char>) -> Seq<char>;

/// The `Debug` form of a `str`. Which characters are escaped, and how, only the
/// name says.
#[verifier::external_body]
pub(crate) fn quoted(s: &str) -> (r: String)
    ensures
        r@ == debug_quoted(s@),
{
    format!("{s:?}")
}

// ---- strings and characters ----

/// The texts by their characters.
pub open spec fn text_views(s: Seq<String>) -> Seq<Seq<char>> {
    Seq::new(s.len(), |i: int| s[i]@)
}

/// The characters of `s`, in order.
pub fn chars_of(s: &str) -> (r: Vec<char>)
    ensures
        r@ == s@,
{
    let mut out: Vec<char> = Vec::new();
    for c in it: s.chars()
        invariant
            it.seq() == s@,
            out@ == s@.take(it.index() as int),
    {
        out.push(c);
    }
    assert(s@.take(s@.len() as int) == s@);
    out
}

/// The string with the characters `chars`.
pub fn string_of(chars: &[char]) -> (r: String)
    ensures
        r@ == chars@,
{
    let mut out: String = String::new();
    let mut i: usize = 0;
    while i < chars.len()
        invariant
            i <= chars@.len(),
            out@ == chars@.take(i as int),
        decreases chars@.len() - i,
    {
        out.push(chars[i]);
        i += 1;
        assert(chars@.take(i as int) == chars@.take(i - 1).push(chars@[i - 1]));
    }
    assert(chars@.take(i as int) == chars@);
    out
}

/// The string with the characters of `chars` from `from` up to `to`.
pub fn slice_text(chars: &Vec<char>, from: usize, to: usize) -> (r: String)
    requires
        from <= to <= chars@.len(),
    ensures
        r@ == chars@.subrange(from as int, to as int),
{
    let mut out: String = String::new();
    let mut i: usize = from;
    while i < to
        invariant
            from <= i <= to <= chars@.len(),
            out@ == chars@.subrange(from as int, i as int),
        decreases to - i,
    {
        out.push(chars[i]);
        i += 1;
        assert(chars@.subrange(from as int, i as int) == chars@.subrange(
            from as int,
            i - 1,
        ).push(chars@[i - 1]));
    }
    out
}

/// Whether two strings hold the same characters.
pub fn same_text(a: &str, b: &str) -> (r: bool)
    ensures
        r == (a@ == b@),
{
    a.to_owned() == b.to_owned()
}

// ---- the order of strings ----

/// The lexicographic order by code point, which is the order of `str`: the
/// encoding in bytes keeps it.
pub open spec fn lex_lt(a: Seq<char>, b: Seq<char>) -> bool
    decreases a.len(),
{
    if b.len() == 0 {
        false
    } else if a.len() == 0 {
        true
    } else if a[0] != b[0] {
        a[0] < b[0]
    } else {
        lex_lt(a.drop_first(), b.drop_first())
    }
}

/// Nothing stands before itself.
pub proof fn lemma_lex_irreflexive(a: Seq<char>)
    ensures
        !lex_lt(a, a),
    decreases a.len(),
{
    if a.len() > 0 {
        lemma_lex_irreflexive(a.drop_first());
    }
}

/// The order is transitive.
pub proof fn lemma_lex_transitive(a: Seq<char>, b: Seq<char>, c: Seq<char>)
    requires
        lex_lt(a, b),
        lex_lt(b, c),
    ensures
        lex_lt(a, c),
    decreases a.len(),
{
    if a.len() > 0 && b.len() > 0 && c.len() > 0 && a[0] == b[0] && b[0] == c[0] {
        lemma_lex_transitive(a.drop_first(), b.drop_first(), c.drop_first());
    }
}

/// Of two different strings one stands before the other.
pub proof fn lemma_lex_total(a: Seq<char>, b: Seq<char>)
    ensures
        lex_lt(a, b) || a == b || lex_lt(b, a),
    decreases a.len(),
{
    if a.len() > 0 && b.len() > 0 {
        if a[0] == b[0] {
            lemma_lex_total(a.drop_first(), b.drop_first());
            if a.drop_first() == b.drop_first() {
                assert(a == seq![a[0]] + a.drop_first());
                assert(b == seq![b[0]] + b.drop_first());
            }
        }
    } else {
        assert(a.len() == 0 && b.len() == 0 ==> a == b);
    }
}

/// Two strings do not stand before each other.
pub proof fn lemma_lex_asymmetric(a: Seq<char>, b: Seq<char>)
    requires
        lex_lt(a, b),
    ensures
        !lex_lt(b, a),
        a != b,
{
    if lex_lt(b, a) {
        lemma_lex_transitive(a, b, a);
    }
    lemma_lex_irreflexive(a);
}

/// Whether `a` and `b` agree up to the place `k`, where `a` ends and `b` goes on, or
/// the character of `a` has the smaller number.
pub open spec fn yields_at(a: Seq<char>, b: Seq<char>, k: int) -> bool {
    &&& 0 <= k <= a.len()
    &&& k < b.len()
    &&& forall|i: int| 0 <= i < k ==> #[trigger] a[i] == b[i]
    &&& k == a.len() || (a[k] as int) < b[k] as int
}

/// One text stands before another exactly where they agree up to some place, and there
/// the first ends or has the character with the smaller number.
pub proof fn law_text_order(a: Seq<char>, b: Seq<char>)
    ensures
        lex_lt(a, b) <==> exists|k: int| #[trigger] yields_at(a, b, k),
    decreases a.len(),
{
    if a.len() > 0 && b.len() > 0 && a[0] == b[0] {
        let x = a.drop_first();
        let y = b.drop_first();
        law_text_order(x, y);
        if lex_lt(a, b) {
            let k = choose|k: int| #[trigger] yields_at(x, y, k);
            assert forall|i: int| 0 <= i < k + 1 implies #[trigger] a[i] == b[i] by {
                if i > 0 {
                    assert(x[i - 1] == y[i - 1]);
                }
            }
            assert(yields_at(a, b, k + 1));
        }
        if exists|k: int| #[trigger] yields_at(a, b, k) {
            let k = choose|k: int| #[trigger] yields_at(a, b, k);
            assert(yields_at(x, y, k - 1));
        }
    } else if lex_lt(a, b) {
        assert(yields_at(a, b, 0));
    } else if exists|k: int| #[trigger] yields_at(a, b, k) {
        let k = choose|k: int| #[trigger] yields_at(a, b, k);
        if k > 0 {
            assert(a[0] == b[0]);
        }
    }
}

/// Whether `a` stands before `b`.
pub fn text_less(a: &str, b: &str) -> (r: bool)
    ensures
        r == lex_lt(a@, b@),
{
    let x = chars_of(a);
    let y = chars_of(b);
    let mut i: usize = 0;
    assert(x@.skip(0) == x@ && y@.skip(0) == y@);
    while i < x.len() && i < y.len()
        invariant
            x@ == a@,
            y@ == b@,
            i <= x@.len(),
            i <= y@.len(),
            lex_lt(a@, b@) == lex_lt(x@.skip(i as int), y@.skip(i as int)),
        decreases x@.len() - i,
    {
        assert(x@.skip(i as int)[0] == x@[i as int]);
        assert(y@.skip(i as int)[0] == y@[i as int]);
        if x[i] != y[i] {
            return x[i] < y[i];
        }
        assert(x@.skip(i as int).drop_first() == x@.skip(i + 1));
        assert(y@.skip(i as int).drop_first() == y@.skip(i + 1));
        i += 1;
    }
    i < y.len()
}

// ---- trimming ----

/// `s` without the white space at its start.
pub open spec fn trimmed_start(s: Seq<char>) -> Seq<char>
    decreases s.len(),
{
    if s.len() > 0 && white_space(s[0]) {
        trimmed_start(s.drop_first())
    } else {
        s
    }
}

/// `s` without the white space at its end.
pub open spec fn trimmed_end(s: Seq<char>) -> Seq<char>
    decreases s.len(),
{
    if s.len() > 0 && white_space(s.last()) {
        trimmed_end(s.drop_last())
    } else {
        s
    }
}

/// `s` without the white space at either end.
pub open spec fn trimmed(s: Seq<char>) -> Seq<char> {
    trimmed_end(trimmed_start(s))
}

/// The characters of `s` without the white space at either end, as `str::trim`
/// leaves them.
pub fn trim_chars(s: &Vec<char>) -> (r: Vec<char>)
    ensures
        r@ == trimmed(s@),
{
    let mut from: usize = 0;
    assert(s@.skip(0) == s@);
    while from < s.len() && s[from].is_whitespace()
        invariant
            from <= s@.len(),
            trimmed_start(s@) == trimmed_start(s@.skip(from as int)),
        ensures
            from <= s@.len(),
            trimmed_start(s@) == s@.skip(from as int),
        decreases s@.len() - from,
    {
        assert(s@.skip(from as int).drop_first() == s@.skip(from + 1));
        from += 1;
    }
    let mut to: usize = s.len();
    assert(s@.subrange(from as int, to as int) == s@.skip(from as int));
    while to > from && s[to - 1].is_whitespace()
        invariant
            from <= to <= s@.len(),
            trimmed_end(s@.skip(from as int)) == trimmed_end(s@.subrange(from as int, to as int)),
        ensures
            from <= to <= s@.len(),
            trimmed_end(s@.skip(from as int)) == s@.subrange(from as int, to as int),
        decreases to,
    {
        assert(s@.subrange(from as int, to as int).drop_last() == s@.subrange(
            from as int,
            to - 1,
        ));
        to -= 1;
    }
    let mut out: Vec<char> = Vec::new();
    let mut i: usize = from;
    while i < to
        invariant
            from <= i <= to <= s@.len(),
            out@ == s@.subrange(from as int, i as int),
        decreases to - i,
    {
        out.push(s[i]);
        i += 1;
        assert(s@.subrange(from as int, i as int) == s@.subrange(from as int, i - 1).push(
            s@[i - 1],
        ));
    }
    out
}

/// `s` without the white space at either end.
pub fn trim_text(s: &str) -> (r: String)
    ensures
        r@ == trimmed(s@),
{
    let chars = chars_of(s);
    let kept = trim_chars(&chars);
    string_of(kept.as_slice())
}

/// Text without white space at its ends is trimmed already.
pub proof fn lemma_trimmed(s: Seq<char>)
    requires
        s.len() > 0 ==> !white_space(s[0]) && !white_space(s.last()),
    ensures
        trimmed(s) == s,
{
}

// ---- ASCII case ----

/// The upper-case form of an ASCII letter; every other character as it is.
pub open spec fn ascii_upper(c: char) -> char {
    if 'a' <= c && c <= 'z' {
        (c as u32 - 32) as char
    } else {
        c
    }
}

/// The lower-case form of an ASCII letter; every other character as it is.
pub open spec fn ascii_lower(c: char) -> char {
    if 'A' <= c && c <= 'Z' {
        (c as u32 + 32) as char
    } else {
        c
    }
}

/// Every ASCII letter of `s` in upper case.
pub open spec fn upper(s: Seq<char>) -> Seq<char> {
    s.map_values(|c: char| ascii_upper(c))
}

/// Every ASCII letter of `s` in lower case.
pub open spec fn lower(s: Seq<char>) -> Seq<char> {
    s.map_values(|c: char| ascii_lower(c))
}

/// `s` with its ASCII letters in upper case.
pub fn upper_chars(s: &Vec<char>) -> (r: Vec<char>)
    ensures
        r@ == upper(s@),
{
    let mut out: Vec<char> = Vec::new();
    let mut i: usize = 0;
    while i < s.len()
        invariant
            i <= s@.len(),
            out@ == upper(s@).take(i as int),
        decreases s@.len() - i,
    {
        let c = s[i];
        if 'a' <= c && c <= 'z' {
            out.push((c as u8 - 32) as char);
        } else {
            out.push(c);
        }
        i += 1;
        assert(upper(s@).take(i as int) == upper(s@).take(i - 1).push(upper(s@)[i - 1]));
    }
    assert(upper(s@).take(i as int) == upper(s@));
    out
}

/// `s` with its ASCII letters in lower case.
pub fn lower_chars(s: &Vec<char>) -> (r: Vec<char>)
    ensures
        r@ == lower(s@),
{
    let mut out: Vec<char> = Vec::new();
    let mut i: usize = 0;
    while i < s.len()
        invariant
            i <= s@.len(),
            out@ == lower(s@).take(i as int),
        decreases s@.len() - i,
    {
        let c = s[i];
        if 'A' <= c && c <= 'Z' {
            out.push((c as u8 + 32) as char);
        } else {
            out.push(c);
        }
        i += 1;
        assert(lower(s@).take(i as int) == lower(s@).take(i - 1).push(lower(s@)[i - 1]));
    }
    assert(lower(s@).take(i as int) == lower(s@));
    out
}

// ---- laws ----

/// Whether every character is white space.
pub open spec fn all_white(s: Seq<char>) -> bool {
    forall|i: int| 0 <= i < s.len() ==> white_space(#[trigger] s[i])
}

/// Trimming takes white space off the two ends, all of it and nothing else. Among the
/// ASCII characters the space, the tab, the line feed, the vertical tab, the form feed
/// and the carriage return are white.
pub proof fn law_trimming(s: Seq<char>, c: char)
    ensures
        exists|front: Seq<char>, back: Seq<char>|
            #![trigger all_white(front), all_white(back)]
            s == front + trimmed(s) + back && all_white(front) && all_white(back),
        trimmed(s).len() > 0 ==> !white_space(trimmed(s)[0]) && !white_space(trimmed(s).last()),
        c as int <= 127 ==> (white_space(c) <==> c as int == 32 || 9 <= c as int <= 13),
{
    let t = trimmed_start(s);
    lemma_trim_start(s);
    lemma_trim_end(t);
    let front = choose|front: Seq<char>| #[trigger] all_white(front) && s == front + t;
    let back = choose|back: Seq<char>| #[trigger] all_white(back) && t == trimmed(s) + back;
    assert(s =~= front + trimmed(s) + back);
    if trimmed(s).len() > 0 {
        assert(trimmed(s)[0] == t[0]);
    }
}

proof fn lemma_trim_start(s: Seq<char>)
    ensures
        exists|front: Seq<char>| #[trigger] all_white(front) && s == front + trimmed_start(s),
        trimmed_start(s).len() > 0 ==> !white_space(trimmed_start(s)[0]),
    decreases s.len(),
{
    if s.len() > 0 && white_space(s[0]) {
        let rest = s.drop_first();
        lemma_trim_start(rest);
        let f = choose|f: Seq<char>| #[trigger] all_white(f) && rest == f + trimmed_start(rest);
        let front = seq![s[0]] + f;
        assert(s =~= seq![s[0]] + rest);
        assert(front + trimmed_start(s) =~= seq![s[0]] + (f + trimmed_start(rest)));
        assert(all_white(front)) by {
            assert forall|i: int| 0 <= i < front.len() implies white_space(#[trigger] front[i]) by {
                if i > 0 {
                    assert(front[i] == f[i - 1]);
                }
            }
        }
    } else {
        let none: Seq<char> = seq![];
        assert(all_white(none));
        assert(s =~= none + trimmed_start(s));
    }
}

proof fn lemma_trim_end(s: Seq<char>)
    ensures
        exists|back: Seq<char>| #[trigger] all_white(back) && s == trimmed_end(s) + back,
        trimmed_end(s).len() > 0 ==> !white_space(trimmed_end(s).last()),
    decreases s.len(),
{
    if s.len() > 0 && white_space(s.last()) {
        let rest = s.drop_last();
        lemma_trim_end(rest);
        let b = choose|b: Seq<char>| #[trigger] all_white(b) && rest == trimmed_end(rest) + b;
        let back = b.push(s.last());
        assert(s =~= rest.push(s.last()));
        assert(trimmed_end(s) + back =~= (trimmed_end(rest) + b).push(s.last()));
        assert(all_white(back)) by {
            assert forall|i: int| 0 <= i < back.len() implies white_space(#[trigger] back[i]) by {
                if i < b.len() {
                    assert(back[i] == b[i]);
                }
            }
        }
    } else {
        let none: Seq<char> = seq![];
        assert(all_white(none));
        assert(s =~= trimmed_end(s) + none);
    }
}

/// The two cases of a letter are 32 apart, and only the letters of ASCII have two.
pub proof fn law_letter_case(c: char)
    ensures
        97 <= c as int <= 122 ==> ascii_upper(c) as int == c as int - 32,
        !(97 <= c as int <= 122) ==> ascii_upper(c) == c,
        65 <= c as int <= 90 ==> ascii_lower(c) as int == c as int + 32,
        !(65 <= c as int <= 90) ==> ascii_lower(c) == c,
{
}

/// A letter of ASCII is one of its 52, a digit one of its ten; no other character of
/// ASCII is either, and the control characters are those below the space and those from
/// 127 to 159.
pub proof fn law_character_kinds(c: char)
    ensures
        c as int <= 127 ==> (alphabetic(c) <==> 65 <= c as int <= 90 || 97 <= c as int <= 122),
        c as int <= 127 ==> (alphanumeric(c) <==> alphabetic(c) || 48 <= c as int <= 57),
        ascii_digit(c) <==> 48 <= c as int <= 57,
        control(c) <==> c as int <= 31 || 127 <= c as int <= 159,
{
}

} // verus!
