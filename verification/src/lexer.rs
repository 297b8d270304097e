//! The lexical layer that predicates and scopes share: how a text falls into words,
//! numbers, quoted texts, comparisons and brackets.

use vstd::prelude::*;
use crate::predicate::ScopeOp;
use crate::text::{alphabetic, alphanumeric, ascii_digit, slice_text};

verus! {

/// What a text is read as.
#[derive(Debug, Clone, Copy, PartialEq, Eq, Structural)]
pub enum Dialect {
    /// A predicate, which may hold placeholders.
    Predicate,
    /// A scope, which may hold dotted words.
    Scope,
}

/// A class of characters.
#[derive(Debug, Clone, Copy, PartialEq, Eq, Structural)]
pub enum Class {
    /// What a word is made of.
    Word,
    /// What a word is made of, and dots.
    Dotted,
    Digit,
    /// Anything but a quote.
    Unquoted,
}

/// A lexical item.
pub enum Lexeme {
    Word(String),
    /// The digits of an integer.
    Whole(String),
    /// The digits of a number with a decimal point.
    Decimal(String),
    /// What stands between quotes.
    Quoted(String),
    /// The name of a placeholder.
    Placeholder(String),
    Op(ScopeOp),
    Open,
    Close,
}

/// A lexical item by its values.
pub enum LexemeView {
    Word(Seq<char>),
    Whole(Seq<char>),
    Decimal(Seq<char>),
    Quoted(Seq<char>),
    Placeholder(Seq<char>),
    Op(ScopeOp),
    Open,
    Close,
}

/// What no lexical item begins with.
#[derive(Debug, Clone, Copy, PartialEq, Eq, Structural)]
pub enum Fault {
    /// A quote without its partner.
    Unterminated,
    /// A colon without a name.
    BareColon,
    /// An exclamation mark without an equals sign.
    BareBang,
    /// A character that begins nothing.
    Stray(char),
}

/// What stands at the start of a text: a blank, an item and its length, or neither.
pub enum StepView {
    Blank,
    Item(LexemeView, nat),
    Fault(Fault),
}

impl View for Lexeme {
    type V = LexemeView;

    open spec fn view(&self) -> LexemeView {
        match *self {
            Lexeme::Word(s) => LexemeView::Word(s@),
            Lexeme::Whole(s) => LexemeView::Whole(s@),
            Lexeme::Decimal(s) => LexemeView::Decimal(s@),
            Lexeme::Quoted(s) => LexemeView::Quoted(s@),
            Lexeme::Placeholder(s) => LexemeView::Placeholder(s@),
            Lexeme::Op(op) => LexemeView::Op(op),
            Lexeme::Open => LexemeView::Open,
            Lexeme::Close => LexemeView::Close,
        }
    }
}

/// Whether `c` belongs to the class.
pub open spec fn in_class(c: char, class: Class) -> bool {
    match class {
        Class::Word => alphanumeric(c) || c == '_',
        Class::Dotted => alphanumeric(c) || c == '_' || c == '.',
        Class::Digit => ascii_digit(c),
        Class::Unquoted => c != '\'',
    }
}

/// The number of characters of the class that `s` begins with.
pub open spec fn run(s: Seq<char>, class: Class) -> nat
    decreases s.len(),
{
    if s.len() > 0 && in_class(s[0], class) {
        1 + run(s.drop_first(), class)
    } else {
        0
    }
}

/// Whether a word can begin with `c`.
pub open spec fn begins_word(c: char) -> bool {
    alphabetic(c) || c == '_'
}

/// Whether `s` begins with a number: a digit, or a minus sign and a digit.
pub open spec fn begins_number(s: Seq<char>) -> bool {
    s.len() > 0 && (ascii_digit(s[0]) || (s[0] == '-' && s.len() > 1 && ascii_digit(s[1])))
}

/// The length of the whole part of the number that `s` begins with, its sign
/// counted in.
pub open spec fn whole_len(s: Seq<char>) -> nat {
    if s[0] == '-' {
        1 + run(s.skip(1), Class::Digit)
    } else {
        run(s, Class::Digit)
    }
}

/// The number that `s` begins with.
pub open spec fn number_step(s: Seq<char>) -> StepView {
    let w = whole_len(s);
    if w < s.len() && s[w as int] == '.' {
        let n = w + 1 + run(s.skip(w as int + 1), Class::Digit);
        StepView::Item(LexemeView::Decimal(s.take(n as int)), n)
    } else {
        StepView::Item(LexemeView::Whole(s.take(w as int)), w)
    }
}

/// The comparison that `s` begins with. An equals sign stands alone; the others
/// may have one behind them.
pub open spec fn op_step(s: Seq<char>) -> StepView {
    let two = s.len() > 1 && s[1] == '=';
    if s[0] == '=' {
        StepView::Item(LexemeView::Op(ScopeOp::Eq), 1)
    } else if s[0] == '!' {
        if two {
            StepView::Item(LexemeView::Op(ScopeOp::Ne), 2)
        } else {
            StepView::Fault(Fault::BareBang)
        }
    } else if s[0] == '<' {
        if two {
            StepView::Item(LexemeView::Op(ScopeOp::Le), 2)
        } else {
            StepView::Item(LexemeView::Op(ScopeOp::Lt), 1)
        }
    } else {
        if two {
            StepView::Item(LexemeView::Op(ScopeOp::Ge), 2)
        } else {
            StepView::Item(LexemeView::Op(ScopeOp::Gt), 1)
        }
    }
}

/// The quoted text that `s` begins with.
pub open spec fn quoted_step(s: Seq<char>) -> StepView {
    let body = s.skip(1);
    let n = run(body, Class::Unquoted);
    if n == body.len() {
        StepView::Fault(Fault::Unterminated)
    } else {
        StepView::Item(LexemeView::Quoted(body.take(n as int)), n + 2)
    }
}

/// The placeholder that `s` begins with.
pub open spec fn placeholder_step(s: Seq<char>) -> StepView {
    let body = s.skip(1);
    let n = run(body, Class::Word);
    if n == 0 || !begins_word(body[0]) {
        StepView::Fault(Fault::BareColon)
    } else {
        StepView::Item(LexemeView::Placeholder(body.take(n as int)), n + 1)
    }
}

/// Whether `c` only separates items.
pub open spec fn blank(c: char) -> bool {
    c == ' ' || c == '\t' || c == '\n' || c == '\r'
}

/// What a text that is not empty begins with.
pub open spec fn step(s: Seq<char>, dialect: Dialect) -> StepView {
    let c = s[0];
    if blank(c) {
        StepView::Blank
    } else if c == '(' {
        StepView::Item(LexemeView::Open, 1)
    } else if c == ')' {
        StepView::Item(LexemeView::Close, 1)
    } else if c == '\'' {
        quoted_step(s)
    } else if c == ':' && dialect == Dialect::Predicate {
        placeholder_step(s)
    } else if c == '=' || c == '!' || c == '<' || c == '>' {
        op_step(s)
    } else if begins_number(s) {
        number_step(s)
    } else if begins_word(c) {
        let n = run(
            s,
            if dialect == Dialect::Predicate {
                Class::Word
            } else {
                Class::Dotted
            },
        );
        StepView::Item(LexemeView::Word(s.take(n as int)), n)
    } else {
        StepView::Fault(Fault::Stray(c))
    }
}

/// A run is no longer than the text, and ends where a character of another class
/// stands.
pub(crate) proof fn lemma_run(s: Seq<char>, class: Class, n: int)
    requires
        0 <= n <= s.len(),
        forall|k: int| 0 <= k < n ==> in_class(#[trigger] s[k], class),
        n < s.len() ==> !in_class(s[n], class),
    ensures
        run(s, class) == n,
    decreases n,
{
    if n > 0 {
        let rest = s.drop_first();
        assert forall|k: int| 0 <= k < n - 1 implies in_class(#[trigger] rest[k], class) by {
            assert(rest[k] == s[k + 1]);
        }
        assert(in_class(s[0], class));
        lemma_run(rest, class, n - 1);
    }
}

/// A run is no longer than the text, and a character of another class ends it.
proof fn lemma_run_before(s: Seq<char>, t: Seq<char>, class: Class)
    requires
        run(s, class) < s.len() || t.len() == 0 || !in_class(t[0], class),
    ensures
        run(s, class) <= s.len(),
        run(s + t, class) == run(s, class),
    decreases s.len(),
{
    if s.len() > 0 {
        assert((s + t).drop_first() =~= s.drop_first() + t);
        if in_class(s[0], class) {
            lemma_run_before(s.drop_first(), t, class);
        }
    } else {
        assert(s + t =~= t);
    }
}

/// What a text begins with stays as it is with a blank and more behind the text,
/// unless it is a quote without its partner.
pub(crate) proof fn lemma_step_before_blank(s: Seq<char>, t: Seq<char>, dialect: Dialect)
    requires
        s.len() > 0,
        t.len() > 0,
        blank(t[0]),
        step(s, dialect) !is Fault,
    ensures
        step(s + t, dialect) == step(s, dialect),
        step(s, dialect) matches StepView::Item(_, n) ==> 0 < n <= s.len(),
{
    let u = s + t;
    assert(u[0] == s[0]);
    assert(s.len() == 1 ==> u[1] == t[0]);
    assert(s.len() > 1 ==> u[1] == s[1]);
    assert(u.skip(1) =~= s.skip(1) + t);
    let word = if dialect == Dialect::Predicate {
        Class::Word
    } else {
        Class::Dotted
    };
    if s[0] == '\'' {
        lemma_run_holds(s.skip(1), Class::Unquoted);
        lemma_run_before(s.skip(1), t, Class::Unquoted);
        let n = run(s.skip(1), Class::Unquoted) as int;
        assert(u.skip(1).take(n) =~= s.skip(1).take(n));
    } else if s[0] == ':' && dialect == Dialect::Predicate {
        lemma_run_before(s.skip(1), t, Class::Word);
        let n = run(s.skip(1), Class::Word) as int;
        assert(u.skip(1).take(n) =~= s.skip(1).take(n));
    } else if begins_number(s) {
        lemma_run_before(s, t, Class::Digit);
        lemma_run_before(s.skip(1), t, Class::Digit);
        let w = whole_len(s) as int;
        assert(run(s, Class::Digit) > 0 || s[0] == '-');
        assert(whole_len(u) == w);
        assert(u.take(w) =~= s.take(w));
        assert(w < s.len() ==> u[w] == s[w]);
        assert(w == s.len() ==> u[w] == t[0]);
        if w < s.len() {
            assert(u.skip(w + 1) =~= s.skip(w + 1) + t);
            lemma_run_before(s.skip(w + 1), t, Class::Digit);
            let n = w + 1 + run(s.skip(w + 1), Class::Digit) as int;
            assert(u.take(n) =~= s.take(n));
        }
    } else if begins_word(s[0]) {
        lemma_run_before(s, t, word);
        let n = run(s, word) as int;
        assert(u.take(n) =~= s.take(n));
    }
}

/// A run is no longer than the text, and holds characters of its class only.
pub(crate) proof fn lemma_run_holds(s: Seq<char>, class: Class)
    ensures
        run(s, class) <= s.len(),
        forall|k: int| 0 <= k < run(s, class) ==> in_class(#[trigger] s[k], class),
    decreases s.len(),
{
    if s.len() > 0 && in_class(s[0], class) {
        let rest = s.drop_first();
        lemma_run_holds(rest, class);
        assert forall|k: int| 0 <= k < run(s, class) implies in_class(#[trigger] s[k], class) by {
            if k > 0 {
                assert(rest[k - 1] == s[k]);
            }
        }
    }
}

/// Whether `c` belongs to the class.
fn is_in_class(c: char, class: Class) -> (r: bool)
    ensures
        r == in_class(c, class),
{
    match class {
        Class::Word => c.is_alphanumeric() || c == '_',
        Class::Dotted => c.is_alphanumeric() || c == '_' || c == '.',
        Class::Digit => '0' <= c && c <= '9',
        Class::Unquoted => c != '\'',
    }
}

/// Where the run of the class that begins at `from` ends.
fn run_end(chars: &Vec<char>, from: usize, class: Class) -> (r: usize)
    requires
        from <= chars@.len(),
    ensures
        from <= r <= chars@.len(),
        r - from == run(chars@.skip(from as int), class),
{
    let ghost s = chars@.skip(from as int);
    let mut i: usize = from;
    while i < chars.len() && is_in_class(chars[i], class)
        invariant
            from <= i <= chars@.len(),
            s == chars@.skip(from as int),
            forall|k: int| 0 <= k < i - from ==> in_class(#[trigger] s[k], class),
        ensures
            from <= i <= chars@.len(),
            forall|k: int| 0 <= k < i - from ==> in_class(#[trigger] s[k], class),
            i < chars@.len() ==> !in_class(chars@[i as int], class),
        decreases chars@.len() - i,
    {
        assert(s[i - from] == chars@[i as int]);
        i += 1;
    }
    proof {
        if i < chars@.len() {
            assert(s[i - from] == chars@[i as int]);
        }
        lemma_run(s, class, i - from);
    }
    i
}

/// What a text begins with: a blank, an item and where it ends, or neither.
pub enum Step {
    Blank,
    Item(Lexeme, usize),
    Fault(Fault),
}

/// Whether `r` says of the text from `from` on what `v` says of it.
pub open spec fn step_is(r: Step, v: StepView, from: int) -> bool {
    match v {
        StepView::Blank => r is Blank,
        StepView::Item(item, n) => r matches Step::Item(x, end) && x@ == item && end == from + n,
        StepView::Fault(f) => r matches Step::Fault(g) && g == f,
    }
}

/// Reads the number that begins at `from`.
fn read_number(chars: &Vec<char>, from: usize) -> (r: Step)
    requires
        from < chars@.len(),
        begins_number(chars@.skip(from as int)),
    ensures
        step_is(r, number_step(chars@.skip(from as int)), from as int),
        r matches Step::Item(_, end) && from < end <= chars@.len(),
{
    let ghost s = chars@.skip(from as int);
    assert(s[0] == chars@[from as int]);
    let total: usize = chars.len();
    let whole_end: usize = if chars[from] == '-' {
        assert(s.skip(1) =~= chars@.skip(from + 1));
        run_end(chars, from + 1, Class::Digit)
    } else {
        run_end(chars, from, Class::Digit)
    };
    let ghost w = whole_len(s);
    assert(whole_end == from + w);
    assert(w >= 1);
    if whole_end < total && chars[whole_end] == '.' {
        assert(s[w as int] == chars@[whole_end as int]);
        assert(s.skip(w as int + 1) =~= chars@.skip(whole_end + 1));
        let end = run_end(chars, whole_end + 1, Class::Digit);
        assert(chars@.subrange(from as int, end as int) =~= s.take(end - from));
        Step::Item(Lexeme::Decimal(slice_text(chars, from, end)), end)
    } else {
        proof {
            if whole_end < chars@.len() {
                assert(s[w as int] == chars@[whole_end as int]);
            }
        }
        assert(chars@.subrange(from as int, whole_end as int) =~= s.take(whole_end - from));
        Step::Item(Lexeme::Whole(slice_text(chars, from, whole_end)), whole_end)
    }
}

/// Reads the comparison that begins at `from`.
fn read_op(chars: &Vec<char>, from: usize) -> (r: Step)
    requires
        from < chars@.len(),
        chars@[from as int] == '=' || chars@[from as int] == '!' || chars@[from as int] == '<'
            || chars@[from as int] == '>',
    ensures
        step_is(r, op_step(chars@.skip(from as int)), from as int),
        r matches Step::Item(_, end) ==> from < end <= chars@.len(),
{
    let ghost s = chars@.skip(from as int);
    let total: usize = chars.len();
    let c = chars[from];
    let two = from + 1 < total && chars[from + 1] == '=';
    proof {
        assert(s[0] == c);
        if s.len() > 1 {
            assert(s[1] == chars@[from + 1]);
        }
    }
    if c == '=' {
        Step::Item(Lexeme::Op(ScopeOp::Eq), from + 1)
    } else if c == '!' {
        if two {
            Step::Item(Lexeme::Op(ScopeOp::Ne), from + 2)
        } else {
            Step::Fault(Fault::BareBang)
        }
    } else if c == '<' {
        if two {
            Step::Item(Lexeme::Op(ScopeOp::Le), from + 2)
        } else {
            Step::Item(Lexeme::Op(ScopeOp::Lt), from + 1)
        }
    } else {
        if two {
            Step::Item(Lexeme::Op(ScopeOp::Ge), from + 2)
        } else {
            Step::Item(Lexeme::Op(ScopeOp::Gt), from + 1)
        }
    }
}

/// Reads what begins at `from`.
pub fn read_step(chars: &Vec<char>, from: usize, dialect: Dialect) -> (r: Step)
    requires
        from < chars@.len(),
    ensures
        step_is(r, step(chars@.skip(from as int), dialect), from as int),
        r matches Step::Item(_, end) ==> from < end <= chars@.len(),
{
    let ghost s = chars@.skip(from as int);
    let total: usize = chars.len();
    let c = chars[from];
    proof {
        assert(s[0] == c);
        assert(s.skip(1) =~= chars@.skip(from + 1));
        if s.len() > 1 {
            assert(s[1] == chars@[from + 1]);
        }
    }
    if c == ' ' || c == '\t' || c == '\n' || c == '\r' {
        Step::Blank
    } else if c == '(' {
        Step::Item(Lexeme::Open, from + 1)
    } else if c == ')' {
        Step::Item(Lexeme::Close, from + 1)
    } else if c == '\'' {
        let end = run_end(chars, from + 1, Class::Unquoted);
        if end == total {
            Step::Fault(Fault::Unterminated)
        } else {
            assert(chars@.subrange(from + 1, end as int) =~= s.skip(1).take(end - from - 1));
            Step::Item(Lexeme::Quoted(slice_text(chars, from + 1, end)), end + 1)
        }
    } else if c == ':' && dialect == Dialect::Predicate {
        let end = run_end(chars, from + 1, Class::Word);
        if end == from + 1 {
            Step::Fault(Fault::BareColon)
        } else {
            let first = chars[from + 1];
            assert(s.skip(1)[0] == first);
            if first.is_alphabetic() || first == '_' {
                assert(chars@.subrange(from + 1, end as int) =~= s.skip(1).take(end - from - 1));
                Step::Item(Lexeme::Placeholder(slice_text(chars, from + 1, end)), end)
            } else {
                Step::Fault(Fault::BareColon)
            }
        }
    } else if c == '=' || c == '!' || c == '<' || c == '>' {
        read_op(chars, from)
    } else if ('0' <= c && c <= '9') || (c == '-' && from + 1 < total && '0' <= chars[from
        + 1] && chars[from + 1] <= '9') {
        read_number(chars, from)
    } else if c.is_alphabetic() || c == '_' {
        let class = if dialect == Dialect::Predicate {
            Class::Word
        } else {
            Class::Dotted
        };
        let end = run_end(chars, from, class);
        assert(chars@.subrange(from as int, end as int) =~= s.take(end - from));
        Step::Item(Lexeme::Word(slice_text(chars, from, end)), end)
    } else {
        Step::Fault(Fault::Stray(c))
    }
}

} // verus!
