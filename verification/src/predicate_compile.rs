//! Predicates as text: a small, safe subset of SQL conditions, and the binding of
//! its placeholders.
//!
//! ```text
//! expr       := and_expr ( "OR" and_expr )*
//! and_expr   := not_expr ( "AND" not_expr )*
//! not_expr   := "NOT" not_expr | atom
//! atom       := "(" expr ")" | comparison
//! comparison := IDENT OP literal
//! literal    := NUMBER | FLOAT | "true" | "false" | 'TEXT' | IDENT | ":" IDENT
//! OP         := "=" | "!=" | "<" | ">" | "<=" | ">="
//! ```

use vstd::prelude::*;
use crate::lexer::{
    blank, lemma_step_before_blank, read_step, step, Dialect, Fault, Lexeme, LexemeView, Step,
    StepView,
};
use crate::numbers::{parse_signed, read_signed, signed_decimal, signed_decimal_text};
use crate::ordered::{has_name, lemma_entry, Key, OrderedMap};
use crate::predicate::{
    expr_view, expr_views, lemma_expr_views, ColumnValue, ExprView, Float, FloatReadings, FloatView,
    PredicateExpr, PredicateFilter, ScopeOp, ValueView,
};
use crate::text::{
    chars_of, debug_quoted, quoted, same_text, string_of, text_views, upper, upper_chars,
};

verus! {

/// How deep brackets and negations may nest.
pub const MAX_DEPTH: usize = 64;

/// How many characters a predicate may have.
pub const MAX_LENGTH: usize = 65_536;

/// Why a text is no predicate.
#[derive(Debug, Clone, PartialEq, Eq)]
pub enum ParseError {
    /// There is nothing in it.
    Empty,
    /// It ends too early.
    UnexpectedEof { expected: &'static str },
    /// Something else stands where `expected` should.
    UnexpectedToken { found: String, expected: &'static str },
    /// A bracket is not closed.
    UnbalancedParens,
    /// Something follows the predicate.
    TrailingInput(String),
    /// A number is out of range.
    InvalidNumber(String),
    /// Brackets and negations nest deeper than `max`.
    TooDeep { max: usize },
    /// The text has more than `max` characters.
    TooLarge { max: usize },
}

/// Why a text is no predicate, by its values.
pub enum ParseErrorView {
    Empty,
    UnexpectedEof { expected: Seq<char> },
    UnexpectedToken { found: Seq<char>, expected: Seq<char> },
    UnbalancedParens,
    TrailingInput(Seq<char>),
    InvalidNumber(Seq<char>),
    TooDeep { max: usize },
    TooLarge { max: usize },
}

impl View for ParseError {
    type V = ParseErrorView;

    open spec fn view(&self) -> ParseErrorView {
        match *self {
            ParseError::Empty => ParseErrorView::Empty,
            ParseError::UnexpectedEof { expected } => ParseErrorView::UnexpectedEof {
                expected: expected@,
            },
            ParseError::UnexpectedToken { found, expected } => ParseErrorView::UnexpectedToken {
                found: found@,
                expected: expected@,
            },
            ParseError::UnbalancedParens => ParseErrorView::UnbalancedParens,
            ParseError::TrailingInput(s) => ParseErrorView::TrailingInput(s@),
            ParseError::InvalidNumber(s) => ParseErrorView::InvalidNumber(s@),
            ParseError::TooDeep { max } => ParseErrorView::TooDeep { max },
            ParseError::TooLarge { max } => ParseErrorView::TooLarge { max },
        }
    }
}

// ---- tokens ----

/// A token of a predicate.
enum Token {
    Ident(String),
    NumberInt(i64),
    NumberFloat(Float),
    Text(String),
    Param(String),
    Op(ScopeOp),
    And,
    Or,
    Not,
    LParen,
    RParen,
}

/// A token by its values.
pub enum TokenView {
    Ident(Seq<char>),
    NumberInt(i64),
    NumberFloat(FloatView),
    Text(Seq<char>),
    Param(Seq<char>),
    Op(ScopeOp),
    And,
    Or,
    Not,
    LParen,
    RParen,
}

impl Token {
    spec fn view(&self) -> TokenView {
        match *self {
            Token::Ident(s) => TokenView::Ident(s@),
            Token::NumberInt(n) => TokenView::NumberInt(n),
            Token::NumberFloat(f) => TokenView::NumberFloat(f@),
            Token::Text(s) => TokenView::Text(s@),
            Token::Param(s) => TokenView::Param(s@),
            Token::Op(op) => TokenView::Op(op),
            Token::And => TokenView::And,
            Token::Or => TokenView::Or,
            Token::Not => TokenView::Not,
            Token::LParen => TokenView::LParen,
            Token::RParen => TokenView::RParen,
        }
    }
}

spec fn token_views(s: Seq<Token>) -> Seq<TokenView> {
    Seq::new(s.len(), |i: int| s[i].view())
}

/// The spelling of a comparison.
pub open spec fn op_name(op: ScopeOp) -> Seq<char> {
    match op {
        ScopeOp::Eq => "="@,
        ScopeOp::Ne => "!="@,
        ScopeOp::Lt => "<"@,
        ScopeOp::Gt => ">"@,
        ScopeOp::Le => "<="@,
        ScopeOp::Ge => ">="@,
    }
}

impl ScopeOp {
    /// The spelling of the comparison.
    pub fn as_str(self) -> (r: &'static str)
        ensures
            r@ == op_name(self),
    {
        match self {
            ScopeOp::Eq => "=",
            ScopeOp::Ne => "!=",
            ScopeOp::Lt => "<",
            ScopeOp::Gt => ">",
            ScopeOp::Le => "<=",
            ScopeOp::Ge => ">=",
        }
    }
}

/// How a token is shown in a message.
pub open spec fn token_text(t: TokenView) -> Seq<char> {
    match t {
        TokenView::Ident(s) => "Ident("@ + debug_quoted(s) + ")"@,
        TokenView::NumberInt(n) => "NumberInt("@ + signed_decimal(n as int) + ")"@,
        TokenView::NumberFloat(f) => "NumberFloat("@ + f.debug + ")"@,
        TokenView::Text(s) => "Text("@ + debug_quoted(s) + ")"@,
        TokenView::Param(s) => "Param("@ + debug_quoted(s) + ")"@,
        TokenView::Op(op) => "Op("@ + debug_quoted(op_name(op)) + ")"@,
        TokenView::And => "And"@,
        TokenView::Or => "Or"@,
        TokenView::Not => "Not"@,
        TokenView::LParen => "LParen"@,
        TokenView::RParen => "RParen"@,
    }
}

/// How the first token is shown in a message, or that there is none.
pub open spec fn first_text(t: Seq<TokenView>) -> Seq<char> {
    if t.len() == 0 {
        "None"@
    } else {
        "Some("@ + token_text(t[0]) + ")"@
    }
}

/// The error that a lexical fault is.
pub open spec fn fault_error(f: Fault) -> ParseErrorView {
    match f {
        Fault::Unterminated => ParseErrorView::UnexpectedEof { expected: "closing '"@ },
        Fault::BareColon => ParseErrorView::UnexpectedToken {
            found: ":"@,
            expected: "an identifier after ':'"@,
        },
        Fault::BareBang => ParseErrorView::UnexpectedToken { found: "!"@, expected: "!="@ },
        Fault::Stray(c) => ParseErrorView::UnexpectedToken {
            found: seq![c],
            expected: "a predicate token"@,
        },
    }
}

/// The token of a word: a keyword in any case, or an identifier. `true` and
/// `false`, in any case, are the texts of these words.
pub open spec fn word_token(word: Seq<char>) -> TokenView {
    if upper(word) == "AND"@ {
        TokenView::And
    } else if upper(word) == "OR"@ {
        TokenView::Or
    } else if upper(word) == "NOT"@ {
        TokenView::Not
    } else if upper(word) == "TRUE"@ {
        TokenView::Text("true"@)
    } else if upper(word) == "FALSE"@ {
        TokenView::Text("false"@)
    } else {
        TokenView::Ident(word)
    }
}

/// The token of a lexical item. A number out of range is none.
pub open spec fn item_token(item: LexemeView, floats: Map<Seq<char>, Float>) -> Result<
    TokenView,
    ParseErrorView,
> {
    match item {
        LexemeView::Word(s) => Ok(word_token(s)),
        LexemeView::Whole(s) => match read_signed(s) {
            Some(n) => Ok(TokenView::NumberInt(n as i64)),
            None => Err(ParseErrorView::InvalidNumber(s)),
        },
        LexemeView::Decimal(s) => if floats.contains_key(s) {
            Ok(TokenView::NumberFloat(floats[s]@))
        } else {
            Err(ParseErrorView::InvalidNumber(s))
        },
        LexemeView::Quoted(s) => Ok(TokenView::Text(s)),
        LexemeView::Placeholder(s) => Ok(TokenView::Param(s)),
        LexemeView::Op(op) => Ok(TokenView::Op(op)),
        LexemeView::Open => Ok(TokenView::LParen),
        LexemeView::Close => Ok(TokenView::RParen),
    }
}

/// `t` before the tokens of `rest`, if those are any.
pub open spec fn after(
    t: Seq<TokenView>,
    rest: Result<Seq<TokenView>, ParseErrorView>,
) -> Result<Seq<TokenView>, ParseErrorView> {
    match rest {
        Ok(s) => Ok(t + s),
        Err(e) => Err(e),
    }
}

/// The tokens of a text.
pub open spec fn tokens_of(s: Seq<char>, floats: Map<Seq<char>, Float>) -> Result<
    Seq<TokenView>,
    ParseErrorView,
>
    decreases s.len(),
{
    if s.len() == 0 {
        Ok(seq![])
    } else {
        match step(s, Dialect::Predicate) {
            StepView::Blank => tokens_of(s.skip(1), floats),
            StepView::Fault(f) => Err(fault_error(f)),
            StepView::Item(item, n) => match item_token(item, floats) {
                Err(e) => Err(e),
                Ok(t) => if 0 < n <= s.len() {
                    after(seq![t], tokens_of(s.skip(n as int), floats))
                } else {
                    Ok(seq![t])
                },
            },
        }
    }
}

/// The token of a word.
fn token_of_word(word: String) -> (r: Token)
    ensures
        r.view() == word_token(word@),
{
    let chars = chars_of(word.as_str());
    let big = upper_chars(&chars);
    let key = string_of(big.as_slice());
    if same_text(key.as_str(), "AND") {
        Token::And
    } else if same_text(key.as_str(), "OR") {
        Token::Or
    } else if same_text(key.as_str(), "NOT") {
        Token::Not
    } else if same_text(key.as_str(), "TRUE") {
        Token::Text("true".to_owned())
    } else if same_text(key.as_str(), "FALSE") {
        Token::Text("false".to_owned())
    } else {
        Token::Ident(word)
    }
}

/// The token of a lexical item.
fn token_of_item(item: Lexeme, floats: &FloatReadings) -> (r: Result<Token, ParseError>)
    ensures
        match item_token(item@, floats.readings@) {
            Ok(t) => r is Ok && r->Ok_0.view() == t,
            Err(e) => r is Err && r->Err_0@ == e,
        },
{
    match item {
        Lexeme::Word(s) => Ok(token_of_word(s)),
        Lexeme::Whole(s) => {
            let chars = chars_of(s.as_str());
            match parse_signed(&chars) {
                Some(n) => Ok(Token::NumberInt(n)),
                None => Err(ParseError::InvalidNumber(s)),
            }
        },
        Lexeme::Decimal(s) => match floats.readings.get(&s) {
            Some(f) => Ok(Token::NumberFloat(f.clone())),
            None => Err(ParseError::InvalidNumber(s)),
        },
        Lexeme::Quoted(s) => Ok(Token::Text(s)),
        Lexeme::Placeholder(s) => Ok(Token::Param(s)),
        Lexeme::Op(op) => Ok(Token::Op(op)),
        Lexeme::Open => Ok(Token::LParen),
        Lexeme::Close => Ok(Token::RParen),
    }
}

/// The error that a lexical fault is.
fn error_of_fault(f: Fault) -> (r: ParseError)
    ensures
        r@ == fault_error(f),
{
    match f {
        Fault::Unterminated => ParseError::UnexpectedEof { expected: "closing '" },
        Fault::BareColon => ParseError::UnexpectedToken {
            found: ":".to_owned(),
            expected: "an identifier after ':'",
        },
        Fault::BareBang => ParseError::UnexpectedToken { found: "!".to_owned(), expected: "!=" },
        Fault::Stray(c) => {
            let mut found: String = String::new();
            found.push(c);
            assert(found@ =~= seq![c]);
            ParseError::UnexpectedToken { found, expected: "a predicate token" }
        },
    }
}

/// The tokens of a text.
fn tokenize(chars: &Vec<char>, floats: &FloatReadings) -> (r: Result<Vec<Token>, ParseError>)
    ensures
        match tokens_of(chars@, floats.readings@) {
            Ok(t) => r is Ok && token_views(r->Ok_0@) == t,
            Err(e) => r is Err && r->Err_0@ == e,
        },
{
    let ghost whole = tokens_of(chars@, floats.readings@);
    let mut tokens: Vec<Token> = Vec::new();
    let mut i: usize = 0;
    proof {
        assert(chars@.skip(0) =~= chars@);
        assert(token_views(tokens@) =~= seq![]);
        if whole is Ok {
            assert(seq![] + whole->Ok_0 =~= whole->Ok_0);
        }
    }
    while i < chars.len()
        invariant
            i <= chars@.len(),
            whole == tokens_of(chars@, floats.readings@),
            whole == after(
                token_views(tokens@),
                tokens_of(chars@.skip(i as int), floats.readings@),
            ),
        decreases chars@.len() - i,
    {
        let ghost rest = chars@.skip(i as int);
        let ghost seen = token_views(tokens@);
        match read_step(chars, i, Dialect::Predicate) {
            Step::Blank => {
                assert(rest.skip(1) =~= chars@.skip(i + 1));
                i += 1;
            },
            Step::Fault(f) => {
                return Err(error_of_fault(f));
            },
            Step::Item(item, end) => {
                match token_of_item(item, floats) {
                    Err(e) => {
                        return Err(e);
                    },
                    Ok(t) => {
                        let ghost v = t.view();
                        tokens.push(t);
                        proof {
                            assert(token_views(tokens@) =~= seen.push(v));
                            assert(rest.skip(end - i) =~= chars@.skip(end as int));
                            match tokens_of(chars@.skip(end as int), floats.readings@) {
                                Ok(more) => {
                                    assert(seen + (seq![v] + more) =~= seen.push(v) + more);
                                },
                                Err(_) => {},
                            }
                        }
                    },
                }
                i = end;
            },
        }
    }
    proof {
        assert(chars@.skip(i as int) =~= seq![]);
        assert(token_views(tokens@) + seq![] =~= token_views(tokens@));
    }
    Ok(tokens)
}

// ---- the grammar ----

/// A predicate and the tokens after it.
pub struct Parsed {
    pub expr: ExprView,
    pub rest: Seq<TokenView>,
}

/// A list of predicates and the tokens after it.
pub struct ParsedList {
    pub parts: Seq<ExprView>,
    pub rest: Seq<TokenView>,
}

/// The comparison of a literal token. The words `true` and `false` are truth
/// values, quoted or not.
pub open spec fn literal(t: TokenView) -> Option<ValueView> {
    match t {
        TokenView::Param(s) => Some(ValueView::Param(s)),
        TokenView::NumberInt(n) => Some(ValueView::Number(n)),
        TokenView::NumberFloat(f) => Some(ValueView::Float(f)),
        TokenView::Text(s) => Some(word_value(s)),
        TokenView::Ident(s) => Some(word_value(s)),
        _ => None,
    }
}

/// What a word stands for as a value.
pub open spec fn word_value(s: Seq<char>) -> ValueView {
    if s == "true"@ {
        ValueView::Bool(true)
    } else if s == "false"@ {
        ValueView::Bool(false)
    } else {
        ValueView::Text(s)
    }
}

/// The comparison that `t` begins with, whose column is its first token.
pub open spec fn comparison(column: Seq<char>, t: Seq<TokenView>) -> Result<
    Parsed,
    ParseErrorView,
> {
    if t.len() < 2 || !(t[1] is Op) {
        Err(
            ParseErrorView::UnexpectedToken {
                found: first_text(t.skip(1)),
                expected: "a comparison operator (=, !=, <, >, <=, >=)"@,
            },
        )
    } else if t.len() < 3 || literal(t[2]) is None {
        Err(
            ParseErrorView::UnexpectedToken {
                found: first_text(t.skip(2)),
                expected: "a literal (number, quoted text, true/false, or identifier)"@,
            },
        )
    } else {
        Ok(
            Parsed {
                expr: ExprView::Leaf(t[1]->Op_0, column, literal(t[2])->0),
                rest: t.skip(3),
            },
        )
    }
}

/// The error of nesting too deep.
pub open spec fn too_deep() -> ParseErrorView {
    ParseErrorView::TooDeep { max: MAX_DEPTH }
}

/// The bracketed predicate or comparison that `t` begins with. `room` is how much
/// deeper brackets and negations may nest.
pub open spec fn atom(t: Seq<TokenView>, room: nat) -> Result<Parsed, ParseErrorView>
    decreases t.len(), 0nat,
{
    if t.len() > 0 && t[0] is LParen {
        if room == 0 {
            Err(too_deep())
        } else {
            match or_expr(t.skip(1), (room - 1) as nat) {
                Err(e) => Err(e),
                Ok(p) => if p.rest.len() > 0 && p.rest[0] is RParen {
                    Ok(Parsed { expr: p.expr, rest: p.rest.skip(1) })
                } else {
                    Err(ParseErrorView::UnbalancedParens)
                },
            }
        }
    } else if t.len() > 0 && t[0] is Ident {
        comparison(t[0]->Ident_0, t)
    } else {
        Err(
            ParseErrorView::UnexpectedToken {
                found: first_text(t),
                expected: "an identifier or '('"@,
            },
        )
    }
}

/// The negation or atom that `t` begins with.
pub open spec fn not_expr(t: Seq<TokenView>, room: nat) -> Result<Parsed, ParseErrorView>
    decreases t.len(), 1nat,
{
    if t.len() > 0 && t[0] is Not {
        if room == 0 {
            Err(too_deep())
        } else {
            match not_expr(t.skip(1), (room - 1) as nat) {
                Err(e) => Err(e),
                Ok(p) => Ok(Parsed { expr: ExprView::Not(Box::new(p.expr)), rest: p.rest }),
            }
        }
    } else {
        atom(t, room)
    }
}

/// The parts of the conjunction that `t` begins with.
pub open spec fn and_parts(t: Seq<TokenView>, room: nat) -> Result<ParsedList, ParseErrorView>
    decreases t.len(), 2nat,
{
    match not_expr(t, room) {
        Err(e) => Err(e),
        Ok(p) => if p.rest.len() > 0 && p.rest[0] is And && p.rest.len() <= t.len() {
            match and_parts(p.rest.skip(1), room) {
                Err(e) => Err(e),
                Ok(more) => Ok(
                    ParsedList { parts: seq![p.expr] + more.parts, rest: more.rest },
                ),
            }
        } else {
            Ok(ParsedList { parts: seq![p.expr], rest: p.rest })
        },
    }
}

/// The conjunction that `t` begins with; of one part it is that part.
pub open spec fn and_expr(t: Seq<TokenView>, room: nat) -> Result<Parsed, ParseErrorView>
    decreases t.len(), 3nat,
{
    match and_parts(t, room) {
        Err(e) => Err(e),
        Ok(p) => Ok(
            Parsed {
                expr: if p.parts.len() == 1 {
                    p.parts[0]
                } else {
                    ExprView::And(p.parts)
                },
                rest: p.rest,
            },
        ),
    }
}

/// The parts of the disjunction that `t` begins with.
pub open spec fn or_parts(t: Seq<TokenView>, room: nat) -> Result<ParsedList, ParseErrorView>
    decreases t.len(), 4nat,
{
    match and_expr(t, room) {
        Err(e) => Err(e),
        Ok(p) => if p.rest.len() > 0 && p.rest[0] is Or && p.rest.len() <= t.len() {
            match or_parts(p.rest.skip(1), room) {
                Err(e) => Err(e),
                Ok(more) => Ok(
                    ParsedList { parts: seq![p.expr] + more.parts, rest: more.rest },
                ),
            }
        } else {
            Ok(ParsedList { parts: seq![p.expr], rest: p.rest })
        },
    }
}

/// The disjunction that `t` begins with; of one part it is that part.
pub open spec fn or_expr(t: Seq<TokenView>, room: nat) -> Result<Parsed, ParseErrorView>
    decreases t.len(), 5nat,
{
    match or_parts(t, room) {
        Err(e) => Err(e),
        Ok(p) => Ok(
            Parsed {
                expr: if p.parts.len() == 1 {
                    p.parts[0]
                } else {
                    ExprView::Or(p.parts)
                },
                rest: p.rest,
            },
        ),
    }
}

/// The predicate that a text writes.
pub open spec fn parsed(s: Seq<char>, floats: Map<Seq<char>, Float>) -> Result<
    ExprView,
    ParseErrorView,
> {
    if s.len() > MAX_LENGTH {
        Err(ParseErrorView::TooLarge { max: MAX_LENGTH })
    } else {
        match tokens_of(s, floats) {
            Err(e) => Err(e),
            Ok(t) => if t.len() == 0 {
                Err(ParseErrorView::Empty)
            } else {
                match or_expr(t, MAX_DEPTH as nat) {
                    Err(e) => Err(e),
                    Ok(p) => if p.rest.len() > 0 {
                        Err(ParseErrorView::TrailingInput(token_text(p.rest[0])))
                    } else {
                        Ok(p.expr)
                    },
                }
            },
        }
    }
}

// ---- the parser ----

/// How a token is shown in a message.
fn text_of_token(t: &Token) -> (r: String)
    ensures
        r@ == token_text(t.view()),
{
    match t {
        Token::Ident(s) => {
            let mut out: String = "Ident(".to_owned();
            out.append(quoted(s.as_str()).as_str());
            out.append(")");
            out
        },
        Token::NumberInt(n) => {
            let mut out: String = "NumberInt(".to_owned();
            out.append(signed_decimal_text(*n).as_str());
            out.append(")");
            out
        },
        Token::NumberFloat(f) => {
            let mut out: String = "NumberFloat(".to_owned();
            out.append(f.debug.as_str());
            out.append(")");
            out
        },
        Token::Text(s) => {
            let mut out: String = "Text(".to_owned();
            out.append(quoted(s.as_str()).as_str());
            out.append(")");
            out
        },
        Token::Param(s) => {
            let mut out: String = "Param(".to_owned();
            out.append(quoted(s.as_str()).as_str());
            out.append(")");
            out
        },
        Token::Op(op) => {
            let mut out: String = "Op(".to_owned();
            out.append(quoted(op.as_str()).as_str());
            out.append(")");
            out
        },
        Token::And => "And".to_owned(),
        Token::Or => "Or".to_owned(),
        Token::Not => "Not".to_owned(),
        Token::LParen => "LParen".to_owned(),
        Token::RParen => "RParen".to_owned(),
    }
}

/// What a word stands for as a value.
fn value_of_word(s: &String) -> (r: ColumnValue)
    ensures
        r@ == word_value(s@),
{
    if same_text(s.as_str(), "true") {
        ColumnValue::Bool(true)
    } else if same_text(s.as_str(), "false") {
        ColumnValue::Bool(false)
    } else {
        ColumnValue::Text(s.clone())
    }
}

/// A comparison as a predicate.
pub(crate) fn leaf(op: ScopeOp, column: String, value: ColumnValue) -> (r: PredicateExpr)
    ensures
        r@ == ExprView::Leaf(op, column@, value@),
{
    let f = PredicateFilter { column, value };
    match op {
        ScopeOp::Eq => PredicateExpr::Eq(f),
        ScopeOp::Ne => PredicateExpr::Ne(f),
        ScopeOp::Lt => PredicateExpr::Lt(f),
        ScopeOp::Gt => PredicateExpr::Gt(f),
        ScopeOp::Le => PredicateExpr::Le(f),
        ScopeOp::Ge => PredicateExpr::Ge(f),
    }
}

/// Tokens, and how many of them are read.
struct Parser {
    tokens: Vec<Token>,
    pos: usize,
}

impl Parser {
    spec fn wf(&self) -> bool {
        self.pos <= self.tokens@.len()
    }

    /// The tokens not yet read.
    spec fn rest(&self) -> Seq<TokenView> {
        token_views(self.tokens@).skip(self.pos as int)
    }

    /// Whether reading gave what the grammar gives, and the tokens after it are
    /// left.
    spec fn follows(
        before: &Parser,
        now: &Parser,
        r: Result<PredicateExpr, ParseError>,
        v: Result<Parsed, ParseErrorView>,
    ) -> bool {
        &&& now.tokens == before.tokens
        &&& now.wf()
        &&& match v {
            Ok(p) => r is Ok && r->Ok_0@ == p.expr && now.rest() == p.rest && now.pos > before.pos,
            Err(e) => r is Err && r->Err_0@ == e,
        }
    }

    /// How the next token is shown in a message, or that there is none.
    fn next_text(&self) -> (r: String)
        requires
            self.wf(),
        ensures
            r@ == first_text(self.rest()),
    {
        if self.pos < self.tokens.len() {
            assert(self.rest()[0] == self.tokens@[self.pos as int].view());
            let mut out: String = "Some(".to_owned();
            out.append(text_of_token(&self.tokens[self.pos]).as_str());
            out.append(")");
            out
        } else {
            "None".to_owned()
        }
    }

    /// Reads a comparison.
    fn parse_comparison(&mut self) -> (r: Result<PredicateExpr, ParseError>)
        requires
            old(self).wf(),
            old(self).rest().len() > 0,
            old(self).rest()[0] is Ident,
        ensures
            Parser::follows(
                old(self),
                final(self),
                r,
                comparison(old(self).rest()[0]->Ident_0, old(self).rest()),
            ),
    {
        let ghost t = self.rest();
        let ghost views = token_views(self.tokens@);
        let total: usize = self.tokens.len();
        assert(t[0] == self.tokens@[self.pos as int].view());
        let column: String = match &self.tokens[self.pos] {
            Token::Ident(s) => s.clone(),
            _ => String::new(),
        };
        self.pos = self.pos + 1;
        assert(self.rest() =~= t.skip(1));
        let op: Option<ScopeOp> = if self.pos < total {
            assert(t[1] == self.tokens@[self.pos as int].view());
            match &self.tokens[self.pos] {
                Token::Op(op) => Some(*op),
                _ => None,
            }
        } else {
            None
        };
        let op: ScopeOp = match op {
            Some(op) => op,
            None => {
                return Err(
                    ParseError::UnexpectedToken {
                        found: self.next_text(),
                        expected: "a comparison operator (=, !=, <, >, <=, >=)",
                    },
                );
            },
        };
        self.pos = self.pos + 1;
        assert(self.rest() =~= t.skip(2));
        let value: Option<ColumnValue> = if self.pos < total {
            assert(t[2] == self.tokens@[self.pos as int].view());
            match &self.tokens[self.pos] {
                Token::Param(s) => Some(ColumnValue::Param(s.clone())),
                Token::NumberInt(n) => Some(ColumnValue::Number(*n)),
                Token::NumberFloat(f) => Some(ColumnValue::Float(f.clone())),
                Token::Text(s) => Some(value_of_word(s)),
                Token::Ident(s) => Some(value_of_word(s)),
                _ => None,
            }
        } else {
            None
        };
        match value {
            Some(value) => {
                self.pos = self.pos + 1;
                assert(self.rest() =~= t.skip(3));
                Ok(leaf(op, column, value))
            },
            None => Err(
                ParseError::UnexpectedToken {
                    found: self.next_text(),
                    expected: "a literal (number, quoted text, true/false, or identifier)",
                },
            ),
        }
    }

    /// Reads a bracketed predicate or a comparison.
    fn parse_atom(&mut self, room: usize) -> (r: Result<PredicateExpr, ParseError>)
        requires
            old(self).wf(),
        ensures
            Parser::follows(old(self), final(self), r, atom(old(self).rest(), room as nat)),
        decreases old(self).tokens@.len() - old(self).pos, 0nat,
    {
        let ghost t = self.rest();
        let ghost views = token_views(self.tokens@);
        if self.pos < self.tokens.len() {
            assert(t[0] == self.tokens@[self.pos as int].view());
            match &self.tokens[self.pos] {
                Token::LParen => {
                    if room == 0 {
                        return Err(ParseError::TooDeep { max: MAX_DEPTH });
                    }
                    self.pos = self.pos + 1;
                    assert(self.rest() =~= t.skip(1));
                    match self.parse_or(room - 1) {
                        Err(e) => Err(e),
                        Ok(inner) => {
                            let ghost left = self.rest();
                            if self.pos < self.tokens.len() {
                                assert(left[0] == self.tokens@[self.pos as int].view());
                                match &self.tokens[self.pos] {
                                    Token::RParen => {
                                        self.pos = self.pos + 1;
                                        assert(self.rest() =~= left.skip(1));
                                        Ok(inner)
                                    },
                                    _ => Err(ParseError::UnbalancedParens),
                                }
                            } else {
                                Err(ParseError::UnbalancedParens)
                            }
                        },
                    }
                },
                Token::Ident(_) => self.parse_comparison(),
                _ => Err(
                    ParseError::UnexpectedToken {
                        found: self.next_text(),
                        expected: "an identifier or '('",
                    },
                ),
            }
        } else {
            Err(
                ParseError::UnexpectedToken {
                    found: self.next_text(),
                    expected: "an identifier or '('",
                },
            )
        }
    }

    /// Reads a negation or an atom.
    fn parse_not(&mut self, room: usize) -> (r: Result<PredicateExpr, ParseError>)
        requires
            old(self).wf(),
        ensures
            Parser::follows(old(self), final(self), r, not_expr(old(self).rest(), room as nat)),
        decreases old(self).tokens@.len() - old(self).pos, 1nat,
    {
        let ghost t = self.rest();
        let negated: bool = if self.pos < self.tokens.len() {
            assert(t[0] == self.tokens@[self.pos as int].view());
            match &self.tokens[self.pos] {
                Token::Not => true,
                _ => false,
            }
        } else {
            false
        };
        if negated {
            if room == 0 {
                return Err(ParseError::TooDeep { max: MAX_DEPTH });
            }
            self.pos = self.pos + 1;
            assert(self.rest() =~= t.skip(1));
            match self.parse_not(room - 1) {
                Err(e) => Err(e),
                Ok(inner) => Ok(PredicateExpr::Not(Box::new(inner))),
            }
        } else {
            self.parse_atom(room)
        }
    }

    /// Reads a conjunction.
    fn parse_and(&mut self, room: usize) -> (r: Result<PredicateExpr, ParseError>)
        requires
            old(self).wf(),
        ensures
            Parser::follows(old(self), final(self), r, and_expr(old(self).rest(), room as nat)),
        decreases old(self).tokens@.len() - old(self).pos, 3nat,
    {
        let ghost start = *self;
        let ghost whole = and_parts(self.rest(), room as nat);
        let mut parts: Vec<PredicateExpr> = Vec::new();
        loop
            invariant
                self.wf(),
                self.tokens == start.tokens,
                self.pos >= start.pos,
                start == *old(self),
                whole == and_parts(start.rest(), room as nat),
                whole == after_parts(expr_views(parts@), and_parts(self.rest(), room as nat)),
            decreases self.tokens@.len() - self.pos,
        {
            let ghost t = self.rest();
            let ghost seen = expr_views(parts@);
            match self.parse_not(room) {
                Err(e) => {
                    return Err(e);
                },
                Ok(part) => {
                    let ghost v = part@;
                    let ghost left = self.rest();
                    proof {
                        lemma_expr_views(parts@);
                    }
                    parts.push(part);
                    proof {
                        lemma_expr_views(parts@);
                        assert(expr_views(parts@) =~= seen.push(v));
                        assert(left.len() <= t.len());
                    }
                    let more: bool = if self.pos < self.tokens.len() {
                        assert(left[0] == self.tokens@[self.pos as int].view());
                        match &self.tokens[self.pos] {
                            Token::And => true,
                            _ => false,
                        }
                    } else {
                        false
                    };
                    if !more {
                        proof {
                            assert(seen + seq![v] =~= seen.push(v));
                        }
                        if parts.len() == 1 {
                            match parts.pop() {
                                Some(only) => {
                                    assert(seen.push(v)[0] == only@);
                                    return Ok(only);
                                },
                                None => {
                                    return Err(ParseError::Empty);
                                },
                            }
                        }
                        return Ok(PredicateExpr::And(parts));
                    }
                    self.pos = self.pos + 1;
                    proof {
                        assert(self.rest() =~= left.skip(1));
                        match and_parts(left.skip(1), room as nat) {
                            Ok(p) => {
                                assert(seen + (seq![v] + p.parts) =~= seen.push(v) + p.parts);
                            },
                            Err(_) => {},
                        }
                    }
                },
            }
        }
    }

    /// Reads a disjunction.
    fn parse_or(&mut self, room: usize) -> (r: Result<PredicateExpr, ParseError>)
        requires
            old(self).wf(),
        ensures
            Parser::follows(old(self), final(self), r, or_expr(old(self).rest(), room as nat)),
        decreases old(self).tokens@.len() - old(self).pos, 5nat,
    {
        let ghost start = *self;
        let ghost whole = or_parts(self.rest(), room as nat);
        let mut parts: Vec<PredicateExpr> = Vec::new();
        loop
            invariant
                self.wf(),
                self.tokens == start.tokens,
                self.pos >= start.pos,
                start == *old(self),
                whole == or_parts(start.rest(), room as nat),
                whole == after_parts(expr_views(parts@), or_parts(self.rest(), room as nat)),
            decreases self.tokens@.len() - self.pos,
        {
            let ghost t = self.rest();
            let ghost seen = expr_views(parts@);
            match self.parse_and(room) {
                Err(e) => {
                    return Err(e);
                },
                Ok(part) => {
                    let ghost v = part@;
                    let ghost left = self.rest();
                    proof {
                        lemma_expr_views(parts@);
                    }
                    parts.push(part);
                    proof {
                        lemma_expr_views(parts@);
                        assert(expr_views(parts@) =~= seen.push(v));
                        assert(left.len() <= t.len());
                    }
                    let more: bool = if self.pos < self.tokens.len() {
                        assert(left[0] == self.tokens@[self.pos as int].view());
                        match &self.tokens[self.pos] {
                            Token::Or => true,
                            _ => false,
                        }
                    } else {
                        false
                    };
                    if !more {
                        proof {
                            assert(seen + seq![v] =~= seen.push(v));
                        }
                        if parts.len() == 1 {
                            match parts.pop() {
                                Some(only) => {
                                    assert(seen.push(v)[0] == only@);
                                    return Ok(only);
                                },
                                None => {
                                    return Err(ParseError::Empty);
                                },
                            }
                        }
                        return Ok(PredicateExpr::Or(parts));
                    }
                    self.pos = self.pos + 1;
                    proof {
                        assert(self.rest() =~= left.skip(1));
                        match or_parts(left.skip(1), room as nat) {
                            Ok(p) => {
                                assert(seen + (seq![v] + p.parts) =~= seen.push(v) + p.parts);
                            },
                            Err(_) => {},
                        }
                    }
                },
            }
        }
    }
}

/// `seen` before the parts of `rest`, if those are any.
pub open spec fn after_parts(
    seen: Seq<ExprView>,
    rest: Result<ParsedList, ParseErrorView>,
) -> Result<ParsedList, ParseErrorView> {
    match rest {
        Ok(p) => Ok(ParsedList { parts: seen + p.parts, rest: p.rest }),
        Err(e) => Err(e),
    }
}

/// Reads a predicate. `floats` says what the numbers with a decimal point in it
/// read as; `float_literals` lists them.
pub fn parse_predicate_expr(input: &str, floats: &FloatReadings) -> (r: Result<
    PredicateExpr,
    ParseError,
>)
    ensures
        match parsed(input@, floats.readings@) {
            Ok(e) => r is Ok && r->Ok_0@ == e,
            Err(e) => r is Err && r->Err_0@ == e,
        },
{
    let chars = chars_of(input);
    if chars.len() > MAX_LENGTH {
        return Err(ParseError::TooLarge { max: MAX_LENGTH });
    }
    let tokens = match tokenize(&chars, floats) {
        Ok(t) => t,
        Err(e) => {
            return Err(e);
        },
    };
    if tokens.len() == 0 {
        return Err(ParseError::Empty);
    }
    let ghost views = token_views(tokens@);
    let mut p = Parser { tokens, pos: 0 };
    assert(p.rest() =~= views);
    let expr = match p.parse_or(MAX_DEPTH) {
        Ok(e) => e,
        Err(e) => {
            return Err(e);
        },
    };
    if p.pos < p.tokens.len() {
        assert(p.rest()[0] == p.tokens@[p.pos as int].view());
        return Err(ParseError::TrailingInput(text_of_token(&p.tokens[p.pos])));
    }
    Ok(expr)
}

/// The numbers with a decimal point in a text, in order, up to where the text stops
/// being lexical items.
pub open spec fn decimals(s: Seq<char>, dialect: Dialect) -> Seq<Seq<char>>
    decreases s.len(),
{
    if s.len() == 0 {
        seq![]
    } else {
        match step(s, dialect) {
            StepView::Blank => decimals(s.skip(1), dialect),
            StepView::Fault(_) => seq![],
            StepView::Item(item, n) => {
                let rest = if 0 < n <= s.len() {
                    decimals(s.skip(n as int), dialect)
                } else {
                    seq![]
                };
                match item {
                    LexemeView::Decimal(text) => seq![text] + rest,
                    _ => rest,
                }
            },
        }
    }
}

/// The numbers with a decimal point in `input`: what reading it as a predicate or
/// as a scope needs readings of.
pub fn float_literals(input: &str, dialect: Dialect) -> (r: Vec<String>)
    ensures
        text_views(r@) == decimals(input@, dialect),
{
    let chars = chars_of(input);
    let ghost whole = decimals(chars@, dialect);
    let mut out: Vec<String> = Vec::new();
    let mut i: usize = 0;
    proof {
        assert(chars@.skip(0) =~= chars@);
        assert(text_views(out@) + whole =~= whole);
    }
    while i < chars.len()
        invariant
            i <= chars@.len(),
            chars@ == input@,
            whole == decimals(chars@, dialect),
            whole == text_views(out@) + decimals(chars@.skip(i as int), dialect),
        decreases chars@.len() - i,
    {
        let ghost rest = chars@.skip(i as int);
        let ghost seen = text_views(out@);
        match read_step(&chars, i, dialect) {
            Step::Blank => {
                assert(rest.skip(1) =~= chars@.skip(i + 1));
                i += 1;
            },
            Step::Fault(_) => {
                assert(seen + seq![] =~= seen);
                return out;
            },
            Step::Item(item, end) => {
                assert(rest.skip(end - i) =~= chars@.skip(end as int));
                match item {
                    Lexeme::Decimal(text) => {
                        out.push(text);
                        assert(text_views(out@) =~= seen.push(text@));
                        assert(seen + (seq![text@] + decimals(chars@.skip(end as int), dialect)) =~= seen.push(
                            text@,
                        ) + decimals(chars@.skip(end as int), dialect));
                    },
                    _ => {},
                }
                i = end;
            },
        }
    }
    proof {
        assert(chars@.skip(i as int) =~= seq![]);
        assert(text_views(out@) + seq![] =~= text_views(out@));
    }
    out
}

// ---- binding ----

/// Why placeholders could not be bound.
#[derive(Debug, Clone, PartialEq, Eq)]
pub enum BindError {
    /// No value for a placeholder.
    MissingParam { name: String },
    /// A value for no placeholder.
    ExtraParam { name: String },
    /// A value that is itself a placeholder.
    NestedParam { name: String },
}

/// Why placeholders could not be bound, by its values.
pub enum BindErrorView {
    MissingParam { name: Seq<char> },
    ExtraParam { name: Seq<char> },
    NestedParam { name: Seq<char> },
}

impl View for BindError {
    type V = BindErrorView;

    open spec fn view(&self) -> BindErrorView {
        match *self {
            BindError::MissingParam { name } => BindErrorView::MissingParam { name: name@ },
            BindError::ExtraParam { name } => BindErrorView::ExtraParam { name: name@ },
            BindError::NestedParam { name } => BindErrorView::NestedParam { name: name@ },
        }
    }
}

/// The value that stands for `v` once the placeholders are bound.
pub open spec fn bound_value(v: ValueView, params: Map<Seq<char>, ColumnValue>) -> Result<
    ValueView,
    BindErrorView,
> {
    match v {
        ValueView::Param(name) => if !params.contains_key(name) {
            Err(BindErrorView::MissingParam { name })
        } else if params[name]@ is Param {
            Err(BindErrorView::NestedParam { name })
        } else {
            Ok(params[name]@)
        },
        _ => Ok(v),
    }
}

/// The predicate with its placeholders bound; the error is that of the first
/// comparison, from left to right, that has one.
pub open spec fn bound(e: ExprView, params: Map<Seq<char>, ColumnValue>) -> Result<
    ExprView,
    BindErrorView,
>
    decreases e,
{
    match e {
        ExprView::Any => Ok(ExprView::Any),
        ExprView::Leaf(op, column, v) => match bound_value(v, params) {
            Ok(b) => Ok(ExprView::Leaf(op, column, b)),
            Err(x) => Err(x),
        },
        ExprView::And(parts) => match bound_parts(parts, params) {
            Ok(b) => Ok(ExprView::And(b)),
            Err(x) => Err(x),
        },
        ExprView::Or(parts) => match bound_parts(parts, params) {
            Ok(b) => Ok(ExprView::Or(b)),
            Err(x) => Err(x),
        },
        ExprView::Not(inner) => match bound(*inner, params) {
            Ok(b) => Ok(ExprView::Not(Box::new(b))),
            Err(x) => Err(x),
        },
    }
}

/// The parts with their placeholders bound.
pub open spec fn bound_parts(parts: Seq<ExprView>, params: Map<Seq<char>, ColumnValue>) -> Result<
    Seq<ExprView>,
    BindErrorView,
>
    decreases parts,
{
    if parts.len() == 0 {
        Ok(seq![])
    } else {
        match bound_parts(parts.drop_last(), params) {
            Err(x) => Err(x),
            Ok(front) => match bound(parts.last(), params) {
                Err(x) => Err(x),
                Ok(b) => Ok(front.push(b)),
            },
        }
    }
}

/// Whether the predicate holds the placeholder `name`.
pub open spec fn mentions(e: ExprView, name: Seq<char>) -> bool
    decreases e,
{
    match e {
        ExprView::Any => false,
        ExprView::Leaf(_, _, v) => v == ValueView::Param(name),
        ExprView::And(parts) => some_mentions(parts, name),
        ExprView::Or(parts) => some_mentions(parts, name),
        ExprView::Not(inner) => mentions(*inner, name),
    }
}

/// Whether some part holds the placeholder `name`.
pub open spec fn some_mentions(parts: Seq<ExprView>, name: Seq<char>) -> bool
    decreases parts,
{
    parts.len() > 0 && (some_mentions(parts.drop_last(), name) || mentions(parts.last(), name))
}

/// Whether the predicate holds no placeholder.
pub open spec fn closed_expr(e: ExprView) -> bool {
    forall|name: Seq<char>| !#[trigger] mentions(e, name)
}

proof fn lemma_bound_parts_prefix(
    parts: Seq<ExprView>,
    params: Map<Seq<char>, ColumnValue>,
    i: int,
)
    requires
        0 <= i <= parts.len(),
        bound_parts(parts.take(i), params) is Err,
    ensures
        bound_parts(parts, params) == bound_parts(parts.take(i), params),
    decreases parts.len() - i,
{
    if i == parts.len() {
        assert(parts.take(i) =~= parts);
    } else {
        assert(parts.take(i + 1).drop_last() =~= parts.take(i));
        lemma_bound_parts_prefix(parts, params, i + 1);
    }
}

proof fn lemma_some_mentions(parts: Seq<ExprView>, name: Seq<char>)
    ensures
        some_mentions(parts, name) <==> (exists|i: int|
            0 <= i < parts.len() && mentions(#[trigger] parts[i], name)),
    decreases parts.len(),
{
    if parts.len() > 0 {
        let front = parts.drop_last();
        lemma_some_mentions(front, name);
        if some_mentions(front, name) {
            let i = choose|i: int| 0 <= i < front.len() && mentions(#[trigger] front[i], name);
            assert(mentions(parts[i], name));
        }
        if mentions(parts.last(), name) {
            assert(mentions(parts[parts.len() - 1], name));
        }
        if exists|i: int| 0 <= i < parts.len() && mentions(#[trigger] parts[i], name) {
            let i = choose|i: int| 0 <= i < parts.len() && mentions(#[trigger] parts[i], name);
            if i < parts.len() - 1 {
                assert(mentions(front[i], name));
            }
        }
    }
}

/// Binds the placeholder of a comparison, if it has one.
fn bind_filter(f: &PredicateFilter, params: &OrderedMap<String, ColumnValue>) -> (r: Result<
    PredicateFilter,
    BindError,
>)
    ensures
        match bound_value(f.value@, params@) {
            Ok(v) => r is Ok && r->Ok_0.column@ == f.column@ && r->Ok_0.value@ == v,
            Err(e) => r is Err && r->Err_0@ == e,
        },
{
    match &f.value {
        ColumnValue::Param(name) => match params.get(name) {
            None => Err(BindError::MissingParam { name: name.clone() }),
            Some(v) => match v {
                ColumnValue::Param(_) => Err(BindError::NestedParam { name: name.clone() }),
                _ => Ok(PredicateFilter { column: f.column.clone(), value: v.clone() }),
            },
        },
        _ => Ok(f.clone()),
    }
}

/// Binds the placeholders of the parts.
fn bind_parts(parts: &Vec<PredicateExpr>, params: &OrderedMap<String, ColumnValue>) -> (r: Result<
    Vec<PredicateExpr>,
    BindError,
>)
    ensures
        match bound_parts(expr_views(parts@), params@) {
            Ok(b) => r is Ok && expr_views(r->Ok_0@) == b,
            Err(e) => r is Err && r->Err_0@ == e,
        },
    decreases parts@,
{
    let ghost views = expr_views(parts@);
    let mut out: Vec<PredicateExpr> = Vec::new();
    let mut i: usize = 0;
    proof {
        lemma_expr_views(parts@);
        assert(views.take(0) =~= seq![]);
    }
    while i < parts.len()
        invariant
            i <= parts@.len(),
            views == expr_views(parts@),
            views.len() == parts@.len(),
            forall|k: int| 0 <= k < parts@.len() ==> #[trigger] views[k] == expr_view(parts@[k]),
            bound_parts(views.take(i as int), params@) == Ok::<Seq<ExprView>, BindErrorView>(
                expr_views(out@),
            ),
        decreases parts@.len() - i,
    {
        proof {
            assert(views.take(i + 1).drop_last() =~= views.take(i as int));
            assert(views.take(i + 1).last() == views[i as int]);
        }
        match bind_expr(&parts[i], params) {
            Ok(b) => {
                let ghost before = out@;
                out.push(b);
                proof {
                    lemma_expr_views(before);
                    lemma_expr_views(out@);
                    assert(expr_views(out@) =~= expr_views(before).push(expr_view(b)));
                }
            },
            Err(e) => {
                proof {
                    lemma_bound_parts_prefix(views, params@, i + 1);
                }
                return Err(e);
            },
        }
        i += 1;
    }
    assert(views.take(i as int) =~= views);
    Ok(out)
}

/// Binds the placeholders of a predicate.
fn bind_expr(e: &PredicateExpr, params: &OrderedMap<String, ColumnValue>) -> (r: Result<
    PredicateExpr,
    BindError,
>)
    ensures
        match bound(expr_view(*e), params@) {
            Ok(b) => r is Ok && expr_view(r->Ok_0) == b,
            Err(x) => r is Err && r->Err_0@ == x,
        },
    decreases *e,
{
    match e {
        PredicateExpr::Any => Ok(PredicateExpr::Any),
        PredicateExpr::Eq(f) => match bind_filter(f, params) {
            Ok(b) => Ok(PredicateExpr::Eq(b)),
            Err(x) => Err(x),
        },
        PredicateExpr::Ne(f) => match bind_filter(f, params) {
            Ok(b) => Ok(PredicateExpr::Ne(b)),
            Err(x) => Err(x),
        },
        PredicateExpr::Lt(f) => match bind_filter(f, params) {
            Ok(b) => Ok(PredicateExpr::Lt(b)),
            Err(x) => Err(x),
        },
        PredicateExpr::Gt(f) => match bind_filter(f, params) {
            Ok(b) => Ok(PredicateExpr::Gt(b)),
            Err(x) => Err(x),
        },
        PredicateExpr::Le(f) => match bind_filter(f, params) {
            Ok(b) => Ok(PredicateExpr::Le(b)),
            Err(x) => Err(x),
        },
        PredicateExpr::Ge(f) => match bind_filter(f, params) {
            Ok(b) => Ok(PredicateExpr::Ge(b)),
            Err(x) => Err(x),
        },
        PredicateExpr::And(parts) => match bind_parts(parts, params) {
            Ok(b) => Ok(PredicateExpr::And(b)),
            Err(x) => Err(x),
        },
        PredicateExpr::Or(parts) => match bind_parts(parts, params) {
            Ok(b) => Ok(PredicateExpr::Or(b)),
            Err(x) => Err(x),
        },
        PredicateExpr::Not(inner) => match bind_expr(&**inner, params) {
            Ok(b) => Ok(PredicateExpr::Not(Box::new(b))),
            Err(x) => Err(x),
        },
    }
}

/// Whether a value is the placeholder `name`.
fn is_placeholder(v: &ColumnValue, name: &String) -> (r: bool)
    ensures
        r == (v@ == ValueView::Param(name@)),
{
    match v {
        ColumnValue::Param(s) => *s == *name,
        _ => false,
    }
}

/// Whether some part holds the placeholder `name`.
fn part_uses(parts: &Vec<PredicateExpr>, name: &String) -> (r: bool)
    ensures
        r == some_mentions(expr_views(parts@), name@),
    decreases parts@,
{
    let ghost views = expr_views(parts@);
    proof {
        lemma_expr_views(parts@);
        lemma_some_mentions(views, name@);
    }
    let mut i: usize = 0;
    while i < parts.len()
        invariant
            i <= parts@.len(),
            views.len() == parts@.len(),
            forall|k: int| 0 <= k < parts@.len() ==> #[trigger] views[k] == expr_view(parts@[k]),
            some_mentions(views, name@) <==> (exists|k: int|
                0 <= k < views.len() && mentions(#[trigger] views[k], name@)),
            views == expr_views(parts@),
            forall|k: int| 0 <= k < i ==> !mentions(#[trigger] views[k], name@),
        decreases parts@.len() - i,
    {
        assert(views[i as int] == expr_view(parts@[i as int]));
        if uses(&parts[i], name) {
            return true;
        }
        i += 1;
    }
    false
}

/// Whether the predicate holds the placeholder `name`.
fn uses(e: &PredicateExpr, name: &String) -> (r: bool)
    ensures
        r == mentions(expr_view(*e), name@),
    decreases *e,
{
    match e {
        PredicateExpr::Any => false,
        PredicateExpr::Eq(f) => is_placeholder(&f.value, name),
        PredicateExpr::Ne(f) => is_placeholder(&f.value, name),
        PredicateExpr::Lt(f) => is_placeholder(&f.value, name),
        PredicateExpr::Gt(f) => is_placeholder(&f.value, name),
        PredicateExpr::Le(f) => is_placeholder(&f.value, name),
        PredicateExpr::Ge(f) => is_placeholder(&f.value, name),
        PredicateExpr::And(parts) => part_uses(parts, name),
        PredicateExpr::Or(parts) => part_uses(parts, name),
        PredicateExpr::Not(inner) => uses(&**inner, name),
    }
}

/// Replaces every placeholder of `expr` by its value. Every placeholder needs a
/// value that is none itself, and every value a placeholder; where several values
/// have none, the first by name is reported.
pub fn bind_params(expr: &PredicateExpr, params: &OrderedMap<String, ColumnValue>) -> (r: Result<
    PredicateExpr,
    BindError,
>)
    ensures
        match bound(expr@, params@) {
            Err(e) => r is Err && r->Err_0@ == e,
            Ok(b) => {
                &&& r is Ok <==> (forall|name: Seq<char>|
                    params@.contains_key(name) ==> #[trigger] mentions(expr@, name))
                &&& r is Ok ==> r->Ok_0@ == b
                &&& r is Err ==> (r->Err_0 is ExtraParam && {
                    let name = r->Err_0->ExtraParam_name@;
                    &&& params@.contains_key(name)
                    &&& !mentions(expr@, name)
                    &&& forall|other: Seq<char>|
                        params@.contains_key(other) && crate::text::lex_lt(other, name)
                            ==> #[trigger] mentions(expr@, other)
                })
            },
        },
{
    let b = match bind_expr(expr, params) {
        Ok(b) => b,
        Err(e) => {
            return Err(e);
        },
    };
    let entries = params.entries();
    let mut i: usize = 0;
    while i < entries.len()
        invariant
            i <= entries@.len(),
            crate::ordered::ascending(entries@),
            crate::ordered::entries_map(entries@) == params@,
            bound(expr@, params@) == Ok::<ExprView, BindErrorView>(b@),
            forall|k: int|
                0 <= k < i ==> mentions(expr@, (#[trigger] entries@[k]).0@),
        decreases entries@.len() - i,
    {
        if !uses(expr, &entries[i].0) {
            proof {
                let name = entries@[i as int].0@;
                lemma_entry(entries@, i as int);
                assert(params@.contains_key(name));
                assert forall|other: Seq<char>|
                    params@.contains_key(other) && crate::text::lex_lt(
                        other,
                        name,
                    ) implies #[trigger] mentions(expr@, other) by {
                    assert(has_name(entries@, other));
                    let k = choose|k: int|
                        0 <= k < entries@.len() && (#[trigger] entries@[k]).0.name() == other;
                    crate::text::lemma_lex_asymmetric(other, name);
                    if k > i {
                        assert(<String as crate::ordered::Key>::before(
                            entries@[i as int].0.name(),
                            entries@[k].0.name(),
                        ));
                    }
                    assert(k < i);
                    assert(mentions(expr@, entries@[k].0@));
                }
            }
            return Err(BindError::ExtraParam { name: entries[i].0.clone() });
        }
        i += 1;
    }
    proof {
        assert forall|name: Seq<char>| params@.contains_key(name) implies #[trigger] mentions(
            expr@,
            name,
        ) by {
            assert(has_name(entries@, name));
            let k = choose|k: int|
                0 <= k < entries@.len() && (#[trigger] entries@[k]).0.name() == name;
            assert(mentions(expr@, entries@[k].0@));
        }
    }
    Ok(b)
}

// ---- laws ----

/// A bound predicate holds no placeholder.
pub proof fn law_bound_is_closed(e: ExprView, params: Map<Seq<char>, ColumnValue>)
    requires
        bound(e, params) is Ok,
    ensures
        closed_expr(bound(e, params)->Ok_0),
    decreases e,
{
    let r = bound(e, params)->Ok_0;
    match e {
        ExprView::Any => {
            assert forall|name: Seq<char>| !#[trigger] mentions(r, name) by {}
        },
        ExprView::Leaf(_, _, _) => {
            assert forall|name: Seq<char>| !#[trigger] mentions(r, name) by {}
        },
        ExprView::And(parts) => {
            lemma_bound_parts_closed(parts, params);
            assert forall|name: Seq<char>| !#[trigger] mentions(r, name) by {
                assert(!some_mentions(bound_parts(parts, params)->Ok_0, name));
            }
        },
        ExprView::Or(parts) => {
            lemma_bound_parts_closed(parts, params);
            assert forall|name: Seq<char>| !#[trigger] mentions(r, name) by {
                assert(!some_mentions(bound_parts(parts, params)->Ok_0, name));
            }
        },
        ExprView::Not(inner) => {
            law_bound_is_closed(*inner, params);
            assert forall|name: Seq<char>| !#[trigger] mentions(r, name) by {
                assert(!mentions(bound(*inner, params)->Ok_0, name));
            }
        },
    }
}

proof fn lemma_bound_parts_closed(parts: Seq<ExprView>, params: Map<Seq<char>, ColumnValue>)
    requires
        bound_parts(parts, params) is Ok,
    ensures
        forall|name: Seq<char>| !#[trigger] some_mentions(bound_parts(parts, params)->Ok_0, name),
    decreases parts,
{
    if parts.len() > 0 {
        lemma_bound_parts_closed(parts.drop_last(), params);
        law_bound_is_closed(parts.last(), params);
        let front = bound_parts(parts.drop_last(), params)->Ok_0;
        let b = bound(parts.last(), params)->Ok_0;
        assert forall|name: Seq<char>| !#[trigger] some_mentions(front.push(b), name) by {
            assert(front.push(b).drop_last() =~= front);
            assert(!mentions(b, name));
            assert(!some_mentions(front, name));
        }
    }
}

/// A predicate without placeholders is bound as it is.
pub proof fn law_closed_binds_to_itself(e: ExprView, params: Map<Seq<char>, ColumnValue>)
    requires
        closed_expr(e),
    ensures
        bound(e, params) == Ok::<ExprView, BindErrorView>(e),
    decreases e,
{
    match e {
        ExprView::Any => {},
        ExprView::Leaf(_, _, v) => {
            if v is Param {
                assert(mentions(e, v->Param_0));
            }
        },
        ExprView::And(parts) => {
            assert forall|name: Seq<char>| !#[trigger] some_mentions(parts, name) by {
                assert(!mentions(e, name));
            }
            lemma_closed_parts(parts, params);
        },
        ExprView::Or(parts) => {
            assert forall|name: Seq<char>| !#[trigger] some_mentions(parts, name) by {
                assert(!mentions(e, name));
            }
            lemma_closed_parts(parts, params);
        },
        ExprView::Not(inner) => {
            assert forall|name: Seq<char>| !#[trigger] mentions(*inner, name) by {
                assert(!mentions(e, name));
            }
            law_closed_binds_to_itself(*inner, params);
        },
    }
}

proof fn lemma_closed_parts(parts: Seq<ExprView>, params: Map<Seq<char>, ColumnValue>)
    requires
        forall|name: Seq<char>| !#[trigger] some_mentions(parts, name),
    ensures
        bound_parts(parts, params) == Ok::<Seq<ExprView>, BindErrorView>(parts),
    decreases parts,
{
    if parts.len() > 0 {
        assert forall|name: Seq<char>| !#[trigger] some_mentions(parts.drop_last(), name) by {
            assert(!some_mentions(parts, name));
        }
        assert forall|name: Seq<char>| !#[trigger] mentions(parts.last(), name) by {
            assert(!some_mentions(parts, name));
        }
        lemma_closed_parts(parts.drop_last(), params);
        law_closed_binds_to_itself(parts.last(), params);
        assert(parts.drop_last().push(parts.last()) =~= parts);
    } else {
        assert(parts =~= seq![]);
    }
}

/// How deep a predicate nests.
pub open spec fn expr_depth(e: ExprView) -> nat
    decreases e,
{
    match e {
        ExprView::Any => 0,
        ExprView::Leaf(_, _, _) => 0,
        ExprView::And(parts) => 1 + parts_depth(parts),
        ExprView::Or(parts) => 1 + parts_depth(parts),
        ExprView::Not(inner) => 1 + expr_depth(*inner),
    }
}

/// How deep the deepest part nests.
pub open spec fn parts_depth(parts: Seq<ExprView>) -> nat
    decreases parts,
{
    if parts.len() == 0 {
        0
    } else {
        let front = parts_depth(parts.drop_last());
        let last = expr_depth(parts.last());
        if front >= last {
            front
        } else {
            last
        }
    }
}

proof fn lemma_depth_front(e: ExprView, parts: Seq<ExprView>)
    ensures
        parts_depth(seq![e] + parts) <= (if expr_depth(e) >= parts_depth(parts) {
            expr_depth(e)
        } else {
            parts_depth(parts)
        }),
    decreases parts.len(),
{
    let all = seq![e] + parts;
    if parts.len() == 0 {
        assert(all.drop_last() =~= seq![]);
        assert(parts_depth(all.drop_last()) == 0);
        assert(all.last() == e);
    } else {
        assert(all.drop_last() =~= seq![e] + parts.drop_last());
        assert(all.last() == parts.last());
        lemma_depth_front(e, parts.drop_last());
    }
}

proof fn lemma_atom_bounds(t: Seq<TokenView>, room: nat)
    ensures
        atom(t, room) matches Ok(p) ==> p.rest.len() < t.len() && expr_depth(p.expr) <= 3 * room,
    decreases t.len(), 0nat,
{
    if t.len() > 0 && t[0] is LParen && room > 0 {
        lemma_or_bounds(t.skip(1), (room - 1) as nat);
    }
}

proof fn lemma_not_bounds(t: Seq<TokenView>, room: nat)
    ensures
        not_expr(t, room) matches Ok(p) ==> p.rest.len() < t.len() && expr_depth(p.expr) <= 3
            * room,
    decreases t.len(), 1nat,
{
    if t.len() > 0 && t[0] is Not {
        if room > 0 {
            lemma_not_bounds(t.skip(1), (room - 1) as nat);
        }
    } else {
        lemma_atom_bounds(t, room);
    }
}

proof fn lemma_and_parts_bounds(t: Seq<TokenView>, room: nat)
    ensures
        and_parts(t, room) matches Ok(p) ==> p.rest.len() < t.len() && p.parts.len() > 0
            && parts_depth(p.parts) <= 3 * room,
    decreases t.len(), 2nat,
{
    lemma_not_bounds(t, room);
    match not_expr(t, room) {
        Err(_) => {},
        Ok(p) => {
            lemma_depth_front(p.expr, seq![]);
            assert(seq![p.expr] + seq![] =~= seq![p.expr]);
            if p.rest.len() > 0 && p.rest[0] is And {
                lemma_and_parts_bounds(p.rest.skip(1), room);
                match and_parts(p.rest.skip(1), room) {
                    Err(_) => {},
                    Ok(more) => {
                        lemma_depth_front(p.expr, more.parts);
                    },
                }
            }
        },
    }
}

proof fn lemma_and_bounds(t: Seq<TokenView>, room: nat)
    ensures
        and_expr(t, room) matches Ok(p) ==> p.rest.len() < t.len() && expr_depth(p.expr) <= 3
            * room + 1,
    decreases t.len(), 3nat,
{
    lemma_and_parts_bounds(t, room);
    match and_parts(t, room) {
        Err(_) => {},
        Ok(p) => {
            if p.parts.len() == 1 {
                assert(p.parts.drop_last() =~= seq![]);
            }
        },
    }
}

proof fn lemma_or_parts_bounds(t: Seq<TokenView>, room: nat)
    ensures
        or_parts(t, room) matches Ok(p) ==> p.rest.len() < t.len() && p.parts.len() > 0
            && parts_depth(p.parts) <= 3 * room + 1,
    decreases t.len(), 4nat,
{
    lemma_and_bounds(t, room);
    match and_expr(t, room) {
        Err(_) => {},
        Ok(p) => {
            lemma_depth_front(p.expr, seq![]);
            assert(seq![p.expr] + seq![] =~= seq![p.expr]);
            if p.rest.len() > 0 && p.rest[0] is Or {
                lemma_or_parts_bounds(p.rest.skip(1), room);
                match or_parts(p.rest.skip(1), room) {
                    Err(_) => {},
                    Ok(more) => {
                        lemma_depth_front(p.expr, more.parts);
                    },
                }
            }
        },
    }
}

proof fn lemma_or_bounds(t: Seq<TokenView>, room: nat)
    ensures
        or_expr(t, room) matches Ok(p) ==> p.rest.len() < t.len() && expr_depth(p.expr) <= 3
            * room + 2,
    decreases t.len(), 5nat,
{
    lemma_or_parts_bounds(t, room);
    match or_parts(t, room) {
        Err(_) => {},
        Ok(p) => {
            if p.parts.len() == 1 {
                assert(p.parts.drop_last() =~= seq![]);
            }
        },
    }
}

/// Reading a predicate always leaves fewer tokens than there were.
pub proof fn law_reading_consumes(t: Seq<TokenView>, room: nat)
    ensures
        or_expr(t, room) matches Ok(p) ==> p.rest.len() < t.len(),
{
    lemma_or_bounds(t, room);
}

/// However a predicate is written, it nests no deeper than three levels for each
/// bracket or negation that is allowed, and two more.
pub proof fn law_depth_is_bounded(s: Seq<char>, floats: Map<Seq<char>, Float>)
    ensures
        parsed(s, floats) matches Ok(e) ==> expr_depth(e) <= 3 * MAX_DEPTH + 2,
{
    match tokens_of(s, floats) {
        Ok(t) => {
            lemma_or_bounds(t, MAX_DEPTH as nat);
        },
        Err(_) => {},
    }
}

/// Blanks between two tokens only separate them: the predicate that a text writes does
/// not depend on how many there are, as long as the text is not too long.
pub proof fn law_spaces_are_ignored(
    front: Seq<char>,
    gap: Seq<char>,
    other_gap: Seq<char>,
    back: Seq<char>,
    floats: Map<Seq<char>, Float>,
)
    requires
        tokens_of(front, floats) is Ok,
        gap.len() > 0,
        other_gap.len() > 0,
        forall|i: int| 0 <= i < gap.len() ==> blank(#[trigger] gap[i]),
        forall|i: int| 0 <= i < other_gap.len() ==> blank(#[trigger] other_gap[i]),
        front.len() + gap.len() + back.len() <= MAX_LENGTH,
        front.len() + other_gap.len() + back.len() <= MAX_LENGTH,
    ensures
        parsed(front + (gap + back), floats) == parsed(front + (other_gap + back), floats),
{
    lemma_blanks(gap, back, floats);
    lemma_blanks(other_gap, back, floats);
    lemma_tokens_join(front, gap + back, floats);
    lemma_tokens_join(front, other_gap + back, floats);
}

pub(crate) proof fn lemma_blanks(gap: Seq<char>, back: Seq<char>, floats: Map<Seq<char>, Float>)
    requires
        forall|i: int| 0 <= i < gap.len() ==> blank(#[trigger] gap[i]),
    ensures
        tokens_of(gap + back, floats) == tokens_of(back, floats),
    decreases gap.len(),
{
    if gap.len() > 0 {
        assert((gap + back)[0] == gap[0]);
        assert((gap + back).skip(1) =~= gap.skip(1) + back);
        lemma_blanks(gap.skip(1), back, floats);
    } else {
        assert(gap + back =~= back);
    }
}

/// The tokens of a text go before those of what stands behind a blank.
pub(crate) proof fn lemma_tokens_join(front: Seq<char>, rest: Seq<char>, floats: Map<Seq<char>, Float>)
    requires
        tokens_of(front, floats) is Ok,
        rest.len() > 0,
        blank(rest[0]),
    ensures
        tokens_of(front + rest, floats) == after(
            tokens_of(front, floats)->Ok_0,
            tokens_of(rest, floats),
        ),
    decreases front.len(),
{
    let s = front + rest;
    if front.len() == 0 {
        assert(s =~= rest);
        if tokens_of(rest, floats) is Ok {
            let t = tokens_of(rest, floats)->Ok_0;
            assert(Seq::<TokenView>::empty() + t =~= t);
        }
    } else {
        lemma_step_before_blank(front, rest, Dialect::Predicate);
        match step(front, Dialect::Predicate) {
            StepView::Blank => {
                assert(s.skip(1) =~= front.skip(1) + rest);
                lemma_tokens_join(front.skip(1), rest, floats);
            },
            StepView::Item(item, n) => {
                assert(s.skip(n as int) =~= front.skip(n as int) + rest);
                lemma_tokens_join(front.skip(n as int), rest, floats);
                let t = item_token(item, floats)->Ok_0;
                let u = tokens_of(front.skip(n as int), floats)->Ok_0;
                if tokens_of(rest, floats) is Ok {
                    let v = tokens_of(rest, floats)->Ok_0;
                    assert(seq![t] + (u + v) =~= (seq![t] + u) + v);
                }
            },
            StepView::Fault(_) => {},
        }
    }
}

} // verus!
