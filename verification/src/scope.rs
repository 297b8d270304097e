//! Scopes: which rows of a table an account sees, written as comparisons of columns
//! with constants and with the claims of the account.
//!
//! ```text
//! scope      := comparison ( "AND" comparison )*
//! comparison := IDENT OP ( "claims." IDENT | literal )
//! OP         := "=" | "!=" | "<" | ">" | "<=" | ">="
//! ```

use vstd::prelude::*;
use crate::lexer::{
    blank, lemma_step_before_blank, read_step, step, Dialect, Fault, Lexeme, LexemeView, Step,
    StepView,
};
use crate::numbers::{parse_signed, read_signed, signed_decimal, signed_decimal_text};
use crate::ordered::{pairs, Key, OrderedMap};
use crate::predicate::{
    all_hold, expr_views, holds, leaf_holds, lemma_expr_views, lemma_parts, ColumnValue, ExprView,
    Float, FloatReadings, FloatView, PredicateExpr, RowView, ScopeOp, ValueView,
};
use crate::predicate_compile::{leaf, op_name, word_value};
use crate::principal::{claim_value, Principal};
use crate::sorting::{
    in_order, key_names, lemma_order_of_same_keys, lemma_same_keys, order_by, order_of, positions,
};
use crate::text::{
    chars_of, debug_quoted, lex_lt, quoted, same_text, slice_text, string_of, text_views, upper,
    upper_chars,
};

verus! {

/// Why a text is no scope.
#[derive(Debug, Clone, PartialEq, Eq)]
pub enum ScopeError {
    /// There is nothing in it.
    Empty,
    UnexpectedToken(String),
    /// Something that predicates have and scopes do not.
    Unsupported(String),
    MissingOperator(String),
    MissingValue(String),
}

/// Why a text is no scope, by its values.
pub enum ScopeErrorView {
    Empty,
    UnexpectedToken(Seq<char>),
    Unsupported(Seq<char>),
    MissingOperator(Seq<char>),
    MissingValue(Seq<char>),
}

impl View for ScopeError {
    type V = ScopeErrorView;

    open spec fn view(&self) -> ScopeErrorView {
        match *self {
            ScopeError::Empty => ScopeErrorView::Empty,
            ScopeError::UnexpectedToken(s) => ScopeErrorView::UnexpectedToken(s@),
            ScopeError::Unsupported(s) => ScopeErrorView::Unsupported(s@),
            ScopeError::MissingOperator(s) => ScopeErrorView::MissingOperator(s@),
            ScopeError::MissingValue(s) => ScopeErrorView::MissingValue(s@),
        }
    }
}

/// What a column is compared with.
#[derive(Debug, Clone, PartialEq, Eq)]
pub enum ScopeValue {
    /// A claim of the account.
    Claim(String),
    /// A constant.
    Literal(ColumnValue),
}

/// What a column is compared with, by its values.
pub enum ScopeValueView {
    Claim(Seq<char>),
    Literal(ValueView),
}

impl View for ScopeValue {
    type V = ScopeValueView;

    open spec fn view(&self) -> ScopeValueView {
        match *self {
            ScopeValue::Claim(s) => ScopeValueView::Claim(s@),
            ScopeValue::Literal(v) => ScopeValueView::Literal(v@),
        }
    }
}

/// A comparison of a scope.
#[derive(Debug, Clone, PartialEq, Eq)]
pub struct ScopeTerm {
    pub column: String,
    pub op: ScopeOp,
    pub value: ScopeValue,
}

/// A comparison of a scope, by its values.
pub struct ScopeTermView {
    pub column: Seq<char>,
    pub op: ScopeOp,
    pub value: ScopeValueView,
}

impl View for ScopeTerm {
    type V = ScopeTermView;

    open spec fn view(&self) -> ScopeTermView {
        ScopeTermView { column: self.column@, op: self.op, value: self.value@ }
    }
}

/// A scope: comparisons that must all hold.
#[derive(Debug, Clone, PartialEq, Eq)]
pub struct ScopeExpr {
    pub terms: Vec<ScopeTerm>,
}

impl Default for ScopeExpr {
    /// No comparisons: a scope of every row.
    fn default() -> (r: Self)
        ensures
            r.terms@.len() == 0,
    {
        ScopeExpr { terms: Vec::new() }
    }
}

impl View for ScopeExpr {
    type V = Seq<ScopeTermView>;

    open spec fn view(&self) -> Seq<ScopeTermView> {
        Seq::new(self.terms@.len(), |i: int| self.terms@[i]@)
    }
}

// ---- tokens ----

/// A token of a scope.
enum Token {
    Ident(String),
    Claim(String),
    NumberInt(i64),
    NumberFloat(Float),
    Text(String),
    Op(ScopeOp),
    And,
    Or,
    Not,
    LParen,
    RParen,
}

/// A token of a scope, by its values.
pub enum ScopeToken {
    Ident(Seq<char>),
    Claim(Seq<char>),
    NumberInt(i64),
    NumberFloat(FloatView),
    Text(Seq<char>),
    Op(ScopeOp),
    And,
    Or,
    Not,
    LParen,
    RParen,
}

impl Token {
    spec fn view(&self) -> ScopeToken {
        match *self {
            Token::Ident(s) => ScopeToken::Ident(s@),
            Token::Claim(s) => ScopeToken::Claim(s@),
            Token::NumberInt(n) => ScopeToken::NumberInt(n),
            Token::NumberFloat(f) => ScopeToken::NumberFloat(f@),
            Token::Text(s) => ScopeToken::Text(s@),
            Token::Op(op) => ScopeToken::Op(op),
            Token::And => ScopeToken::And,
            Token::Or => ScopeToken::Or,
            Token::Not => ScopeToken::Not,
            Token::LParen => ScopeToken::LParen,
            Token::RParen => ScopeToken::RParen,
        }
    }
}

spec fn token_views(s: Seq<Token>) -> Seq<ScopeToken> {
    Seq::new(s.len(), |i: int| s[i].view())
}

/// How a token is shown in a message.
pub open spec fn token_text(t: ScopeToken) -> Seq<char> {
    match t {
        ScopeToken::Ident(s) => "Ident("@ + debug_quoted(s) + ")"@,
        ScopeToken::Claim(s) => "Claim("@ + debug_quoted(s) + ")"@,
        ScopeToken::NumberInt(n) => "NumberInt("@ + signed_decimal(n as int) + ")"@,
        ScopeToken::NumberFloat(f) => "NumberFloat("@ + f.debug + ")"@,
        ScopeToken::Text(s) => "Text("@ + debug_quoted(s) + ")"@,
        ScopeToken::Op(op) => "Op("@ + debug_quoted(op_name(op)) + ")"@,
        ScopeToken::And => "And"@,
        ScopeToken::Or => "Or"@,
        ScopeToken::Not => "Not"@,
        ScopeToken::LParen => "LParen"@,
        ScopeToken::RParen => "RParen"@,
    }
}

/// The error that a lexical fault is.
pub open spec fn fault_error(f: Fault) -> ScopeErrorView {
    match f {
        Fault::Unterminated => ScopeErrorView::UnexpectedToken("<unterminated string>"@),
        Fault::BareColon => ScopeErrorView::UnexpectedToken(":"@),
        Fault::BareBang => ScopeErrorView::UnexpectedToken("!"@),
        Fault::Stray(c) => ScopeErrorView::UnexpectedToken(seq![c]),
    }
}

/// The claim that a dotted word names: `claims.`, then a name without a dot.
pub open spec fn claim_of_word(word: Seq<char>) -> Option<Seq<char>> {
    if word.len() > 7 && word.take(7) == "claims."@ && !word.skip(7).contains('.') {
        Some(word.skip(7))
    } else {
        None
    }
}

/// The token of a word. A word with a dot must name a claim.
pub open spec fn word_token(word: Seq<char>) -> Result<ScopeToken, ScopeErrorView> {
    if upper(word) == "AND"@ {
        Ok(ScopeToken::And)
    } else if upper(word) == "OR"@ {
        Ok(ScopeToken::Or)
    } else if upper(word) == "NOT"@ {
        Ok(ScopeToken::Not)
    } else if upper(word) == "TRUE"@ {
        Ok(ScopeToken::Text("true"@))
    } else if upper(word) == "FALSE"@ {
        Ok(ScopeToken::Text("false"@))
    } else if word.contains('.') {
        match claim_of_word(word) {
            Some(field) => Ok(ScopeToken::Claim(field)),
            None => Err(ScopeErrorView::UnexpectedToken(word)),
        }
    } else {
        Ok(ScopeToken::Ident(word))
    }
}

/// The token of a lexical item.
pub open spec fn item_token(item: LexemeView, floats: Map<Seq<char>, Float>) -> Result<
    ScopeToken,
    ScopeErrorView,
> {
    match item {
        LexemeView::Word(s) => word_token(s),
        LexemeView::Whole(s) => match read_signed(s) {
            Some(n) => Ok(ScopeToken::NumberInt(n as i64)),
            None => Err(ScopeErrorView::UnexpectedToken(s)),
        },
        LexemeView::Decimal(s) => if floats.contains_key(s) {
            Ok(ScopeToken::NumberFloat(floats[s]@))
        } else {
            Err(ScopeErrorView::UnexpectedToken(s))
        },
        LexemeView::Quoted(s) => Ok(ScopeToken::Text(s)),
        LexemeView::Placeholder(_) => Err(ScopeErrorView::UnexpectedToken(":"@)),
        LexemeView::Op(op) => Ok(ScopeToken::Op(op)),
        LexemeView::Open => Ok(ScopeToken::LParen),
        LexemeView::Close => Ok(ScopeToken::RParen),
    }
}

/// `t` before the tokens of `rest`, if those are any.
pub open spec fn after(
    t: Seq<ScopeToken>,
    rest: Result<Seq<ScopeToken>, ScopeErrorView>,
) -> Result<Seq<ScopeToken>, ScopeErrorView> {
    match rest {
        Ok(s) => Ok(t + s),
        Err(e) => Err(e),
    }
}

/// The tokens of a text.
pub open spec fn tokens_of(s: Seq<char>, floats: Map<Seq<char>, Float>) -> Result<
    Seq<ScopeToken>,
    ScopeErrorView,
>
    decreases s.len(),
{
    if s.len() == 0 {
        Ok(seq![])
    } else {
        match step(s, Dialect::Scope) {
            StepView::Blank => tokens_of(s.skip(1), floats),
            StepView::Fault(f) => Err(fault_error(f)),
            StepView::Item(item, n) => match item_token(item, floats) {
                Err(e) => Err(e),
                Ok(t) => if 0 < n <= s.len() {
                    after(seq![t], tokens_of(s.skip(n as int), floats))
                } else {
                    Ok(seq![t])
                },
            },
        }
    }
}

/// Whether `chars` has a dot at `from` or after it.
fn has_dot(chars: &Vec<char>, from: usize) -> (r: bool)
    requires
        from <= chars@.len(),
    ensures
        r == chars@.skip(from as int).contains('.'),
{
    let ghost s = chars@.skip(from as int);
    let mut i: usize = from;
    while i < chars.len()
        invariant
            from <= i <= chars@.len(),
            s == chars@.skip(from as int),
            forall|k: int| 0 <= k < i - from ==> #[trigger] s[k] != '.',
        decreases chars@.len() - i,
    {
        assert(s[i - from] == chars@[i as int]);
        if chars[i] == '.' {
            return true;
        }
        i += 1;
    }
    false
}

/// The token of a word.
fn token_of_word(word: String) -> (r: Result<Token, ScopeError>)
    ensures
        match word_token(word@) {
            Ok(t) => r is Ok && r->Ok_0.view() == t,
            Err(e) => r is Err && r->Err_0@ == e,
        },
{
    let chars = chars_of(word.as_str());
    let big = upper_chars(&chars);
    let key = string_of(big.as_slice());
    if same_text(key.as_str(), "AND") {
        Ok(Token::And)
    } else if same_text(key.as_str(), "OR") {
        Ok(Token::Or)
    } else if same_text(key.as_str(), "NOT") {
        Ok(Token::Not)
    } else if same_text(key.as_str(), "TRUE") {
        Ok(Token::Text("true".to_owned()))
    } else if same_text(key.as_str(), "FALSE") {
        Ok(Token::Text("false".to_owned()))
    } else {
        assert(chars@.skip(0) =~= chars@);
        if has_dot(&chars, 0) {
            if chars.len() > 7 {
                let head = slice_text(&chars, 0, 7);
                assert(chars@.subrange(0, 7) =~= chars@.take(7));
                if same_text(head.as_str(), "claims.") && !has_dot(&chars, 7) {
                    let field = slice_text(&chars, 7, chars.len());
                    assert(chars@.subrange(7, chars@.len() as int) =~= chars@.skip(7));
                    return Ok(Token::Claim(field));
                }
            }
            Err(ScopeError::UnexpectedToken(word))
        } else {
            Ok(Token::Ident(word))
        }
    }
}

/// The token of a lexical item.
fn token_of_item(item: Lexeme, floats: &FloatReadings) -> (r: Result<Token, ScopeError>)
    ensures
        match item_token(item@, floats.readings@) {
            Ok(t) => r is Ok && r->Ok_0.view() == t,
            Err(e) => r is Err && r->Err_0@ == e,
        },
{
    match item {
        Lexeme::Word(s) => token_of_word(s),
        Lexeme::Whole(s) => {
            let chars = chars_of(s.as_str());
            match parse_signed(&chars) {
                Some(n) => Ok(Token::NumberInt(n)),
                None => Err(ScopeError::UnexpectedToken(s)),
            }
        },
        Lexeme::Decimal(s) => match floats.readings.get(&s) {
            Some(f) => Ok(Token::NumberFloat(f.clone())),
            None => Err(ScopeError::UnexpectedToken(s)),
        },
        Lexeme::Quoted(s) => Ok(Token::Text(s)),
        Lexeme::Placeholder(_) => Err(ScopeError::UnexpectedToken(":".to_owned())),
        Lexeme::Op(op) => Ok(Token::Op(op)),
        Lexeme::Open => Ok(Token::LParen),
        Lexeme::Close => Ok(Token::RParen),
    }
}

/// The error that a lexical fault is.
fn error_of_fault(f: Fault) -> (r: ScopeError)
    ensures
        r@ == fault_error(f),
{
    match f {
        Fault::Unterminated => ScopeError::UnexpectedToken("<unterminated string>".to_owned()),
        Fault::BareColon => ScopeError::UnexpectedToken(":".to_owned()),
        Fault::BareBang => ScopeError::UnexpectedToken("!".to_owned()),
        Fault::Stray(c) => {
            let mut found: String = String::new();
            found.push(c);
            assert(found@ =~= seq![c]);
            ScopeError::UnexpectedToken(found)
        },
    }
}

/// The tokens of a text.
fn tokenize(input: &str, floats: &FloatReadings) -> (r: Result<Vec<Token>, ScopeError>)
    ensures
        match tokens_of(input@, floats.readings@) {
            Ok(t) => r is Ok && token_views(r->Ok_0@) == t,
            Err(e) => r is Err && r->Err_0@ == e,
        },
{
    let chars = chars_of(input);
    let ghost whole = tokens_of(chars@, floats.readings@);
    let mut tokens: Vec<Token> = Vec::new();
    let mut i: usize = 0;
    proof {
        assert(chars@.skip(0) =~= chars@);
        assert(token_views(tokens@) =~= seq![]);
        if whole is Ok {
            assert(seq![] + whole->Ok_0 =~= whole->Ok_0);
        }
    }
    while i < chars.len()
        invariant
            i <= chars@.len(),
            chars@ == input@,
            whole == tokens_of(chars@, floats.readings@),
            whole == after(
                token_views(tokens@),
                tokens_of(chars@.skip(i as int), floats.readings@),
            ),
        decreases chars@.len() - i,
    {
        let ghost rest = chars@.skip(i as int);
        let ghost seen = token_views(tokens@);
        match read_step(&chars, i, Dialect::Scope) {
            Step::Blank => {
                assert(rest.skip(1) =~= chars@.skip(i + 1));
                i += 1;
            },
            Step::Fault(f) => {
                return Err(error_of_fault(f));
            },
            Step::Item(item, end) => {
                match token_of_item(item, floats) {
                    Err(e) => {
                        return Err(e);
                    },
                    Ok(t) => {
                        let ghost v = t.view();
                        tokens.push(t);
                        proof {
                            assert(token_views(tokens@) =~= seen.push(v));
                            assert(rest.skip(end - i) =~= chars@.skip(end as int));
                            match tokens_of(chars@.skip(end as int), floats.readings@) {
                                Ok(more) => {
                                    assert(seen + (seq![v] + more) =~= seen.push(v) + more);
                                },
                                Err(_) => {},
                            }
                        }
                    },
                }
                i = end;
            },
        }
    }
    proof {
        assert(chars@.skip(i as int) =~= seq![]);
        assert(token_views(tokens@) + seq![] =~= token_views(tokens@));
    }
    Ok(tokens)
}

// ---- the grammar ----

/// The spelling of a token that predicates have and scopes do not.
pub open spec fn unsupported(t: ScopeToken) -> Option<Seq<char>> {
    match t {
        ScopeToken::Or => Some("OR"@),
        ScopeToken::Not => Some("NOT"@),
        ScopeToken::LParen => Some("("@),
        ScopeToken::RParen => Some(")"@),
        _ => None,
    }
}

/// What a token stands for as a value.
pub open spec fn value_token(t: ScopeToken) -> Option<ScopeValueView> {
    match t {
        ScopeToken::Claim(s) => Some(ScopeValueView::Claim(s)),
        ScopeToken::NumberInt(n) => Some(ScopeValueView::Literal(ValueView::Number(n))),
        ScopeToken::NumberFloat(f) => Some(ScopeValueView::Literal(ValueView::Float(f))),
        ScopeToken::Text(s) => Some(ScopeValueView::Literal(word_value(s))),
        ScopeToken::Ident(s) => Some(ScopeValueView::Literal(word_value(s))),
        _ => None,
    }
}

/// The comparison that `t` begins with: three tokens.
pub open spec fn term_of(t: Seq<ScopeToken>) -> Result<ScopeTermView, ScopeErrorView> {
    if t.len() == 0 {
        Err(ScopeErrorView::UnexpectedToken("None"@))
    } else if unsupported(t[0]) is Some {
        Err(ScopeErrorView::Unsupported(unsupported(t[0])->0))
    } else if !(t[0] is Ident) {
        Err(ScopeErrorView::UnexpectedToken("Some("@ + token_text(t[0]) + ")"@))
    } else if t.len() == 1 {
        Err(ScopeErrorView::MissingOperator(t[0]->Ident_0))
    } else if !(t[1] is Op) {
        Err(ScopeErrorView::MissingOperator(token_text(t[1])))
    } else if t.len() == 2 {
        Err(ScopeErrorView::MissingValue(op_name(t[1]->Op_0)))
    } else if value_token(t[2]) is None {
        Err(ScopeErrorView::MissingValue(token_text(t[2])))
    } else {
        Ok(
            ScopeTermView {
                column: t[0]->Ident_0,
                op: t[1]->Op_0,
                value: value_token(t[2])->0,
            },
        )
    }
}

/// The comparisons that `t` is made of.
pub open spec fn terms_of(t: Seq<ScopeToken>) -> Result<Seq<ScopeTermView>, ScopeErrorView>
    decreases t.len(),
{
    match term_of(t) {
        Err(e) => Err(e),
        Ok(term) => if t.len() <= 3 {
            Ok(seq![term])
        } else if t[3] is And {
            match terms_of(t.skip(4)) {
                Err(e) => Err(e),
                Ok(more) => Ok(seq![term] + more),
            }
        } else if unsupported(t[3]) is Some {
            Err(ScopeErrorView::Unsupported(unsupported(t[3])->0))
        } else {
            Err(ScopeErrorView::UnexpectedToken(token_text(t[3])))
        },
    }
}

/// The scope that a text writes.
pub open spec fn parsed_scope(s: Seq<char>, floats: Map<Seq<char>, Float>) -> Result<
    Seq<ScopeTermView>,
    ScopeErrorView,
> {
    match tokens_of(s, floats) {
        Err(e) => Err(e),
        Ok(t) => if t.len() == 0 {
            Err(ScopeErrorView::Empty)
        } else {
            terms_of(t)
        },
    }
}

/// How a token is shown in a message.
fn text_of_token(t: &Token) -> (r: String)
    ensures
        r@ == token_text(t.view()),
{
    match t {
        Token::Ident(s) => {
            let mut out: String = "Ident(".to_owned();
            out.append(quoted(s.as_str()).as_str());
            out.append(")");
            out
        },
        Token::Claim(s) => {
            let mut out: String = "Claim(".to_owned();
            out.append(quoted(s.as_str()).as_str());
            out.append(")");
            out
        },
        Token::NumberInt(n) => {
            let mut out: String = "NumberInt(".to_owned();
            out.append(signed_decimal_text(*n).as_str());
            out.append(")");
            out
        },
        Token::NumberFloat(f) => {
            let mut out: String = "NumberFloat(".to_owned();
            out.append(f.debug.as_str());
            out.append(")");
            out
        },
        Token::Text(s) => {
            let mut out: String = "Text(".to_owned();
            out.append(quoted(s.as_str()).as_str());
            out.append(")");
            out
        },
        Token::Op(op) => {
            let mut out: String = "Op(".to_owned();
            out.append(quoted(op.as_str()).as_str());
            out.append(")");
            out
        },
        Token::And => "And".to_owned(),
        Token::Or => "Or".to_owned(),
        Token::Not => "Not".to_owned(),
        Token::LParen => "LParen".to_owned(),
        Token::RParen => "RParen".to_owned(),
    }
}

/// The spelling of a token that predicates have and scopes do not.
fn unsupported_token(t: &Token) -> (r: Option<&'static str>)
    ensures
        r is Some <==> unsupported(t.view()) is Some,
        r is Some ==> r->0@ == unsupported(t.view())->0,
{
    match t {
        Token::Or => Some("OR"),
        Token::Not => Some("NOT"),
        Token::LParen => Some("("),
        Token::RParen => Some(")"),
        _ => None,
    }
}

/// What a word stands for as a value.
fn classify_literal(s: &String) -> (r: ColumnValue)
    ensures
        r@ == word_value(s@),
{
    if same_text(s.as_str(), "true") {
        ColumnValue::Bool(true)
    } else if same_text(s.as_str(), "false") {
        ColumnValue::Bool(false)
    } else {
        ColumnValue::Text(s.clone())
    }
}

/// Reads the comparison that begins at `pos`.
fn parse_comparison(tokens: &Vec<Token>, pos: usize) -> (r: Result<ScopeTerm, ScopeError>)
    requires
        pos <= tokens@.len(),
    ensures
        match term_of(token_views(tokens@).skip(pos as int)) {
            Ok(t) => r is Ok && r->Ok_0@ == t && pos + 3 <= tokens@.len(),
            Err(e) => r is Err && r->Err_0@ == e,
        },
{
    let ghost t = token_views(tokens@).skip(pos as int);
    let total: usize = tokens.len();
    if pos >= total {
        return Err(ScopeError::UnexpectedToken("None".to_owned()));
    }
    assert(t[0] == tokens@[pos as int].view());
    match unsupported_token(&tokens[pos]) {
        Some(name) => {
            return Err(ScopeError::Unsupported(name.to_owned()));
        },
        None => {},
    }
    let column: String = match &tokens[pos] {
        Token::Ident(s) => s.clone(),
        other => {
            let mut found: String = "Some(".to_owned();
            found.append(text_of_token(other).as_str());
            found.append(")");
            return Err(ScopeError::UnexpectedToken(found));
        },
    };
    if pos + 1 >= total {
        return Err(ScopeError::MissingOperator(column));
    }
    assert(t[1] == tokens@[pos + 1].view());
    let op: ScopeOp = match &tokens[pos + 1] {
        Token::Op(op) => *op,
        other => {
            return Err(ScopeError::MissingOperator(text_of_token(other)));
        },
    };
    if pos + 2 >= total {
        return Err(ScopeError::MissingValue(op.as_str().to_owned()));
    }
    assert(t[2] == tokens@[pos + 2].view());
    let value: ScopeValue = match &tokens[pos + 2] {
        Token::Claim(s) => ScopeValue::Claim(s.clone()),
        Token::NumberInt(n) => ScopeValue::Literal(ColumnValue::Number(*n)),
        Token::NumberFloat(f) => ScopeValue::Literal(ColumnValue::Float(f.clone())),
        Token::Text(s) => ScopeValue::Literal(classify_literal(s)),
        Token::Ident(s) => ScopeValue::Literal(classify_literal(s)),
        other => {
            return Err(ScopeError::MissingValue(text_of_token(other)));
        },
    };
    Ok(ScopeTerm { column, op, value })
}

// ---- resolution ----

/// The value that a comparison compares with for an account; none where it names a
/// claim that the account does not have.
pub open spec fn resolved_value(v: ScopeValueView, p: Principal) -> Option<ValueView> {
    match v {
        ScopeValueView::Literal(x) => Some(x),
        ScopeValueView::Claim(field) => match claim_value(p, field) {
            Some(s) => Some(ValueView::Text(s)),
            None => None,
        },
    }
}

/// The comparisons for an account, if it has every claim that they name.
pub open spec fn resolved_terms(terms: Seq<ScopeTermView>, p: Principal) -> Option<Seq<ExprView>>
    decreases terms.len(),
{
    if terms.len() == 0 {
        Some(seq![])
    } else {
        match (
            resolved_terms(terms.drop_last(), p),
            resolved_value(terms.last().value, p),
        ) {
            (Some(front), Some(v)) => Some(
                front.push(ExprView::Leaf(terms.last().op, terms.last().column, v)),
            ),
            _ => None,
        }
    }
}

/// The predicate of a scope for an account; none denies the table.
pub open spec fn resolved(terms: Seq<ScopeTermView>, p: Principal) -> Option<ExprView> {
    if terms.len() == 0 {
        Some(ExprView::Any)
    } else {
        match resolved_terms(terms, p) {
            None => None,
            Some(parts) => if parts.len() == 1 {
                Some(parts[0])
            } else {
                Some(ExprView::And(parts))
            },
        }
    }
}

proof fn lemma_resolved_prefix(terms: Seq<ScopeTermView>, p: Principal, i: int)
    requires
        0 <= i <= terms.len(),
        resolved_terms(terms.take(i), p) is None,
    ensures
        resolved_terms(terms, p) is None,
    decreases terms.len() - i,
{
    if i == terms.len() {
        assert(terms.take(i) =~= terms);
    } else {
        assert(terms.take(i + 1).drop_last() =~= terms.take(i));
        lemma_resolved_prefix(terms, p, i + 1);
    }
}

proof fn lemma_resolved_len(terms: Seq<ScopeTermView>, p: Principal)
    ensures
        resolved_terms(terms, p) matches Some(parts) ==> parts.len() == terms.len(),
    decreases terms.len(),
{
    if terms.len() > 0 {
        lemma_resolved_len(terms.drop_last(), p);
    }
}

// ---- canonical text ----

/// The text of what a column is compared with.
pub open spec fn value_text(v: ScopeValueView) -> Seq<char> {
    match v {
        ScopeValueView::Claim(field) => "claims."@ + field,
        ScopeValueView::Literal(ValueView::Text(s)) => "'"@ + s + "'"@,
        ScopeValueView::Literal(ValueView::Number(n)) => signed_decimal(n as int),
        ScopeValueView::Literal(ValueView::Float(f)) => f.display,
        ScopeValueView::Literal(ValueView::Bool(b)) => if b {
            "true"@
        } else {
            "false"@
        },
        ScopeValueView::Literal(ValueView::Any) => "*"@,
        ScopeValueView::Literal(ValueView::Param(name)) => ":"@ + name,
    }
}

/// What comparisons are ordered by: column, then operator, then value, each by its
/// text.
pub open spec fn term_key(t: ScopeTermView) -> (Seq<char>, (Seq<char>, Seq<char>)) {
    (t.column, (op_name(t.op), value_text(t.value)))
}

/// The keys of the comparisons.
pub open spec fn term_keys(
    terms: Seq<ScopeTermView>,
) -> Seq<(Seq<char>, (Seq<char>, Seq<char>))> {
    Seq::new(terms.len(), |i: int| term_key(terms[i]))
}

/// The keys of the comparisons, in order.
pub open spec fn sorted_keys(
    terms: Seq<ScopeTermView>,
) -> Seq<(Seq<char>, (Seq<char>, Seq<char>))> {
    in_order::<(String, (String, String)), (Seq<char>, (Seq<char>, Seq<char>))>(
        term_keys(terms),
        term_keys(terms),
    )
}

/// The text of a comparison.
pub open spec fn key_text(k: (Seq<char>, (Seq<char>, Seq<char>))) -> Seq<char> {
    k.0 + " "@ + k.1.0 + " "@ + k.1.1
}

/// The comparisons with `AND` between them.
pub open spec fn conjunction(keys: Seq<(Seq<char>, (Seq<char>, Seq<char>))>) -> Seq<char>
    decreases keys.len(),
{
    if keys.len() == 0 {
        seq![]
    } else if keys.len() == 1 {
        key_text(keys[0])
    } else {
        conjunction(keys.drop_last()) + " AND "@ + key_text(keys.last())
    }
}

/// The canonical text of a scope.
pub open spec fn scope_text(terms: Seq<ScopeTermView>) -> Seq<char> {
    conjunction(sorted_keys(terms))
}

/// The text of what a column is compared with.
fn value_canonical(v: &ScopeValue) -> (r: String)
    ensures
        r@ == value_text(v@),
{
    match v {
        ScopeValue::Claim(field) => {
            let mut out: String = "claims.".to_owned();
            out.append(field.as_str());
            out
        },
        ScopeValue::Literal(ColumnValue::Text(s)) => {
            let mut out: String = "'".to_owned();
            out.append(s.as_str());
            out.append("'");
            out
        },
        ScopeValue::Literal(ColumnValue::Number(n)) => signed_decimal_text(*n),
        ScopeValue::Literal(ColumnValue::Float(f)) => f.display.clone(),
        ScopeValue::Literal(ColumnValue::Bool(b)) => if *b {
            "true".to_owned()
        } else {
            "false".to_owned()
        },
        ScopeValue::Literal(ColumnValue::Any) => "*".to_owned(),
        ScopeValue::Literal(ColumnValue::Param(name)) => {
            let mut out: String = ":".to_owned();
            out.append(name.as_str());
            out
        },
    }
}

/// Whether some comparison names the claim `field`.
pub open spec fn names_claim(terms: Seq<ScopeTermView>, field: Seq<char>) -> bool {
    exists|i: int|
        0 <= i < terms.len() && (#[trigger] terms[i]).value == ScopeValueView::Claim(field)
}

impl ScopeExpr {
    /// Reads a scope. `floats` says what the numbers with a decimal point in it read
    /// as.
    pub fn parse(input: &str, floats: &FloatReadings) -> (r: Result<ScopeExpr, ScopeError>)
        ensures
            match parsed_scope(input@, floats.readings@) {
                Ok(t) => r is Ok && r->Ok_0@ == t,
                Err(e) => r is Err && r->Err_0@ == e,
            },
    {
        let tokens = match tokenize(input, floats) {
            Ok(t) => t,
            Err(e) => {
                return Err(e);
            },
        };
        if tokens.len() == 0 {
            return Err(ScopeError::Empty);
        }
        let ghost views = token_views(tokens@);
        let ghost whole = terms_of(views);
        let total: usize = tokens.len();
        let mut out = ScopeExpr { terms: Vec::new() };
        let mut pos: usize = 0;
        proof {
            assert(views.skip(0) =~= views);
            if whole is Ok {
                assert(out@ + whole->Ok_0 =~= whole->Ok_0);
            }
        }
        loop
            invariant
                pos <= tokens@.len(),
                total == tokens@.len(),
                views == token_views(tokens@),
                whole == terms_of(views),
                parsed_scope(input@, floats.readings@) == whole,
                whole == (match terms_of(views.skip(pos as int)) {
                    Ok(more) => Ok::<Seq<ScopeTermView>, ScopeErrorView>(out@ + more),
                    Err(e) => Err(e),
                }),
            decreases tokens@.len() - pos,
        {
            let ghost t = views.skip(pos as int);
            let ghost seen = out@;
            match parse_comparison(&tokens, pos) {
                Err(e) => {
                    return Err(e);
                },
                Ok(term) => {
                    let ghost v = term@;
                    out.terms.push(term);
                    assert(out@ =~= seen.push(v));
                    if pos + 3 >= total {
                        assert(seen + seq![v] =~= seen.push(v));
                        return Ok(out);
                    }
                    assert(t[3] == tokens@[pos + 3].view());
                    match &tokens[pos + 3] {
                        Token::And => {
                            proof {
                                assert(t.skip(4) =~= views.skip(pos + 4));
                                match terms_of(t.skip(4)) {
                                    Ok(more) => {
                                        assert(seen + (seq![v] + more) =~= seen.push(v) + more);
                                    },
                                    Err(_) => {},
                                }
                            }
                            pos = pos + 4;
                        },
                        other => {
                            match unsupported_token(other) {
                                Some(name) => {
                                    return Err(ScopeError::Unsupported(name.to_owned()));
                                },
                                None => {
                                    return Err(ScopeError::UnexpectedToken(text_of_token(other)));
                                },
                            }
                        },
                    }
                },
            }
        }
    }

    /// The predicate of this scope for an account. `None` denies the table: the
    /// account lacks a claim that the scope names.
    pub fn resolve(&self, principal: &Principal) -> (r: Option<PredicateExpr>)
        ensures
            r is Some <==> resolved(self@, *principal) is Some,
            r is Some ==> r->0@ == resolved(self@, *principal)->0,
    {
        if self.terms.len() == 0 {
            return Some(PredicateExpr::Any);
        }
        let ghost terms = self@;
        let mut parts: Vec<PredicateExpr> = Vec::new();
        let mut i: usize = 0;
        assert(terms.take(0) =~= seq![]);
        while i < self.terms.len()
            invariant
                i <= self.terms@.len(),
                self.terms@.len() > 0,
                terms == self@,
                resolved_terms(terms.take(i as int), *principal) == Some(expr_views(parts@)),
            decreases self.terms@.len() - i,
        {
            let term = &self.terms[i];
            proof {
                assert(terms.take(i + 1).drop_last() =~= terms.take(i as int));
                assert(terms.take(i + 1).last() == terms[i as int]);
            }
            let value: ColumnValue = match &term.value {
                ScopeValue::Literal(v) => v.clone(),
                ScopeValue::Claim(field) => match principal.claim(field.as_str()) {
                    Some(s) => ColumnValue::text(s),
                    None => {
                        proof {
                            lemma_resolved_prefix(terms, *principal, i + 1);
                        }
                        return None;
                    },
                },
            };
            let ghost before = parts@;
            let part = leaf(term.op, term.column.clone(), value);
            let ghost v = part@;
            parts.push(part);
            proof {
                lemma_expr_views(before);
                lemma_expr_views(parts@);
                assert(expr_views(parts@) =~= expr_views(before).push(v));
            }
            i += 1;
        }
        proof {
            assert(terms.take(i as int) =~= terms);
            lemma_expr_views(parts@);
            lemma_resolved_len(terms, *principal);
        }
        if parts.len() == 1 {
            let ghost views = expr_views(parts@);
            match parts.pop() {
                Some(only) => {
                    assert(views[0] == only@);
                    Some(only)
                },
                None => None,
            }
        } else {
            Some(PredicateExpr::And(parts))
        }
    }

    /// The claims that the scope names, each once, in order.
    pub fn referenced_claims(&self) -> (r: Vec<String>)
        ensures
            forall|i: int, j: int|
                0 <= i < j < r@.len() ==> lex_lt(#[trigger] r@[i]@, #[trigger] r@[j]@),
            forall|field: Seq<char>|
                #[trigger] text_views(r@).contains(field) <==> names_claim(self@, field),
    {
        let mut found: OrderedMap<String, bool> = OrderedMap::new();
        let mut i: usize = 0;
        while i < self.terms.len()
            invariant
                i <= self.terms@.len(),
                forall|field: Seq<char>| #[trigger]
                    found@.contains_key(field) <==> names_claim(self@.take(i as int), field),
            decreases self.terms@.len() - i,
        {
            let ghost before = found@;
            let ghost t = self@[i as int];
            match &self.terms[i].value {
                ScopeValue::Claim(field) => {
                    found.insert(field.clone(), true);
                },
                ScopeValue::Literal(_) => {},
            }
            proof {
                assert forall|field: Seq<char>| #[trigger]
                    found@.contains_key(field) <==> names_claim(self@.take(i + 1), field) by {
                    let now = self@.take(i + 1);
                    let then = self@.take(i as int);
                    if names_claim(now, field) {
                        let k = choose|k: int|
                            0 <= k < now.len() && (#[trigger] now[k]).value
                                == ScopeValueView::Claim(field);
                        if k < i {
                            assert(then[k].value == ScopeValueView::Claim(field));
                            assert(names_claim(then, field));
                            assert(before.contains_key(field));
                        }
                    }
                    if before.contains_key(field) {
                        assert(names_claim(then, field));
                        let k = choose|k: int|
                            0 <= k < then.len() && (#[trigger] then[k]).value
                                == ScopeValueView::Claim(field);
                        assert(now[k].value == ScopeValueView::Claim(field));
                    }
                    if t.value == ScopeValueView::Claim(field) {
                        assert(now[i as int].value == ScopeValueView::Claim(field));
                    }
                }
            }
            i += 1;
        }
        assert(self@.take(i as int) =~= self@);
        let entries = found.listed();
        let ghost s = pairs(entries@);
        let mut out: Vec<String> = Vec::new();
        let mut k: usize = 0;
        while k < entries.len()
            invariant
                k <= entries@.len(),
                s == pairs(entries@),
                out@.len() == k,
                forall|j: int| 0 <= j < k ==> #[trigger] out@[j]@ == s[j].0,
            decreases entries@.len() - k,
        {
            assert(s[k as int].0 == entries@[k as int].0@);
            out.push(entries[k].0.clone());
            k += 1;
        }
        proof {
            assert forall|a: int, b: int| 0 <= a < b < out@.len() implies lex_lt(
                #[trigger] out@[a]@,
                #[trigger] out@[b]@,
            ) by {
                assert(lex_lt(s[a].0, s[b].0));
            }
            assert forall|field: Seq<char>| #[trigger]
                text_views(out@).contains(field) <==> names_claim(self@, field) by {
                if text_views(out@).contains(field) {
                    let j = choose|j: int|
                        0 <= j < text_views(out@).len() && text_views(out@)[j] == field;
                    assert(out@[j]@ == s[j].0);
                    assert(found@.contains_key(s[j].0));
                }
                if names_claim(self@, field) {
                    assert(found@.contains_key(field));
                    let j = choose|j: int| 0 <= j < s.len() && (#[trigger] s[j]).0 == field;
                    assert(out@[j]@ == field);
                    assert(text_views(out@)[j] == field);
                }
            }
        }
        out
    }

    /// The canonical text of the scope.
    pub fn canonical(&self) -> (r: String)
        ensures
            r@ == scope_text(self@),
    {
        let ghost names = term_keys(self@);
        let mut keys: Vec<(String, (String, String))> = Vec::new();
        let mut i: usize = 0;
        while i < self.terms.len()
            invariant
                i <= self.terms@.len(),
                keys@.len() == i,
                names == term_keys(self@),
                forall|k: int| 0 <= k < i ==> (#[trigger] keys@[k]).name() == names[k],
            decreases self.terms@.len() - i,
        {
            let term = &self.terms[i];
            keys.push(
                (
                    term.column.clone(),
                    (term.op.as_str().to_owned(), value_canonical(&term.value)),
                ),
            );
            assert(names[i as int] == term_key(self@[i as int]));
            i += 1;
        }
        assert(key_names(keys@) =~= names);
        let order = order_of(&keys);
        let ghost sorted = sorted_keys(self@);
        let mut out: String = String::new();
        let mut j: usize = 0;
        assert(out@ =~= conjunction(sorted.take(0)));
        while j < order.len()
            invariant
                j <= order@.len(),
                order@.len() == keys@.len(),
                keys@.len() == names.len(),
                names == term_keys(self@),
                sorted == sorted_keys(self@),
                positions(order@) == order_by::<(String, (String, String))>(names),
                forall|k: int| 0 <= k < keys@.len() ==> (#[trigger] keys@[k]).name() == names[k],
                forall|k: int|
                    0 <= k < order@.len() ==> 0 <= #[trigger] positions(order@)[k] < keys@.len(),
                out@ == conjunction(sorted.take(j as int)),
            decreases order@.len() - j,
        {
            assert(0 <= positions(order@)[j as int] < keys@.len());
            let key = &keys[order[j]];
            assert(key.name() == sorted[j as int]);
            proof {
                assert(sorted.take(j + 1).drop_last() =~= sorted.take(j as int));
                assert(sorted.take(j + 1).last() == sorted[j as int]);
            }
            let ghost before = out@;
            if j > 0 {
                out.append(" AND ");
            }
            out.append(key.0.as_str());
            out.append(" ");
            out.append(key.1.0.as_str());
            out.append(" ");
            out.append(key.1.1.as_str());
            proof {
                if j == 0 {
                    assert(out@ =~= key_text(sorted[0]));
                } else {
                    assert(out@ =~= before + " AND "@ + key_text(sorted[j as int]));
                }
            }
            j += 1;
        }
        assert(sorted.take(j as int) =~= sorted);
        out
    }
}

// ---- laws ----

/// A missing claim denies: where any comparison names a claim that the account
/// lacks, the scope has no predicate for it.
pub proof fn law_missing_claim_denies(terms: Seq<ScopeTermView>, p: Principal, i: int)
    requires
        0 <= i < terms.len(),
        terms[i].value is Claim,
        claim_value(p, terms[i].value->Claim_0) is None,
    ensures
        resolved(terms, p) is None,
{
    assert(terms.take(i + 1).last() == terms[i]);
    lemma_resolved_prefix(terms, p, i + 1);
}

/// An account sees exactly the rows of which every comparison holds, with the
/// account's own claims in place.
pub proof fn law_resolution_means_all(terms: Seq<ScopeTermView>, p: Principal, row: RowView)
    requires
        resolved(terms, p) is Some,
    ensures
        holds(resolved(terms, p)->0, row) <==> (forall|i: int|
            0 <= i < terms.len() ==> leaf_holds(
                (#[trigger] terms[i]).op,
                terms[i].column,
                resolved_value(terms[i].value, p)->0,
                row,
            )),
{
    if terms.len() > 0 {
        let parts = resolved_terms(terms, p)->0;
        lemma_resolved_parts(terms, p);
        lemma_parts(parts, row);
        if parts.len() == 1 {
            assert(holds(parts[0], row) == leaf_holds(
                terms[0].op,
                terms[0].column,
                resolved_value(terms[0].value, p)->0,
                row,
            ));
        } else {
            assert(all_hold(parts, row) <==> (forall|i: int|
                0 <= i < parts.len() ==> holds(#[trigger] parts[i], row)));
            if all_hold(parts, row) {
                assert forall|i: int| 0 <= i < terms.len() implies leaf_holds(
                    (#[trigger] terms[i]).op,
                    terms[i].column,
                    resolved_value(terms[i].value, p)->0,
                    row,
                ) by {
                    assert(holds(parts[i], row));
                }
            }
            if forall|i: int|
                0 <= i < terms.len() ==> leaf_holds(
                    (#[trigger] terms[i]).op,
                    terms[i].column,
                    resolved_value(terms[i].value, p)->0,
                    row,
                ) {
                assert forall|i: int| 0 <= i < parts.len() implies holds(
                    #[trigger] parts[i],
                    row,
                ) by {
                    assert(leaf_holds(
                        terms[i].op,
                        terms[i].column,
                        resolved_value(terms[i].value, p)->0,
                        row,
                    ));
                }
            }
        }
    }
}

proof fn lemma_resolved_parts(terms: Seq<ScopeTermView>, p: Principal)
    requires
        resolved_terms(terms, p) is Some,
    ensures
        resolved_terms(terms, p)->0.len() == terms.len(),
        forall|i: int|
            0 <= i < terms.len() ==> #[trigger] resolved_terms(terms, p)->0[i] == ExprView::Leaf(
                terms[i].op,
                terms[i].column,
                resolved_value(terms[i].value, p)->0,
            ),
    decreases terms.len(),
{
    if terms.len() > 0 {
        lemma_resolved_parts(terms.drop_last(), p);
        let parts = resolved_terms(terms, p)->0;
        let front = resolved_terms(terms.drop_last(), p)->0;
        assert forall|i: int| 0 <= i < terms.len() implies #[trigger] parts[i] == ExprView::Leaf(
            terms[i].op,
            terms[i].column,
            resolved_value(terms[i].value, p)->0,
        ) by {
            if i < terms.len() - 1 {
                assert(parts[i] == front[i]);
                assert(terms.drop_last()[i] == terms[i]);
            }
        }
    }
}

/// The canonical text does not depend on the order of the comparisons: scopes with the
/// same comparisons, each as often, have the same text.
pub proof fn law_canonical_ignores_order(terms: Seq<ScopeTermView>, others: Seq<ScopeTermView>)
    requires
        terms.to_multiset() == others.to_multiset(),
    ensures
        scope_text(terms) == scope_text(others),
{
    let key = |t: ScopeTermView| term_key(t);
    lemma_same_keys(terms, others, key);
    assert(terms.map_values(key) =~= term_keys(terms));
    assert(others.map_values(key) =~= term_keys(others));
    lemma_order_of_same_keys::<(String, (String, String))>(term_keys(terms), term_keys(others));
}

/// Blanks between two tokens only separate them: the scope that a text writes does not
/// depend on how many there are, nor on those at its start and its end.
pub proof fn law_spaces_are_ignored(
    front: Seq<char>,
    gap: Seq<char>,
    other_gap: Seq<char>,
    back: Seq<char>,
    floats: Map<Seq<char>, Float>,
)
    requires
        tokens_of(front, floats) is Ok,
        gap.len() > 0,
        other_gap.len() > 0,
        forall|i: int| 0 <= i < gap.len() ==> blank(#[trigger] gap[i]),
        forall|i: int| 0 <= i < other_gap.len() ==> blank(#[trigger] other_gap[i]),
    ensures
        parsed_scope(front + (gap + back), floats) == parsed_scope(
            front + (other_gap + back),
            floats,
        ),
        parsed_scope(gap + back, floats) == parsed_scope(back, floats),
        parsed_scope(front + gap, floats) == parsed_scope(front, floats),
{
    lemma_blanks(gap, back, floats);
    lemma_blanks(other_gap, back, floats);
    lemma_tokens_join(front, gap + back, floats);
    lemma_tokens_join(front, other_gap + back, floats);
    lemma_blanks(gap, seq![], floats);
    assert(gap + seq![] =~= gap);
    lemma_tokens_join(front, gap, floats);
    let t = tokens_of(front, floats)->Ok_0;
    assert(t + seq![] =~= t);
}

pub(crate) proof fn lemma_blanks(gap: Seq<char>, back: Seq<char>, floats: Map<Seq<char>, Float>)
    requires
        forall|i: int| 0 <= i < gap.len() ==> blank(#[trigger] gap[i]),
    ensures
        tokens_of(gap + back, floats) == tokens_of(back, floats),
    decreases gap.len(),
{
    if gap.len() > 0 {
        assert((gap + back)[0] == gap[0]);
        assert((gap + back).skip(1) =~= gap.skip(1) + back);
        lemma_blanks(gap.skip(1), back, floats);
    } else {
        assert(gap + back =~= back);
    }
}

/// The tokens of a text go before those of what stands behind a blank.
pub(crate) proof fn lemma_tokens_join(front: Seq<char>, rest: Seq<char>, floats: Map<Seq<char>, Float>)
    requires
        tokens_of(front, floats) is Ok,
        rest.len() > 0,
        blank(rest[0]),
    ensures
        tokens_of(front + rest, floats) == after(
            tokens_of(front, floats)->Ok_0,
            tokens_of(rest, floats),
        ),
    decreases front.len(),
{
    let s = front + rest;
    if front.len() == 0 {
        assert(s =~= rest);
        if tokens_of(rest, floats) is Ok {
            let t = tokens_of(rest, floats)->Ok_0;
            assert(Seq::<ScopeToken>::empty() + t =~= t);
        }
    } else {
        lemma_step_before_blank(front, rest, Dialect::Scope);
        match step(front, Dialect::Scope) {
            StepView::Blank => {
                assert(s.skip(1) =~= front.skip(1) + rest);
                lemma_tokens_join(front.skip(1), rest, floats);
            },
            StepView::Item(item, n) => {
                assert(s.skip(n as int) =~= front.skip(n as int) + rest);
                lemma_tokens_join(front.skip(n as int), rest, floats);
                let t = item_token(item, floats)->Ok_0;
                let u = tokens_of(front.skip(n as int), floats)->Ok_0;
                if tokens_of(rest, floats) is Ok {
                    let v = tokens_of(rest, floats)->Ok_0;
                    assert(seq![t] + (u + v) =~= (seq![t] + u) + v);
                }
            },
            StepView::Fault(_) => {},
        }
    }
}

} // verus!
