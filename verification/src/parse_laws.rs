//! What reading predicates is for: a predicate that is written out reads back as
//! itself, whatever its comparisons, its values and the way they are joined.

use vstd::prelude::*;
use crate::lexer::{
    begins_word, blank, in_class, lemma_run, step, Class, Dialect, LexemeView, StepView,
};
use crate::json::{Json, JsonView};
use crate::match_laws::lemma_signed_round_trip;
use crate::numbers::{decimal, lemma_digits_round_trip, signed_decimal};
use crate::ordered::OrderedMap;
use crate::predicate::{
    ColumnValue, ExprView, Float, FloatReadings, PredicateExpr, ScopeOp, ValueView,
};
use crate::predicate_compile::{
    after, and_expr, and_parts, atom, bind_params, bound, bound_parts, item_token, lemma_blanks,
    lemma_tokens_join, literal, not_expr, or_expr, or_parts, parse_predicate_expr, tokens_of,
    word_token, BindError, BindErrorView, ParseError, ParseErrorView, Parsed, ParsedList, TokenView,
};
use crate::predicate_json::{expr_json, expr_value, exprs_json};
use crate::text::{law_letter_case, lower, upper};

verus! {

// ---- predicates written out ----

/// Whether `w` is a word: a letter or a low line, then letters, digits and low lines.
pub open spec fn is_word(w: Seq<char>) -> bool {
    &&& w.len() > 0
    &&& begins_word(w[0])
    &&& forall|i: int| 0 <= i < w.len() ==> in_class(#[trigger] w[i], Class::Word)
}

/// Whether a word stands for something else than a name, in any case of its letters.
pub open spec fn is_keyword(w: Seq<char>) -> bool {
    lower(w) == "and"@ || lower(w) == "or"@ || lower(w) == "not"@ || lower(w) == "true"@ || lower(w)
        == "false"@
}

/// How a comparison is written.
pub open spec fn symbol(op: ScopeOp) -> Seq<char> {
    match op {
        ScopeOp::Eq => "="@,
        ScopeOp::Ne => "!="@,
        ScopeOp::Lt => "<"@,
        ScopeOp::Gt => ">"@,
        ScopeOp::Le => "<="@,
        ScopeOp::Ge => ">="@,
    }
}

/// How a value is written: text in quotes, a number by its digits, a truth value by its
/// word, a placeholder behind a colon.
pub open spec fn value_written(v: ValueView) -> Seq<char> {
    match v {
        ValueView::Text(s) => "'"@ + s + "'"@,
        ValueView::Number(n) => signed_decimal(n as int),
        ValueView::Bool(b) => if b {
            "true"@
        } else {
            "false"@
        },
        ValueView::Param(name) => ":"@ + name,
        _ => seq![],
    }
}

/// Whether a value can be written so. The two words for truth values are not texts.
pub open spec fn can_be_written(v: ValueView) -> bool {
    match v {
        ValueView::Text(s) => !s.contains('\'') && s != "true"@ && s != "false"@,
        ValueView::Number(_) => true,
        ValueView::Bool(_) => true,
        ValueView::Param(name) => is_word(name),
        _ => false,
    }
}

/// Whether a predicate can be written out: columns are names, and every list has two
/// parts or more.
pub open spec fn writable(e: ExprView) -> bool
    decreases e,
{
    match e {
        ExprView::Any => false,
        ExprView::Leaf(_, column, v) => is_word(column) && !is_keyword(column) && can_be_written(v),
        ExprView::And(parts) => parts.len() >= 2 && all_writable(parts),
        ExprView::Or(parts) => parts.len() >= 2 && all_writable(parts),
        ExprView::Not(inner) => writable(*inner),
    }
}

/// Whether each of them can be written out.
pub open spec fn all_writable(parts: Seq<ExprView>) -> bool
    decreases parts,
{
    parts.len() == 0 || (writable(parts[0]) && all_writable(parts.drop_first()))
}

/// How deep brackets and negations nest at most where a predicate is written out.
pub open spec fn brackets(e: ExprView) -> nat
    decreases e,
{
    match e {
        ExprView::And(parts) => 1 + most_brackets(parts),
        ExprView::Or(parts) => 1 + most_brackets(parts),
        ExprView::Not(inner) => 2 + brackets(*inner),
        _ => 0,
    }
}

/// The most of the parts.
pub open spec fn most_brackets(parts: Seq<ExprView>) -> nat
    decreases parts,
{
    if parts.len() == 0 {
        0
    } else {
        let rest = most_brackets(parts.drop_first());
        let first = brackets(parts[0]);
        if first >= rest {
            first
        } else {
            rest
        }
    }
}

/// A predicate written out. `NOT` binds tighter than `AND`, and `AND` tighter than `OR`:
/// brackets stand only where they are needed.
pub open spec fn written(e: ExprView) -> Seq<char>
    decreases e, 0nat,
{
    match e {
        ExprView::Any => seq![],
        ExprView::Leaf(op, column, v) => column + " "@ + symbol(op) + " "@ + value_written(v),
        ExprView::And(parts) => written_with_and(parts),
        ExprView::Or(parts) => written_with_or(parts),
        ExprView::Not(inner) => "NOT"@ + " "@ + written_in_and(*inner),
    }
}

/// A part of a conjunction, or what a negation negates.
pub open spec fn written_in_and(e: ExprView) -> Seq<char>
    decreases e, 1nat,
{
    if e is And || e is Or {
        "("@ + " "@ + written(e) + " "@ + ")"@
    } else {
        written(e)
    }
}

/// A part of a disjunction.
pub open spec fn written_in_or(e: ExprView) -> Seq<char>
    decreases e, 1nat,
{
    if e is Or {
        "("@ + " "@ + written(e) + " "@ + ")"@
    } else {
        written(e)
    }
}

/// The parts with `AND` between them.
pub open spec fn written_with_and(parts: Seq<ExprView>) -> Seq<char>
    decreases parts, 0nat,
{
    if parts.len() == 0 {
        seq![]
    } else if parts.len() == 1 {
        written_in_and(parts[0])
    } else {
        written_in_and(parts[0]) + " "@ + "AND"@ + " "@ + written_with_and(parts.drop_first())
    }
}

/// The parts with `OR` between them.
pub open spec fn written_with_or(parts: Seq<ExprView>) -> Seq<char>
    decreases parts, 0nat,
{
    if parts.len() == 0 {
        seq![]
    } else if parts.len() == 1 {
        written_in_or(parts[0])
    } else {
        written_in_or(parts[0]) + " "@ + "OR"@ + " "@ + written_with_or(parts.drop_first())
    }
}

// ---- tokens ----

spec fn value_tok(v: ValueView) -> TokenView {
    match v {
        ValueView::Text(s) => TokenView::Text(s),
        ValueView::Number(n) => TokenView::NumberInt(n),
        ValueView::Bool(b) => TokenView::Text(
            if b {
                "true"@
            } else {
                "false"@
            },
        ),
        ValueView::Param(name) => TokenView::Param(name),
        _ => TokenView::And,
    }
}

spec fn toks(e: ExprView) -> Seq<TokenView>
    decreases e, 0nat,
{
    match e {
        ExprView::Any => seq![],
        ExprView::Leaf(op, column, v) => seq![
            TokenView::Ident(column),
            TokenView::Op(op),
            value_tok(v),
        ],
        ExprView::And(parts) => toks_with_and(parts),
        ExprView::Or(parts) => toks_with_or(parts),
        ExprView::Not(inner) => seq![TokenView::Not] + toks_in_and(*inner),
    }
}

spec fn toks_in_and(e: ExprView) -> Seq<TokenView>
    decreases e, 1nat,
{
    if e is And || e is Or {
        seq![TokenView::LParen] + toks(e) + seq![TokenView::RParen]
    } else {
        toks(e)
    }
}

spec fn toks_in_or(e: ExprView) -> Seq<TokenView>
    decreases e, 1nat,
{
    if e is Or {
        seq![TokenView::LParen] + toks(e) + seq![TokenView::RParen]
    } else {
        toks(e)
    }
}

spec fn toks_with_and(parts: Seq<ExprView>) -> Seq<TokenView>
    decreases parts, 0nat,
{
    if parts.len() == 0 {
        seq![]
    } else if parts.len() == 1 {
        toks_in_and(parts[0])
    } else {
        toks_in_and(parts[0]) + seq![TokenView::And] + toks_with_and(parts.drop_first())
    }
}

spec fn toks_with_or(parts: Seq<ExprView>) -> Seq<TokenView>
    decreases parts, 0nat,
{
    if parts.len() == 0 {
        seq![]
    } else if parts.len() == 1 {
        toks_in_or(parts[0])
    } else {
        toks_in_or(parts[0]) + seq![TokenView::Or] + toks_with_or(parts.drop_first())
    }
}

// ---- reading the text ----

/// A text that one item covers is one token.
proof fn lemma_one_item(
    s: Seq<char>,
    item: LexemeView,
    t: TokenView,
    floats: Map<Seq<char>, Float>,
)
    requires
        s.len() > 0,
        step(s, Dialect::Predicate) == StepView::Item(item, s.len()),
        item_token(item, floats) == Ok::<TokenView, ParseErrorView>(t),
    ensures
        tokens_of(s, floats) == Ok::<Seq<TokenView>, ParseErrorView>(seq![t]),
{
    let rest = s.skip(s.len() as int);
    assert(rest =~= Seq::<char>::empty());
    assert(tokens_of(rest, floats) == Ok::<Seq<TokenView>, ParseErrorView>(
        Seq::<TokenView>::empty(),
    ));
    assert(seq![t] + Seq::<TokenView>::empty() =~= seq![t]);
}

proof fn lemma_word_reads(w: Seq<char>, floats: Map<Seq<char>, Float>)
    requires
        is_word(w),
    ensures
        tokens_of(w, floats) == Ok::<Seq<TokenView>, ParseErrorView>(seq![word_token(w)]),
{
    lemma_run(w, Class::Word, w.len() as int);
    assert(w.take(w.len() as int) =~= w);
    crate::text::law_character_kinds(w[0]);
    lemma_one_item(w, LexemeView::Word(w), word_token(w), floats);
}

/// A word in lower case is a word in upper case.
pub(crate) proof fn lemma_cases(w: Seq<char>, low: Seq<char>, up: Seq<char>)
    requires
        low.len() == up.len(),
        forall|i: int|
            0 <= i < low.len() ==> 97 <= (#[trigger] low[i]) as int <= 122 && up[i] as int
                == low[i] as int - 32,
    ensures
        lower(w) == low <==> upper(w) == up,
{
    if lower(w) == low {
        assert(w.len() == low.len());
        assert forall|i: int| 0 <= i < w.len() implies #[trigger] upper(w)[i] == up[i] by {
            law_letter_case(w[i]);
            assert(lower(w)[i] == low[i]);
        }
        assert(upper(w) =~= up);
    }
    if upper(w) == up {
        assert(w.len() == up.len());
        assert forall|i: int| 0 <= i < w.len() implies #[trigger] lower(w)[i] == low[i] by {
            law_letter_case(w[i]);
            assert(upper(w)[i] == up[i]);
            assert(97 <= low[i] as int <= 122);
        }
        assert(lower(w) =~= low);
    }
}

proof fn lemma_keywords(w: Seq<char>)
    ensures
        lower(w) == "and"@ ==> word_token(w) == TokenView::And,
        lower(w) == "or"@ ==> word_token(w) == TokenView::Or,
        lower(w) == "not"@ ==> word_token(w) == TokenView::Not,
        lower(w) == "true"@ ==> word_token(w) == TokenView::Text("true"@),
        lower(w) == "false"@ ==> word_token(w) == TokenView::Text("false"@),
        !is_keyword(w) ==> word_token(w) == TokenView::Ident(w),
{
    reveal_strlit("and");
    reveal_strlit("or");
    reveal_strlit("not");
    reveal_strlit("true");
    reveal_strlit("false");
    reveal_strlit("AND");
    reveal_strlit("OR");
    reveal_strlit("NOT");
    reveal_strlit("TRUE");
    reveal_strlit("FALSE");
    lemma_cases(w, "and"@, "AND"@);
    lemma_cases(w, "or"@, "OR"@);
    lemma_cases(w, "not"@, "NOT"@);
    lemma_cases(w, "true"@, "TRUE"@);
    lemma_cases(w, "false"@, "FALSE"@);
    assert("AND"@[0] == 'A' && "NOT"@[0] == 'N');
    assert("AND"@.len() == 3 && "OR"@.len() == 2 && "NOT"@.len() == 3 && "TRUE"@.len() == 4
        && "FALSE"@.len() == 5);
}

proof fn lemma_connectives_read(floats: Map<Seq<char>, Float>)
    ensures
        tokens_of("AND"@, floats) == Ok::<Seq<TokenView>, ParseErrorView>(seq![TokenView::And]),
        tokens_of("OR"@, floats) == Ok::<Seq<TokenView>, ParseErrorView>(seq![TokenView::Or]),
        tokens_of("NOT"@, floats) == Ok::<Seq<TokenView>, ParseErrorView>(seq![TokenView::Not]),
        tokens_of("("@, floats) == Ok::<Seq<TokenView>, ParseErrorView>(seq![TokenView::LParen]),
        tokens_of(")"@, floats) == Ok::<Seq<TokenView>, ParseErrorView>(seq![TokenView::RParen]),
{
    reveal_strlit("AND");
    reveal_strlit("OR");
    reveal_strlit("NOT");
    reveal_strlit("and");
    reveal_strlit("or");
    reveal_strlit("not");
    reveal_strlit("(");
    reveal_strlit(")");
    lemma_keywords("AND"@);
    lemma_keywords("OR"@);
    lemma_keywords("NOT"@);
    assert(lower("AND"@) =~= "and"@);
    assert(lower("OR"@) =~= "or"@);
    assert(lower("NOT"@) =~= "not"@);
    lemma_word_reads("AND"@, floats);
    lemma_word_reads("OR"@, floats);
    lemma_word_reads("NOT"@, floats);
    lemma_one_item("("@, LexemeView::Open, TokenView::LParen, floats);
    lemma_one_item(")"@, LexemeView::Close, TokenView::RParen, floats);
}

proof fn lemma_symbol_reads(op: ScopeOp, floats: Map<Seq<char>, Float>)
    ensures
        tokens_of(symbol(op), floats) == Ok::<Seq<TokenView>, ParseErrorView>(
            seq![TokenView::Op(op)],
        ),
{
    reveal_strlit("=");
    reveal_strlit("!=");
    reveal_strlit("<");
    reveal_strlit(">");
    reveal_strlit("<=");
    reveal_strlit(">=");
    lemma_one_item(symbol(op), LexemeView::Op(op), TokenView::Op(op), floats);
}

proof fn lemma_value_reads(v: ValueView, floats: Map<Seq<char>, Float>)
    requires
        can_be_written(v),
    ensures
        tokens_of(value_written(v), floats) == Ok::<Seq<TokenView>, ParseErrorView>(
            seq![value_tok(v)],
        ),
        literal(value_tok(v)) == Some(v),
{
    reveal_strlit("true");
    reveal_strlit("false");
    assert("true"@.len() == 4 && "false"@.len() == 5);
    let t = value_written(v);
    match v {
        ValueView::Text(s) => {
            reveal_strlit("'");
            let body = t.skip(1);
            assert(body =~= s + "'"@);
            assert forall|k: int| 0 <= k < s.len() implies in_class(
                #[trigger] body[k],
                Class::Unquoted,
            ) by {
                assert(body[k] == s[k]);
                assert(s.contains(s[k]));
            }
            assert(body[s.len() as int] == '\'');
            lemma_run(body, Class::Unquoted, s.len() as int);
            assert(body.take(s.len() as int) =~= s);
            lemma_one_item(t, LexemeView::Quoted(s), TokenView::Text(s), floats);
        },
        ValueView::Number(n) => {
            let m: nat = if n < 0 {
                (-n) as nat
            } else {
                n as nat
            };
            let d = decimal(m);
            lemma_digits_round_trip(m, 10);
            lemma_signed_round_trip(n);
            assert forall|k: int| 0 <= k < d.len() implies in_class(
                #[trigger] d[k],
                Class::Digit,
            ) by {}
            lemma_run(d, Class::Digit, d.len() as int);
            if n < 0 {
                assert(t.skip(1) =~= d);
                assert(t[1] == d[0]);
            }
            assert(t.take(t.len() as int) =~= t);
            lemma_one_item(t, LexemeView::Whole(t), TokenView::NumberInt(n), floats);
        },
        ValueView::Bool(b) => {
            crate::text::law_character_kinds(t[0]);
            assert(lower(t) =~= t);
            lemma_keywords(t);
            assert(is_word(t)) by {
                assert forall|i: int| 0 <= i < t.len() implies in_class(
                    #[trigger] t[i],
                    Class::Word,
                ) by {
                    crate::text::law_character_kinds(t[i]);
                }
            }
            lemma_word_reads(t, floats);
        },
        ValueView::Param(name) => {
            reveal_strlit(":");
            let body = t.skip(1);
            assert(body =~= name);
            lemma_run(name, Class::Word, name.len() as int);
            assert(name.take(name.len() as int) =~= name);
            lemma_one_item(t, LexemeView::Placeholder(name), TokenView::Param(name), floats);
        },
        _ => {},
    }
}

/// What stands before and behind a space is read apart.
proof fn lemma_space_between(
    front: Seq<char>,
    back: Seq<char>,
    f: Seq<TokenView>,
    b: Seq<TokenView>,
    floats: Map<Seq<char>, Float>,
)
    requires
        tokens_of(front, floats) == Ok::<Seq<TokenView>, ParseErrorView>(f),
        tokens_of(back, floats) == Ok::<Seq<TokenView>, ParseErrorView>(b),
    ensures
        tokens_of(front + " "@ + back, floats) == Ok::<Seq<TokenView>, ParseErrorView>(f + b),
{
    reveal_strlit(" ");
    assert(front + " "@ + back =~= front + (" "@ + back));
    lemma_tokens_join(front, " "@ + back, floats);
    lemma_blanks(" "@, back, floats);
}

proof fn lemma_text_reads(e: ExprView, floats: Map<Seq<char>, Float>)
    requires
        writable(e),
    ensures
        tokens_of(written(e), floats) == Ok::<Seq<TokenView>, ParseErrorView>(toks(e)),
    decreases e, 0nat,
{
    lemma_connectives_read(floats);
    match e {
        ExprView::Leaf(op, column, v) => {
            lemma_word_reads(column, floats);
            lemma_keywords(column);
            lemma_symbol_reads(op, floats);
            lemma_value_reads(v, floats);
            let i = seq![TokenView::Ident(column)];
            let o = seq![TokenView::Op(op)];
            lemma_space_between(column, symbol(op), i, o, floats);
            lemma_space_between(
                column + " "@ + symbol(op),
                value_written(v),
                i + o,
                seq![value_tok(v)],
                floats,
            );
            assert(i + o + seq![value_tok(v)] =~= toks(e));
        },
        ExprView::And(parts) => lemma_and_text_reads(parts, floats),
        ExprView::Or(parts) => lemma_or_text_reads(parts, floats),
        ExprView::Not(inner) => {
            lemma_part_reads(*inner, floats);
            lemma_space_between(
                "NOT"@,
                written_in_and(*inner),
                seq![TokenView::Not],
                toks_in_and(*inner),
                floats,
            );
        },
        ExprView::Any => {},
    }
}

proof fn lemma_part_reads(e: ExprView, floats: Map<Seq<char>, Float>)
    requires
        writable(e),
    ensures
        tokens_of(written_in_and(e), floats) == Ok::<Seq<TokenView>, ParseErrorView>(
            toks_in_and(e),
        ),
        tokens_of(written_in_or(e), floats) == Ok::<Seq<TokenView>, ParseErrorView>(toks_in_or(e)),
    decreases e, 1nat,
{
    lemma_connectives_read(floats);
    lemma_text_reads(e, floats);
    let l = seq![TokenView::LParen];
    lemma_space_between("("@, written(e), l, toks(e), floats);
    lemma_space_between(
        "("@ + " "@ + written(e),
        ")"@,
        l + toks(e),
        seq![TokenView::RParen],
        floats,
    );
}

proof fn lemma_and_text_reads(parts: Seq<ExprView>, floats: Map<Seq<char>, Float>)
    requires
        parts.len() > 0,
        all_writable(parts),
    ensures
        tokens_of(written_with_and(parts), floats) == Ok::<Seq<TokenView>, ParseErrorView>(
            toks_with_and(parts),
        ),
    decreases parts, 0nat,
{
    lemma_connectives_read(floats);
    lemma_part_reads(parts[0], floats);
    if parts.len() > 1 {
        let rest = parts.drop_first();
        lemma_and_text_reads(rest, floats);
        let f = toks_in_and(parts[0]);
        lemma_space_between(written_in_and(parts[0]), "AND"@, f, seq![TokenView::And], floats);
        lemma_space_between(
            written_in_and(parts[0]) + " "@ + "AND"@,
            written_with_and(rest),
            f + seq![TokenView::And],
            toks_with_and(rest),
            floats,
        );
    }
}

proof fn lemma_or_text_reads(parts: Seq<ExprView>, floats: Map<Seq<char>, Float>)
    requires
        parts.len() > 0,
        all_writable(parts),
    ensures
        tokens_of(written_with_or(parts), floats) == Ok::<Seq<TokenView>, ParseErrorView>(
            toks_with_or(parts),
        ),
    decreases parts, 0nat,
{
    lemma_connectives_read(floats);
    lemma_part_reads(parts[0], floats);
    if parts.len() > 1 {
        let rest = parts.drop_first();
        lemma_or_text_reads(rest, floats);
        let f = toks_in_or(parts[0]);
        lemma_space_between(written_in_or(parts[0]), "OR"@, f, seq![TokenView::Or], floats);
        lemma_space_between(
            written_in_or(parts[0]) + " "@ + "OR"@,
            written_with_or(rest),
            f + seq![TokenView::Or],
            toks_with_or(rest),
            floats,
        );
    }
}

// ---- reading the tokens ----

spec fn no_and(rest: Seq<TokenView>) -> bool {
    rest.len() > 0 ==> !(rest[0] is And)
}

spec fn no_more(rest: Seq<TokenView>) -> bool {
    rest.len() > 0 ==> !(rest[0] is And) && !(rest[0] is Or)
}

spec fn is_read(e: ExprView, rest: Seq<TokenView>) -> Result<Parsed, ParseErrorView> {
    Ok(Parsed { expr: e, rest })
}

proof fn lemma_reads_part(e: ExprView, rest: Seq<TokenView>, room: nat)
    requires
        writable(e),
        1 + brackets(e) <= room,
    ensures
        not_expr(toks_in_and(e) + rest, room) == is_read(e, rest),
        toks_in_and(e).len() > 0,
    decreases e, 1nat,
{
    let t = toks_in_and(e) + rest;
    match e {
        ExprView::Leaf(op, column, v) => {
            lemma_value_reads(v, Map::empty());
            assert(toks(e) == seq![TokenView::Ident(column), TokenView::Op(op), value_tok(v)]);
            assert(toks_in_and(e) == toks(e));
            assert(t[0] == TokenView::Ident(column));
            assert(t[1] == TokenView::Op(op));
            assert(t[2] == value_tok(v));
            assert(t.skip(3) =~= rest);
            assert(!(t[0] is Not) && !(t[0] is LParen));
            assert(atom(t, room) == is_read(e, rest));
        },
        ExprView::Not(inner) => {
            lemma_reads_part(*inner, rest, (room - 1) as nat);
            assert(t[0] == TokenView::Not);
            assert(t.skip(1) =~= toks_in_and(*inner) + rest);
        },
        ExprView::Any => {},
        _ => {
            let close = seq![TokenView::RParen];
            lemma_reads_all(e, close + rest, (room - 1) as nat);
            assert(t[0] == TokenView::LParen);
            assert(t.skip(1) =~= toks(e) + (close + rest));
            assert((close + rest).skip(1) =~= rest);
        },
    }
}

proof fn lemma_reads_and_parts(parts: Seq<ExprView>, rest: Seq<TokenView>, room: nat)
    requires
        parts.len() > 0,
        all_writable(parts),
        1 + most_brackets(parts) <= room,
        no_and(rest),
    ensures
        and_parts(toks_with_and(parts) + rest, room) == Ok::<ParsedList, ParseErrorView>(
            ParsedList { parts, rest },
        ),
    decreases parts, 0nat,
{
    let t = toks_with_and(parts) + rest;
    if parts.len() == 1 {
        lemma_reads_part(parts[0], rest, room);
        assert(parts =~= seq![parts[0]]);
    } else {
        let more = parts.drop_first();
        let back = seq![TokenView::And] + toks_with_and(more) + rest;
        lemma_reads_part(parts[0], back, room);
        lemma_reads_and_parts(more, rest, room);
        assert(t =~= toks_in_and(parts[0]) + back);
        assert(back[0] == TokenView::And);
        assert(back.skip(1) =~= toks_with_and(more) + rest);
        assert(seq![parts[0]] + more =~= parts);
    }
}

/// A part of a disjunction is read as far as it goes.
proof fn lemma_reads_or_part(e: ExprView, rest: Seq<TokenView>, room: nat)
    requires
        writable(e),
        1 + brackets(e) <= room,
        no_and(rest),
    ensures
        and_expr(toks_in_or(e) + rest, room) == is_read(e, rest),
    decreases e, 2nat,
{
    match e {
        ExprView::And(parts) => {
            lemma_reads_and_parts(parts, rest, room);
        },
        _ => {
            lemma_reads_part(e, rest, room);
            assert(toks_in_or(e) == toks_in_and(e));
            assert(seq![e][0] == e);
        },
    }
}

proof fn lemma_reads_or_parts(parts: Seq<ExprView>, rest: Seq<TokenView>, room: nat)
    requires
        parts.len() > 0,
        all_writable(parts),
        1 + most_brackets(parts) <= room,
        no_more(rest),
    ensures
        or_parts(toks_with_or(parts) + rest, room) == Ok::<ParsedList, ParseErrorView>(
            ParsedList { parts, rest },
        ),
    decreases parts, 0nat,
{
    let t = toks_with_or(parts) + rest;
    if parts.len() == 1 {
        lemma_reads_or_part(parts[0], rest, room);
        assert(parts =~= seq![parts[0]]);
    } else {
        let more = parts.drop_first();
        let back = seq![TokenView::Or] + toks_with_or(more) + rest;
        lemma_reads_or_part(parts[0], back, room);
        lemma_reads_or_parts(more, rest, room);
        assert(t =~= toks_in_or(parts[0]) + back);
        assert(back[0] == TokenView::Or);
        assert(back.skip(1) =~= toks_with_or(more) + rest);
        assert(seq![parts[0]] + more =~= parts);
    }
}

/// Two parts or more read back as the list of them.
proof fn lemma_reads_all(e: ExprView, rest: Seq<TokenView>, room: nat)
    requires
        writable(e),
        e is And || e is Or,
        brackets(e) <= room,
        no_more(rest),
    ensures
        or_expr(toks(e) + rest, room) == is_read(e, rest),
    decreases e, 0nat,
{
    match e {
        ExprView::Or(parts) => {
            lemma_reads_or_parts(parts, rest, room);
        },
        ExprView::And(parts) => {
            lemma_reads_and_parts(parts, rest, room);
            assert(and_expr(toks(e) + rest, room) == is_read(e, rest));
            assert(seq![e][0] == e);
        },
        _ => {},
    }
}

/// A predicate that is written out reads back as itself: each comparison with its own
/// column, operator and value, `NOT` before `AND` and `AND` before `OR`, in the order in
/// which the parts were written. It is stated of predicates that nest less deep, and are
/// no longer, than is allowed.
pub proof fn law_written_predicate_reads_back(
    input: &str,
    floats: &FloatReadings,
    r: Result<PredicateExpr, ParseError>,
    e: ExprView,
)
    requires
        call_ensures(parse_predicate_expr, (input, floats), r),
        input@ == written(e),
        writable(e),
        brackets(e) < 64,
        input@.len() <= 65_536,
    ensures
        r is Ok,
        r->Ok_0@ == e,
{
    let t = toks(e);
    let none: Seq<TokenView> = seq![];
    lemma_text_reads(e, floats.readings@);
    assert(t + none =~= t);
    if e is And || e is Or {
        lemma_reads_all(e, none, 64);
        lemma_reads_part(e, none, 64 + 1);
        lemma_toks_len(e);
    } else {
        lemma_reads_part(e, none, 64);
        assert(seq![e][0] == e);
        assert(and_expr(t, 64) == is_read(e, none));
        assert(or_expr(t, 64) == is_read(e, none));
    }
}

proof fn lemma_toks_len(e: ExprView)
    requires
        writable(e),
    ensures
        toks(e).len() > 0,
    decreases e,
{
    match e {
        ExprView::And(parts) => {
            assert(all_writable(parts));
            lemma_toks_len(parts[0]);
        },
        ExprView::Or(parts) => {
            assert(all_writable(parts));
            lemma_toks_len(parts[0]);
        },
        _ => {},
    }
}

/// A comparison of a column with a word for a truth value is one with that truth value,
/// whatever the case of its letters; one with any other word is one with that text.
pub proof fn law_words_are_values(
    input: &str,
    floats: &FloatReadings,
    r: Result<PredicateExpr, ParseError>,
    column: Seq<char>,
    op: ScopeOp,
    word: Seq<char>,
)
    requires
        call_ensures(parse_predicate_expr, (input, floats), r),
        input@ == column + " "@ + symbol(op) + " "@ + word,
        is_word(column),
        !is_keyword(column),
        is_word(word),
        input@.len() <= 65_536,
    ensures
        lower(word) == "true"@ ==> r is Ok && r->Ok_0@ == ExprView::Leaf(
            op,
            column,
            ValueView::Bool(true),
        ),
        lower(word) == "false"@ ==> r is Ok && r->Ok_0@ == ExprView::Leaf(
            op,
            column,
            ValueView::Bool(false),
        ),
        !is_keyword(word) ==> r is Ok && r->Ok_0@ == ExprView::Leaf(
            op,
            column,
            ValueView::Text(word),
        ),
        lower(word) == "and"@ || lower(word) == "or"@ || lower(word) == "not"@ ==> r is Err,
{
    reveal_strlit("true");
    reveal_strlit("false");
    reveal_strlit("and");
    reveal_strlit("or");
    reveal_strlit("not");
    assert("true"@.len() == 4 && "false"@.len() == 5 && "and"@.len() == 3 && "or"@.len() == 2
        && "not"@.len() == 3);
    let w = word_token(word);
    let i = seq![TokenView::Ident(column)];
    let o = seq![TokenView::Op(op)];
    lemma_word_reads(column, floats.readings@);
    lemma_keywords(column);
    lemma_word_reads(word, floats.readings@);
    lemma_keywords(word);
    lemma_symbol_reads(op, floats.readings@);
    lemma_space_between(column, symbol(op), i, o, floats.readings@);
    lemma_space_between(column + " "@ + symbol(op), word, i + o, seq![w], floats.readings@);
    let t = i + o + seq![w];
    assert(t[0] == TokenView::Ident(column) && t[1] == TokenView::Op(op) && t[2] == w);
    assert(t.skip(3) =~= seq![]);
    if !is_keyword(word) {
        assert(lower("true"@) =~= "true"@);
        assert(lower("false"@) =~= "false"@);
    }
    if literal(w) is Some {
        let e = ExprView::Leaf(op, column, literal(w)->0);
        assert(not_expr(t, 64) == is_read(e, seq![]));
        assert(seq![e][0] == e);
        assert(and_expr(t, 64) == is_read(e, seq![]));
        assert(or_expr(t, 64) == is_read(e, seq![]));
    } else {
        assert(not_expr(t, 64) is Err);
        assert(and_parts(t, 64) is Err);
        assert(and_expr(t, 64) is Err);
        assert(or_parts(t, 64) is Err);
        assert(or_expr(t, 64) is Err);
    }
}

/// A text that is too long is refused as such, and one that is empty or all blanks as
/// empty.
pub proof fn law_no_predicate(
    input: &str,
    floats: &FloatReadings,
    r: Result<PredicateExpr, ParseError>,
)
    requires
        call_ensures(parse_predicate_expr, (input, floats), r),
    ensures
        input@.len() > 65_536 ==> r is Err && r->Err_0@ == (ParseErrorView::TooLarge {
            max: 65_536,
        }),
        input@.len() <= 65_536 && (forall|i: int|
            0 <= i < input@.len() ==> (#[trigger] input@[i]) == ' ' || input@[i] == '\t' || input@[i]
                == '\n' || input@[i] == '\r') ==> r is Err && r->Err_0@ == ParseErrorView::Empty,
{
    if forall|i: int|
        0 <= i < input@.len() ==> (#[trigger] input@[i]) == ' ' || input@[i] == '\t' || input@[i]
            == '\n' || input@[i] == '\r' {
        let none: Seq<char> = seq![];
        assert forall|i: int| 0 <= i < input@.len() implies blank(#[trigger] input@[i]) by {}
        lemma_blanks(input@, none, floats.readings@);
        assert(input@ + none =~= input@);
    }
}

// ---- binding ----

/// Whether `b` is `e` with the values in place of its placeholders, and nothing else
/// changed.
pub open spec fn filled_in(e: ExprView, params: Map<Seq<char>, ColumnValue>, b: ExprView) -> bool
    decreases e,
{
    match (e, b) {
        (ExprView::Any, ExprView::Any) => true,
        (ExprView::Leaf(op, column, v), ExprView::Leaf(op2, column2, w)) => {
            &&& op2 == op
            &&& column2 == column
            &&& match v {
                ValueView::Param(name) => params.contains_key(name) && w == params[name]@,
                _ => w == v,
            }
        },
        (ExprView::And(x), ExprView::And(y)) => x.len() == y.len() && forall|i: int|
            0 <= i < x.len() ==> filled_in(#[trigger] x[i], params, y[i]),
        (ExprView::Or(x), ExprView::Or(y)) => x.len() == y.len() && forall|i: int|
            0 <= i < x.len() ==> filled_in(#[trigger] x[i], params, y[i]),
        (ExprView::Not(x), ExprView::Not(y)) => filled_in(*x, params, *y),
        _ => false,
    }
}

proof fn lemma_bound_is_filled_in(e: ExprView, params: Map<Seq<char>, ColumnValue>)
    requires
        bound(e, params) is Ok,
    ensures
        filled_in(e, params, bound(e, params)->Ok_0),
    decreases e,
{
    match e {
        ExprView::And(x) => lemma_parts_are_filled_in(x, params),
        ExprView::Or(x) => lemma_parts_are_filled_in(x, params),
        ExprView::Not(x) => lemma_bound_is_filled_in(*x, params),
        _ => {},
    }
}

proof fn lemma_parts_are_filled_in(x: Seq<ExprView>, params: Map<Seq<char>, ColumnValue>)
    requires
        bound_parts(x, params) is Ok,
    ensures
        bound_parts(x, params)->Ok_0.len() == x.len(),
        forall|i: int|
            0 <= i < x.len() ==> filled_in(
                #[trigger] x[i],
                params,
                bound_parts(x, params)->Ok_0[i],
            ),
    decreases x,
{
    if x.len() > 0 {
        let front = x.drop_last();
        lemma_parts_are_filled_in(front, params);
        lemma_bound_is_filled_in(x.last(), params);
        let y = bound_parts(x, params)->Ok_0;
        assert forall|i: int| 0 <= i < x.len() implies filled_in(#[trigger] x[i], params, y[i]) by {
            if i < front.len() {
                assert(filled_in(front[i], params, bound_parts(front, params)->Ok_0[i]));
            }
        }
    }
}

/// Binding puts each value in the place of its placeholder and changes nothing else: a
/// bound predicate asks of each column what the predicate asked, in the same way.
pub proof fn law_binding_fills_in(
    expr: &PredicateExpr,
    params: &OrderedMap<String, ColumnValue>,
    r: Result<PredicateExpr, BindError>,
)
    requires
        call_ensures(bind_params, (expr, params), r),
        r is Ok,
    ensures
        filled_in(expr@, params@, r->Ok_0@),
{
    lemma_bound_is_filled_in(expr@, params@);
}

/// A predicate mentions a placeholder exactly where it cannot be bound without a value
/// for it; a value for one that it does not mention makes no difference.
pub proof fn law_mentioned_is_needed(
    e: ExprView,
    params: Map<Seq<char>, ColumnValue>,
    name: Seq<char>,
)
    ensures
        crate::predicate_compile::mentions(e, name) ==> bound(e, params.remove(name)) is Err,
        !crate::predicate_compile::mentions(e, name) ==> bound(e, params.remove(name)) == bound(
            e,
            params,
        ),
    decreases e,
{
    match e {
        ExprView::And(x) => lemma_mentioned_parts(x, params, name),
        ExprView::Or(x) => lemma_mentioned_parts(x, params, name),
        ExprView::Not(x) => law_mentioned_is_needed(*x, params, name),
        _ => {},
    }
}

proof fn lemma_mentioned_parts(
    x: Seq<ExprView>,
    params: Map<Seq<char>, ColumnValue>,
    name: Seq<char>,
)
    ensures
        crate::predicate_compile::some_mentions(x, name) ==> bound_parts(
            x,
            params.remove(name),
        ) is Err,
        !crate::predicate_compile::some_mentions(x, name) ==> bound_parts(x, params.remove(name))
            == bound_parts(x, params),
    decreases x,
{
    if x.len() > 0 {
        lemma_mentioned_parts(x.drop_last(), params, name);
        law_mentioned_is_needed(x.last(), params, name);
    }
}

/// A placeholder without a value, or with one that is a placeholder itself, is reported
/// by its name, and so is the value of none.
pub proof fn law_binding_reports_by_name(
    expr: &PredicateExpr,
    params: &OrderedMap<String, ColumnValue>,
    r: Result<PredicateExpr, BindError>,
    op: ScopeOp,
    column: Seq<char>,
    name: Seq<char>,
)
    requires
        call_ensures(bind_params, (expr, params), r),
        expr@ == ExprView::Leaf(op, column, ValueView::Param(name)),
    ensures
        !params@.contains_key(name) ==> r is Err && r->Err_0@ == (BindErrorView::MissingParam {
            name,
        }),
        params@.contains_key(name) && params@[name] is Param ==> r is Err && r->Err_0@ == (
        BindErrorView::NestedParam { name }),
        params@.contains_key(name) && !(params@[name] is Param) && (exists|other: Seq<char>|
            other != name && #[trigger] params@.contains_key(other)) ==> r is Err
            && r->Err_0 is ExtraParam,
{
    if exists|other: Seq<char>| other != name && #[trigger] params@.contains_key(other) {
        let other = choose|other: Seq<char>| other != name && #[trigger] params@.contains_key(other);
        assert(!crate::predicate_compile::mentions(expr@, other));
    }
}

// ---- JSON ----

/// Whether a JSON value spells a value: a record whose one name is its kind.
pub open spec fn spells_value(v: ValueView, j: JsonView) -> bool {
    match v {
        ValueView::Any => j == JsonView::Text("Any"@),
        ValueView::Text(s) => j == JsonView::Record(seq![("Text"@, JsonView::Text(s))]),
        ValueView::Param(s) => j == JsonView::Record(seq![("Param"@, JsonView::Text(s))]),
        ValueView::Bool(b) => j == JsonView::Record(seq![("Bool"@, JsonView::Bool(b))]),
        ValueView::Float(f) => j == JsonView::Record(seq![("Float"@, JsonView::Real(f.debug))]),
        ValueView::Number(n) => j matches JsonView::Record(f) && f.len() == 1 && f[0].0 == "Number"@
            && match f[0].1 {
            JsonView::Unsigned(m) => m == n,
            JsonView::Negative(m) => m == n && n < 0,
            _ => false,
        },
    }
}

/// The name of a comparison in JSON.
pub open spec fn comparison_name(op: ScopeOp) -> Seq<char> {
    match op {
        ScopeOp::Eq => "Eq"@,
        ScopeOp::Ne => "Ne"@,
        ScopeOp::Lt => "Lt"@,
        ScopeOp::Gt => "Gt"@,
        ScopeOp::Le => "Le"@,
        ScopeOp::Ge => "Ge"@,
    }
}

/// Whether a JSON value spells a predicate: a record whose one name is what it is, with
/// the parts under it in order.
pub open spec fn spells(e: ExprView, j: JsonView) -> bool
    decreases e,
{
    match e {
        ExprView::Any => j == JsonView::Text("Any"@),
        ExprView::Leaf(op, column, v) => j matches JsonView::Record(f) && f.len() == 1 && f[0].0
            == comparison_name(op) && (f[0].1 matches JsonView::Record(g) && g.len() == 2 && g[0] == (
            "column"@,
            JsonView::Text(column),
        ) && g[1].0 == "value"@ && spells_value(v, g[1].1)),
        ExprView::And(x) => j matches JsonView::Record(f) && f.len() == 1 && f[0].0 == "And"@ && (
        f[0].1 matches JsonView::List(y) && x.len() == y.len() && forall|i: int|
            0 <= i < x.len() ==> spells(#[trigger] x[i], y[i])),
        ExprView::Or(x) => j matches JsonView::Record(f) && f.len() == 1 && f[0].0 == "Or"@ && (
        f[0].1 matches JsonView::List(y) && x.len() == y.len() && forall|i: int|
            0 <= i < x.len() ==> spells(#[trigger] x[i], y[i])),
        ExprView::Not(x) => j matches JsonView::Record(f) && f.len() == 1 && f[0].0 == "Not"@
            && spells(*x, f[0].1),
    }
}

proof fn lemma_spells(e: ExprView)
    ensures
        spells(e, expr_json(e)),
    decreases e,
{
    match e {
        ExprView::And(x) => lemma_spells_parts(x),
        ExprView::Or(x) => lemma_spells_parts(x),
        ExprView::Not(x) => lemma_spells(*x),
        _ => {},
    }
}

proof fn lemma_spells_parts(x: Seq<ExprView>)
    ensures
        exprs_json(x).len() == x.len(),
        forall|i: int| 0 <= i < x.len() ==> spells(#[trigger] x[i], exprs_json(x)[i]),
    decreases x,
{
    if x.len() > 0 {
        let front = x.drop_last();
        lemma_spells_parts(front);
        lemma_spells(x.last());
        assert forall|i: int| 0 <= i < x.len() implies spells(#[trigger] x[i], exprs_json(x)[i]) by {
            if i < front.len() {
                assert(spells(front[i], exprs_json(front)[i]));
            }
        }
    }
}

/// The JSON of a predicate spells it.
pub proof fn law_json_spells_the_predicate(e: &PredicateExpr, r: Json)
    requires
        call_ensures(expr_value, (e,), r),
    ensures
        spells(e@, r@),
{
    lemma_spells(e@);
}

// ---- what is refused ----

proof fn lemma_or_of(e: ExprView, rest: Seq<TokenView>, room: nat)
    requires
        writable(e),
        brackets(e) < room,
        no_more(rest),
    ensures
        or_expr(toks(e) + rest, room) == is_read(e, rest),
        toks(e).len() > 0,
{
    lemma_toks_len(e);
    let t = toks(e) + rest;
    if e is And || e is Or {
        lemma_reads_all(e, rest, room);
    } else {
        lemma_reads_part(e, rest, room);
        assert(toks_in_and(e) == toks(e));
        assert(seq![e][0] == e);
        assert(and_expr(t, room) == is_read(e, rest));
        assert(or_expr(t, room) == is_read(e, rest));
    }
}

/// What follows a predicate is refused, and said.
pub proof fn law_trailing_words_are_refused(
    input: &str,
    floats: &FloatReadings,
    r: Result<PredicateExpr, ParseError>,
    e: ExprView,
    w: Seq<char>,
)
    requires
        call_ensures(parse_predicate_expr, (input, floats), r),
        input@ == written(e) + " "@ + w,
        writable(e),
        brackets(e) < 64,
        is_word(w),
        !is_keyword(w),
        input@.len() <= 65_536,
    ensures
        r is Err,
        r->Err_0@ == ParseErrorView::TrailingInput(
            "Ident("@ + crate::text::debug_quoted(w) + ")"@,
        ),
{
    let f = floats.readings@;
    let rest = seq![TokenView::Ident(w)];
    lemma_text_reads(e, f);
    lemma_word_reads(w, f);
    lemma_keywords(w);
    lemma_space_between(written(e), w, toks(e), rest, f);
    lemma_or_of(e, rest, 64);
}

/// A bracket that is not closed is refused.
pub proof fn law_open_bracket_is_refused(
    input: &str,
    floats: &FloatReadings,
    r: Result<PredicateExpr, ParseError>,
    e: ExprView,
)
    requires
        call_ensures(parse_predicate_expr, (input, floats), r),
        input@ == "("@ + written(e),
        writable(e),
        brackets(e) < 63,
        input@.len() <= 65_536,
    ensures
        r is Err,
        r->Err_0@ == ParseErrorView::UnbalancedParens,
{
    let f = floats.readings@;
    let none: Seq<TokenView> = seq![];
    reveal_strlit("(");
    lemma_text_reads(e, f);
    assert(input@[0] == '(');
    assert(input@.skip(1) =~= written(e));
    let t = seq![TokenView::LParen] + toks(e);
    assert(tokens_of(input@, f) == Ok::<Seq<TokenView>, ParseErrorView>(t));
    lemma_or_of(e, none, 63);
    assert(toks(e) + none =~= toks(e));
    assert(t.skip(1) =~= toks(e));
    assert(t[0] == TokenView::LParen);
    assert(atom(t, 64) == Err::<Parsed, ParseErrorView>(ParseErrorView::UnbalancedParens));
    assert(not_expr(t, 64) == atom(t, 64));
    assert(and_parts(t, 64) is Err);
    assert(and_expr(t, 64) is Err);
}

/// A comparison needs a column, an operator and a value: what is missing is said.
pub proof fn law_half_comparison_is_refused(
    input: &str,
    floats: &FloatReadings,
    r: Result<PredicateExpr, ParseError>,
    w: Seq<char>,
    op: ScopeOp,
)
    requires
        call_ensures(parse_predicate_expr, (input, floats), r),
        is_word(w),
        !is_keyword(w),
        input@.len() <= 65_536,
    ensures
        input@ == w ==> r is Err && r->Err_0@ == (ParseErrorView::UnexpectedToken {
            found: "None"@,
            expected: "a comparison operator (=, !=, <, >, <=, >=)"@,
        }),
        input@ == w + " "@ + w ==> r is Err && r->Err_0@ == (ParseErrorView::UnexpectedToken {
            found: "Some("@ + ("Ident("@ + crate::text::debug_quoted(w) + ")"@) + ")"@,
            expected: "a comparison operator (=, !=, <, >, <=, >=)"@,
        }),
        input@ == w + " "@ + symbol(op) ==> r is Err && r->Err_0@ == (
        ParseErrorView::UnexpectedToken {
            found: "None"@,
            expected: "a literal (number, quoted text, true/false, or identifier)"@,
        }),
        input@ == symbol(op) ==> r is Err && r->Err_0@ == (ParseErrorView::UnexpectedToken {
            found: "Some("@ + ("Op("@ + crate::text::debug_quoted(symbol(op)) + ")"@) + ")"@,
            expected: "an identifier or '('"@,
        }),
{
    let f = floats.readings@;
    let i = seq![TokenView::Ident(w)];
    let o = seq![TokenView::Op(op)];
    lemma_word_reads(w, f);
    lemma_keywords(w);
    lemma_symbol_reads(op, f);
    lemma_space_between(w, w, i, i, f);
    lemma_space_between(w, symbol(op), i, o, f);
    lemma_refused(i);
    lemma_refused(i + i);
    lemma_refused(i + o);
    lemma_refused(o);
    let none: Seq<TokenView> = seq![];
    assert(i.skip(1) =~= none);
    assert((i + i).skip(1) =~= i);
    assert((i + o).skip(2) =~= none);
    assert((i + o)[1] == TokenView::Op(op));
    assert((i + i)[1] == TokenView::Ident(w));
    assert((i + i)[0] == TokenView::Ident(w) && (i + o)[0] == TokenView::Ident(w));
}

proof fn lemma_refused(t: Seq<TokenView>)
    requires
        t.len() > 0,
        !(t[0] is Not),
    ensures
        atom(t, 64) is Err ==> or_expr(t, 64) == Err::<Parsed, ParseErrorView>(
            atom(t, 64)->Err_0,
        ),
{
    assert(not_expr(t, 64) == atom(t, 64));
    if atom(t, 64) is Err {
        assert(and_parts(t, 64) == Err::<ParsedList, ParseErrorView>(atom(t, 64)->Err_0));
        assert(and_expr(t, 64) == Err::<Parsed, ParseErrorView>(atom(t, 64)->Err_0));
        assert(or_parts(t, 64) == Err::<ParsedList, ParseErrorView>(atom(t, 64)->Err_0));
    }
}

/// What begins no token is refused where it stands, behind space: a quote that is not
/// closed, a colon without a name, an exclamation mark without an equals sign, and any
/// other character.
pub proof fn law_stray_characters_are_refused(
    input: &str,
    floats: &FloatReadings,
    r: Result<PredicateExpr, ParseError>,
    gap: Seq<char>,
    rest: Seq<char>,
    c: char,
)
    requires
        call_ensures(parse_predicate_expr, (input, floats), r),
        forall|i: int| 0 <= i < gap.len() ==> blank(#[trigger] gap[i]),
        input@ == gap + (seq![c] + rest),
        input@.len() <= 65_536,
    ensures
        c == '\'' && !rest.contains('\'') ==> r is Err && r->Err_0@ == (
        ParseErrorView::UnexpectedEof { expected: "closing '"@ }),
        c == ':' && (rest.len() == 0 || !begins_word(rest[0])) ==> r is Err && r->Err_0@ == (
        ParseErrorView::UnexpectedToken {
            found: ":"@,
            expected: "an identifier after ':'"@,
        }),
        c == '!' && (rest.len() == 0 || rest[0] != '=') ==> r is Err && r->Err_0@ == (
        ParseErrorView::UnexpectedToken { found: "!"@, expected: "!="@ }),
        (c == '*' || c == '#' || c == ';' || c == ',' || c == '+' || c == '"') ==> r is Err
            && r->Err_0@ == (ParseErrorView::UnexpectedToken {
            found: seq![c],
            expected: "a predicate token"@,
        }),
{
    let f = floats.readings@;
    let s = seq![c] + rest;
    lemma_blanks(gap, s, f);
    assert(s[0] == c);
    assert(s.skip(1) =~= rest);
    crate::text::law_character_kinds(c);
    if c == '\'' && !rest.contains('\'') {
        assert forall|i: int| 0 <= i < rest.len() implies in_class(
            #[trigger] rest[i],
            Class::Unquoted,
        ) by {
            if rest[i] == '\'' {
                assert(rest.contains('\''));
            }
        }
        lemma_run(rest, Class::Unquoted, rest.len() as int);
    }
    if rest.len() > 0 {
        assert(s[1] == rest[0]);
    }
}

/// Whether some tokens begin with `n` negations.
spec fn begins_with_nots(t: Seq<TokenView>, n: nat) -> bool {
    n <= t.len() && forall|i: int| 0 <= i < n ==> (#[trigger] t[i]) is Not
}

proof fn lemma_nots_too_deep(t: Seq<TokenView>, n: nat, room: nat)
    requires
        begins_with_nots(t, n),
        n > room,
    ensures
        not_expr(t, room) == Err::<Parsed, ParseErrorView>(ParseErrorView::TooDeep { max: 64 }),
    decreases room,
{
    assert(t[0] is Not);
    if room > 0 {
        let rest = t.skip(1);
        assert forall|i: int| 0 <= i < n - 1 implies (#[trigger] rest[i]) is Not by {
            assert(rest[i] == t[i + 1]);
        }
        lemma_nots_too_deep(rest, (n - 1) as nat, (room - 1) as nat);
    }
}

/// `n` negations, each with a space behind it.
pub open spec fn negations(n: nat) -> Seq<char>
    decreases n,
{
    if n == 0 {
        seq![]
    } else {
        "NOT"@ + " "@ + negations((n - 1) as nat)
    }
}

proof fn lemma_negations_read(n: nat, w: Seq<char>, floats: Map<Seq<char>, Float>)
    requires
        is_word(w),
    ensures
        tokens_of(negations(n) + w, floats) is Ok,
        begins_with_nots(tokens_of(negations(n) + w, floats)->Ok_0, n),
    decreases n,
{
    if n == 0 {
        assert(negations(n) + w =~= w);
        lemma_word_reads(w, floats);
    } else {
        let back = negations((n - 1) as nat) + w;
        lemma_negations_read((n - 1) as nat, w, floats);
        lemma_connectives_read(floats);
        let t = tokens_of(back, floats)->Ok_0;
        lemma_space_between("NOT"@, back, seq![TokenView::Not], t, floats);
        assert(negations(n) + w =~= "NOT"@ + " "@ + back);
        let all = seq![TokenView::Not] + t;
        assert forall|i: int| 0 <= i < n implies (#[trigger] all[i]) is Not by {
            if i > 0 {
                assert(all[i] == t[i - 1]);
            }
        }
    }
}

/// A predicate that negates more than sixty-four times over is refused.
pub proof fn law_deep_predicate_is_refused(
    input: &str,
    floats: &FloatReadings,
    r: Result<PredicateExpr, ParseError>,
    n: nat,
    w: Seq<char>,
)
    requires
        call_ensures(parse_predicate_expr, (input, floats), r),
        input@ == negations(n) + w,
        n > 64,
        is_word(w),
        input@.len() <= 65_536,
    ensures
        r is Err,
        r->Err_0@ == (ParseErrorView::TooDeep { max: 64 }),
{
    let f = floats.readings@;
    lemma_negations_read(n, w, f);
    let t = tokens_of(input@, f)->Ok_0;
    lemma_nots_too_deep(t, n, 64);
    assert(and_parts(t, 64) is Err);
    assert(and_expr(t, 64) is Err);
}

} // verus!
