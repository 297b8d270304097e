//! What the canonical text of a scope tells: it reads back as the comparisons that it
//! was made of, so that an edit of one is seen in it.

use vstd::prelude::*;
use crate::lexer::{
    begins_word, in_class, lemma_run, lemma_run_holds, step, Class, Dialect, LexemeView, StepView,
};
use crate::numbers::{decimal, lemma_digits_round_trip, read_signed, signed_decimal};
use crate::parse_laws::{can_be_written, is_keyword, lemma_cases, symbol, value_written};
use crate::predicate::{Float, FloatReadings, ScopeOp, ValueView};
use crate::predicate_compile::{op_name, word_value};
use crate::scope::{
    after, claim_of_word, conjunction, item_token, key_text, lemma_blanks, lemma_tokens_join,
    parsed_scope, scope_text, sorted_keys, term_key, term_keys, term_of, terms_of, tokens_of,
    value_text, value_token, word_token, ScopeError, ScopeErrorView, ScopeExpr, ScopeTermView,
    ScopeToken, ScopeValueView,
};
use crate::sorting::{in_order, lemma_in_order_keeps, lemma_order_exists, order_by};
use crate::text::{lower, upper};

verus! {

/// Whether `w` is a word of a scope.
spec fn is_word(w: Seq<char>) -> bool {
    &&& w.len() > 0
    &&& begins_word(w[0])
    &&& forall|i: int| 0 <= i < w.len() ==> in_class(#[trigger] w[i], Class::Dotted)
}

/// Whether a token was read of a text.
spec fn was_read(t: ScopeToken) -> bool {
    match t {
        ScopeToken::Ident(s) => {
            &&& is_word(s)
            &&& word_token(s) == Ok::<ScopeToken, ScopeErrorView>(t)
        },
        ScopeToken::Claim(s) => {
            &&& is_word("claims."@ + s)
            &&& word_token("claims."@ + s) == Ok::<ScopeToken, ScopeErrorView>(t)
        },
        ScopeToken::Text(s) => !s.contains('\''),
        _ => true,
    }
}

proof fn lemma_item_was_read(s: Seq<char>, floats: Map<Seq<char>, Float>)
    requires
        s.len() > 0,
    ensures
        step(s, Dialect::Scope) matches StepView::Item(item, _) ==> (item_token(
            item,
            floats,
        ) matches Ok(t) ==> was_read(t)),
{
    reveal_strlit("true");
    reveal_strlit("false");
    match step(s, Dialect::Scope) {
        StepView::Item(item, _) => match item {
            LexemeView::Word(w) => {
                lemma_run_holds(s, Class::Dotted);
                assert(is_word(w)) by {
                    assert(in_class(s[0], Class::Dotted));
                    assert(w[0] == s[0]);
                    assert forall|i: int| 0 <= i < w.len() implies in_class(
                        #[trigger] w[i],
                        Class::Dotted,
                    ) by {
                        assert(w[i] == s[i]);
                    }
                }
                match word_token(w) {
                    Ok(ScopeToken::Claim(f)) => {
                        assert("claims."@ + f =~= w);
                    },
                    _ => {},
                }
            },
            LexemeView::Quoted(q) => {
                lemma_run_holds(s.skip(1), Class::Unquoted);
                assert forall|i: int| 0 <= i < q.len() implies #[trigger] q[i] != '\'' by {
                    assert(in_class(s.skip(1)[i], Class::Unquoted));
                }
            },
            _ => {},
        },
        _ => {},
    }
}

proof fn lemma_tokens_were_read(s: Seq<char>, floats: Map<Seq<char>, Float>)
    requires
        tokens_of(s, floats) is Ok,
    ensures
        forall|i: int|
            0 <= i < tokens_of(s, floats)->Ok_0.len() ==> was_read(
                #[trigger] tokens_of(s, floats)->Ok_0[i],
            ),
    decreases s.len(),
{
    if s.len() > 0 {
        lemma_item_was_read(s, floats);
        match step(s, Dialect::Scope) {
            StepView::Blank => lemma_tokens_were_read(s.skip(1), floats),
            StepView::Item(_, n) => if 0 < n <= s.len() {
                lemma_tokens_were_read(s.skip(n as int), floats);
            },
            StepView::Fault(_) => {},
        }
    }
}

/// Whether the canonical text of `v` is one token, which stands for `v`.
pub(crate) open spec fn reads_back(v: ScopeValueView, floats: Map<Seq<char>, Float>) -> bool {
    exists|t: ScopeToken|
        tokens_of(value_text(v), floats) == Ok::<Seq<ScopeToken>, ScopeErrorView>(
            seq![t],
        ) && #[trigger] value_token(t) == Some(v)
}

/// A text that one item covers is one token.
proof fn lemma_one_item(s: Seq<char>, item: LexemeView, t: ScopeToken, floats: Map<Seq<char>, Float>)
    requires
        s.len() > 0,
        step(s, Dialect::Scope) == StepView::Item(item, s.len()),
        item_token(item, floats) == Ok::<ScopeToken, ScopeErrorView>(t),
    ensures
        tokens_of(s, floats) == Ok::<Seq<ScopeToken>, ScopeErrorView>(seq![t]),
{
    let rest = s.skip(s.len() as int);
    assert(rest =~= Seq::<char>::empty());
    assert(tokens_of(rest, floats) == Ok::<Seq<ScopeToken>, ScopeErrorView>(
        Seq::<ScopeToken>::empty(),
    ));
    assert(seq![t] + Seq::<ScopeToken>::empty() =~= seq![t]);
}

proof fn lemma_word_reads(w: Seq<char>, t: ScopeToken, floats: Map<Seq<char>, Float>)
    requires
        is_word(w),
        word_token(w) == Ok::<ScopeToken, ScopeErrorView>(t),
    ensures
        tokens_of(w, floats) == Ok::<Seq<ScopeToken>, ScopeErrorView>(seq![t]),
{
    lemma_run(w, Class::Dotted, w.len() as int);
    assert(w.take(w.len() as int) =~= w);
    lemma_one_item(w, LexemeView::Word(w), t, floats);
}

proof fn lemma_quoted_reads(s: Seq<char>, floats: Map<Seq<char>, Float>)
    requires
        !s.contains('\''),
    ensures
        tokens_of("'"@ + s + "'"@, floats) == Ok::<
            Seq<ScopeToken>,
            ScopeErrorView,
        >(seq![ScopeToken::Text(s)]),
{
    reveal_strlit("'");
    let t = "'"@ + s + "'"@;
    let body = t.skip(1);
    assert(body =~= s + "'"@);
    assert forall|k: int| 0 <= k < s.len() implies in_class(#[trigger] body[k], Class::Unquoted) by {
        assert(body[k] == s[k]);
        assert(s.contains(s[k]));
    }
    assert(body[s.len() as int] == '\'');
    lemma_run(body, Class::Unquoted, s.len() as int);
    assert(body.take(s.len() as int) =~= s);
    lemma_one_item(t, LexemeView::Quoted(s), ScopeToken::Text(s), floats);
}

proof fn lemma_number_reads(n: i64, floats: Map<Seq<char>, Float>)
    ensures
        tokens_of(signed_decimal(n as int), floats) == Ok::<
            Seq<ScopeToken>,
            ScopeErrorView,
        >(seq![ScopeToken::NumberInt(n)]),
{
    let s = signed_decimal(n as int);
    let m: nat = if n < 0 {
        (-n) as nat
    } else {
        n as nat
    };
    let d = decimal(m);
    lemma_digits_round_trip(m, 10);
    assert forall|k: int| 0 <= k < d.len() implies in_class(#[trigger] d[k], Class::Digit) by {}
    lemma_run(d, Class::Digit, d.len() as int);
    if n < 0 {
        assert(s.skip(1) =~= d);
        assert(s.drop_first() =~= d);
        assert(s[1] == d[0]);
    }
    assert(s.take(s.len() as int) =~= s);
    assert(read_signed(s) == Some(n as int));
    lemma_one_item(s, LexemeView::Whole(s), ScopeToken::NumberInt(n), floats);
}

proof fn lemma_bool_reads(b: bool, floats: Map<Seq<char>, Float>)
    ensures
        reads_back(ScopeValueView::Literal(ValueView::Bool(b)), floats),
{
    reveal_strlit("true");
    reveal_strlit("false");
    reveal_strlit("TRUE");
    reveal_strlit("FALSE");
    reveal_strlit("AND");
    reveal_strlit("OR");
    reveal_strlit("NOT");
    let w = if b {
        "true"@
    } else {
        "false"@
    };
    let up = if b {
        "TRUE"@
    } else {
        "FALSE"@
    };
    assert(upper(w) =~= up);
    assert(up.len() != "AND"@.len() && up.len() != "OR"@.len());
    assert("TRUE"@.len() != "FALSE"@.len());
    let t = ScopeToken::Text(w);
    lemma_word_reads(w, t, floats);
    assert("true"@.len() != "false"@.len());
    assert(value_token(t) == Some(ScopeValueView::Literal(ValueView::Bool(b))));
}

proof fn lemma_value_reads(t: ScopeToken, floats: Map<Seq<char>, Float>)
    requires
        was_read(t),
        t !is NumberFloat,
        value_token(t) is Some,
    ensures
        reads_back(value_token(t)->0, floats),
{
    let v = value_token(t)->0;
    match t {
        ScopeToken::Claim(s) => lemma_word_reads("claims."@ + s, t, floats),
        ScopeToken::NumberInt(n) => lemma_number_reads(n, floats),
        ScopeToken::Text(s) => match word_value(s) {
            ValueView::Bool(b) => lemma_bool_reads(b, floats),
            _ => {
                lemma_quoted_reads(s, floats);
                assert(value_token(ScopeToken::Text(s)) == Some(v));
            },
        },
        ScopeToken::Ident(s) => match word_value(s) {
            ValueView::Bool(b) => lemma_bool_reads(b, floats),
            _ => {
                assert(!s.contains('\'')) by {
                    if s.contains('\'') {
                        let i = choose|i: int| 0 <= i < s.len() && s[i] == '\'';
                        assert(in_class(s[i], Class::Dotted));
                    }
                }
                lemma_quoted_reads(s, floats);
                assert(value_token(ScopeToken::Text(s)) == Some(v));
            },
        },
        _ => {},
    }
}

/// Whether a comparison reads back.
spec fn term_reads(t: ScopeTermView, floats: Map<Seq<char>, Float>) -> bool {
    &&& was_read(ScopeToken::Ident(t.column))
    &&& reads_back(t.value, floats)
}

/// Whether none of the comparisons has a number with a decimal point.
pub open spec fn no_decimals(terms: Seq<ScopeTermView>) -> bool {
    forall|i: int|
        0 <= i < terms.len() ==> !((#[trigger] terms[i]).value matches ScopeValueView::Literal(
            ValueView::Float(_),
        ))
}

proof fn lemma_terms_read(t: Seq<ScopeToken>, floats: Map<Seq<char>, Float>)
    requires
        forall|i: int| 0 <= i < t.len() ==> was_read(#[trigger] t[i]),
        terms_of(t) is Ok,
        no_decimals(terms_of(t)->Ok_0),
    ensures
        terms_of(t)->Ok_0.len() > 0,
        forall|i: int|
            0 <= i < terms_of(t)->Ok_0.len() ==> term_reads(
                #[trigger] terms_of(t)->Ok_0[i],
                floats,
            ),
    decreases t.len(),
{
    let terms = terms_of(t)->Ok_0;
    assert(terms[0] == term_of(t)->Ok_0);
    assert(was_read(t[0]));
    assert(was_read(t[2]));
    lemma_value_reads(t[2], floats);
    if t.len() > 3 {
        let rest = t.skip(4);
        assert forall|i: int| 0 <= i < rest.len() implies was_read(#[trigger] rest[i]) by {
            assert(rest[i] == t[i + 4]);
        }
        let more = terms_of(rest)->Ok_0;
        assert forall|i: int| 0 <= i < more.len() implies !((#[trigger] more[i]).value matches
            ScopeValueView::Literal(ValueView::Float(_))) by {
            assert(terms[i + 1] == more[i]);
        }
        lemma_terms_read(rest, floats);
        assert forall|i: int| 0 <= i < terms.len() implies term_reads(
            #[trigger] terms[i],
            floats,
        ) by {
            if i > 0 {
                assert(terms[i] == more[i - 1]);
            }
        }
    }
}

/// The token of a value.
spec fn token_of_value(v: ScopeValueView, floats: Map<Seq<char>, Float>) -> ScopeToken {
    choose|t: ScopeToken|
        tokens_of(value_text(v), floats) == Ok::<Seq<ScopeToken>, ScopeErrorView>(
            seq![t],
        ) && #[trigger] value_token(t) == Some(v)
}

/// The tokens of a comparison.
spec fn term_tokens(t: ScopeTermView, floats: Map<Seq<char>, Float>) -> Seq<ScopeToken> {
    seq![
        ScopeToken::Ident(t.column),
        ScopeToken::Op(t.op),
        token_of_value(t.value, floats),
    ]
}

proof fn lemma_op_reads(op: ScopeOp, floats: Map<Seq<char>, Float>)
    ensures
        tokens_of(op_name(op), floats) == Ok::<Seq<ScopeToken>, ScopeErrorView>(
            seq![ScopeToken::Op(op)],
        ),
{
    reveal_strlit("=");
    reveal_strlit("!=");
    reveal_strlit("<");
    reveal_strlit(">");
    reveal_strlit("<=");
    reveal_strlit(">=");
    lemma_one_item(op_name(op), LexemeView::Op(op), ScopeToken::Op(op), floats);
}

/// What stands before and behind a space is read apart.
proof fn lemma_space_between(front: Seq<char>, back: Seq<char>, floats: Map<Seq<char>, Float>)
    requires
        tokens_of(front, floats) is Ok,
    ensures
        tokens_of(front + " "@ + back, floats) == after(
            tokens_of(front, floats)->Ok_0,
            tokens_of(back, floats),
        ),
{
    reveal_strlit(" ");
    assert(front + " "@ + back =~= front + (" "@ + back));
    lemma_tokens_join(front, " "@ + back, floats);
    lemma_blanks(" "@, back, floats);
}

proof fn lemma_key_reads(t: ScopeTermView, floats: Map<Seq<char>, Float>)
    requires
        term_reads(t, floats),
    ensures
        tokens_of(key_text(term_key(t)), floats) == Ok::<
            Seq<ScopeToken>,
            ScopeErrorView,
        >(term_tokens(t, floats)),
        value_token(token_of_value(t.value, floats)) == Some(t.value),
{
    let v = token_of_value(t.value, floats);
    lemma_word_reads(t.column, ScopeToken::Ident(t.column), floats);
    lemma_op_reads(t.op, floats);
    let front = t.column + " "@ + op_name(t.op);
    lemma_space_between(t.column, op_name(t.op), floats);
    lemma_space_between(front, value_text(t.value), floats);
    assert((seq![ScopeToken::Ident(t.column)] + seq![ScopeToken::Op(t.op)]) + seq![v]
        =~= term_tokens(t, floats));
}

/// The tokens of comparisons with `AND` between them.
spec fn all_tokens(terms: Seq<ScopeTermView>, floats: Map<Seq<char>, Float>) -> Seq<ScopeToken>
    decreases terms.len(),
{
    if terms.len() == 0 {
        seq![]
    } else if terms.len() == 1 {
        term_tokens(terms[0], floats)
    } else {
        all_tokens(terms.drop_last(), floats) + seq![ScopeToken::And] + term_tokens(
            terms.last(),
            floats,
        )
    }
}

/// What stands before and behind an `AND` is read apart.
proof fn lemma_and_between(front: Seq<char>, back: Seq<char>, floats: Map<Seq<char>, Float>)
    requires
        tokens_of(front, floats) is Ok,
        tokens_of(back, floats) is Ok,
    ensures
        tokens_of(front + " AND "@ + back, floats) == Ok::<Seq<ScopeToken>, ScopeErrorView>(
            tokens_of(front, floats)->Ok_0 + seq![ScopeToken::And] + tokens_of(
                back,
                floats,
            )->Ok_0,
        ),
{
    lemma_and_reads(floats);
    lemma_space_between(front, "AND"@, floats);
    lemma_space_between(front + " "@ + "AND"@, back, floats);
    assert(front + " AND "@ + back =~= front + " "@ + "AND"@ + " "@ + back) by {
        reveal_strlit(" AND ");
        reveal_strlit(" ");
        reveal_strlit("AND");
    }
}

proof fn lemma_and_reads(floats: Map<Seq<char>, Float>)
    ensures
        tokens_of("AND"@, floats) == Ok::<Seq<ScopeToken>, ScopeErrorView>(
            seq![ScopeToken::And],
        ),
{
    reveal_strlit("AND");
    assert(upper("AND"@) =~= "AND"@);
    lemma_word_reads("AND"@, ScopeToken::And, floats);
}

proof fn lemma_conjunction_reads(terms: Seq<ScopeTermView>, floats: Map<Seq<char>, Float>)
    requires
        terms.len() > 0,
        forall|i: int| 0 <= i < terms.len() ==> term_reads(#[trigger] terms[i], floats),
    ensures
        tokens_of(conjunction(term_keys(terms)), floats) == Ok::<
            Seq<ScopeToken>,
            ScopeErrorView,
        >(all_tokens(terms, floats)),
    decreases terms.len(),
{
    let keys = term_keys(terms);
    lemma_key_reads(terms[terms.len() - 1], floats);
    if terms.len() > 1 {
        let front = terms.drop_last();
        assert forall|i: int| 0 <= i < front.len() implies term_reads(
            #[trigger] front[i],
            floats,
        ) by {
            assert(front[i] == terms[i]);
        }
        lemma_conjunction_reads(front, floats);
        assert(term_keys(front) =~= keys.drop_last());
        assert(keys.last() == term_key(terms.last()));
        lemma_and_between(conjunction(term_keys(front)), key_text(keys.last()), floats);
    }
}

proof fn lemma_first_tokens(terms: Seq<ScopeTermView>, floats: Map<Seq<char>, Float>)
    requires
        terms.len() > 1,
    ensures
        all_tokens(terms, floats) == term_tokens(terms[0], floats) + seq![ScopeToken::And]
            + all_tokens(terms.drop_first(), floats),
    decreases terms.len(),
{
    let front = terms.drop_last();
    let back = terms.drop_first();
    let first = term_tokens(terms[0], floats);
    let last = term_tokens(terms.last(), floats);
    let and = seq![ScopeToken::And];
    if terms.len() == 2 {
        assert(front.len() == 1 && front[0] == terms[0]);
        assert(back.len() == 1 && back[0] == terms.last());
        assert(all_tokens(front, floats) == first);
        assert(all_tokens(back, floats) == last);
    } else {
        lemma_first_tokens(front, floats);
        assert(front.drop_first() =~= back.drop_last());
        assert(back.last() == terms.last());
        let mid = all_tokens(back.drop_last(), floats);
        assert(front[0] == terms[0]);
        assert(all_tokens(back, floats) == mid + and + last);
        assert(all_tokens(terms, floats) == all_tokens(front, floats) + and + last);
        assert(first + and + mid + and + last =~= first + and + (mid + and + last));
    }
}

proof fn lemma_terms_of_tokens(terms: Seq<ScopeTermView>, floats: Map<Seq<char>, Float>)
    requires
        terms.len() > 0,
        forall|i: int| 0 <= i < terms.len() ==> term_reads(#[trigger] terms[i], floats),
    ensures
        all_tokens(terms, floats).len() > 0,
        terms_of(all_tokens(terms, floats)) == Ok::<
            Seq<ScopeTermView>,
            ScopeErrorView,
        >(terms),
    decreases terms.len(),
{
    let t = all_tokens(terms, floats);
    lemma_key_reads(terms[0], floats);
    if terms.len() == 1 {
        assert(term_of(t)->Ok_0 == terms[0]);
        assert(terms =~= seq![terms[0]]);
    } else {
        let back = terms.drop_first();
        assert forall|i: int| 0 <= i < back.len() implies term_reads(#[trigger] back[i], floats) by {
            assert(back[i] == terms[i + 1]);
        }
        lemma_first_tokens(terms, floats);
        lemma_terms_of_tokens(back, floats);
        assert(t[0] == ScopeToken::Ident(terms[0].column));
        assert(t[1] == ScopeToken::Op(terms[0].op));
        assert(t[2] == token_of_value(terms[0].value, floats));
        assert(t[3] == ScopeToken::And);
        assert(t.skip(4) =~= all_tokens(back, floats));
        assert(seq![terms[0]] + back =~= terms);
    }
}

/// The comparisons in the order of the canonical text.
pub open spec fn ordered_terms(terms: Seq<ScopeTermView>) -> Seq<ScopeTermView> {
    in_order::<(String, (String, String)), ScopeTermView>(terms, term_keys(terms))
}

/// The canonical text of a scope reads back as the comparisons of the scope, in their
/// order. It is stated of scopes without a number with a decimal point.
pub proof fn law_canonical_reads_back(s: Seq<char>, floats: Map<Seq<char>, Float>)
    requires
        parsed_scope(s, floats) is Ok,
        no_decimals(parsed_scope(s, floats)->Ok_0),
    ensures
        parsed_scope(scope_text(parsed_scope(s, floats)->Ok_0), floats) == Ok::<
            Seq<ScopeTermView>,
            ScopeErrorView,
        >(ordered_terms(parsed_scope(s, floats)->Ok_0)),
{
    let terms = parsed_scope(s, floats)->Ok_0;
    let p = ordered_terms(terms);
    let r = order_by::<(String, (String, String))>(term_keys(terms));
    lemma_tokens_were_read(s, floats);
    lemma_terms_read(tokens_of(s, floats)->Ok_0, floats);
    lemma_order_exists::<(String, (String, String))>(term_keys(terms));
    assert forall|i: int| 0 <= i < p.len() implies term_reads(#[trigger] p[i], floats) by {
        assert(0 <= r[i] < terms.len());
        assert(p[i] == terms[r[i]]);
    }
    assert(sorted_keys(terms) =~= term_keys(p)) by {
        assert forall|i: int| 0 <= i < p.len() implies sorted_keys(terms)[i] == term_keys(p)[i] by {
            assert(0 <= r[i] < terms.len());
        }
    }
    lemma_conjunction_reads(p, floats);
    lemma_terms_of_tokens(p, floats);
}

/// Scopes with different comparisons have different canonical texts. It is stated of
/// scopes without a number with a decimal point.
pub proof fn law_scope_edit_is_seen(a: Seq<char>, b: Seq<char>, floats: Map<Seq<char>, Float>)
    requires
        parsed_scope(a, floats) is Ok,
        parsed_scope(b, floats) is Ok,
        no_decimals(parsed_scope(a, floats)->Ok_0),
        no_decimals(parsed_scope(b, floats)->Ok_0),
        parsed_scope(a, floats)->Ok_0.to_multiset() != parsed_scope(
            b,
            floats,
        )->Ok_0.to_multiset(),
    ensures
        scope_text(parsed_scope(a, floats)->Ok_0) != scope_text(parsed_scope(b, floats)->Ok_0),
{
    let x = parsed_scope(a, floats)->Ok_0;
    let y = parsed_scope(b, floats)->Ok_0;
    law_canonical_reads_back(a, floats);
    law_canonical_reads_back(b, floats);
    lemma_in_order_keeps::<(String, (String, String)), ScopeTermView>(x, term_keys(x));
    lemma_in_order_keeps::<(String, (String, String)), ScopeTermView>(y, term_keys(y));
}

// ---- scopes written out ----

/// Whether a value can be written in a scope: a claim by a name without a dot, a text
/// without a quote that is no word for a truth value, a number or a truth value.
pub open spec fn scope_value_can_be_written(v: ScopeValueView) -> bool {
    match v {
        ScopeValueView::Claim(field) => field.len() > 0 && forall|i: int|
            0 <= i < field.len() ==> in_class(#[trigger] field[i], Class::Word),
        ScopeValueView::Literal(ValueView::Param(_)) => false,
        ScopeValueView::Literal(x) => can_be_written(x),
    }
}

/// How a value is written in a scope: a claim behind `claims.`, a constant as in a
/// predicate.
pub open spec fn scope_value_written(v: ScopeValueView) -> Seq<char> {
    match v {
        ScopeValueView::Claim(field) => "claims."@ + field,
        ScopeValueView::Literal(x) => value_written(x),
    }
}

/// A comparison of a scope, written out.
pub open spec fn term_written(t: ScopeTermView) -> Seq<char> {
    t.column + " "@ + symbol(t.op) + " "@ + scope_value_written(t.value)
}

/// The comparisons of a scope with `AND` between them.
pub open spec fn scope_written(terms: Seq<ScopeTermView>) -> Seq<char>
    decreases terms.len(),
{
    if terms.len() == 0 {
        seq![]
    } else if terms.len() == 1 {
        term_written(terms[0])
    } else {
        scope_written(terms.drop_last()) + " AND "@ + term_written(terms.last())
    }
}

proof fn lemma_scope_word(w: Seq<char>)
    requires
        crate::parse_laws::is_word(w),
        !is_keyword(w),
    ensures
        was_read(ScopeToken::Ident(w)),
{
    lemma_keyword_cases(w);
    assert forall|i: int| 0 <= i < w.len() implies in_class(#[trigger] w[i], Class::Dotted) by {
        assert(in_class(w[i], Class::Word));
    }
    if w.contains('.') {
        let i = choose|i: int| 0 <= i < w.len() && w[i] == '.';
        assert(in_class(w[i], Class::Word));
        crate::text::law_character_kinds('.');
    }
}

proof fn lemma_keyword_cases(w: Seq<char>)
    ensures
        is_keyword(w) <==> upper(w) == "AND"@ || upper(w) == "OR"@ || upper(w) == "NOT"@ || upper(w)
            == "TRUE"@ || upper(w) == "FALSE"@,
        lower(w) == "true"@ <==> upper(w) == "TRUE"@,
        lower(w) == "false"@ <==> upper(w) == "FALSE"@,
{
    reveal_strlit("and");
    reveal_strlit("or");
    reveal_strlit("not");
    reveal_strlit("true");
    reveal_strlit("false");
    reveal_strlit("AND");
    reveal_strlit("OR");
    reveal_strlit("NOT");
    reveal_strlit("TRUE");
    reveal_strlit("FALSE");
    lemma_cases(w, "and"@, "AND"@);
    lemma_cases(w, "or"@, "OR"@);
    lemma_cases(w, "not"@, "NOT"@);
    lemma_cases(w, "true"@, "TRUE"@);
    lemma_cases(w, "false"@, "FALSE"@);
}

pub(crate) proof fn lemma_scope_value(v: ScopeValueView, floats: Map<Seq<char>, Float>)
    requires
        scope_value_can_be_written(v),
    ensures
        reads_back(v, floats),
        scope_value_written(v) == value_text(v),
{
    match v {
        ScopeValueView::Claim(field) => {
            let w = "claims."@ + field;
            reveal_strlit("claims.");
            reveal_strlit("AND");
            reveal_strlit("OR");
            reveal_strlit("NOT");
            reveal_strlit("TRUE");
            reveal_strlit("FALSE");
            assert(w.len() > 7);
            assert("AND"@.len() == 3 && "OR"@.len() == 2 && "NOT"@.len() == 3 && "TRUE"@.len() == 4
                && "FALSE"@.len() == 5);
            assert(upper(w).len() == w.len());
            assert(w[6] == '.');
            assert(w.contains('.'));
            assert(w.take(7) =~= "claims."@);
            assert(w.skip(7) =~= field);
            if field.contains('.') {
                let i = choose|i: int| 0 <= i < field.len() && field[i] == '.';
                assert(in_class(field[i], Class::Word));
                crate::text::law_character_kinds('.');
            }
            assert(is_word(w)) by {
                assert forall|i: int| 0 <= i < w.len() implies in_class(
                    #[trigger] w[i],
                    Class::Dotted,
                ) by {
                    if i >= 7 {
                        assert(w[i] == field[i - 7]);
                        assert(in_class(field[i - 7], Class::Word));
                    } else {
                        crate::text::law_character_kinds(w[i]);
                    }
                }
                crate::text::law_character_kinds(w[0]);
            }
            lemma_word_reads(w, ScopeToken::Claim(field), floats);
            assert(value_token(ScopeToken::Claim(field)) == Some(v));
        },
        ScopeValueView::Literal(ValueView::Text(s)) => {
            lemma_quoted_reads(s, floats);
            assert(value_token(ScopeToken::Text(s)) == Some(v));
        },
        ScopeValueView::Literal(ValueView::Number(n)) => {
            lemma_number_reads(n, floats);
            assert(value_token(ScopeToken::NumberInt(n)) == Some(v));
        },
        ScopeValueView::Literal(ValueView::Bool(b)) => lemma_bool_reads(b, floats),
        _ => {},
    }
}

proof fn lemma_scope_written(terms: Seq<ScopeTermView>, floats: Map<Seq<char>, Float>)
    requires
        forall|i: int|
            0 <= i < terms.len() ==> scope_value_can_be_written((#[trigger] terms[i]).value),
    ensures
        scope_written(terms) == conjunction(term_keys(terms)),
    decreases terms.len(),
{
    let keys = term_keys(terms);
    if terms.len() > 0 {
        let last = terms[terms.len() - 1];
        lemma_scope_value(last.value, floats);
        assert(symbol(last.op) == op_name(last.op));
        assert(key_text(keys.last()) == term_written(last));
        if terms.len() > 1 {
            let front = terms.drop_last();
            assert forall|i: int| 0 <= i < front.len() implies scope_value_can_be_written(
                (#[trigger] front[i]).value,
            ) by {
                assert(front[i] == terms[i]);
            }
            lemma_scope_written(front, floats);
            assert(term_keys(front) =~= keys.drop_last());
        }
    }
}

/// A scope that is written out reads back as its comparisons, each with its own column,
/// operator and value, in order.
pub proof fn law_written_scope_reads_back(
    input: &str,
    floats: &FloatReadings,
    r: Result<ScopeExpr, ScopeError>,
    terms: Seq<ScopeTermView>,
)
    requires
        call_ensures(ScopeExpr::parse, (input, floats), r),
        input@ == scope_written(terms),
        terms.len() > 0,
        forall|i: int|
            0 <= i < terms.len() ==> crate::parse_laws::is_word((#[trigger] terms[i]).column)
                && !is_keyword(terms[i].column) && scope_value_can_be_written(terms[i].value),
    ensures
        r is Ok,
        r->Ok_0@ == terms,
{
    let f = floats.readings@;
    lemma_scope_written(terms, f);
    assert forall|i: int| 0 <= i < terms.len() implies term_reads(#[trigger] terms[i], f) by {
        lemma_scope_word(terms[i].column);
        lemma_scope_value(terms[i].value, f);
    }
    lemma_conjunction_reads(terms, f);
    lemma_terms_of_tokens(terms, f);
}

/// Alternatives, negations and brackets are refused in a scope, as is a text with
/// nothing in it.
pub proof fn law_scopes_are_conjunctions(
    input: &str,
    floats: &FloatReadings,
    r: Result<ScopeExpr, ScopeError>,
    term: ScopeTermView,
)
    requires
        call_ensures(ScopeExpr::parse, (input, floats), r),
        crate::parse_laws::is_word(term.column),
        !is_keyword(term.column),
        scope_value_can_be_written(term.value),
    ensures
        input@ == "NOT "@ + term_written(term) ==> r is Err && r->Err_0@
            == ScopeErrorView::Unsupported("NOT"@),
        input@ == term_written(term) + " OR "@ + term_written(term) ==> r is Err && r->Err_0@
            == ScopeErrorView::Unsupported("OR"@),
        input@.len() == 0 ==> r is Err && r->Err_0@ == ScopeErrorView::Empty,
{
    let f = floats.readings@;
    let s = seq![term];
    lemma_scope_value(term.value, f);
    lemma_scope_word(term.column);
    assert(symbol(term.op) == op_name(term.op));
    assert(key_text(term_key(term)) == term_written(term));
    lemma_key_reads(term, f);
    reveal_strlit("NOT");
    reveal_strlit("OR");
    reveal_strlit("AND");
    reveal_strlit("not");
    reveal_strlit("or");
    reveal_strlit("NOT ");
    reveal_strlit(" OR ");
    reveal_strlit(" ");
    assert(upper("NOT"@) =~= "NOT"@);
    assert(upper("OR"@) =~= "OR"@);
    assert("NOT"@[0] == 'N' && "AND"@[0] == 'A' && "OR"@.len() == 2);
    lemma_word_reads("NOT"@, ScopeToken::Not, f);
    lemma_word_reads("OR"@, ScopeToken::Or, f);
    let w = term_written(term);
    let t = term_tokens(term, f);
    if input@ == "NOT "@ + w {
        assert("NOT "@ + w =~= "NOT"@ + " "@ + w);
        lemma_space_between("NOT"@, w, f);
        assert((seq![ScopeToken::Not] + t)[0] == ScopeToken::Not);
    }
    if input@ == w + " OR "@ + w {
        assert(w + " OR "@ + w =~= w + " "@ + "OR"@ + " "@ + w);
        lemma_space_between(w, "OR"@, f);
        lemma_space_between(w + " "@ + "OR"@, w, f);
        let all = t + seq![ScopeToken::Or] + t;
        assert(all[0] == t[0] && all[1] == t[1] && all[2] == t[2] && all[3] == ScopeToken::Or);
        assert(term_of(all) is Ok);
    }
}

// ---- what is refused ----

proof fn lemma_scope_keywords_read(floats: Map<Seq<char>, Float>)
    ensures
        tokens_of("OR"@, floats) == Ok::<Seq<ScopeToken>, ScopeErrorView>(seq![ScopeToken::Or]),
        tokens_of("NOT"@, floats) == Ok::<Seq<ScopeToken>, ScopeErrorView>(seq![ScopeToken::Not]),
        tokens_of("("@, floats) == Ok::<Seq<ScopeToken>, ScopeErrorView>(seq![ScopeToken::LParen]),
        tokens_of(")"@, floats) == Ok::<Seq<ScopeToken>, ScopeErrorView>(seq![ScopeToken::RParen]),
{
    reveal_strlit("AND");
    reveal_strlit("OR");
    reveal_strlit("NOT");
    reveal_strlit("(");
    reveal_strlit(")");
    assert(upper("OR"@) =~= "OR"@);
    assert(upper("NOT"@) =~= "NOT"@);
    assert("OR"@.len() == 2 && "AND"@[0] == 'A' && "NOT"@[0] == 'N');
    lemma_word_reads("OR"@, ScopeToken::Or, floats);
    lemma_word_reads("NOT"@, ScopeToken::Not, floats);
    lemma_one_item("("@, LexemeView::Open, ScopeToken::LParen, floats);
    lemma_one_item(")"@, LexemeView::Close, ScopeToken::RParen, floats);
}

/// A scope is comparisons joined by `AND`: alternatives, negations and brackets are
/// refused by name, at the start and behind a comparison.
pub proof fn law_scopes_only_join(
    input: &str,
    floats: &FloatReadings,
    r: Result<ScopeExpr, ScopeError>,
    terms: Seq<ScopeTermView>,
    word: Seq<char>,
)
    requires
        call_ensures(ScopeExpr::parse, (input, floats), r),
        word == "OR"@ || word == "NOT"@ || word == "("@ || word == ")"@,
        forall|i: int|
            0 <= i < terms.len() ==> crate::parse_laws::is_word((#[trigger] terms[i]).column)
                && !is_keyword(terms[i].column) && scope_value_can_be_written(terms[i].value),
        terms.len() == 0 ==> input@ == word,
        terms.len() == 1 ==> input@ == scope_written(terms) + " "@ + word,
        terms.len() <= 1,
    ensures
        r is Err,
        r->Err_0@ == ScopeErrorView::Unsupported(word),
{
    let f = floats.readings@;
    lemma_scope_keywords_read(f);
    let t = tokens_of(word, f)->Ok_0;
    reveal_strlit("OR");
    reveal_strlit("NOT");
    reveal_strlit("(");
    reveal_strlit(")");
    assert("OR"@[0] == 'O' && "NOT"@[0] == 'N' && "("@[0] == '(' && ")"@[0] == ')');
    if terms.len() == 1 {
        lemma_scope_written(terms, f);
        assert forall|i: int| 0 <= i < terms.len() implies term_reads(#[trigger] terms[i], f) by {
            lemma_scope_word(terms[i].column);
            lemma_scope_value(terms[i].value, f);
        }
        lemma_conjunction_reads(terms, f);
        lemma_terms_of_tokens(terms, f);
        lemma_key_reads(terms[0], f);
        lemma_space_between(scope_written(terms), word, f);
        let all = all_tokens(terms, f) + t;
        assert(all_tokens(terms, f) == term_tokens(terms[0], f));
        assert(all[0] == ScopeToken::Ident(terms[0].column));
        assert(all[1] == ScopeToken::Op(terms[0].op));
        assert(all[2] == token_of_value(terms[0].value, f));
        assert(all[3] == t[0]);
        assert(term_of(all) is Ok);
    }
}

/// A comparison needs a column, an operator and a value: what is missing is said. A
/// dotted word that names no claim is refused.
pub proof fn law_half_scope_is_refused(
    input: &str,
    floats: &FloatReadings,
    r: Result<ScopeExpr, ScopeError>,
    w: Seq<char>,
    v: Seq<char>,
    op: ScopeOp,
)
    requires
        call_ensures(ScopeExpr::parse, (input, floats), r),
        crate::parse_laws::is_word(w),
        !is_keyword(w),
        crate::parse_laws::is_word(v),
        !is_keyword(v),
    ensures
        input@ == w ==> r is Err && r->Err_0@ == ScopeErrorView::MissingOperator(w),
        input@ == w + " "@ + w ==> r is Err && r->Err_0@ == ScopeErrorView::MissingOperator(
            "Ident("@ + crate::text::debug_quoted(w) + ")"@,
        ),
        input@ == w + " "@ + crate::parse_laws::symbol(op) ==> r is Err && r->Err_0@
            == ScopeErrorView::MissingValue(crate::parse_laws::symbol(op)),
        input@ == "claims."@ + w + "."@ + v ==> r is Err && r->Err_0@
            == ScopeErrorView::UnexpectedToken(input@),
        input@ == w + "."@ + v && w != "claims"@ ==> r is Err && r->Err_0@
            == ScopeErrorView::UnexpectedToken(input@),
        input@.len() == 0 ==> r is Err && r->Err_0@ == ScopeErrorView::Empty,
{
    let f = floats.readings@;
    lemma_scope_word(w);
    lemma_word_reads(w, ScopeToken::Ident(w), f);
    lemma_op_reads(op, f);
    lemma_space_between(w, w, f);
    lemma_space_between(w, op_name(op), f);
    assert(op_name(op) == crate::parse_laws::symbol(op));
    let i = seq![ScopeToken::Ident(w)];
    let o = seq![ScopeToken::Op(op)];
    assert((i + i)[1] == ScopeToken::Ident(w));
    assert((i + o)[1] == ScopeToken::Op(op));
    reveal_strlit(".");
    reveal_strlit("claims.");
    reveal_strlit("claims");
    if input@ == "claims."@ + w + "."@ + v {
        let s = input@;
        assert(s[w.len() as int + 7] == '.');
        assert(s.skip(7)[w.len() as int] == '.');
        assert(s.skip(7).contains('.'));
        let back = w + "."@ + v;
        assert forall|k: int| 0 <= k < back.len() implies in_class(
            #[trigger] back[k],
            Class::Dotted,
        ) by {
            if k < w.len() {
                assert(back[k] == w[k]);
                assert(in_class(w[k], Class::Word));
            } else if k > w.len() {
                assert(back[k] == v[k - w.len() - 1]);
                assert(in_class(v[k - w.len() - 1], Class::Word));
            }
        }
        assert(s =~= "claims"@ + "."@ + back);
        assert(crate::parse_laws::is_word("claims"@));
        lemma_dotted_word(s, f, "claims"@, back);
    }
    if input@ == w + "."@ + v && w != "claims"@ {
        let s = input@;
        if s.len() > 7 && s.take(7) == "claims."@ {
            assert forall|k: int| 0 <= k < w.len() implies #[trigger] s[k] == w[k] by {}
            lemma_no_dot_in_word(w);
            assert(s.take(7)[6] == '.');
            if w.len() > 6 {
                assert(s[6] == w[6]);
                assert(w.contains('.'));
            } else if w.len() < 6 {
                assert(s[w.len() as int] == '.');
                assert(s.take(7)[w.len() as int] == "claims."@[w.len() as int]);
            } else {
                assert forall|k: int| 0 <= k < 6 implies #[trigger] w[k] == "claims"@[k] by {
                    assert(s.take(7)[k] == "claims."@[k]);
                }
                assert(w =~= "claims"@);
            }
        }
        assert forall|k: int| 0 <= k < v.len() implies in_class(#[trigger] v[k], Class::Dotted) by {
            assert(in_class(v[k], Class::Word));
        }
        lemma_dotted_word(s, f, w, v);
    }
}

proof fn lemma_no_dot_in_word(w: Seq<char>)
    requires
        crate::parse_laws::is_word(w),
    ensures
        !w.contains('.'),
{
    if w.contains('.') {
        let i = choose|i: int| 0 <= i < w.len() && w[i] == '.';
        assert(in_class(w[i], Class::Word));
        crate::text::law_character_kinds('.');
    }
}

proof fn lemma_dotted_word(s: Seq<char>, floats: Map<Seq<char>, Float>, a: Seq<char>, b: Seq<char>)
    requires
        s == a + "."@ + b,
        crate::parse_laws::is_word(a),
        forall|i: int| 0 <= i < b.len() ==> in_class(#[trigger] b[i], Class::Dotted),
        claim_of_word(s) is None,
    ensures
        tokens_of(s, floats) == Err::<Seq<ScopeToken>, ScopeErrorView>(
            ScopeErrorView::UnexpectedToken(s),
        ),
{
    reveal_strlit(".");
    let k = a.len() as int;
    assert(s[k] == '.');
    assert(s.contains('.'));
    assert forall|i: int| 0 <= i < s.len() implies in_class(#[trigger] s[i], Class::Dotted) by {
        if i < k {
            assert(s[i] == a[i]);
            assert(in_class(a[i], Class::Word));
        } else if i > k {
            assert(s[i] == b[i - k - 1]);
        }
    }
    assert(s[0] == a[0]);
    lemma_run(s, Class::Dotted, s.len() as int);
    assert(s.take(s.len() as int) =~= s);
    crate::text::law_character_kinds(s[0]);
    reveal_strlit("AND");
    reveal_strlit("OR");
    reveal_strlit("NOT");
    reveal_strlit("TRUE");
    reveal_strlit("FALSE");
    let u = upper(s);
    assert(u.len() == s.len());
    assert(u[k] == '.');
    assert(u != "AND"@ && u != "OR"@ && u != "NOT"@ && u != "TRUE"@ && u != "FALSE"@) by {
        assert(k == 0 || k == 1 || k == 2 || k == 3 || k == 4 || k > 4);
    }
    assert(word_token(s) == Err::<ScopeToken, ScopeErrorView>(ScopeErrorView::UnexpectedToken(s)));
}

} // verus!
