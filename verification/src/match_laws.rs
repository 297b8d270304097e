//! What matching is for: a comparison holds of a row exactly where the value of its
//! column stands so to the value that is asked for.

use vstd::prelude::*;
use crate::numbers::{lemma_digits_round_trip, read_signed, signed_decimal};
use crate::predicate::{
    expr_view, holds, lemma_expr_views, lemma_parts, ColumnValue, Predicate, PredicateExpr,
    PredicateFilter, Row,
};
use crate::text::{law_text_order, lemma_lex_asymmetric, lower, yields_at};

verus! {

/// The column and the value of a comparison.
pub open spec fn filter_of(e: PredicateExpr) -> Option<PredicateFilter> {
    match e {
        PredicateExpr::Eq(f) => Some(f),
        PredicateExpr::Ne(f) => Some(f),
        PredicateExpr::Lt(f) => Some(f),
        PredicateExpr::Gt(f) => Some(f),
        PredicateExpr::Le(f) => Some(f),
        PredicateExpr::Ge(f) => Some(f),
        _ => None,
    }
}

/// The answer to a comparison, where the row's value is less than the value asked for,
/// equal to it, or greater.
pub open spec fn answer(e: PredicateExpr, less: bool, equal: bool) -> bool {
    match e {
        PredicateExpr::Eq(_) => equal,
        PredicateExpr::Ne(_) => !equal,
        PredicateExpr::Lt(_) => less,
        PredicateExpr::Gt(_) => !less && !equal,
        PredicateExpr::Le(_) => less || equal,
        PredicateExpr::Ge(_) => !less,
        _ => false,
    }
}

/// The answer where two values cannot be compared: they differ, and that is all.
pub open spec fn answer_apart(e: PredicateExpr) -> bool {
    e is Ne
}

/// Whether the row has `actual` in the column of a comparison that asks for `asked`.
pub open spec fn compares(
    e: PredicateExpr,
    row: Row,
    asked: ColumnValue,
    actual: ColumnValue,
) -> bool {
    filter_of(e) matches Some(f) && f.value == asked && row.columns@.contains_key(f.column@)
        && row.columns@[f.column@] == actual
}

/// Numbers compare by size.
pub proof fn law_numbers_compare(e: &PredicateExpr, row: &Row, r: bool, a: i64, b: i64)
    requires
        call_ensures(PredicateExpr::matches, (e, row), r),
        compares(*e, *row, ColumnValue::Number(b), ColumnValue::Number(a)),
    ensures
        r == answer(*e, a < b, a == b),
{
}

/// Texts compare as in a dictionary: by the first character that differs, the shorter
/// first where none does.
pub proof fn law_texts_compare(e: &PredicateExpr, row: &Row, r: bool, a: String, b: String)
    requires
        call_ensures(PredicateExpr::matches, (e, row), r),
        compares(*e, *row, ColumnValue::Text(b), ColumnValue::Text(a)),
    ensures
        r == answer(*e, exists|k: int| #[trigger] yields_at(a@, b@, k), a@ == b@),
        (exists|k: int| #[trigger] yields_at(b@, a@, k)) ==> r == answer(*e, false, false),
{
    law_text_order(a@, b@);
    law_text_order(b@, a@);
    if crate::text::lex_lt(b@, a@) {
        lemma_lex_asymmetric(b@, a@);
    }
}

/// Of the two truth values false is the lesser.
pub proof fn law_truths_compare(e: &PredicateExpr, row: &Row, r: bool, a: bool, b: bool)
    requires
        call_ensures(PredicateExpr::matches, (e, row), r),
        compares(*e, *row, ColumnValue::Bool(b), ColumnValue::Bool(a)),
    ensures
        r == answer(*e, !a && b, a == b),
{
}

/// Whether the bits are those of no number.
pub open spec fn no_number(bits: u64) -> bool {
    bits > 0xfff0_0000_0000_0000 || 0x7ff0_0000_0000_0000 < bits < 0x8000_0000_0000_0000
}

/// Whether the float with the bits `a` is less than the one with the bits `b`: of two
/// with the sign of plus the one with the smaller bits, of two with the sign of minus
/// the one with the larger, and minus before plus, except that the two zeros are equal.
pub open spec fn float_less(a: u64, b: u64) -> bool {
    if a < 0x8000_0000_0000_0000 && b < 0x8000_0000_0000_0000 {
        a < b
    } else if a >= 0x8000_0000_0000_0000 && b >= 0x8000_0000_0000_0000 {
        a > b
    } else {
        a >= 0x8000_0000_0000_0000 && !(a == 0x8000_0000_0000_0000 && b == 0)
    }
}

/// Floats compare by size, and the two zeros are equal. What is no number differs from
/// everything and is in no order.
pub proof fn law_floats_compare(
    e: &PredicateExpr,
    row: &Row,
    r: bool,
    a: crate::predicate::Float,
    b: crate::predicate::Float,
)
    requires
        call_ensures(PredicateExpr::matches, (e, row), r),
        compares(*e, *row, ColumnValue::Float(b), ColumnValue::Float(a)),
    ensures
        no_number(a.bits) || no_number(b.bits) ==> r == answer_apart(*e),
        !no_number(a.bits) && !no_number(b.bits) ==> r == answer(
            *e,
            float_less(a.bits, b.bits),
            !float_less(a.bits, b.bits) && !float_less(b.bits, a.bits),
        ),
{
}

/// A text that writes a number compares with numbers as that number.
pub proof fn law_text_compares_as_its_number(
    e: &PredicateExpr,
    row: &Row,
    r: bool,
    s: String,
    a: i64,
    b: i64,
)
    requires
        call_ensures(PredicateExpr::matches, (e, row), r),
        compares(*e, *row, ColumnValue::Number(b), ColumnValue::Text(s)),
        s@ == signed_decimal(a as int),
    ensures
        r == answer(*e, a < b, a == b),
{
    lemma_signed_round_trip(a);
}

pub(crate) proof fn lemma_signed_round_trip(n: i64)
    ensures
        read_signed(signed_decimal(n as int)) == Some(n as int),
        signed_decimal(n as int).len() > 0,
{
    let s = signed_decimal(n as int);
    if n < 0 {
        lemma_digits_round_trip((-n) as nat, 10);
        assert(s.drop_first() =~= crate::numbers::decimal((-n) as nat));
    } else {
        crate::numbers::lemma_decimal_round_trip(n as nat, 0x7fff_ffff_ffff_ffff);
        lemma_digits_round_trip(n as nat, 10);
        assert(crate::numbers::is_digit(s[0], 10));
    }
}

/// A text that writes a truth value, as a word in any case or as one of the digits 1
/// and 0, compares with truth values as that one; any other text differs from both.
pub proof fn law_text_compares_as_its_truth(
    e: &PredicateExpr,
    row: &Row,
    r: bool,
    s: String,
    b: bool,
)
    requires
        call_ensures(PredicateExpr::matches, (e, row), r),
        compares(*e, *row, ColumnValue::Bool(b), ColumnValue::Text(s)),
    ensures
        lower(s@) == "true"@ || s@ == "1"@ ==> r == answer(*e, false, b),
        lower(s@) == "false"@ || s@ == "0"@ ==> r == answer(*e, b, !b),
        lower(s@) != "true"@ && lower(s@) != "false"@ && s@ != "1"@ && s@ != "0"@ ==> r
            == answer_apart(*e),
{
    reveal_strlit("true");
    reveal_strlit("false");
    reveal_strlit("1");
    reveal_strlit("0");
    assert("true"@.len() == 4 && "false"@.len() == 5 && "1"@.len() == 1 && "0"@.len() == 1);
    assert("1"@[0] == '1' && "0"@[0] == '0');
    if s@.len() == 1 {
        let c = s@[0];
        assert(lower(s@)[0] == crate::text::ascii_lower(c));
        crate::text::law_letter_case(c);
        if lower(s@) == "1"@ {
            assert(s@ =~= "1"@);
        }
        if lower(s@) == "0"@ {
            assert(s@ =~= "0"@);
        }
        if s@ == "1"@ {
            assert(lower(s@) =~= "1"@);
        }
        if s@ == "0"@ {
            assert(lower(s@) =~= "0"@);
        }
    }
}

/// Values of kinds that do not compare differ, and that is all.
pub proof fn law_unlike_kinds_differ(
    e: &PredicateExpr,
    row: &Row,
    r: bool,
    actual: ColumnValue,
    asked: ColumnValue,
)
    requires
        call_ensures(PredicateExpr::matches, (e, row), r),
        compares(*e, *row, asked, actual),
        match (asked, actual) {
            (ColumnValue::Number(_), ColumnValue::Float(_)) => true,
            (ColumnValue::Number(_), ColumnValue::Bool(_)) => true,
            (ColumnValue::Float(_), ColumnValue::Number(_)) => true,
            (ColumnValue::Float(_), ColumnValue::Bool(_)) => true,
            (ColumnValue::Bool(_), ColumnValue::Number(_)) => true,
            (ColumnValue::Bool(_), ColumnValue::Float(_)) => true,
            (ColumnValue::Text(_), ColumnValue::Number(_)) => true,
            (ColumnValue::Text(_), ColumnValue::Float(_)) => true,
            (ColumnValue::Text(_), ColumnValue::Bool(_)) => true,
            _ => false,
        },
    ensures
        r == answer_apart(*e),
{
}

/// A comparison with every value holds of what is equal to it, so of all; one with a
/// placeholder, or on a column that the row does not have, holds of nothing.
pub proof fn law_open_comparisons(e: &PredicateExpr, row: &Row, r: bool, f: PredicateFilter)
    requires
        call_ensures(PredicateExpr::matches, (e, row), r),
        filter_of(*e) == Some(f),
    ensures
        !row.columns@.contains_key(f.column@) ==> !r,
        f.value is Param ==> !r,
        f.value is Any && row.columns@.contains_key(f.column@) ==> r == (*e is Eq),
{
}

/// A conjunction holds where each part does, a disjunction where one does, a negation
/// where what it negates does not, and the predicate of all rows everywhere.
pub proof fn law_parts_decide(
    e: &PredicateExpr,
    row: &Row,
    r: bool,
    parts: Vec<PredicateExpr>,
    answers: Seq<bool>,
)
    requires
        call_ensures(PredicateExpr::matches, (e, row), r),
        answers.len() == parts@.len(),
        forall|i: int|
            0 <= i < parts@.len() ==> call_ensures(
                PredicateExpr::matches,
                (&#[trigger] parts@[i], row),
                answers[i],
            ),
    ensures
        *e is Any ==> r,
        *e == PredicateExpr::And(parts) ==> r == !answers.contains(false),
        *e == PredicateExpr::Or(parts) ==> r == answers.contains(true),
        *e matches PredicateExpr::Not(inner) && parts@ == seq![*inner] ==> r == !answers[0],
{
    let views = crate::predicate::expr_views(parts@);
    lemma_expr_views(parts@);
    lemma_parts(views, row@);
    assert forall|i: int| 0 <= i < parts@.len() implies #[trigger] answers[i] == holds(
        views[i],
        row@,
    ) by {
        assert(views[i] == expr_view(parts@[i]));
    }
    if answers.contains(false) {
        let i = choose|i: int| 0 <= i < answers.len() && answers[i] == false;
        assert(!holds(views[i], row@));
    }
    if answers.contains(true) {
        let i = choose|i: int| 0 <= i < answers.len() && answers[i] == true;
        assert(holds(views[i], row@));
    }
    if !answers.contains(false) {
        assert forall|i: int| 0 <= i < views.len() implies holds(#[trigger] views[i], row@) by {
            assert(answers[i] != false);
        }
    }
    if !answers.contains(true) {
        assert forall|i: int| 0 <= i < views.len() implies !holds(#[trigger] views[i], row@) by {
            assert(answers[i] != true);
        }
    }
    if *e is Not && parts@ == seq![*(e->Not_0)] {
        assert(parts@[0] == *(e->Not_0));
        assert(views[0] == expr_view(parts@[0]));
    }
}

/// The predicates that are made by name compare as they are called.
pub proof fn law_made_predicates_compare(
    table: &str,
    column: &str,
    row: &Row,
    p: Predicate,
    r: bool,
    a: i64,
    b: i64,
)
    requires
        call_ensures(Predicate::matches, (&p, row), r),
        row.columns@.contains_key(column@),
        row.columns@[column@] == ColumnValue::Number(a),
    ensures
        call_ensures(Predicate::all, (table,), p) ==> r,
        call_ensures(Predicate::eq, (table, column, ColumnValue::Number(b)), p) ==> r == (a == b),
        call_ensures(Predicate::ne, (table, column, ColumnValue::Number(b)), p) ==> r == (a != b),
        call_ensures(Predicate::lt, (table, column, ColumnValue::Number(b)), p) ==> r == (a < b),
        call_ensures(Predicate::gt, (table, column, ColumnValue::Number(b)), p) ==> r == (a > b),
        call_ensures(Predicate::le, (table, column, ColumnValue::Number(b)), p) ==> r == (a <= b),
        call_ensures(Predicate::ge, (table, column, ColumnValue::Number(b)), p) ==> r == (a >= b),
{
}

/// Predicates joined by `and` hold where both do, those joined by `or` where one does.
pub proof fn law_joined_predicates(
    a: PredicateExpr,
    b: PredicateExpr,
    c: PredicateExpr,
    row: &Row,
    ra: bool,
    rb: bool,
    rc: bool,
)
    requires
        call_ensures(PredicateExpr::matches, (&a, row), ra),
        call_ensures(PredicateExpr::matches, (&b, row), rb),
        call_ensures(PredicateExpr::matches, (&c, row), rc),
    ensures
        call_ensures(PredicateExpr::and, (a, b), c) ==> rc == (ra && rb),
        call_ensures(PredicateExpr::or, (a, b), c) ==> rc == (ra || rb),
{
    crate::predicate::law_combining(a@, b@, row@);
}

} // verus!
