//! Row predicates: comparisons of columns with values, combined with and, or and
//! not, and their evaluation on a row.

use vstd::prelude::*;
use crate::numbers::{parse_signed, read_signed};
use crate::ordered::OrderedMap;
use crate::text::{chars_of, lex_lt, lower, lower_chars, same_text, string_of, text_less};

verus! {

// ---- values ----

/// A floating-point number by its IEEE 754 binary64 bits, and the two texts that
/// stand for it: `display` as a user reads it, `debug` as a programmer does.
#[derive(Debug, PartialEq, Eq)]
pub struct Float {
    pub bits: u64,
    pub display: String,
    pub debug: String,
}

/// A floating-point number by its values.
pub struct FloatView {
    pub bits: u64,
    pub display: Seq<char>,
    pub debug: Seq<char>,
}

impl View for Float {
    type V = FloatView;

    open spec fn view(&self) -> FloatView {
        FloatView { bits: self.bits, display: self.display@, debug: self.debug@ }
    }
}

/// What texts read as, as floating-point numbers; a text without an entry reads as
/// none.
#[derive(Debug)]
pub struct FloatReadings {
    pub readings: OrderedMap<String, Float>,
}

impl FloatReadings {
    /// No readings.
    pub fn new() -> (r: Self)
        ensures
            r.readings@ == Map::<Seq<char>, Float>::empty(),
    {
        FloatReadings { readings: OrderedMap::new() }
    }

    /// Records that `text` reads as `value`.
    pub fn record(&mut self, text: String, value: Float)
        ensures
            final(self).readings@ == old(self).readings@.insert(text@, value),
    {
        self.readings.insert(text, value);
    }
}

/// A value of a column, or what a column is compared with.
#[derive(Debug, PartialEq, Eq)]
pub enum ColumnValue {
    Text(String),
    Number(i64),
    Float(Float),
    Bool(bool),
    /// A placeholder to be bound to a value.
    Param(String),
    /// Matches every value.
    Any,
}

/// A column value by its values.
pub enum ValueView {
    Text(Seq<char>),
    Number(i64),
    Float(FloatView),
    Bool(bool),
    Param(Seq<char>),
    Any,
}

impl View for ColumnValue {
    type V = ValueView;

    open spec fn view(&self) -> ValueView {
        match *self {
            ColumnValue::Text(s) => ValueView::Text(s@),
            ColumnValue::Number(n) => ValueView::Number(n),
            ColumnValue::Float(f) => ValueView::Float(f@),
            ColumnValue::Bool(b) => ValueView::Bool(b),
            ColumnValue::Param(s) => ValueView::Param(s@),
            ColumnValue::Any => ValueView::Any,
        }
    }
}

impl Clone for Float {
    fn clone(&self) -> (r: Self)
        ensures
            r@ == self@,
    {
        Float { bits: self.bits, display: self.display.clone(), debug: self.debug.clone() }
    }
}

impl Clone for ColumnValue {
    fn clone(&self) -> (r: Self)
        ensures
            r@ == self@,
    {
        match self {
            ColumnValue::Text(s) => ColumnValue::Text(s.clone()),
            ColumnValue::Number(n) => ColumnValue::Number(*n),
            ColumnValue::Float(f) => ColumnValue::Float(f.clone()),
            ColumnValue::Bool(b) => ColumnValue::Bool(*b),
            ColumnValue::Param(s) => ColumnValue::Param(s.clone()),
            ColumnValue::Any => ColumnValue::Any,
        }
    }
}

impl ColumnValue {
    /// The text `s`.
    pub fn text(s: &str) -> (r: Self)
        ensures
            r@ == ValueView::Text(s@),
    {
        ColumnValue::Text(s.to_owned())
    }

    /// The number `n`.
    pub fn number(n: i64) -> (r: Self)
        ensures
            r@ == ValueView::Number(n),
    {
        ColumnValue::Number(n)
    }

    /// The floating-point number `f`.
    pub fn float(f: Float) -> (r: Self)
        ensures
            r@ == ValueView::Float(f@),
    {
        ColumnValue::Float(f)
    }

    /// The truth value `b`.
    pub fn boolean(b: bool) -> (r: Self)
        ensures
            r@ == ValueView::Bool(b),
    {
        ColumnValue::Bool(b)
    }

    /// The placeholder called `name`.
    pub fn param(name: &str) -> (r: Self)
        ensures
            r@ == ValueView::Param(name@),
    {
        ColumnValue::Param(name.to_owned())
    }
}

// ---- expressions ----

/// A comparison.
#[derive(Debug, Clone, Copy, PartialEq, Eq, Structural)]
pub enum ScopeOp {
    Eq,
    Ne,
    Lt,
    Gt,
    Le,
    Ge,
}

/// A column and the value it is compared with.
#[derive(Debug, PartialEq, Eq)]
pub struct PredicateFilter {
    pub column: String,
    pub value: ColumnValue,
}

/// A predicate on a row.
#[derive(Debug, PartialEq, Eq)]
pub enum PredicateExpr {
    /// Every row.
    Any,
    Eq(PredicateFilter),
    Ne(PredicateFilter),
    Lt(PredicateFilter),
    Gt(PredicateFilter),
    Le(PredicateFilter),
    Ge(PredicateFilter),
    And(Vec<PredicateExpr>),
    Or(Vec<PredicateExpr>),
    Not(Box<PredicateExpr>),
}

/// A predicate by its values.
pub enum ExprView {
    Any,
    Leaf(ScopeOp, Seq<char>, ValueView),
    And(Seq<ExprView>),
    Or(Seq<ExprView>),
    Not(Box<ExprView>),
}

impl View for PredicateExpr {
    type V = ExprView;

    open spec fn view(&self) -> ExprView {
        expr_view(*self)
    }
}

/// The predicate `e` by its values.
pub open spec fn expr_view(e: PredicateExpr) -> ExprView
    decreases e,
{
    match e {
        PredicateExpr::Any => ExprView::Any,
        PredicateExpr::Eq(f) => ExprView::Leaf(ScopeOp::Eq, f.column@, f.value@),
        PredicateExpr::Ne(f) => ExprView::Leaf(ScopeOp::Ne, f.column@, f.value@),
        PredicateExpr::Lt(f) => ExprView::Leaf(ScopeOp::Lt, f.column@, f.value@),
        PredicateExpr::Gt(f) => ExprView::Leaf(ScopeOp::Gt, f.column@, f.value@),
        PredicateExpr::Le(f) => ExprView::Leaf(ScopeOp::Le, f.column@, f.value@),
        PredicateExpr::Ge(f) => ExprView::Leaf(ScopeOp::Ge, f.column@, f.value@),
        PredicateExpr::And(parts) => ExprView::And(expr_views(parts@)),
        PredicateExpr::Or(parts) => ExprView::Or(expr_views(parts@)),
        PredicateExpr::Not(inner) => ExprView::Not(Box::new(expr_view(*inner))),
    }
}

/// The predicates by their values.
pub open spec fn expr_views(s: Seq<PredicateExpr>) -> Seq<ExprView>
    decreases s,
{
    if s.len() == 0 {
        seq![]
    } else {
        expr_views(s.drop_last()).push(expr_view(s.last()))
    }
}

/// `expr_views` goes part by part.
pub proof fn lemma_expr_views(s: Seq<PredicateExpr>)
    ensures
        expr_views(s).len() == s.len(),
        forall|i: int| 0 <= i < s.len() ==> #[trigger] expr_views(s)[i] == expr_view(s[i]),
    decreases s.len(),
{
    if s.len() > 0 {
        lemma_expr_views(s.drop_last());
        assert forall|i: int| 0 <= i < s.len() implies #[trigger] expr_views(s)[i] == expr_view(
            s[i],
        ) by {
            if i < s.len() - 1 {
                assert(expr_views(s)[i] == expr_views(s.drop_last())[i]);
            }
        }
    }
}

// ---- what a predicate means ----

/// A row by its values: its columns, and what texts read as.
pub struct RowView {
    pub columns: Map<Seq<char>, ColumnValue>,
    pub floats: Map<Seq<char>, Float>,
}

/// How a value stands to another.
#[derive(Debug, Clone, Copy, PartialEq, Eq, Structural)]
pub enum Rank {
    Less,
    Equal,
    Greater,
}

/// Whether the bits are those of no number.
pub open spec fn float_is_nan(bits: u64) -> bool {
    bits % 0x8000_0000_0000_0000 > 0x7ff0_0000_0000_0000
}

/// An integer that orders the floating-point numbers as their values do; the two
/// zeros have the same.
pub open spec fn float_key(bits: u64) -> int {
    if bits < 0x8000_0000_0000_0000 {
        bits as int
    } else {
        -(bits - 0x8000_0000_0000_0000)
    }
}

/// How the first integer stands to the second.
pub open spec fn int_rank(a: int, b: int) -> Rank {
    if a < b {
        Rank::Less
    } else if a == b {
        Rank::Equal
    } else {
        Rank::Greater
    }
}

/// How the first floating-point number stands to the second; no number stands in
/// no relation.
pub open spec fn float_rank(a: u64, b: u64) -> Option<Rank> {
    if float_is_nan(a) || float_is_nan(b) {
        None
    } else {
        Some(int_rank(float_key(a), float_key(b)))
    }
}

/// How the first text stands to the second.
pub open spec fn text_rank(a: Seq<char>, b: Seq<char>) -> Rank {
    if lex_lt(a, b) {
        Rank::Less
    } else if a == b {
        Rank::Equal
    } else {
        Rank::Greater
    }
}

/// How the first truth value stands to the second: false before true.
pub open spec fn bool_rank(a: bool, b: bool) -> Rank {
    if a == b {
        Rank::Equal
    } else if b {
        Rank::Less
    } else {
        Rank::Greater
    }
}

/// The truth value that a text writes: `true` or `1`, `false` or `0`, in any case.
pub open spec fn read_bool(s: Seq<char>) -> Option<bool> {
    if lower(s) == "true"@ || lower(s) == "1"@ {
        Some(true)
    } else if lower(s) == "false"@ || lower(s) == "0"@ {
        Some(false)
    } else {
        None
    }
}

/// How the value of a row stands to the value of a filter. A text in the row is
/// read as the filter's type; values of other types do not compare.
pub open spec fn row_rank(
    filter: ValueView,
    actual: ValueView,
    floats: Map<Seq<char>, Float>,
) -> Option<Rank> {
    match (filter, actual) {
        (ValueView::Number(b), ValueView::Number(a)) => Some(int_rank(a as int, b as int)),
        (ValueView::Float(b), ValueView::Float(a)) => float_rank(a.bits, b.bits),
        (ValueView::Bool(b), ValueView::Bool(a)) => Some(bool_rank(a, b)),
        (ValueView::Text(b), ValueView::Text(a)) => Some(text_rank(a, b)),
        (ValueView::Number(b), ValueView::Text(s)) => match read_signed(s) {
            Some(a) => Some(int_rank(a, b as int)),
            None => None,
        },
        (ValueView::Float(b), ValueView::Text(s)) => if floats.contains_key(s) {
            float_rank(floats[s].bits, b.bits)
        } else {
            None
        },
        (ValueView::Bool(b), ValueView::Text(s)) => match read_bool(s) {
            Some(a) => Some(bool_rank(a, b)),
            None => None,
        },
        _ => None,
    }
}

/// Whether the value of a row equals the value of a filter. Everything equals
/// `Any`, and nothing a placeholder.
pub open spec fn value_matches(
    filter: ValueView,
    actual: ValueView,
    floats: Map<Seq<char>, Float>,
) -> bool {
    match filter {
        ValueView::Any => true,
        ValueView::Param(_) => false,
        _ => row_rank(filter, actual, floats) == Some(Rank::Equal),
    }
}

/// Whether a rank satisfies an ordering comparison.
pub open spec fn rank_satisfies(op: ScopeOp, rank: Rank) -> bool {
    match op {
        ScopeOp::Lt => rank == Rank::Less,
        ScopeOp::Gt => rank == Rank::Greater,
        ScopeOp::Le => rank != Rank::Greater,
        ScopeOp::Ge => rank != Rank::Less,
        _ => false,
    }
}

/// Whether a comparison holds of a row. One with a column that the row does not
/// have does not hold, whatever the comparison; nor does one with a placeholder.
pub open spec fn leaf_holds(op: ScopeOp, column: Seq<char>, value: ValueView, row: RowView) -> bool {
    row.columns.contains_key(column) && {
        let actual = row.columns[column]@;
        match op {
            ScopeOp::Eq => value_matches(value, actual, row.floats),
            ScopeOp::Ne => !(value is Param) && !value_matches(value, actual, row.floats),
            _ => match row_rank(value, actual, row.floats) {
                Some(rank) => rank_satisfies(op, rank),
                None => false,
            },
        }
    }
}

/// Whether a predicate holds of a row.
pub open spec fn holds(e: ExprView, row: RowView) -> bool
    decreases e,
{
    match e {
        ExprView::Any => true,
        ExprView::Leaf(op, column, value) => leaf_holds(op, column, value, row),
        ExprView::And(parts) => all_hold(parts, row),
        ExprView::Or(parts) => any_holds(parts, row),
        ExprView::Not(inner) => !holds(*inner, row),
    }
}

/// Whether every part holds of the row.
pub open spec fn all_hold(parts: Seq<ExprView>, row: RowView) -> bool
    decreases parts,
{
    parts.len() == 0 || (all_hold(parts.drop_last(), row) && holds(parts.last(), row))
}

/// Whether some part holds of the row.
pub open spec fn any_holds(parts: Seq<ExprView>, row: RowView) -> bool
    decreases parts,
{
    parts.len() > 0 && (any_holds(parts.drop_last(), row) || holds(parts.last(), row))
}

/// `all_hold` is that each part holds, and `any_holds` that one does.
pub proof fn lemma_parts(parts: Seq<ExprView>, row: RowView)
    ensures
        all_hold(parts, row) <==> (forall|i: int|
            0 <= i < parts.len() ==> holds(#[trigger] parts[i], row)),
        any_holds(parts, row) <==> (exists|i: int|
            0 <= i < parts.len() && holds(#[trigger] parts[i], row)),
    decreases parts.len(),
{
    if parts.len() > 0 {
        let front = parts.drop_last();
        lemma_parts(front, row);
        if all_hold(parts, row) {
            assert forall|i: int| 0 <= i < parts.len() implies holds(#[trigger] parts[i], row) by {
                if i < parts.len() - 1 {
                    assert(front[i] == parts[i]);
                }
            }
        }
        if forall|i: int| 0 <= i < parts.len() ==> holds(#[trigger] parts[i], row) {
            assert forall|i: int| 0 <= i < front.len() implies holds(#[trigger] front[i], row) by {
                assert(front[i] == parts[i]);
            }
            assert(holds(parts[parts.len() - 1], row));
        }
        if any_holds(parts, row) {
            if any_holds(front, row) {
                let i = choose|i: int| 0 <= i < front.len() && holds(#[trigger] front[i], row);
                assert(holds(parts[i], row));
            } else {
                assert(holds(parts[parts.len() - 1], row));
            }
        }
        if exists|i: int| 0 <= i < parts.len() && holds(#[trigger] parts[i], row) {
            let i = choose|i: int| 0 <= i < parts.len() && holds(#[trigger] parts[i], row);
            if i < parts.len() - 1 {
                assert(holds(front[i], row));
            }
        }
    }
}

// ---- rows ----

/// A row: its columns, and what the texts in it read as.
#[derive(Debug)]
pub struct Row {
    pub columns: OrderedMap<String, ColumnValue>,
    pub floats: FloatReadings,
}

impl View for Row {
    type V = RowView;

    open spec fn view(&self) -> RowView {
        RowView { columns: self.columns@, floats: self.floats.readings@ }
    }
}

impl Row {
    /// A row without columns.
    pub fn new() -> (r: Self)
        ensures
            r@.columns == Map::<Seq<char>, ColumnValue>::empty(),
            r@.floats == Map::<Seq<char>, Float>::empty(),
    {
        Row { columns: OrderedMap::new(), floats: FloatReadings::new() }
    }

    /// Puts `value` in `column`.
    pub fn set(&mut self, column: &str, value: ColumnValue)
        ensures
            final(self)@.columns == old(self)@.columns.insert(column@, value),
            final(self)@.floats == old(self)@.floats,
    {
        self.columns.insert(column.to_owned(), value);
    }

    /// Records what `text` reads as.
    pub fn reads_as(&mut self, text: &str, value: Float)
        ensures
            final(self)@.columns == old(self)@.columns,
            final(self)@.floats == old(self)@.floats.insert(text@, value),
    {
        self.floats.record(text.to_owned(), value);
    }
}

// ---- evaluation ----

/// How the first integer stands to the second.
fn rank_of_ints(a: i64, b: i64) -> (r: Rank)
    ensures
        r == int_rank(a as int, b as int),
{
    if a < b {
        Rank::Less
    } else if a == b {
        Rank::Equal
    } else {
        Rank::Greater
    }
}

/// An integer that orders the floating-point numbers.
fn key_of_float(bits: u64) -> (r: i64)
    ensures
        r as int == float_key(bits),
{
    if bits < 0x8000_0000_0000_0000 {
        bits as i64
    } else {
        -((bits - 0x8000_0000_0000_0000) as i64)
    }
}

/// How the first floating-point number stands to the second.
fn rank_of_floats(a: u64, b: u64) -> (r: Option<Rank>)
    ensures
        r == float_rank(a, b),
{
    if a % 0x8000_0000_0000_0000 > 0x7ff0_0000_0000_0000 || b % 0x8000_0000_0000_0000
        > 0x7ff0_0000_0000_0000 {
        None
    } else {
        Some(rank_of_ints(key_of_float(a), key_of_float(b)))
    }
}

/// How the first text stands to the second.
fn rank_of_texts(a: &str, b: &str) -> (r: Rank)
    ensures
        r == text_rank(a@, b@),
{
    if text_less(a, b) {
        Rank::Less
    } else if same_text(a, b) {
        Rank::Equal
    } else {
        Rank::Greater
    }
}

/// How the first truth value stands to the second.
fn rank_of_bools(a: bool, b: bool) -> (r: Rank)
    ensures
        r == bool_rank(a, b),
{
    if a == b {
        Rank::Equal
    } else if b {
        Rank::Less
    } else {
        Rank::Greater
    }
}

/// The truth value that a text writes.
fn parse_bool(s: &str) -> (r: Option<bool>)
    ensures
        r == read_bool(s@),
{
    let chars = chars_of(s);
    let small = lower_chars(&chars);
    let word = string_of(small.as_slice());
    if same_text(word.as_str(), "true") || same_text(word.as_str(), "1") {
        Some(true)
    } else if same_text(word.as_str(), "false") || same_text(word.as_str(), "0") {
        Some(false)
    } else {
        None
    }
}

/// How the value of a row stands to the value of a filter.
fn rank_in_row(filter: &ColumnValue, actual: &ColumnValue, floats: &FloatReadings) -> (r: Option<
    Rank,
>)
    ensures
        r == row_rank(filter@, actual@, floats.readings@),
{
    match (filter, actual) {
        (ColumnValue::Number(b), ColumnValue::Number(a)) => Some(rank_of_ints(*a, *b)),
        (ColumnValue::Float(b), ColumnValue::Float(a)) => rank_of_floats(a.bits, b.bits),
        (ColumnValue::Bool(b), ColumnValue::Bool(a)) => Some(rank_of_bools(*a, *b)),
        (ColumnValue::Text(b), ColumnValue::Text(a)) => Some(
            rank_of_texts(a.as_str(), b.as_str()),
        ),
        (ColumnValue::Number(b), ColumnValue::Text(s)) => {
            let chars = chars_of(s.as_str());
            match parse_signed(&chars) {
                Some(a) => Some(rank_of_ints(a, *b)),
                None => None,
            }
        },
        (ColumnValue::Float(b), ColumnValue::Text(s)) => match floats.readings.get(s) {
            Some(a) => rank_of_floats(a.bits, b.bits),
            None => None,
        },
        (ColumnValue::Bool(b), ColumnValue::Text(s)) => match parse_bool(s.as_str()) {
            Some(a) => Some(rank_of_bools(a, *b)),
            None => None,
        },
        _ => None,
    }
}

/// Whether the value of a row equals the value of a filter.
fn matches_value(filter: &ColumnValue, actual: &ColumnValue, floats: &FloatReadings) -> (r: bool)
    ensures
        r == value_matches(filter@, actual@, floats.readings@),
{
    match filter {
        ColumnValue::Any => true,
        ColumnValue::Param(_) => false,
        _ => match rank_in_row(filter, actual, floats) {
            Some(Rank::Equal) => true,
            _ => false,
        },
    }
}

/// Whether a rank satisfies an ordering comparison.
fn satisfies(op: ScopeOp, rank: Rank) -> (r: bool)
    ensures
        r == rank_satisfies(op, rank),
{
    match (op, rank) {
        (ScopeOp::Lt, Rank::Less) => true,
        (ScopeOp::Gt, Rank::Greater) => true,
        (ScopeOp::Le, Rank::Less) => true,
        (ScopeOp::Le, Rank::Equal) => true,
        (ScopeOp::Ge, Rank::Greater) => true,
        (ScopeOp::Ge, Rank::Equal) => true,
        _ => false,
    }
}

/// Whether a comparison holds of a row.
fn matches_leaf(op: ScopeOp, f: &PredicateFilter, row: &Row) -> (r: bool)
    ensures
        r == leaf_holds(op, f.column@, f.value@, row@),
{
    match row.columns.get(&f.column) {
        None => false,
        Some(actual) => match op {
            ScopeOp::Eq => matches_value(&f.value, actual, &row.floats),
            ScopeOp::Ne => match &f.value {
                ColumnValue::Param(_) => false,
                _ => !matches_value(&f.value, actual, &row.floats),
            },
            _ => match rank_in_row(&f.value, actual, &row.floats) {
                Some(rank) => satisfies(op, rank),
                None => false,
            },
        },
    }
}

impl PredicateExpr {
    /// The predicate that holds of every row.
    pub fn any() -> (r: Self)
        ensures
            r@ == ExprView::Any,
    {
        PredicateExpr::Any
    }

    /// `column` equals `value`.
    pub fn eq(column: &str, value: ColumnValue) -> (r: Self)
        ensures
            r@ == ExprView::Leaf(ScopeOp::Eq, column@, value@),
    {
        PredicateExpr::Eq(PredicateFilter { column: column.to_owned(), value })
    }

    /// `column` differs from `value`.
    pub fn ne(column: &str, value: ColumnValue) -> (r: Self)
        ensures
            r@ == ExprView::Leaf(ScopeOp::Ne, column@, value@),
    {
        PredicateExpr::Ne(PredicateFilter { column: column.to_owned(), value })
    }

    /// `column` is less than `value`.
    pub fn lt(column: &str, value: ColumnValue) -> (r: Self)
        ensures
            r@ == ExprView::Leaf(ScopeOp::Lt, column@, value@),
    {
        PredicateExpr::Lt(PredicateFilter { column: column.to_owned(), value })
    }

    /// `column` is greater than `value`.
    pub fn gt(column: &str, value: ColumnValue) -> (r: Self)
        ensures
            r@ == ExprView::Leaf(ScopeOp::Gt, column@, value@),
    {
        PredicateExpr::Gt(PredicateFilter { column: column.to_owned(), value })
    }

    /// `column` is no greater than `value`.
    pub fn le(column: &str, value: ColumnValue) -> (r: Self)
        ensures
            r@ == ExprView::Leaf(ScopeOp::Le, column@, value@),
    {
        PredicateExpr::Le(PredicateFilter { column: column.to_owned(), value })
    }

    /// `column` is no less than `value`.
    pub fn ge(column: &str, value: ColumnValue) -> (r: Self)
        ensures
            r@ == ExprView::Leaf(ScopeOp::Ge, column@, value@),
    {
        PredicateExpr::Ge(PredicateFilter { column: column.to_owned(), value })
    }

    /// Both predicates. One that holds of every row adds nothing.
    pub fn and(self, other: PredicateExpr) -> (r: Self)
        ensures
            r@ == both(self@, other@),
    {
        match (self, other) {
            (PredicateExpr::Any, keep) => keep,
            (keep, PredicateExpr::Any) => keep,
            (a, b) => {
                let ghost x = a@;
                let ghost y = b@;
                let mut parts: Vec<PredicateExpr> = Vec::new();
                parts.push(a);
                parts.push(b);
                proof {
                    lemma_expr_views(parts@);
                    assert(expr_views(parts@) =~= seq![x, y]);
                }
                PredicateExpr::And(parts)
            },
        }
    }

    /// Either predicate. With one that holds of every row it is that one.
    pub fn or(self, other: PredicateExpr) -> (r: Self)
        ensures
            r@ == either(self@, other@),
    {
        match (self, other) {
            (PredicateExpr::Any, _) => PredicateExpr::Any,
            (_, PredicateExpr::Any) => PredicateExpr::Any,
            (a, b) => {
                let ghost x = a@;
                let ghost y = b@;
                let mut parts: Vec<PredicateExpr> = Vec::new();
                parts.push(a);
                parts.push(b);
                proof {
                    lemma_expr_views(parts@);
                    assert(expr_views(parts@) =~= seq![x, y]);
                }
                PredicateExpr::Or(parts)
            },
        }
    }

    /// Whether the predicate holds of `row`.
    pub fn matches(&self, row: &Row) -> (r: bool)
        ensures
            r == holds(self@, row@),
        decreases self,
    {
        match self {
            PredicateExpr::Any => true,
            PredicateExpr::Eq(f) => matches_leaf(ScopeOp::Eq, f, row),
            PredicateExpr::Ne(f) => matches_leaf(ScopeOp::Ne, f, row),
            PredicateExpr::Lt(f) => matches_leaf(ScopeOp::Lt, f, row),
            PredicateExpr::Gt(f) => matches_leaf(ScopeOp::Gt, f, row),
            PredicateExpr::Le(f) => matches_leaf(ScopeOp::Le, f, row),
            PredicateExpr::Ge(f) => matches_leaf(ScopeOp::Ge, f, row),
            PredicateExpr::And(parts) => {
                let ghost views = expr_views(parts@);
                proof {
                    lemma_expr_views(parts@);
                    lemma_parts(views, row@);
                }
                let mut i: usize = 0;
                while i < parts.len()
                    invariant
                        i <= parts@.len(),
                        decreases_to!(self => parts@),
                        views.len() == parts@.len(),
                        self@ == ExprView::And(views),
                        forall|k: int|
                            0 <= k < parts@.len() ==> #[trigger] views[k] == expr_view(parts@[k]),
                        all_hold(views, row@) <==> (forall|k: int|
                            0 <= k < views.len() ==> holds(#[trigger] views[k], row@)),
                        forall|k: int| 0 <= k < i ==> holds(#[trigger] views[k], row@),
                    decreases parts@.len() - i,
                {
                    assert(views[i as int] == expr_view(parts@[i as int]));
                    if !parts[i].matches(row) {
                        return false;
                    }
                    i += 1;
                }
                true
            },
            PredicateExpr::Or(parts) => {
                let ghost views = expr_views(parts@);
                proof {
                    lemma_expr_views(parts@);
                    lemma_parts(views, row@);
                }
                let mut i: usize = 0;
                while i < parts.len()
                    invariant
                        i <= parts@.len(),
                        decreases_to!(self => parts@),
                        views.len() == parts@.len(),
                        self@ == ExprView::Or(views),
                        forall|k: int|
                            0 <= k < parts@.len() ==> #[trigger] views[k] == expr_view(parts@[k]),
                        any_holds(views, row@) <==> (exists|k: int|
                            0 <= k < views.len() && holds(#[trigger] views[k], row@)),
                        forall|k: int| 0 <= k < i ==> !holds(#[trigger] views[k], row@),
                    decreases parts@.len() - i,
                {
                    assert(views[i as int] == expr_view(parts@[i as int]));
                    if parts[i].matches(row) {
                        return true;
                    }
                    i += 1;
                }
                false
            },
            PredicateExpr::Not(inner) => !inner.matches(row),
        }
    }
}

/// Both predicates; one that holds of every row is left out.
pub open spec fn both(a: ExprView, b: ExprView) -> ExprView {
    if a is Any {
        b
    } else if b is Any {
        a
    } else {
        ExprView::And(seq![a, b])
    }
}

/// Either predicate; one that holds of every row is all there is.
pub open spec fn either(a: ExprView, b: ExprView) -> ExprView {
    if a is Any || b is Any {
        ExprView::Any
    } else {
        ExprView::Or(seq![a, b])
    }
}

impl std::ops::Not for PredicateExpr {
    type Output = Self;

    /// The predicate that holds where this one does not.
    fn not(self) -> (r: Self) {
        PredicateExpr::Not(Box::new(self))
    }
}

impl vstd::std_specs::ops::NotSpecImpl for PredicateExpr {
    open spec fn obeys_not_spec() -> bool {
        true
    }

    open spec fn not_req(self) -> bool {
        true
    }

    open spec fn not_spec(self) -> PredicateExpr {
        PredicateExpr::Not(Box::new(self))
    }
}

impl Clone for PredicateFilter {
    fn clone(&self) -> (r: Self)
        ensures
            r.column@ == self.column@,
            r.value@ == self.value@,
    {
        PredicateFilter { column: self.column.clone(), value: self.value.clone() }
    }
}

/// The same predicates again.
fn copy_exprs(parts: &Vec<PredicateExpr>) -> (r: Vec<PredicateExpr>)
    ensures
        expr_views(r@) == expr_views(parts@),
    decreases parts@,
{
    let mut out: Vec<PredicateExpr> = Vec::new();
    let mut i: usize = 0;
    while i < parts.len()
        invariant
            i <= parts@.len(),
            out@.len() == i,
            forall|k: int| 0 <= k < i ==> expr_view(#[trigger] out@[k]) == expr_view(parts@[k]),
        decreases parts@.len() - i,
    {
        out.push(copy_expr(&parts[i]));
        i += 1;
    }
    proof {
        lemma_expr_views(out@);
        lemma_expr_views(parts@);
        assert(expr_views(out@) =~= expr_views(parts@));
    }
    out
}

/// The same predicate again.
fn copy_expr(e: &PredicateExpr) -> (r: PredicateExpr)
    ensures
        expr_view(r) == expr_view(*e),
    decreases *e,
{
    match e {
        PredicateExpr::Any => PredicateExpr::Any,
        PredicateExpr::Eq(f) => PredicateExpr::Eq(f.clone()),
        PredicateExpr::Ne(f) => PredicateExpr::Ne(f.clone()),
        PredicateExpr::Lt(f) => PredicateExpr::Lt(f.clone()),
        PredicateExpr::Gt(f) => PredicateExpr::Gt(f.clone()),
        PredicateExpr::Le(f) => PredicateExpr::Le(f.clone()),
        PredicateExpr::Ge(f) => PredicateExpr::Ge(f.clone()),
        PredicateExpr::And(parts) => PredicateExpr::And(copy_exprs(parts)),
        PredicateExpr::Or(parts) => PredicateExpr::Or(copy_exprs(parts)),
        PredicateExpr::Not(inner) => PredicateExpr::Not(Box::new(copy_expr(&**inner))),
    }
}

impl Clone for PredicateExpr {
    fn clone(&self) -> (r: Self)
        ensures
            r@ == self@,
    {
        copy_expr(self)
    }
}

// ---- predicates on a table ----

/// A predicate on the rows of a table.
#[derive(Debug, PartialEq, Eq)]
pub struct Predicate {
    pub table: String,
    pub expr: PredicateExpr,
}

impl Predicate {
    /// Every row of `table`.
    pub fn all(table: &str) -> (r: Self)
        ensures
            r.table@ == table@,
            r.expr@ == ExprView::Any,
    {
        Predicate { table: table.to_owned(), expr: PredicateExpr::Any }
    }

    /// The rows of `table` where `column` equals `value`.
    pub fn eq(table: &str, column: &str, value: ColumnValue) -> (r: Self)
        ensures
            r.table@ == table@,
            r.expr@ == ExprView::Leaf(ScopeOp::Eq, column@, value@),
    {
        Predicate { table: table.to_owned(), expr: PredicateExpr::eq(column, value) }
    }

    /// The rows of `table` where `column` differs from `value`.
    pub fn ne(table: &str, column: &str, value: ColumnValue) -> (r: Self)
        ensures
            r.table@ == table@,
            r.expr@ == ExprView::Leaf(ScopeOp::Ne, column@, value@),
    {
        Predicate { table: table.to_owned(), expr: PredicateExpr::ne(column, value) }
    }

    /// The rows of `table` where `column` is less than `value`.
    pub fn lt(table: &str, column: &str, value: ColumnValue) -> (r: Self)
        ensures
            r.table@ == table@,
            r.expr@ == ExprView::Leaf(ScopeOp::Lt, column@, value@),
    {
        Predicate { table: table.to_owned(), expr: PredicateExpr::lt(column, value) }
    }

    /// The rows of `table` where `column` is greater than `value`.
    pub fn gt(table: &str, column: &str, value: ColumnValue) -> (r: Self)
        ensures
            r.table@ == table@,
            r.expr@ == ExprView::Leaf(ScopeOp::Gt, column@, value@),
    {
        Predicate { table: table.to_owned(), expr: PredicateExpr::gt(column, value) }
    }

    /// The rows of `table` where `column` is no greater than `value`.
    pub fn le(table: &str, column: &str, value: ColumnValue) -> (r: Self)
        ensures
            r.table@ == table@,
            r.expr@ == ExprView::Leaf(ScopeOp::Le, column@, value@),
    {
        Predicate { table: table.to_owned(), expr: PredicateExpr::le(column, value) }
    }

    /// The rows of `table` where `column` is no less than `value`.
    pub fn ge(table: &str, column: &str, value: ColumnValue) -> (r: Self)
        ensures
            r.table@ == table@,
            r.expr@ == ExprView::Leaf(ScopeOp::Ge, column@, value@),
    {
        Predicate { table: table.to_owned(), expr: PredicateExpr::ge(column, value) }
    }

    /// Of these rows, those where `column` equals `value`.
    pub fn and_eq(self, column: &str, value: ColumnValue) -> (r: Self)
        ensures
            r.table == self.table,
            r.expr@ == both(self.expr@, ExprView::Leaf(ScopeOp::Eq, column@, value@)),
    {
        Predicate { table: self.table, expr: self.expr.and(PredicateExpr::eq(column, value)) }
    }

    /// These rows, and those where `column` equals `value`.
    pub fn or_eq(self, column: &str, value: ColumnValue) -> (r: Self)
        ensures
            r.table == self.table,
            r.expr@ == either(self.expr@, ExprView::Leaf(ScopeOp::Eq, column@, value@)),
    {
        Predicate { table: self.table, expr: self.expr.or(PredicateExpr::eq(column, value)) }
    }

    /// Whether the predicate holds of `row`.
    pub fn matches(&self, row: &Row) -> (r: bool)
        ensures
            r == holds(self.expr@, row@),
    {
        self.expr.matches(row)
    }
}

impl std::ops::Not for Predicate {
    type Output = Self;

    /// The rows of the table of which the predicate does not hold.
    fn not(self) -> (r: Self) {
        Predicate { table: self.table, expr: PredicateExpr::Not(Box::new(self.expr)) }
    }
}

impl vstd::std_specs::ops::NotSpecImpl for Predicate {
    open spec fn obeys_not_spec() -> bool {
        true
    }

    open spec fn not_req(self) -> bool {
        true
    }

    open spec fn not_spec(self) -> Predicate {
        Predicate { table: self.table, expr: PredicateExpr::Not(Box::new(self.expr)) }
    }
}

impl Clone for Predicate {
    fn clone(&self) -> (r: Self)
        ensures
            r.table@ == self.table@,
            r.expr@ == self.expr@,
    {
        Predicate { table: self.table.clone(), expr: self.expr.clone() }
    }
}

// ---- laws ----

/// Combining predicates means what it says: both hold, or either does.
pub proof fn law_combining(a: ExprView, b: ExprView, row: RowView)
    ensures
        holds(both(a, b), row) == (holds(a, row) && holds(b, row)),
        holds(either(a, b), row) == (holds(a, row) || holds(b, row)),
        holds(ExprView::Not(Box::new(a)), row) == !holds(a, row),
{
    lemma_parts(seq![a, b], row);
    let s = seq![a, b];
    assert(s[0] == a && s[1] == b);
    if holds(a, row) && holds(b, row) {
        assert forall|i: int| 0 <= i < s.len() implies holds(#[trigger] s[i], row) by {}
    }
    if holds(either(a, b), row) && !(a is Any) && !(b is Any) {
        let i = choose|i: int| 0 <= i < s.len() && holds(#[trigger] s[i], row);
    }
}

/// A comparison with a column that the row does not have does not hold, whatever
/// the comparison.
pub proof fn law_missing_column(op: ScopeOp, column: Seq<char>, value: ValueView, row: RowView)
    requires
        !row.columns.contains_key(column),
    ensures
        !holds(ExprView::Leaf(op, column, value), row),
{
}

/// A comparison with an unbound placeholder does not hold, whatever the comparison.
pub proof fn law_unbound_placeholder(op: ScopeOp, column: Seq<char>, name: Seq<char>, row: RowView)
    ensures
        !holds(ExprView::Leaf(op, column, ValueView::Param(name)), row),
{
}

/// Of a number, a text or a truth value compared with its like, exactly one of
/// less, equal and greater holds.
pub proof fn law_trichotomy(column: Seq<char>, value: ValueView, row: RowView)
    requires
        row.columns.contains_key(column),
        ({
            let actual = row.columns[column]@;
            ||| value is Number && actual is Number
            ||| value is Text && actual is Text
            ||| value is Bool && actual is Bool
        }),
    ensures
        ({
            let lt = holds(ExprView::Leaf(ScopeOp::Lt, column, value), row);
            let eq = holds(ExprView::Leaf(ScopeOp::Eq, column, value), row);
            let gt = holds(ExprView::Leaf(ScopeOp::Gt, column, value), row);
            &&& lt || eq || gt
            &&& !(lt && eq) && !(lt && gt) && !(eq && gt)
            &&& holds(ExprView::Leaf(ScopeOp::Le, column, value), row) == (lt || eq)
            &&& holds(ExprView::Leaf(ScopeOp::Ge, column, value), row) == (gt || eq)
            &&& holds(ExprView::Leaf(ScopeOp::Ne, column, value), row) == !eq
        }),
{
}

} // verus!
