//! Predicates as JSON values: each shape under its own tag.

use vstd::prelude::*;
use vstd::utf8::encode_utf8;
use crate::json::{
    json_read, json_text, json_view, lemma_list_view, lemma_plain_fields, lemma_record_view,
    list_view, nesting, parse_json, part, plain, plain_items, record_view, render_json, shaped,
    Json, JsonView,
};
use crate::numbers::{decimal, decimal_text, signed_decimal, signed_decimal_text};
use crate::predicate::{
    expr_view, expr_views, lemma_expr_views, ColumnValue, ExprView, Float, FloatReadings, FloatView,
    PredicateExpr, PredicateFilter, ScopeOp, ValueView,
};
use crate::text::same_text;

verus! {

/// The tag of a comparison.
pub open spec fn op_tag(op: ScopeOp) -> Seq<char> {
    match op {
        ScopeOp::Eq => "Eq"@,
        ScopeOp::Ne => "Ne"@,
        ScopeOp::Lt => "Lt"@,
        ScopeOp::Gt => "Gt"@,
        ScopeOp::Le => "Le"@,
        ScopeOp::Ge => "Ge"@,
    }
}

/// A record of one member.
pub open spec fn tagged(tag: Seq<char>, v: JsonView) -> JsonView {
    JsonView::Record(seq![(tag, v)])
}

/// The JSON value of an integer.
pub open spec fn int_json(n: i64) -> JsonView {
    if n >= 0 {
        JsonView::Unsigned(n as u64)
    } else {
        JsonView::Negative(n)
    }
}

/// The JSON value of what a column is compared with. A number with a decimal point
/// stands under the text that shows it exactly.
pub open spec fn value_json(v: ValueView) -> JsonView {
    match v {
        ValueView::Text(s) => tagged("Text"@, JsonView::Text(s)),
        ValueView::Number(n) => tagged("Number"@, int_json(n)),
        ValueView::Float(f) => tagged("Float"@, JsonView::Real(f.debug)),
        ValueView::Bool(b) => tagged("Bool"@, JsonView::Bool(b)),
        ValueView::Any => JsonView::Text("Any"@),
        ValueView::Param(name) => tagged("Param"@, JsonView::Text(name)),
    }
}

/// The JSON value of a comparison.
pub open spec fn leaf_json(op: ScopeOp, column: Seq<char>, value: ValueView) -> JsonView {
    tagged(
        op_tag(op),
        JsonView::Record(
            seq![("column"@, JsonView::Text(column)), ("value"@, value_json(value))],
        ),
    )
}

/// The JSON value of a predicate.
pub open spec fn expr_json(e: ExprView) -> JsonView
    decreases e,
{
    match e {
        ExprView::Any => JsonView::Text("Any"@),
        ExprView::Leaf(op, column, value) => leaf_json(op, column, value),
        ExprView::And(parts) => tagged("And"@, JsonView::List(exprs_json(parts))),
        ExprView::Or(parts) => tagged("Or"@, JsonView::List(exprs_json(parts))),
        ExprView::Not(inner) => tagged("Not"@, expr_json(*inner)),
    }
}

/// The JSON values of predicates.
pub open spec fn exprs_json(s: Seq<ExprView>) -> Seq<JsonView>
    decreases s,
{
    if s.len() == 0 {
        seq![]
    } else {
        exprs_json(s.drop_last()).push(expr_json(s.last()))
    }
}

proof fn lemma_exprs_json(s: Seq<ExprView>)
    ensures
        exprs_json(s).len() == s.len(),
        forall|i: int| 0 <= i < s.len() ==> #[trigger] exprs_json(s)[i] == expr_json(s[i]),
    decreases s.len(),
{
    if s.len() > 0 {
        lemma_exprs_json(s.drop_last());
        assert forall|i: int| 0 <= i < s.len() implies #[trigger] exprs_json(s)[i] == expr_json(
            s[i],
        ) by {
            if i < s.len() - 1 {
                assert(exprs_json(s)[i] == exprs_json(s.drop_last())[i]);
            }
        }
    }
}

/// A record of one member.
fn tagged_value(tag: &str, v: Json) -> (r: Json)
    ensures
        r@ == tagged(tag@, v@),
{
    let ghost view = v@;
    let mut fields: Vec<(String, Json)> = Vec::new();
    fields.push((tag.to_owned(), v));
    proof {
        lemma_record_view(fields@);
        assert(record_view(fields@) =~= seq![(tag@, view)]);
    }
    Json::Record(fields)
}

/// The JSON value of an integer.
pub(crate) fn int_value(n: i64) -> (r: Json)
    ensures
        r@ == int_json(n),
{
    if n >= 0 {
        Json::Unsigned(n as u64)
    } else {
        Json::Negative(n)
    }
}

/// The JSON value of what a column is compared with.
fn column_value_json(v: &ColumnValue) -> (r: Json)
    ensures
        r@ == value_json(v@),
{
    match v {
        ColumnValue::Text(s) => tagged_value("Text", Json::Text(s.clone())),
        ColumnValue::Number(n) => tagged_value("Number", int_value(*n)),
        ColumnValue::Float(f) => tagged_value("Float", Json::Real(f.debug.clone())),
        ColumnValue::Bool(b) => tagged_value("Bool", Json::Bool(*b)),
        ColumnValue::Any => Json::Text("Any".to_owned()),
        ColumnValue::Param(name) => tagged_value("Param", Json::Text(name.clone())),
    }
}

/// The JSON value of a comparison.
fn filter_json(tag: &str, op: Ghost<ScopeOp>, f: &PredicateFilter) -> (r: Json)
    requires
        tag@ == op_tag(op@),
    ensures
        r@ == leaf_json(op@, f.column@, f.value@),
{
    let mut fields: Vec<(String, Json)> = Vec::new();
    fields.push(("column".to_owned(), Json::Text(f.column.clone())));
    fields.push(("value".to_owned(), column_value_json(&f.value)));
    proof {
        lemma_record_view(fields@);
        assert(record_view(fields@) =~= seq![
            ("column"@, JsonView::Text(f.column@)),
            ("value"@, value_json(f.value@)),
        ]);
    }
    tagged_value(tag, Json::Record(fields))
}

/// The JSON values of predicates.
fn parts_json(parts: &Vec<PredicateExpr>) -> (r: Vec<Json>)
    ensures
        list_view(r@) == exprs_json(expr_views(parts@)),
    decreases parts@,
{
    let mut out: Vec<Json> = Vec::new();
    let mut i: usize = 0;
    while i < parts.len()
        invariant
            i <= parts@.len(),
            out@.len() == i,
            forall|k: int|
                0 <= k < i ==> json_of_part(#[trigger] out@[k], parts@[k]),
        decreases parts@.len() - i,
    {
        out.push(expr_value(&parts[i]));
        i += 1;
    }
    proof {
        lemma_list_view(out@);
        lemma_expr_views(parts@);
        lemma_exprs_json(expr_views(parts@));
        assert forall|k: int| 0 <= k < out@.len() implies #[trigger] list_view(out@)[k]
            == exprs_json(expr_views(parts@))[k] by {
            assert(json_of_part(out@[k], parts@[k]));
            assert(expr_views(parts@)[k] == expr_view(parts@[k]));
        }
        assert(list_view(out@) =~= exprs_json(expr_views(parts@)));
    }
    out
}

spec fn json_of_part(j: Json, e: PredicateExpr) -> bool {
    crate::json::json_view(j) == expr_json(expr_view(e))
}

/// The JSON value of a predicate.
pub fn expr_value(e: &PredicateExpr) -> (r: Json)
    ensures
        r@ == expr_json(e@),
    decreases *e,
{
    match e {
        PredicateExpr::Any => Json::Text("Any".to_owned()),
        PredicateExpr::Eq(f) => filter_json("Eq", Ghost(ScopeOp::Eq), f),
        PredicateExpr::Ne(f) => filter_json("Ne", Ghost(ScopeOp::Ne), f),
        PredicateExpr::Lt(f) => filter_json("Lt", Ghost(ScopeOp::Lt), f),
        PredicateExpr::Gt(f) => filter_json("Gt", Ghost(ScopeOp::Gt), f),
        PredicateExpr::Le(f) => filter_json("Le", Ghost(ScopeOp::Le), f),
        PredicateExpr::Ge(f) => filter_json("Ge", Ghost(ScopeOp::Ge), f),
        PredicateExpr::And(parts) => tagged_value("And", Json::List(parts_json(parts))),
        PredicateExpr::Or(parts) => tagged_value("Or", Json::List(parts_json(parts))),
        PredicateExpr::Not(inner) => tagged_value("Not", expr_value(&**inner)),
    }
}

// ---- reading ----

/// The comparison with the given tag.
pub open spec fn op_tagged(tag: Seq<char>) -> Option<ScopeOp> {
    if tag == "Eq"@ {
        Some(ScopeOp::Eq)
    } else if tag == "Ne"@ {
        Some(ScopeOp::Ne)
    } else if tag == "Lt"@ {
        Some(ScopeOp::Lt)
    } else if tag == "Gt"@ {
        Some(ScopeOp::Gt)
    } else if tag == "Le"@ {
        Some(ScopeOp::Le)
    } else if tag == "Ge"@ {
        Some(ScopeOp::Ge)
    } else {
        None
    }
}

/// The number with a decimal point that a JSON number reads as.
pub open spec fn read_real(v: JsonView, floats: Map<Seq<char>, Float>) -> Option<FloatView> {
    let text = match v {
        JsonView::Real(s) => Some(s),
        JsonView::Unsigned(n) => Some(decimal(n as nat)),
        JsonView::Negative(n) => Some(signed_decimal(n as int)),
        _ => None,
    };
    match text {
        Some(s) => if floats.contains_key(s) {
            Some(floats[s]@)
        } else {
            None
        },
        None => None,
    }
}

/// The value with the given tag and content.
pub open spec fn read_tagged_value(
    tag: Seq<char>,
    content: JsonView,
    floats: Map<Seq<char>, Float>,
) -> Option<ValueView> {
    if tag == "Any"@ {
        if content is Null {
            Some(ValueView::Any)
        } else {
            None
        }
    } else if tag == "Text"@ {
        match content {
            JsonView::Text(s) => Some(ValueView::Text(s)),
            _ => None,
        }
    } else if tag == "Number"@ {
        match content {
            JsonView::Unsigned(n) => if n <= i64::MAX {
                Some(ValueView::Number(n as i64))
            } else {
                None
            },
            JsonView::Negative(n) => Some(ValueView::Number(n)),
            _ => None,
        }
    } else if tag == "Float"@ {
        match read_real(content, floats) {
            Some(f) => Some(ValueView::Float(f)),
            None => None,
        }
    } else if tag == "Bool"@ {
        match content {
            JsonView::Bool(b) => Some(ValueView::Bool(b)),
            _ => None,
        }
    } else if tag == "Param"@ {
        match content {
            JsonView::Text(s) => Some(ValueView::Param(s)),
            _ => None,
        }
    } else {
        None
    }
}

/// What a column is compared with, by its JSON value. A value without content may stand
/// as its tag alone.
pub open spec fn read_value(v: JsonView, floats: Map<Seq<char>, Float>) -> Option<ValueView> {
    match v {
        JsonView::Text(tag) => read_tagged_value(tag, JsonView::Null, floats),
        JsonView::Record(fields) => if fields.len() == 1 {
            read_tagged_value(fields[0].0, fields[0].1, floats)
        } else {
            None
        },
        _ => None,
    }
}

/// The comparison that a JSON value writes.
pub open spec fn read_leaf(
    op: ScopeOp,
    v: JsonView,
    floats: Map<Seq<char>, Float>,
) -> Option<ExprView> {
    if !shaped(v, 2) {
        None
    } else {
        match (part(v, 0, "column"@), part(v, 1, "value"@)) {
            (Some(JsonView::Text(column)), Some(w)) => match read_value(w, floats) {
                Some(value) => Some(ExprView::Leaf(op, column, value)),
                None => None,
            },
            _ => None,
        }
    }
}

/// The predicate that a JSON value writes.
pub open spec fn read_expr(v: JsonView, floats: Map<Seq<char>, Float>) -> Option<ExprView>
    decreases v,
{
    match v {
        JsonView::Text(tag) => if tag == "Any"@ {
            Some(ExprView::Any)
        } else {
            None
        },
        JsonView::Record(fields) => if fields.len() != 1 {
            None
        } else if fields[0].0 == "Any"@ {
            if fields[0].1 is Null {
                Some(ExprView::Any)
            } else {
                None
            }
        } else if fields[0].0 == "And"@ {
            match fields[0].1 {
                JsonView::List(items) => match read_exprs(items, floats) {
                    Some(parts) => Some(ExprView::And(parts)),
                    None => None,
                },
                _ => None,
            }
        } else if fields[0].0 == "Or"@ {
            match fields[0].1 {
                JsonView::List(items) => match read_exprs(items, floats) {
                    Some(parts) => Some(ExprView::Or(parts)),
                    None => None,
                },
                _ => None,
            }
        } else if fields[0].0 == "Not"@ {
            match read_expr(fields[0].1, floats) {
                Some(inner) => Some(ExprView::Not(Box::new(inner))),
                None => None,
            }
        } else {
            match op_tagged(fields[0].0) {
                Some(op) => read_leaf(op, fields[0].1, floats),
                None => None,
            }
        },
        _ => None,
    }
}

/// The predicates that JSON values write, if each writes one.
pub open spec fn read_exprs(
    items: Seq<JsonView>,
    floats: Map<Seq<char>, Float>,
) -> Option<Seq<ExprView>>
    decreases items,
{
    if items.len() == 0 {
        Some(seq![])
    } else {
        match (read_exprs(items.drop_last(), floats), read_expr(items.last(), floats)) {
            (Some(s), Some(e)) => Some(s.push(e)),
            _ => None,
        }
    }
}

/// Reads a number with a decimal point.
fn real_of(v: &Json, floats: &FloatReadings) -> (r: Option<Float>)
    ensures
        match read_real(v@, floats.readings@) {
            Some(f) => r is Some && r->0@ == f,
            None => r is None,
        },
{
    let text: String = match v {
        Json::Real(s) => s.clone(),
        Json::Unsigned(n) => decimal_text(*n),
        Json::Negative(n) => signed_decimal_text(*n),
        _ => {
            return None;
        },
    };
    match floats.readings.get(&text) {
        Some(f) => Some(f.clone()),
        None => None,
    }
}

/// Reads a value with the given tag and content.
fn tagged_value_of(tag: &str, content: &Json, floats: &FloatReadings) -> (r: Option<ColumnValue>)
    ensures
        match read_tagged_value(tag@, content@, floats.readings@) {
            Some(v) => r is Some && r->0@ == v,
            None => r is None,
        },
{
    if same_text(tag, "Any") {
        match content {
            Json::Null => Some(ColumnValue::Any),
            _ => None,
        }
    } else if same_text(tag, "Text") {
        match content {
            Json::Text(s) => Some(ColumnValue::Text(s.clone())),
            _ => None,
        }
    } else if same_text(tag, "Number") {
        match content {
            Json::Unsigned(n) => if *n <= 0x7fff_ffff_ffff_ffff {
                Some(ColumnValue::Number(*n as i64))
            } else {
                None
            },
            Json::Negative(n) => Some(ColumnValue::Number(*n)),
            _ => None,
        }
    } else if same_text(tag, "Float") {
        match real_of(content, floats) {
            Some(f) => Some(ColumnValue::Float(f)),
            None => None,
        }
    } else if same_text(tag, "Bool") {
        match content {
            Json::Bool(b) => Some(ColumnValue::Bool(*b)),
            _ => None,
        }
    } else if same_text(tag, "Param") {
        match content {
            Json::Text(s) => Some(ColumnValue::Param(s.clone())),
            _ => None,
        }
    } else {
        None
    }
}

/// Reads what a column is compared with.
fn value_of(v: &Json, floats: &FloatReadings) -> (r: Option<ColumnValue>)
    ensures
        match read_value(v@, floats.readings@) {
            Some(w) => r is Some && r->0@ == w,
            None => r is None,
        },
{
    match v {
        Json::Text(tag) => tagged_value_of(tag.as_str(), &Json::Null, floats),
        Json::Record(fields) => {
            proof {
                lemma_record_view(fields@);
            }
            if fields.len() == 1 {
                assert(record_view(fields@)[0] == (fields@[0].0@, json_view(fields@[0].1)));
                tagged_value_of(fields[0].0.as_str(), &fields[0].1, floats)
            } else {
                None
            }
        },
        _ => None,
    }
}

/// Reads the parts of a comparison.
fn filter_of(v: &Json, floats: &FloatReadings) -> (r: Option<PredicateFilter>)
    ensures
        forall|op: ScopeOp|
            match #[trigger] read_leaf(op, v@, floats.readings@) {
                Some(e) => r is Some && e == ExprView::Leaf(op, r->0.column@, r->0.value@),
                None => r is None,
            },
{
    if !v.shaped(2) {
        return None;
    }
    match (v.part(0, "column"), v.part(1, "value")) {
        (Some(Json::Text(column)), Some(w)) => match value_of(w, floats) {
            Some(value) => Some(PredicateFilter { column: column.clone(), value }),
            None => None,
        },
        _ => None,
    }
}

proof fn lemma_read_exprs_prefix(items: Seq<JsonView>, floats: Map<Seq<char>, Float>, i: int)
    requires
        0 <= i <= items.len(),
        read_exprs(items.take(i), floats) is None,
    ensures
        read_exprs(items, floats) is None,
    decreases items.len() - i,
{
    if i == items.len() {
        assert(items.take(i) =~= items);
    } else {
        assert(items.take(i + 1).drop_last() =~= items.take(i));
        lemma_read_exprs_prefix(items, floats, i + 1);
    }
}

/// Reads predicates.
fn parts_of(items: &Vec<Json>, floats: &FloatReadings) -> (r: Option<Vec<PredicateExpr>>)
    ensures
        match read_exprs(list_view(items@), floats.readings@) {
            Some(s) => r is Some && expr_views(r->0@) == s,
            None => r is None,
        },
    decreases items@,
{
    let ghost views = list_view(items@);
    let mut out: Vec<PredicateExpr> = Vec::new();
    let mut i: usize = 0;
    proof {
        lemma_list_view(items@);
        assert(views.take(0) =~= seq![]);
        assert(expr_views(out@) =~= seq![]);
    }
    while i < items.len()
        invariant
            i <= items@.len(),
            views == list_view(items@),
            views.len() == items@.len(),
            forall|k: int| 0 <= k < items@.len() ==> #[trigger] views[k] == json_view(items@[k]),
            read_exprs(views.take(i as int), floats.readings@) == Some(expr_views(out@)),
        decreases items@.len() - i,
    {
        let ghost then = out@;
        proof {
            assert(views.take(i + 1).drop_last() =~= views.take(i as int));
            assert(views.take(i + 1).last() == views[i as int]);
        }
        match expr_of(&items[i], floats) {
            Some(e) => {
                out.push(e);
                assert(out@.drop_last() =~= then);
            },
            None => {
                proof {
                    lemma_read_exprs_prefix(views, floats.readings@, i + 1);
                }
                return None;
            },
        }
        i += 1;
    }
    assert(views.take(i as int) =~= views);
    Some(out)
}

/// Reads a predicate. A number with a decimal point is read through `floats`.
pub fn expr_of(v: &Json, floats: &FloatReadings) -> (r: Option<PredicateExpr>)
    ensures
        match read_expr(v@, floats.readings@) {
            Some(e) => r is Some && r->0@ == e,
            None => r is None,
        },
    decreases *v,
{
    match v {
        Json::Text(tag) => if same_text(tag.as_str(), "Any") {
            Some(PredicateExpr::Any)
        } else {
            None
        },
        Json::Record(fields) => {
            proof {
                lemma_record_view(fields@);
            }
            if fields.len() != 1 {
                return None;
            }
            assert(record_view(fields@)[0] == (fields@[0].0@, json_view(fields@[0].1)));
            let tag: &str = fields[0].0.as_str();
            let content: &Json = &fields[0].1;
            if same_text(tag, "Any") {
                match content {
                    Json::Null => Some(PredicateExpr::Any),
                    _ => None,
                }
            } else if same_text(tag, "And") {
                match content {
                    Json::List(items) => match parts_of(items, floats) {
                        Some(parts) => Some(PredicateExpr::And(parts)),
                        None => None,
                    },
                    _ => None,
                }
            } else if same_text(tag, "Or") {
                match content {
                    Json::List(items) => match parts_of(items, floats) {
                        Some(parts) => Some(PredicateExpr::Or(parts)),
                        None => None,
                    },
                    _ => None,
                }
            } else if same_text(tag, "Not") {
                match expr_of(content, floats) {
                    Some(inner) => Some(PredicateExpr::Not(Box::new(inner))),
                    None => None,
                }
            } else {
                let filter = filter_of(content, floats);
                match filter {
                    None => {
                        assert(forall|op: ScopeOp|
                            #[trigger] read_leaf(op, content@, floats.readings@) is None);
                        None
                    },
                    Some(f) => if same_text(tag, "Eq") {
                        Some(PredicateExpr::Eq(f))
                    } else if same_text(tag, "Ne") {
                        Some(PredicateExpr::Ne(f))
                    } else if same_text(tag, "Lt") {
                        Some(PredicateExpr::Lt(f))
                    } else if same_text(tag, "Gt") {
                        Some(PredicateExpr::Gt(f))
                    } else if same_text(tag, "Le") {
                        Some(PredicateExpr::Le(f))
                    } else if same_text(tag, "Ge") {
                        Some(PredicateExpr::Ge(f))
                    } else {
                        None
                    },
                }
            }
        },
        _ => None,
    }
}

impl PredicateExpr {
    /// The predicate as JSON text. Where it holds no number with a decimal point and does
    /// not nest too deep, the text reads back as its JSON value.
    pub fn to_json(&self) -> (r: String)
        ensures
            r@ == json_text(expr_json(self@)),
            plain(expr_json(self@)) && nesting(expr_json(self@)) <= 127 ==> json_read(
                encode_utf8(r@),
            ) == Some(expr_json(self@)),
    {
        render_json(&expr_value(self))
    }

    /// The predicate that a JSON text writes, if it writes one. A number with a decimal
    /// point is read through `floats`.
    pub fn from_json(text: &str, floats: &FloatReadings) -> (r: Option<Self>)
        ensures
            match json_read(encode_utf8(text@)) {
                Some(v) => match read_expr(v, floats.readings@) {
                    Some(e) => r is Some && r->0@ == e,
                    None => r is None,
                },
                None => r is None,
            },
    {
        let bytes = text.as_bytes_vec();
        match parse_json(bytes.as_slice()) {
            Some(v) => expr_of(&v, floats),
            None => None,
        }
    }
}

// ---- laws ----

/// Whether every number with a decimal point in a predicate is what its text reads as.
pub open spec fn floats_known(e: ExprView, floats: Map<Seq<char>, Float>) -> bool
    decreases e,
{
    match e {
        ExprView::Leaf(_, _, ValueView::Float(f)) => floats.contains_key(f.debug)
            && floats[f.debug]@ == f,
        ExprView::And(parts) => all_floats_known(parts, floats),
        ExprView::Or(parts) => all_floats_known(parts, floats),
        ExprView::Not(inner) => floats_known(*inner, floats),
        _ => true,
    }
}

/// Whether that is so in every one of the predicates.
pub open spec fn all_floats_known(s: Seq<ExprView>, floats: Map<Seq<char>, Float>) -> bool
    decreases s,
{
    s.len() == 0 || (all_floats_known(s.drop_last(), floats) && floats_known(s.last(), floats))
}

proof fn lemma_tags()
    ensures
        "Any"@ != "Text"@ && "Any"@ != "Number"@ && "Any"@ != "Float"@ && "Any"@ != "Bool"@
            && "Any"@ != "Param"@ && "Any"@ != "And"@ && "Any"@ != "Or"@ && "Any"@ != "Not"@,
        "Text"@ != "Number"@ && "Text"@ != "Float"@ && "Text"@ != "Bool"@ && "Text"@ != "Param"@,
        "Number"@ != "Float"@ && "Number"@ != "Bool"@ && "Number"@ != "Param"@,
        "Float"@ != "Bool"@ && "Float"@ != "Param"@ && "Bool"@ != "Param"@,
        "And"@ != "Or"@ && "And"@ != "Not"@ && "Or"@ != "Not"@,
        "column"@ != "value"@,
        forall|op: ScopeOp|
            op_tagged(#[trigger] op_tag(op)) == Some(op) && op_tag(op) != "Any"@ && op_tag(op)
                != "And"@ && op_tag(op) != "Or"@ && op_tag(op) != "Not"@,
{
    reveal_strlit("Any");
    reveal_strlit("Text");
    reveal_strlit("Number");
    reveal_strlit("Float");
    reveal_strlit("Bool");
    reveal_strlit("Param");
    reveal_strlit("And");
    reveal_strlit("Or");
    reveal_strlit("Not");
    reveal_strlit("column");
    reveal_strlit("value");
    reveal_strlit("Eq");
    reveal_strlit("Ne");
    reveal_strlit("Lt");
    reveal_strlit("Gt");
    reveal_strlit("Le");
    reveal_strlit("Ge");
    assert("Any"@[1] == 'n' && "And"@[1] == 'n' && "Not"@[1] == 'o' && "Any"@[2] == 'y'
        && "And"@[2] == 'd');
    assert("Text"@[0] == 'T' && "Bool"@[0] == 'B' && "Float"@[0] == 'F' && "Param"@[0] == 'P');
    assert("Eq"@[0] == 'E' && "Ne"@[0] == 'N' && "Lt"@[0] == 'L' && "Gt"@[0] == 'G' && "Le"@[0]
        == 'L' && "Ge"@[0] == 'G' && "Or"@[0] == 'O');
    assert("column"@.len() == 6 && "value"@.len() == 5);
    assert("Lt"@[1] == 't' && "Le"@[1] == 'e' && "Gt"@[1] == 't' && "Ge"@[1] == 'e');
}

proof fn lemma_leaf_reads_back(
    op: ScopeOp,
    column: Seq<char>,
    value: ValueView,
    floats: Map<Seq<char>, Float>,
)
    requires
        floats_known(ExprView::Leaf(op, column, value), floats),
    ensures
        read_leaf(op, leaf_json(op, column, value)->Record_0[0].1, floats) == Some(
            ExprView::Leaf(op, column, value),
        ),
{
    lemma_tags();
    let inner = leaf_json(op, column, value)->Record_0[0].1;
    let fields = inner->Record_0;
    assert(fields.drop_first()[0] == fields[1]);
    reveal_with_fuel(crate::json::member, 3);
    assert(read_value(value_json(value), floats) == Some(value));
}

/// A predicate reads back from its JSON value: nothing of it is lost. A number with a
/// decimal point reads back where its text reads as that number.
pub proof fn law_predicate_reads_back(e: ExprView, floats: Map<Seq<char>, Float>)
    requires
        floats_known(e, floats),
    ensures
        read_expr(expr_json(e), floats) == Some(e),
    decreases e,
{
    lemma_tags();
    match e {
        ExprView::Any => {},
        ExprView::Leaf(op, column, value) => {
            lemma_leaf_reads_back(op, column, value, floats);
        },
        ExprView::And(parts) => {
            lemma_all_read_back(parts, floats);
        },
        ExprView::Or(parts) => {
            lemma_all_read_back(parts, floats);
        },
        ExprView::Not(inner) => {
            law_predicate_reads_back(*inner, floats);
        },
    }
}

proof fn lemma_all_read_back(s: Seq<ExprView>, floats: Map<Seq<char>, Float>)
    requires
        all_floats_known(s, floats),
    ensures
        read_exprs(exprs_json(s), floats) == Some(s),
    decreases s,
{
    if s.len() > 0 {
        lemma_all_read_back(s.drop_last(), floats);
        law_predicate_reads_back(s.last(), floats);
        assert(exprs_json(s).drop_last() =~= exprs_json(s.drop_last()));
        assert(s.drop_last().push(s.last()) =~= s);
    } else {
        assert(s =~= seq![]);
    }
}

/// The JSON value of a predicate without a number with a decimal point is plain.
pub proof fn lemma_predicate_is_plain(e: ExprView)
    requires
        floats_known(e, Map::empty()),
    ensures
        plain(expr_json(e)),
    decreases e,
{
    lemma_tags_are_plain();
    match e {
        ExprView::Any => {},
        ExprView::Leaf(op, column, value) => {
            lemma_tags();
            let inner = leaf_json(op, column, value)->Record_0[0].1;
            if value_json(value) is Record {
                lemma_plain_fields(value_json(value)->Record_0);
            }
            lemma_plain_fields(inner->Record_0);
            lemma_plain_fields(expr_json(e)->Record_0);
        },
        ExprView::And(parts) => {
            lemma_parts_are_plain(parts);
            lemma_plain_fields(expr_json(e)->Record_0);
        },
        ExprView::Or(parts) => {
            lemma_parts_are_plain(parts);
            lemma_plain_fields(expr_json(e)->Record_0);
        },
        ExprView::Not(inner) => {
            lemma_predicate_is_plain(*inner);
            lemma_plain_fields(expr_json(e)->Record_0);
        },
    }
}

proof fn lemma_parts_are_plain(s: Seq<ExprView>)
    requires
        all_floats_known(s, Map::empty()),
    ensures
        plain_items(exprs_json(s)),
    decreases s,
{
    if s.len() > 0 {
        lemma_parts_are_plain(s.drop_last());
        lemma_predicate_is_plain(s.last());
        assert(exprs_json(s).drop_last() =~= exprs_json(s.drop_last()));
    }
}

proof fn lemma_tags_are_plain()
    ensures
        "Text"@.len() > 0 && "Text"@[0] != '$',
        "Number"@.len() > 0 && "Number"@[0] != '$',
        "Bool"@.len() > 0 && "Bool"@[0] != '$',
        "Param"@.len() > 0 && "Param"@[0] != '$',
        "And"@.len() > 0 && "And"@[0] != '$',
        "Or"@.len() > 0 && "Or"@[0] != '$',
        "Not"@.len() > 0 && "Not"@[0] != '$',
        "column"@.len() > 0 && "column"@[0] != '$',
        forall|op: ScopeOp| (#[trigger] op_tag(op)).len() > 0 && op_tag(op)[0] != '$',
{
    reveal_strlit("Text");
    reveal_strlit("Number");
    reveal_strlit("Bool");
    reveal_strlit("Param");
    reveal_strlit("And");
    reveal_strlit("Or");
    reveal_strlit("Not");
    reveal_strlit("column");
    reveal_strlit("Eq");
    reveal_strlit("Ne");
    reveal_strlit("Lt");
    reveal_strlit("Gt");
    reveal_strlit("Le");
    reveal_strlit("Ge");
}

/// Different predicates have different JSON values, where their numbers with a decimal
/// point are what their texts read as.
pub proof fn law_json_tells_predicates_apart(
    a: ExprView,
    b: ExprView,
    floats: Map<Seq<char>, Float>,
)
    requires
        floats_known(a, floats),
        floats_known(b, floats),
        expr_json(a) == expr_json(b),
    ensures
        a == b,
{
    law_predicate_reads_back(a, floats);
    law_predicate_reads_back(b, floats);
}

} // verus!
