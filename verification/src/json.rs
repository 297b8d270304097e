//! JSON values. The grammar is `serde_json`'s: this module holds the values as
//! plain data, calls `serde_json` to read and to write them, and looks into them.

use vstd::prelude::*;
use vstd::utf8::encode_utf8;
use crate::text::same_text;

verus! {

/// A JSON value. A number is an unsigned integer, a negative integer, or any
/// other number by the text that `serde_json` writes for it.
#[derive(Debug)]
pub enum Json {
    Null,
    Bool(bool),
    Unsigned(u64),
    Negative(i64),
    Real(String),
    Text(String),
    List(Vec<Json>),
    Record(Vec<(String, Json)>),
}

/// The mathematical form of a JSON value. A record is its members in order.
pub enum JsonView {
    Null,
    Bool(bool),
    Unsigned(u64),
    Negative(i64),
    Real(Seq<char>),
    Text(Seq<char>),
    List(Seq<JsonView>),
    Record(Seq<(Seq<char>, JsonView)>),
}

impl View for Json {
    type V = JsonView;

    open spec fn view(&self) -> JsonView {
        json_view(*self)
    }
}

/// The mathematical form of `j`.
pub open spec fn json_view(j: Json) -> JsonView
    decreases j,
{
    match j {
        Json::Null => JsonView::Null,
        Json::Bool(b) => JsonView::Bool(b),
        Json::Unsigned(n) => JsonView::Unsigned(n),
        Json::Negative(n) => JsonView::Negative(n),
        Json::Real(s) => JsonView::Real(s@),
        Json::Text(s) => JsonView::Text(s@),
        Json::List(v) => JsonView::List(list_view(v@)),
        Json::Record(v) => JsonView::Record(record_view(v@)),
    }
}

/// The mathematical forms of the items, in order.
pub open spec fn list_view(s: Seq<Json>) -> Seq<JsonView>
    decreases s,
{
    if s.len() == 0 {
        seq![]
    } else {
        list_view(s.drop_last()).push(json_view(s.last()))
    }
}

/// The mathematical forms of the members, in order.
pub open spec fn record_view(s: Seq<(String, Json)>) -> Seq<(Seq<char>, JsonView)>
    decreases s,
{
    if s.len() == 0 {
        seq![]
    } else {
        record_view(s.drop_last()).push((s.last().0@, json_view(s.last().1)))
    }
}

/// `list_view` goes item by item.
pub proof fn lemma_list_view(s: Seq<Json>)
    ensures
        list_view(s).len() == s.len(),
        forall|i: int| 0 <= i < s.len() ==> #[trigger] list_view(s)[i] == json_view(s[i]),
    decreases s.len(),
{
    if s.len() > 0 {
        lemma_list_view(s.drop_last());
        assert forall|i: int| 0 <= i < s.len() implies #[trigger] list_view(s)[i] == json_view(
            s[i],
        ) by {
            if i < s.len() - 1 {
                assert(list_view(s)[i] == list_view(s.drop_last())[i]);
            }
        }
    }
}

/// `record_view` goes member by member.
pub proof fn lemma_record_view(s: Seq<(String, Json)>)
    ensures
        record_view(s).len() == s.len(),
        forall|i: int|
            0 <= i < s.len() ==> #[trigger] record_view(s)[i] == (s[i].0@, json_view(s[i].1)),
    decreases s.len(),
{
    if s.len() > 0 {
        lemma_record_view(s.drop_last());
        assert forall|i: int| 0 <= i < s.len() implies #[trigger] record_view(s)[i] == (
            s[i].0@,
            json_view(s[i].1),
        ) by {
            if i < s.len() - 1 {
                assert(record_view(s)[i] == record_view(s.drop_last())[i]);
            }
        }
    }
}

/// The value of the first member called `name`.
pub open spec fn member(fields: Seq<(Seq<char>, JsonView)>, name: Seq<char>) -> Option<JsonView>
    decreases fields.len(),
{
    if fields.len() == 0 {
        None
    } else if fields[0].0 == name {
        Some(fields[0].1)
    } else {
        member(fields.drop_first(), name)
    }
}

/// The value under a name is that of the first member called so, and there is none
/// where no member is.
pub proof fn law_member_is_the_first_of_the_name(
    fields: Seq<(Seq<char>, JsonView)>,
    name: Seq<char>,
)
    ensures
        member(fields, name) is None ==> forall|i: int|
            0 <= i < fields.len() ==> (#[trigger] fields[i]).0 != name,
        member(fields, name) is Some ==> exists|i: int|
            0 <= i < fields.len() && (#[trigger] fields[i]).0 == name && member(fields, name)
                == Some(fields[i].1) && forall|k: int|
                0 <= k < i ==> (#[trigger] fields[k]).0 != name,
    decreases fields.len(),
{
    if fields.len() > 0 && fields[0].0 != name {
        let rest = fields.drop_first();
        law_member_is_the_first_of_the_name(rest, name);
        assert forall|i: int| 0 < i < fields.len() implies #[trigger] fields[i] == rest[i - 1] by {}
        if member(rest, name) is Some {
            let i = choose|i: int|
                0 <= i < rest.len() && (#[trigger] rest[i]).0 == name && member(rest, name) == Some(
                    rest[i].1,
                ) && forall|k: int| 0 <= k < i ==> (#[trigger] rest[k]).0 != name;
            assert(fields[i + 1].0 == name);
            assert forall|k: int| 0 <= k < i + 1 implies (#[trigger] fields[k]).0 != name by {
                if k > 0 {
                    assert(rest[k - 1].0 != name);
                }
            }
        } else {
            assert forall|i: int| 0 <= i < fields.len() implies (#[trigger] fields[i]).0
                != name by {
                if i > 0 {
                    assert(rest[i - 1].0 != name);
                }
            }
        }
    }
}

/// How deep lists and records nest in `v`.
pub open spec fn nesting(v: JsonView) -> nat
    decreases v,
{
    match v {
        JsonView::List(items) => 1 + list_nesting(items),
        JsonView::Record(fields) => 1 + record_nesting(fields),
        _ => 0,
    }
}

/// The deepest nesting among the items.
pub open spec fn list_nesting(items: Seq<JsonView>) -> nat
    decreases items,
{
    if items.len() == 0 {
        0
    } else {
        let rest = list_nesting(items.drop_last());
        let last = nesting(items.last());
        if rest >= last {
            rest
        } else {
            last
        }
    }
}

/// The deepest nesting among the members.
pub open spec fn record_nesting(fields: Seq<(Seq<char>, JsonView)>) -> nat
    decreases fields,
{
    if fields.len() == 0 {
        0
    } else {
        let rest = record_nesting(fields.drop_last());
        let last = nesting(fields.last().1);
        if rest >= last {
            rest
        } else {
            last
        }
    }
}

/// A name under which `serde_json` reads something else than a record, where it comes
/// first in one.
pub open spec fn reserved(name: Seq<char>) -> bool {
    name == "$serde_json::private::RawValue"@ || name == "$serde_json::private::Number"@
}

/// Whether the value holds no number but integers, in the form that fits their
/// sign, no two members of a record under one name, and no record that begins with a
/// reserved one.
pub open spec fn plain(v: JsonView) -> bool
    decreases v,
{
    match v {
        JsonView::Negative(n) => n < 0,
        JsonView::Real(_) => false,
        JsonView::List(items) => plain_items(items),
        JsonView::Record(fields) => plain_fields(fields) && (fields.len() > 0 ==> !reserved(
            fields[0].0,
        )),
        _ => true,
    }
}

/// Whether every item is plain.
pub open spec fn plain_items(items: Seq<JsonView>) -> bool
    decreases items,
{
    items.len() == 0 || (plain_items(items.drop_last()) && plain(items.last()))
}

/// Whether every member is plain and the names are distinct.
pub open spec fn plain_fields(fields: Seq<(Seq<char>, JsonView)>) -> bool
    decreases fields,
{
    fields.len() == 0 || (plain_fields(fields.drop_last()) && plain(fields.last().1) && (forall|
        i: int,
    |
        0 <= i < fields.len() - 1 ==> #[trigger] fields[i].0 != fields.last().0))
}

/// A list of plain items is plain.
pub proof fn lemma_plain_items(items: Seq<JsonView>)
    requires
        forall|i: int| 0 <= i < items.len() ==> plain(#[trigger] items[i]),
    ensures
        plain_items(items),
    decreases items.len(),
{
    if items.len() > 0 {
        assert forall|i: int| 0 <= i < items.drop_last().len() implies plain(
            #[trigger] items.drop_last()[i],
        ) by {
            assert(items.drop_last()[i] == items[i]);
        }
        lemma_plain_items(items.drop_last());
        assert(plain(items[items.len() - 1]));
    }
}

/// A list nests no deeper than its items.
pub proof fn lemma_list_nesting(items: Seq<JsonView>, depth: nat)
    requires
        forall|i: int| 0 <= i < items.len() ==> nesting(#[trigger] items[i]) <= depth,
    ensures
        list_nesting(items) <= depth,
    decreases items.len(),
{
    if items.len() > 0 {
        assert forall|i: int| 0 <= i < items.drop_last().len() implies nesting(
            #[trigger] items.drop_last()[i],
        ) <= depth by {
            assert(items.drop_last()[i] == items[i]);
        }
        lemma_list_nesting(items.drop_last(), depth);
        assert(nesting(items[items.len() - 1]) <= depth);
    }
}

/// A record of plain members under distinct names is plain, unless the first name
/// begins with a dollar sign, as the reserved ones do.
pub proof fn lemma_plain_fields(fields: Seq<(Seq<char>, JsonView)>)
    requires
        fields.len() > 0 ==> fields[0].0.len() > 0 && fields[0].0[0] != '$',
        forall|i: int| 0 <= i < fields.len() ==> plain((#[trigger] fields[i]).1),
        forall|i: int, j: int|
            0 <= i < j < fields.len() ==> (#[trigger] fields[i]).0 != (#[trigger] fields[j]).0,
    ensures
        plain_fields(fields),
        plain(JsonView::Record(fields)),
    decreases fields.len(),
{
    if fields.len() > 0 {
        let front = fields.drop_last();
        assert forall|i: int| 0 <= i < front.len() implies plain((#[trigger] front[i]).1) by {
            assert(front[i] == fields[i]);
        }
        assert forall|i: int, j: int| 0 <= i < j < front.len() implies (#[trigger] front[i]).0
            != (#[trigger] front[j]).0 by {
            assert(front[i] == fields[i] && front[j] == fields[j]);
        }
        lemma_plain_fields(front);
        assert(plain(fields[fields.len() - 1].1));
        reveal_strlit("$serde_json::private::RawValue");
        reveal_strlit("$serde_json::private::Number");
    }
}

/// A record nests one deeper than its members at most.
pub proof fn lemma_record_nesting(fields: Seq<(Seq<char>, JsonView)>, depth: nat)
    requires
        forall|i: int| 0 <= i < fields.len() ==> nesting((#[trigger] fields[i]).1) <= depth,
    ensures
        record_nesting(fields) <= depth,
        nesting(JsonView::Record(fields)) <= depth + 1,
    decreases fields.len(),
{
    if fields.len() > 0 {
        let front = fields.drop_last();
        assert forall|i: int| 0 <= i < front.len() implies nesting((#[trigger] front[i]).1)
            <= depth by {
            assert(front[i] == fields[i]);
        }
        lemma_record_nesting(front, depth);
        assert(nesting(fields[fields.len() - 1].1) <= depth);
    }
}

/// Text that is not empty has bytes.
pub proof fn lemma_text_has_bytes(s: Seq<char>)
    requires
        s.len() > 0,
    ensures
        encode_utf8(s).len() > 0,
{
}

/// The part of a structure called `name`: the member of a record, or the item at
/// `i` where the structure is written as a list.
pub open spec fn part(v: JsonView, i: int, name: Seq<char>) -> Option<JsonView> {
    match v {
        JsonView::Record(fields) => member(fields, name),
        JsonView::List(items) => if 0 <= i < items.len() {
            Some(items[i])
        } else {
            None
        },
        _ => None,
    }
}

/// Whether `v` can be a structure of `n` parts: a record, or a list of no more
/// than `n` items.
pub open spec fn shaped(v: JsonView, n: int) -> bool {
    match v {
        JsonView::Record(_) => true,
        JsonView::List(items) => items.len() <= n,
        _ => false,
    }
}

// ---- serde_json ----

/// `serde_json::Value`, carried between the two conversions below.
#[verifier::external_type_specification]
#[verifier::external_body]
pub struct ExValue(serde_json::Value);

/// What `serde_json::from_slice` reads, or `None` where it fails.
pub uninterp spec fn json_read(bytes: Seq<u8>) -> Option<JsonView>;

/// What the error of `serde_json::from_slice` says, where it fails.
pub uninterp spec fn json_fault(bytes: Seq<u8>) -> Seq<char>;

/// What `serde_json::to_string` writes.
pub uninterp spec fn json_text(v: JsonView) -> Seq<char>;

/// The same value as plain data: variant by variant, a number by its integer
/// where it has one.
#[verifier::external_body]
fn json_of(v: serde_json::Value) -> Json {
    match v {
        serde_json::Value::Null => Json::Null,
        serde_json::Value::Bool(b) => Json::Bool(b),
        serde_json::Value::Number(n) => match (n.as_u64(), n.as_i64()) {
            (Some(u), _) => Json::Unsigned(u),
            (None, Some(i)) => Json::Negative(i),
            (None, None) => Json::Real(n.to_string()),
        },
        serde_json::Value::String(s) => Json::Text(s),
        serde_json::Value::Array(a) => Json::List(a.into_iter().map(json_of).collect()),
        serde_json::Value::Object(m) => {
            Json::Record(m.into_iter().map(|(k, x)| (k, json_of(x))).collect())
        },
    }
}

/// The same value as a `serde_json::Value`: variant by variant, a number that is
/// no integer read from its text.
#[verifier::external_body]
fn value_of(j: &Json) -> serde_json::Value {
    match j {
        Json::Null => serde_json::Value::Null,
        Json::Bool(b) => serde_json::Value::Bool(*b),
        Json::Unsigned(u) => serde_json::Value::from(*u),
        Json::Negative(i) => serde_json::Value::from(*i),
        Json::Real(s) => s.parse().map_or(serde_json::Value::Null, serde_json::Value::Number),
        Json::Text(s) => serde_json::Value::String(s.clone()),
        Json::List(a) => serde_json::Value::Array(a.iter().map(value_of).collect()),
        Json::Record(m) => {
            serde_json::Value::Object(m.iter().map(|(k, x)| (k.clone(), value_of(x))).collect())
        },
    }
}

/// `serde_json::from_slice` into a `serde_json::Value`: the value that the bytes
/// write, or the text of the error where they are no JSON document. Which bytes those
/// are, what each gives and what is said of them, only the names say.
#[verifier::external_body]
pub(crate) fn parse_or_fault(bytes: &[u8]) -> (r: Result<Json, String>)
    ensures
        match json_read(bytes@) {
            Some(v) => r is Ok && r->Ok_0@ == v,
            None => r is Err && r->Err_0@ == json_fault(bytes@),
        },
{
    serde_json::from_slice::<serde_json::Value>(bytes).map(json_of).map_err(|e| e.to_string())
}

/// The value that the bytes write, if they are a JSON document.
pub(crate) fn parse_json(bytes: &[u8]) -> (r: Option<Json>)
    ensures
        r is Some <==> json_read(bytes@) is Some,
        r is Some ==> r->0@ == json_read(bytes@)->0,
{
    match parse_or_fault(bytes) {
        Ok(v) => Some(v),
        Err(_) => None,
    }
}

/// `serde_json::to_string` of a `serde_json::Value`: the text of the value, which is
/// not empty and holds no character below the space, since those are escaped. What was
/// written of a plain value nested up to 127 deep, the depth that the reader allows,
/// reads back as that value.
#[verifier::external_body]
pub(crate) fn render_json(j: &Json) -> (r: String)
    ensures
        r@ == json_text(j@),
        r@.len() > 0,
        forall|i: int| 0 <= i < r@.len() ==> ' ' <= #[trigger] r@[i],
        plain(j@) && nesting(j@) <= 127 ==> json_read(encode_utf8(r@)) == Some(j@),
{
    serde_json::to_string(&value_of(j)).unwrap_or_default()
}

// ---- looking into values ----

impl Json {
    /// The value of the member called `name`, where this is a record that has one.
    pub fn field(&self, name: &str) -> (r: Option<&Json>)
        ensures
            r is Some <==> (self@ is Record && member(self@->Record_0, name@) is Some),
            r is Some ==> r->0@ == member(self@->Record_0, name@)->0,
    {
        match self {
            Json::Record(fields) => {
                let ghost all = record_view(fields@);
                proof {
                    lemma_record_view(fields@);
                    assert(all.skip(0) == all);
                }
                let mut i: usize = 0;
                while i < fields.len()
                    invariant
                        i <= fields@.len(),
                        self@ == JsonView::Record(all),
                        all.len() == fields@.len(),
                        forall|k: int|
                            0 <= k < fields@.len() ==> #[trigger] all[k] == (
                                fields@[k].0@,
                                json_view(fields@[k].1),
                            ),
                        member(all, name@) == member(all.skip(i as int), name@),
                    decreases fields@.len() - i,
                {
                    assert(all.skip(i as int)[0] == all[i as int]);
                    if same_text(fields[i].0.as_str(), name) {
                        return Some(&fields[i].1);
                    }
                    assert(all.skip(i as int).drop_first() == all.skip(i + 1));
                    i += 1;
                }
                None
            },
            _ => None,
        }
    }

    /// The part of this structure called `name`, which stands at `i` in a list.
    pub fn part(&self, i: usize, name: &str) -> (r: Option<&Json>)
        ensures
            r is Some <==> part(self@, i as int, name@) is Some,
            r is Some ==> r->0@ == part(self@, i as int, name@)->0,
    {
        match self {
            Json::Record(_) => self.field(name),
            Json::List(items) => {
                proof {
                    lemma_list_view(items@);
                }
                if i < items.len() {
                    assert(list_view(items@)[i as int] == json_view(items@[i as int]));
                    Some(&items[i])
                } else {
                    None
                }
            },
            _ => None,
        }
    }

    /// Whether this can be a structure of `n` parts.
    pub fn shaped(&self, n: usize) -> (r: bool)
        ensures
            r == shaped(self@, n as int),
    {
        match self {
            Json::Record(_) => true,
            Json::List(items) => {
                proof {
                    lemma_list_view(items@);
                }
                items.len() <= n
            },
            _ => false,
        }
    }

    /// The text of a text value.
    pub fn as_text(&self) -> (r: Option<&String>)
        ensures
            r is Some <==> self@ is Text,
            r is Some ==> r->0@ == self@->Text_0,
    {
        match self {
            Json::Text(s) => Some(s),
            _ => None,
        }
    }

    /// The number of a value that is an unsigned integer.
    pub fn as_unsigned(&self) -> (r: Option<u64>)
        ensures
            r is Some <==> self@ is Unsigned,
            r is Some ==> r->0 == self@->Unsigned_0,
    {
        match self {
            Json::Unsigned(n) => Some(*n),
            _ => None,
        }
    }
}

/// The same value again.
fn copy_json(j: &Json) -> (r: Json)
    ensures
        json_view(r) == json_view(*j),
    decreases *j,
{
    match j {
        Json::Null => Json::Null,
        Json::Bool(b) => Json::Bool(*b),
        Json::Unsigned(n) => Json::Unsigned(*n),
        Json::Negative(n) => Json::Negative(*n),
        Json::Real(s) => Json::Real(s.clone()),
        Json::Text(s) => Json::Text(s.clone()),
        Json::List(items) => {
            let mut out: Vec<Json> = Vec::new();
            let mut i: usize = 0;
            while i < items.len()
                invariant
                    i <= items@.len(),
                    decreases_to!(j => items@),
                    out@.len() == i,
                    forall|k: int|
                        0 <= k < i ==> json_view(#[trigger] out@[k]) == json_view(items@[k]),
                decreases items@.len() - i,
            {
                out.push(copy_json(&items[i]));
                i += 1;
            }
            proof {
                lemma_list_view(out@);
                lemma_list_view(items@);
                assert(list_view(out@) =~= list_view(items@));
            }
            Json::List(out)
        },
        Json::Record(fields) => {
            let mut out: Vec<(String, Json)> = Vec::new();
            let mut i: usize = 0;
            while i < fields.len()
                invariant
                    i <= fields@.len(),
                    decreases_to!(j => fields@),
                    out@.len() == i,
                    forall|k: int|
                        0 <= k < i ==> (#[trigger] out@[k]).0@ == fields@[k].0@ && json_view(
                            out@[k].1,
                        ) == json_view(fields@[k].1),
                decreases fields@.len() - i,
            {
                let e = &fields[i];
                assert(decreases_to!(fields@ => fields@[i as int]));
                out.push((e.0.clone(), copy_json(&e.1)));
                i += 1;
            }
            proof {
                lemma_record_view(out@);
                lemma_record_view(fields@);
                assert(record_view(out@) =~= record_view(fields@));
            }
            Json::Record(out)
        },
    }
}

impl Clone for Json {
    fn clone(&self) -> (r: Self)
        ensures
            r@ == self@,
    {
        copy_json(self)
    }
}

} // verus!
