//! Add-wins observed-remove sets. A set is stored as a JSON payload; merging two
//! payloads keeps, for each value, the latest add and the latest remove.

use vstd::prelude::*;
use vstd::utf8::encode_utf8;
use crate::hlc::{hlc_lt, hlc_max, Hlc};
use crate::json::{
    json_fault, json_read, json_text, json_view, lemma_list_nesting, lemma_list_view,
    lemma_plain_fields, lemma_plain_items, lemma_record_nesting, lemma_record_view,
    lemma_text_has_bytes, list_view, member, nesting, parse_or_fault, part, plain, record_view,
    render_json, shaped, Json, JsonView,
};
use crate::ordered::{listing, lists, names_ascend, pairs, OrderedMap};
use crate::sorting::{in_order, key_names, order_by, order_of, positions};
use crate::text::{lemma_lex_irreflexive, text_views};

verus! {

/// One value of a set, with the clock of its latest add and of its latest remove.
#[derive(Debug, Clone, PartialEq, Eq)]
pub struct OrSetElement {
    /// The value.
    pub v: String,
    /// The latest add.
    pub h: Hlc,
    /// The latest remove, where the value was ever removed.
    pub d: Option<Hlc>,
}

/// The elements of a set, as a payload holds them.
#[derive(Debug, Clone)]
pub struct OrSetPayload {
    pub elements: Vec<OrSetElement>,
}

impl Default for OrSetPayload {
    /// No elements.
    fn default() -> (r: Self)
        ensures
            r.elements@.len() == 0,
    {
        OrSetPayload { elements: Vec::new() }
    }
}

/// Why a payload is no set.
#[derive(Debug, PartialEq, Eq)]
pub enum OrSetError {
    /// Not JSON; with what the JSON reader says.
    InvalidJson(String),
    /// JSON, but no record with a list of elements.
    Malformed,
}

/// Why a payload is no set, by its values.
pub enum OrSetErrorView {
    InvalidJson(Seq<char>),
    Malformed,
}

impl View for OrSetError {
    type V = OrSetErrorView;

    open spec fn view(&self) -> OrSetErrorView {
        match *self {
            OrSetError::InvalidJson(said) => OrSetErrorView::InvalidJson(said@),
            OrSetError::Malformed => OrSetErrorView::Malformed,
        }
    }
}

// ---- the model ----

/// Whether an element with these clocks is in the set: never removed, or added
/// after the latest remove.
pub open spec fn present(stamp: (Hlc, Option<Hlc>)) -> bool {
    match stamp.1 {
        None => true,
        Some(d) => hlc_lt(d, stamp.0),
    }
}

/// The later of two removes, either of which may be missing.
pub open spec fn later_remove(a: Option<Hlc>, b: Option<Hlc>) -> Option<Hlc> {
    match (a, b) {
        (None, _) => b,
        (_, None) => a,
        (Some(x), Some(y)) => Some(hlc_max(x, y)),
    }
}

/// The clocks of one value seen from two sides.
pub open spec fn joined(a: (Hlc, Option<Hlc>), b: (Hlc, Option<Hlc>)) -> (Hlc, Option<Hlc>) {
    (hlc_max(a.0, b.0), later_remove(a.1, b.1))
}

/// The state `m` after one more element is seen.
pub open spec fn with_element(
    m: Map<Seq<char>, (Hlc, Option<Hlc>)>,
    e: (Seq<char>, (Hlc, Option<Hlc>)),
) -> Map<Seq<char>, (Hlc, Option<Hlc>)> {
    m.insert(
        e.0,
        if m.contains_key(e.0) {
            joined(m[e.0], e.1)
        } else {
            e.1
        },
    )
}

/// The state of a set: the clocks of each value.
pub open spec fn set_state(
    s: Seq<(Seq<char>, (Hlc, Option<Hlc>))>,
) -> Map<Seq<char>, (Hlc, Option<Hlc>)>
    decreases s.len(),
{
    if s.len() == 0 {
        Map::empty()
    } else {
        with_element(set_state(s.drop_last()), s.last())
    }
}

/// The state that knows all that either of two states knows.
pub open spec fn merged_state(
    a: Map<Seq<char>, (Hlc, Option<Hlc>)>,
    b: Map<Seq<char>, (Hlc, Option<Hlc>)>,
) -> Map<Seq<char>, (Hlc, Option<Hlc>)> {
    Map::new(
        |v: Seq<char>| a.contains_key(v) || b.contains_key(v),
        |v: Seq<char>|
            if a.contains_key(v) && b.contains_key(v) {
                joined(a[v], b[v])
            } else if a.contains_key(v) {
                a[v]
            } else {
                b[v]
            },
    )
}

// ---- the payload ----

/// A clock in JSON.
pub open spec fn hlc_json(h: Hlc) -> JsonView {
    JsonView::Record(
        seq![
            ("wall_ms"@, JsonView::Unsigned(h.wall_ms)),
            ("ctr"@, JsonView::Unsigned(h.ctr as u64)),
        ],
    )
}

/// An element in JSON; a remove that never was is left out.
pub open spec fn element_json(e: (Seq<char>, (Hlc, Option<Hlc>))) -> JsonView {
    let add = seq![("v"@, JsonView::Text(e.0)), ("h"@, hlc_json(e.1.0))];
    match e.1.1 {
        None => JsonView::Record(add),
        Some(d) => JsonView::Record(add.push(("d"@, hlc_json(d)))),
    }
}

/// A set in JSON.
pub open spec fn set_json(s: Seq<(Seq<char>, (Hlc, Option<Hlc>))>) -> JsonView {
    JsonView::Record(
        seq![
            (
                "elements"@,
                JsonView::List(Seq::new(s.len(), |i: int| element_json(s[i]))),
            ),
        ],
    )
}

/// The payload of a state: its values in order.
pub open spec fn set_bytes(m: Map<Seq<char>, (Hlc, Option<Hlc>)>) -> Seq<u8> {
    encode_utf8(json_text(set_json(listing(m))))
}

/// The clock that a JSON value writes.
pub open spec fn read_hlc(v: JsonView) -> Option<Hlc> {
    if !shaped(v, 2) {
        None
    } else {
        match (part(v, 0, "wall_ms"@), part(v, 1, "ctr"@)) {
            (Some(JsonView::Unsigned(w)), Some(JsonView::Unsigned(c))) => if c <= u32::MAX {
                Some(Hlc { wall_ms: w, ctr: c as u32 })
            } else {
                None
            },
            _ => None,
        }
    }
}

/// The element that a JSON value writes. A missing or null remove is none.
pub open spec fn read_element(v: JsonView) -> Option<(Seq<char>, (Hlc, Option<Hlc>))> {
    if !shaped(v, 3) {
        None
    } else {
        match (part(v, 0, "v"@), part(v, 1, "h"@)) {
            (Some(JsonView::Text(value)), Some(h)) => match read_hlc(h) {
                None => None,
                Some(add) => match part(v, 2, "d"@) {
                    None => Some((value, (add, None))),
                    Some(JsonView::Null) => Some((value, (add, None))),
                    Some(d) => match read_hlc(d) {
                        None => None,
                        Some(remove) => Some((value, (add, Some(remove)))),
                    },
                },
            },
            _ => None,
        }
    }
}

/// The elements that the JSON values write, if each writes one.
pub open spec fn read_elements(
    items: Seq<JsonView>,
) -> Option<Seq<(Seq<char>, (Hlc, Option<Hlc>))>>
    decreases items.len(),
{
    if items.len() == 0 {
        Some(seq![])
    } else {
        match (read_elements(items.drop_last()), read_element(items.last())) {
            (Some(s), Some(e)) => Some(s.push(e)),
            _ => None,
        }
    }
}

/// The elements of a payload. Nothing, and JSON's null, are an empty set.
pub open spec fn read_set(
    bytes: Seq<u8>,
) -> Result<Seq<(Seq<char>, (Hlc, Option<Hlc>))>, OrSetErrorView> {
    if bytes.len() == 0 {
        Ok(seq![])
    } else {
        match json_read(bytes) {
            None => Err(OrSetErrorView::InvalidJson(json_fault(bytes))),
            Some(JsonView::Null) => Ok(seq![]),
            Some(JsonView::Record(fields)) => match member(fields, "elements"@) {
                None => Ok(seq![]),
                Some(JsonView::List(items)) => match read_elements(items) {
                    Some(s) => Ok(s),
                    None => Err(OrSetErrorView::Malformed),
                },
                Some(_) => Err(OrSetErrorView::Malformed),
            },
            Some(_) => Err(OrSetErrorView::Malformed),
        }
    }
}

/// Whether `r` is the merge of the payloads `a` and `b`: the payload of the merged
/// state, and one that reads back as it.
pub open spec fn merges_to(a: Seq<u8>, b: Seq<u8>, r: Seq<u8>) -> bool {
    let m = merged_state(set_state(read_set(a)->Ok_0), set_state(read_set(b)->Ok_0));
    &&& read_set(a) is Ok
    &&& read_set(b) is Ok
    &&& r == set_bytes(m)
    &&& lists(listing(m), m)
    &&& read_set(r) == Ok::<Seq<(Seq<char>, (Hlc, Option<Hlc>))>, OrSetErrorView>(listing(m))
}

/// The payload that `existing` and `incoming` give together: their merge, or the
/// incoming one where either is no set.
pub open spec fn merged_or_incoming(existing: Seq<u8>, incoming: Seq<u8>) -> Seq<u8> {
    if read_set(existing) is Ok && read_set(incoming) is Ok {
        set_bytes(
            merged_state(set_state(read_set(existing)->Ok_0), set_state(read_set(incoming)->Ok_0)),
        )
    } else {
        incoming
    }
}

// ---- elements ----

/// The elements by their values.
pub open spec fn element_views(
    s: Seq<OrSetElement>,
) -> Seq<(Seq<char>, (Hlc, Option<Hlc>))> {
    Seq::new(s.len(), |i: int| (s[i].v@, (s[i].h, s[i].d)))
}

impl OrSetElement {
    /// Whether the element is in the set.
    pub fn is_present(&self) -> (r: bool)
        ensures
            r == present((self.h, self.d)),
    {
        match self.d {
            None => true,
            Some(d) => d.earlier(self.h),
        }
    }
}

/// The later of two removes.
fn max_remove(a: Option<Hlc>, b: Option<Hlc>) -> (r: Option<Hlc>)
    ensures
        r == later_remove(a, b),
{
    match (a, b) {
        (None, _) => b,
        (_, None) => a,
        (Some(x), Some(y)) => Some(x.max(y)),
    }
}

// ---- reading ----

/// Reads a clock.
fn hlc_of(v: &Json) -> (r: Option<Hlc>)
    ensures
        r == read_hlc(v@),
{
    if !v.shaped(2) {
        return None;
    }
    let wall_ms: u64 = match v.part(0, "wall_ms") {
        Some(w) => match w.as_unsigned() {
            Some(w) => w,
            None => {
                return None;
            },
        },
        None => {
            return None;
        },
    };
    match v.part(1, "ctr") {
        Some(c) => match c.as_unsigned() {
            Some(c) => if c <= 0xffff_ffff {
                Some(Hlc { wall_ms, ctr: c as u32 })
            } else {
                None
            },
            None => None,
        },
        None => None,
    }
}

/// Reads an element.
fn element_of(v: &Json) -> (r: Option<OrSetElement>)
    ensures
        r is Some <==> read_element(v@) is Some,
        r is Some ==> (r->0.v@, (r->0.h, r->0.d)) == read_element(v@)->0,
{
    if !v.shaped(3) {
        return None;
    }
    let value: String = match v.part(0, "v") {
        Some(t) => match t.as_text() {
            Some(t) => t.clone(),
            None => {
                return None;
            },
        },
        None => {
            return None;
        },
    };
    let h: Hlc = match v.part(1, "h") {
        Some(h) => match hlc_of(h) {
            Some(h) => h,
            None => {
                return None;
            },
        },
        None => {
            return None;
        },
    };
    match v.part(2, "d") {
        None => Some(OrSetElement { v: value, h, d: None }),
        Some(Json::Null) => Some(OrSetElement { v: value, h, d: None }),
        Some(d) => match hlc_of(d) {
            Some(d) => Some(OrSetElement { v: value, h, d: Some(d) }),
            None => None,
        },
    }
}

proof fn lemma_read_elements_prefix(items: Seq<JsonView>, i: int)
    requires
        0 <= i <= items.len(),
        read_elements(items.take(i)) is None,
    ensures
        read_elements(items) is None,
    decreases items.len() - i,
{
    if i == items.len() {
        assert(items.take(i) == items);
    } else {
        assert(items.take(i + 1).drop_last() == items.take(i));
        lemma_read_elements_prefix(items, i + 1);
    }
}

/// Reads the elements of a payload.
pub fn parse_elements(bytes: &[u8]) -> (r: Result<Vec<OrSetElement>, OrSetError>)
    ensures
        match read_set(bytes@) {
            Ok(s) => r is Ok && element_views(r->Ok_0@) == s,
            Err(e) => r is Err && r->Err_0@ == e,
        },
{
    if bytes.len() == 0 {
        let r: Vec<OrSetElement> = Vec::new();
        assert(element_views(r@) =~= seq![]);
        return Ok(r);
    }
    let value = match parse_or_fault(bytes) {
        Ok(v) => v,
        Err(said) => {
            return Err(OrSetError::InvalidJson(said));
        },
    };
    let mut r: Vec<OrSetElement> = Vec::new();
    assert(element_views(r@) =~= seq![]);
    match &value {
        Json::Null => Ok(r),
        Json::Record(_) => match value.field("elements") {
            None => Ok(r),
            Some(Json::List(items)) => {
                let ghost views = list_view(items@);
                proof {
                    lemma_list_view(items@);
                    assert(views.take(0) =~= seq![]);
                }
                let mut i: usize = 0;
                while i < items.len()
                    invariant
                        i <= items@.len(),
                        views == list_view(items@),
                        views.len() == items@.len(),
                        forall|k: int|
                            0 <= k < items@.len() ==> #[trigger] views[k] == json_view(items@[k]),
                        read_elements(views.take(i as int)) == Some(element_views(r@)),
                        read_set(bytes@) == (match read_elements(views) {
                            Some(s) => Ok::<Seq<(Seq<char>, (Hlc, Option<Hlc>))>, OrSetErrorView>(s),
                            None => Err(OrSetErrorView::Malformed),
                        }),
                    decreases items@.len() - i,
                {
                    assert(views.take(i + 1).drop_last() == views.take(i as int));
                    assert(views.take(i + 1).last() == views[i as int]);
                    match element_of(&items[i]) {
                        Some(e) => {
                            let ghost before = r@;
                            r.push(e);
                            assert(element_views(r@) =~= element_views(before).push(
                                (e.v@, (e.h, e.d)),
                            ));
                        },
                        None => {
                            proof {
                                lemma_read_elements_prefix(views, i + 1);
                            }
                            return Err(OrSetError::Malformed);
                        },
                    }
                    i += 1;
                }
                assert(views.take(i as int) == views);
                Ok(r)
            },
            Some(_) => Err(OrSetError::Malformed),
        },
        _ => Err(OrSetError::Malformed),
    }
}

// ---- writing ----

/// A clock as a JSON value.
fn hlc_value(h: Hlc) -> (r: Json)
    ensures
        r@ == hlc_json(h),
{
    let mut fields: Vec<(String, Json)> = Vec::new();
    fields.push(("wall_ms".to_owned(), Json::Unsigned(h.wall_ms)));
    fields.push(("ctr".to_owned(), Json::Unsigned(h.ctr as u64)));
    proof {
        lemma_record_view(fields@);
        assert(record_view(fields@) =~= hlc_json(h)->Record_0);
    }
    Json::Record(fields)
}

/// An element as a JSON value.
fn element_value(e: &OrSetElement) -> (r: Json)
    ensures
        r@ == element_json((e.v@, (e.h, e.d))),
{
    let mut fields: Vec<(String, Json)> = Vec::new();
    fields.push(("v".to_owned(), Json::Text(e.v.clone())));
    fields.push(("h".to_owned(), hlc_value(e.h)));
    match e.d {
        None => {},
        Some(d) => {
            fields.push(("d".to_owned(), hlc_value(d)));
        },
    }
    proof {
        lemma_record_view(fields@);
        assert(record_view(fields@) =~= element_json((e.v@, (e.h, e.d)))->Record_0);
    }
    Json::Record(fields)
}

proof fn lemma_hlc_plain(h: Hlc)
    ensures
        plain(hlc_json(h)),
        nesting(hlc_json(h)) <= 1,
        read_hlc(hlc_json(h)) == Some(h),
{
    reveal_strlit("wall_ms");
    reveal_strlit("ctr");
    let fields = hlc_json(h)->Record_0;
    assert("wall_ms"@.len() == 7 && "ctr"@.len() == 3);
    lemma_plain_fields(fields);
    lemma_record_nesting(fields, 0);
    reveal_with_fuel(member, 3);
}

proof fn lemma_element_plain(e: (Seq<char>, (Hlc, Option<Hlc>)))
    ensures
        plain(element_json(e)),
        nesting(element_json(e)) <= 2,
        read_element(element_json(e)) == Some(e),
{
    reveal_strlit("v");
    reveal_strlit("h");
    reveal_strlit("d");
    lemma_hlc_plain(e.1.0);
    if e.1.1 is Some {
        lemma_hlc_plain(e.1.1->0);
    }
    let fields = element_json(e)->Record_0;
    assert("v"@[0] == 'v' && "h"@[0] == 'h' && "d"@[0] == 'd');
    lemma_plain_fields(fields);
    lemma_record_nesting(fields, 1);
    reveal_with_fuel(member, 4);
}

/// What is written of a set is a plain JSON value that reads back as the set.
proof fn lemma_set_plain(s: Seq<(Seq<char>, (Hlc, Option<Hlc>))>)
    ensures
        plain(set_json(s)),
        nesting(set_json(s)) <= 4,
        set_json(s) is Record,
        member(set_json(s)->Record_0, "elements"@) is Some,
        member(set_json(s)->Record_0, "elements"@)->0 is List,
        read_elements(member(set_json(s)->Record_0, "elements"@)->0->List_0) == Some(s),
{
    let items = Seq::new(s.len(), |i: int| element_json(s[i]));
    let fields = set_json(s)->Record_0;
    assert forall|i: int| 0 <= i < items.len() implies plain(#[trigger] items[i]) && nesting(
        items[i],
    ) <= 2 by {
        lemma_element_plain(s[i]);
    }
    lemma_plain_items(items);
    lemma_list_nesting(items, 2);
    reveal_strlit("elements");
    lemma_plain_fields(fields);
    lemma_record_nesting(fields, 3);
    reveal_with_fuel(member, 2);
    lemma_items_read(s);
}

pub(crate) proof fn lemma_items_read(s: Seq<(Seq<char>, (Hlc, Option<Hlc>))>)
    ensures
        read_elements(Seq::new(s.len(), |i: int| element_json(s[i]))) == Some(s),
    decreases s.len(),
{
    let items = Seq::new(s.len(), |i: int| element_json(s[i]));
    if s.len() == 0 {
        assert(s =~= seq![]);
    } else {
        let front = s.drop_last();
        lemma_items_read(front);
        assert(items.drop_last() =~= Seq::new(front.len(), |i: int| element_json(front[i])));
        lemma_element_plain(s.last());
        assert(front.push(s.last()) =~= s);
    }
}

/// The text of a set, as it is stored.
pub(crate) fn render_set(elements: &Vec<OrSetElement>) -> (r: String)
    ensures
        r@ == json_text(set_json(element_views(elements@))),
        read_set(encode_utf8(r@)) == Ok::<Seq<(Seq<char>, (Hlc, Option<Hlc>))>, OrSetErrorView>(
            element_views(elements@),
        ),
{
    let ghost views = element_views(elements@);
    let mut items: Vec<Json> = Vec::new();
    let mut i: usize = 0;
    while i < elements.len()
        invariant
            i <= elements@.len(),
            items@.len() == i,
            views == element_views(elements@),
            forall|k: int| 0 <= k < i ==> #[trigger] items@[k]@ == element_json(views[k]),
        decreases elements@.len() - i,
    {
        items.push(element_value(&elements[i]));
        i += 1;
    }
    proof {
        lemma_list_view(items@);
        assert forall|k: int| 0 <= k < items@.len() implies #[trigger] list_view(items@)[k]
            == element_json(views[k]) by {
            assert(items@[k]@ == element_json(views[k]));
        }
        assert(list_view(items@) =~= Seq::new(views.len(), |k: int| element_json(views[k])));
    }
    let mut fields: Vec<(String, Json)> = Vec::new();
    fields.push(("elements".to_owned(), Json::List(items)));
    let value = Json::Record(fields);
    proof {
        lemma_record_view(fields@);
        assert(record_view(fields@) =~= set_json(views)->Record_0);
        lemma_set_plain(views);
    }
    let text = render_json(&value);
    proof {
        lemma_text_has_bytes(text@);
    }
    text
}

/// The elements in the order of their values; those with the same value keep theirs.
pub open spec fn sorted_elements(
    s: Seq<(Seq<char>, (Hlc, Option<Hlc>))>,
) -> Seq<(Seq<char>, (Hlc, Option<Hlc>))> {
    in_order::<String, (Seq<char>, (Hlc, Option<Hlc>))>(s, Seq::new(s.len(), |i: int| s[i].0))
}

/// The elements in the order of their values.
fn sort_elements(elements: &Vec<OrSetElement>) -> (r: Vec<OrSetElement>)
    ensures
        element_views(r@) == sorted_elements(element_views(elements@)),
{
    let ghost s = element_views(elements@);
    let ghost names = Seq::new(s.len(), |i: int| s[i].0);
    let mut keys: Vec<String> = Vec::new();
    let mut k: usize = 0;
    while k < elements.len()
        invariant
            k <= elements@.len(),
            keys@.len() == k,
            forall|j: int| 0 <= j < k ==> (#[trigger] keys@[j])@ == elements@[j].v@,
        decreases elements@.len() - k,
    {
        keys.push(elements[k].v.clone());
        k += 1;
    }
    assert(key_names(keys@) =~= names);
    let order = order_of(&keys);
    let mut sorted: Vec<OrSetElement> = Vec::new();
    let mut j: usize = 0;
    while j < order.len()
        invariant
            j <= order@.len(),
            order@.len() == elements@.len(),
            sorted@.len() == j,
            s == element_views(elements@),
            names == Seq::new(s.len(), |i: int| s[i].0),
            positions(order@) == order_by::<String>(names),
            forall|i: int| 0 <= i < order@.len()
                ==> 0 <= #[trigger] positions(order@)[i] < elements@.len(),
            forall|i: int|
                0 <= i < j ==> ((#[trigger] sorted@[i]).v@, (sorted@[i].h, sorted@[i].d))
                    == sorted_elements(s)[i],
        decreases order@.len() - j,
    {
        assert(0 <= positions(order@)[j as int] < elements@.len());
        let e = &elements[order[j]];
        sorted.push(OrSetElement { v: e.v.clone(), h: e.h, d: e.d });
        j += 1;
    }
    assert(element_views(sorted@) =~= sorted_elements(s));
    sorted
}

/// The payload of a set, the elements in the order of their values.
pub fn serialize_elements(elements: &Vec<OrSetElement>) -> (r: Vec<u8>)
    ensures
        r@ == encode_utf8(json_text(set_json(sorted_elements(element_views(elements@))))),
        read_set(r@) == Ok::<Seq<(Seq<char>, (Hlc, Option<Hlc>))>, OrSetErrorView>(
            sorted_elements(element_views(elements@)),
        ),
{
    let sorted = sort_elements(elements);
    let text = render_set(&sorted);
    text.as_str().as_bytes_vec()
}

// ---- merging ----

proof fn lemma_joined(
    a: (Hlc, Option<Hlc>),
    b: (Hlc, Option<Hlc>),
    c: (Hlc, Option<Hlc>),
)
    ensures
        joined(a, b) == joined(b, a),
        joined(joined(a, b), c) == joined(a, joined(b, c)),
        joined(a, a) == a,
{
}

/// Seeing more elements is merging their state in.
pub(crate) proof fn lemma_state_of_both(
    a: Seq<(Seq<char>, (Hlc, Option<Hlc>))>,
    b: Seq<(Seq<char>, (Hlc, Option<Hlc>))>,
)
    ensures
        set_state(a + b) == merged_state(set_state(a), set_state(b)),
    decreases b.len(),
{
    if b.len() == 0 {
        assert(a + b =~= a);
        assert(merged_state(set_state(a), set_state(b)) =~= set_state(a));
    } else {
        lemma_state_of_both(a, b.drop_last());
        assert((a + b).drop_last() =~= a + b.drop_last());
        let e = b.last();
        let sa = set_state(a);
        let sb = set_state(b.drop_last());
        assert forall|v: Seq<char>| sa.contains_key(v) && sb.contains_key(v) implies joined(
            #[trigger] joined(sa[v], sb[v]),
            e.1,
        ) == joined(sa[v], joined(sb[v], e.1)) by {
            lemma_joined(sa[v], sb[v], e.1);
        }
        assert(set_state(a + b) =~= merged_state(sa, set_state(b)));
    }
}

/// A state written out in order is that state.
proof fn lemma_state_of_listing(
    s: Seq<(Seq<char>, (Hlc, Option<Hlc>))>,
    m: Map<Seq<char>, (Hlc, Option<Hlc>)>,
)
    requires
        lists(s, m),
    ensures
        set_state(s) == m,
    decreases s.len(),
{
    if s.len() == 0 {
        assert(set_state(s) =~= m);
    } else {
        let front = s.drop_last();
        let name = s.last().0;
        let rest = m.remove(name);
        assert(names_ascend(front)) by {
            assert forall|i: int, j: int| 0 <= i < j < front.len() implies crate::text::lex_lt(
                (#[trigger] front[i]).0,
                (#[trigger] front[j]).0,
            ) by {
                assert(front[i] == s[i] && front[j] == s[j]);
            }
        }
        assert forall|i: int| 0 <= i < front.len() implies rest.contains_key(
            (#[trigger] front[i]).0,
        ) && rest[front[i].0] == front[i].1 by {
            assert(front[i] == s[i]);
            assert(crate::text::lex_lt(s[i].0, s[s.len() - 1].0));
            lemma_lex_irreflexive(name);
        }
        assert forall|n: Seq<char>| #[trigger] rest.contains_key(n) implies exists|i: int|
            0 <= i < front.len() && (#[trigger] front[i]).0 == n by {
            let i = choose|i: int| 0 <= i < s.len() && (#[trigger] s[i]).0 == n;
            assert(i < s.len() - 1);
            assert(front[i].0 == n);
        }
        lemma_state_of_listing(front, rest);
        assert(!rest.contains_key(name));
        assert(set_state(s) =~= m);
    }
}

/// Adds the elements to the state.
fn add_all(state: &mut OrderedMap<String, (Hlc, Option<Hlc>)>, elements: &Vec<OrSetElement>)
    ensures
        forall|seen: Seq<(Seq<char>, (Hlc, Option<Hlc>))>|
            old(state)@ == #[trigger] set_state(seen) ==> final(state)@ == set_state(
                seen + element_views(elements@),
            ),
{
    let ghost views = element_views(elements@);
    let ghost start = state@;
    let mut i: usize = 0;
    proof {
        assert forall|seen: Seq<(Seq<char>, (Hlc, Option<Hlc>))>|
            start == #[trigger] set_state(seen) implies state@ == set_state(
            seen + views.take(0),
        ) by {
            assert(seen + views.take(0) =~= seen);
        }
    }
    while i < elements.len()
        invariant
            i <= elements@.len(),
            views == element_views(elements@),
            forall|seen: Seq<(Seq<char>, (Hlc, Option<Hlc>))>|
                start == #[trigger] set_state(seen) ==> state@ == set_state(
                    seen + views.take(i as int),
                ),
        decreases elements@.len() - i,
    {
        let e = &elements[i];
        let ghost before = state@;
        let stamp: (Hlc, Option<Hlc>) = match state.get(&e.v) {
            Some(known) => (known.0.max(e.h), max_remove(known.1, e.d)),
            None => (e.h, e.d),
        };
        state.insert(e.v.clone(), stamp);
        proof {
            assert(state@ == with_element(before, views[i as int]));
            assert forall|seen: Seq<(Seq<char>, (Hlc, Option<Hlc>))>|
                start == #[trigger] set_state(seen) implies state@ == set_state(
                seen + views.take(i + 1),
            ) by {
                let all = seen + views.take(i + 1);
                assert(all.drop_last() =~= seen + views.take(i as int));
                assert(all.last() == views[i as int]);
            }
        }
        i += 1;
    }
    assert(views.take(i as int) =~= views);
}

/// Merges two payloads: for each value the latest add and the latest remove of
/// either, the values in order. Fails where the first payload, or else the second,
/// is no set.
pub fn merge_or_set_payloads(a: &[u8], b: &[u8]) -> (r: Result<Vec<u8>, OrSetError>)
    ensures
        match (read_set(a@), read_set(b@)) {
            (Err(e), _) => r is Err && r->Err_0@ == e,
            (Ok(_), Err(e)) => r is Err && r->Err_0@ == e,
            (Ok(_), Ok(_)) => r is Ok && merges_to(a@, b@, r->Ok_0@),
        },
{
    let first = match parse_elements(a) {
        Ok(s) => s,
        Err(e) => {
            return Err(e);
        },
    };
    let second = match parse_elements(b) {
        Ok(s) => s,
        Err(e) => {
            return Err(e);
        },
    };
    let ghost none: Seq<(Seq<char>, (Hlc, Option<Hlc>))> = seq![];
    let ghost x = element_views(first@);
    let ghost y = element_views(second@);
    let mut state: OrderedMap<String, (Hlc, Option<Hlc>)> = OrderedMap::new();
    assert(state@ == set_state(none));
    add_all(&mut state, &first);
    assert(none + x =~= x);
    add_all(&mut state, &second);
    proof {
        lemma_state_of_both(x, y);
    }
    let ghost m = state@;
    let entries = state.listed();
    let mut elements: Vec<OrSetElement> = Vec::new();
    let mut i: usize = 0;
    while i < entries.len()
        invariant
            i <= entries@.len(),
            elements@.len() == i,
            forall|k: int|
                0 <= k < i ==> (#[trigger] elements@[k]).v@ == entries@[k].0@ && (
                elements@[k].h,
                elements@[k].d,
                ) == entries@[k].1,
        decreases entries@.len() - i,
    {
        elements.push(
            OrSetElement { v: entries[i].0.clone(), h: entries[i].1.0, d: entries[i].1.1 },
        );
        i += 1;
    }
    assert(element_views(elements@) =~= pairs(entries@));
    let text = render_set(&elements);
    Ok(text.as_str().as_bytes_vec())
}

/// Merges two payloads, or takes the incoming one as it is where either is no set.
pub fn merge_or_set_or_lww(existing: &[u8], incoming: &[u8]) -> (r: Vec<u8>)
    ensures
        r@ == merged_or_incoming(existing@, incoming@),
        read_set(existing@) is Ok && read_set(incoming@) is Ok ==> merges_to(
            existing@,
            incoming@,
            r@,
        ),
        !(read_set(existing@) is Ok && read_set(incoming@) is Ok) ==> r@ == incoming@,
{
    match merge_or_set_payloads(existing, incoming) {
        Ok(r) => r,
        Err(_) => vstd::slice::slice_to_vec(incoming),
    }
}

/// The values of `s` that are in the set, in the order of `s`.
pub open spec fn present_values(s: Seq<(Seq<char>, (Hlc, Option<Hlc>))>) -> Seq<Seq<char>>
    decreases s.len(),
{
    if s.len() == 0 {
        seq![]
    } else if present(s.last().1) {
        present_values(s.drop_last()).push(s.last().0)
    } else {
        present_values(s.drop_last())
    }
}

/// The values that are in the set of a payload, in its order.
pub fn present_elements(bytes: &[u8]) -> (r: Result<Vec<String>, OrSetError>)
    ensures
        match read_set(bytes@) {
            Ok(s) => r is Ok && text_views(r->Ok_0@) == present_values(s),
            Err(e) => r is Err && r->Err_0@ == e,
        },
{
    let elements = match parse_elements(bytes) {
        Ok(s) => s,
        Err(e) => {
            return Err(e);
        },
    };
    let ghost views = element_views(elements@);
    let mut out: Vec<String> = Vec::new();
    let mut i: usize = 0;
    assert(text_views(out@) =~= present_values(views.take(0)));
    while i < elements.len()
        invariant
            i <= elements@.len(),
            views == element_views(elements@),
            text_views(out@) == present_values(views.take(i as int)),
        decreases elements@.len() - i,
    {
        assert(views.take(i + 1).drop_last() == views.take(i as int));
        if elements[i].is_present() {
            let ghost before = out@;
            out.push(elements[i].v.clone());
            assert(text_views(out@) =~= text_views(before).push(views[i as int].0));
        }
        i += 1;
    }
    assert(views.take(i as int) == views);
    Ok(out)
}

// ---- laws ----

/// Merging states is commutative, associative and idempotent, and the empty state
/// adds nothing.
pub proof fn law_merged_state(
    a: Map<Seq<char>, (Hlc, Option<Hlc>)>,
    b: Map<Seq<char>, (Hlc, Option<Hlc>)>,
    c: Map<Seq<char>, (Hlc, Option<Hlc>)>,
)
    ensures
        merged_state(a, b) == merged_state(b, a),
        merged_state(merged_state(a, b), c) == merged_state(a, merged_state(b, c)),
        merged_state(a, a) == a,
        merged_state(a, Map::empty()) == a,
{
    assert(merged_state(a, b) =~= merged_state(b, a));
    assert(merged_state(merged_state(a, b), c) =~= merged_state(a, merged_state(b, c)));
    assert(merged_state(a, a) =~= a);
    assert(merged_state(a, Map::empty()) =~= a);
}

/// Add wins: a value whose latest add on either side is later than every remove
/// that either side knows is in the merged set.
pub proof fn law_add_wins(
    a: Map<Seq<char>, (Hlc, Option<Hlc>)>,
    b: Map<Seq<char>, (Hlc, Option<Hlc>)>,
    v: Seq<char>,
)
    requires
        a.contains_key(v),
        present(a[v]),
        b.contains_key(v) ==> (b[v].1 is Some ==> hlc_lt(b[v].1->0, a[v].0)),
    ensures
        merged_state(a, b).contains_key(v),
        present(merged_state(a, b)[v]),
{
}

/// A value that only one side knows stands in the merged state as that side has it.
pub proof fn law_merge_keeps_unshared(
    a: Map<Seq<char>, (Hlc, Option<Hlc>)>,
    b: Map<Seq<char>, (Hlc, Option<Hlc>)>,
    v: Seq<char>,
)
    requires
        a.contains_key(v),
        !b.contains_key(v),
    ensures
        merged_state(a, b).contains_key(v),
        merged_state(a, b)[v] == a[v],
{
}

/// Merging payloads in either order gives the same bytes.
pub proof fn law_merge_commutative(a: Seq<u8>, b: Seq<u8>, ab: Seq<u8>, ba: Seq<u8>)
    requires
        merges_to(a, b, ab),
        merges_to(b, a, ba),
    ensures
        ab == ba,
{
    let x = set_state(read_set(a)->Ok_0);
    let y = set_state(read_set(b)->Ok_0);
    law_merged_state(x, y, y);
}

/// However three payloads are grouped, merging them gives the same bytes.
pub proof fn law_merge_associative(
    a: Seq<u8>,
    b: Seq<u8>,
    c: Seq<u8>,
    ab: Seq<u8>,
    bc: Seq<u8>,
    left: Seq<u8>,
    right: Seq<u8>,
)
    requires
        merges_to(a, b, ab),
        merges_to(b, c, bc),
        merges_to(ab, c, left),
        merges_to(a, bc, right),
    ensures
        left == right,
{
    let x = set_state(read_set(a)->Ok_0);
    let y = set_state(read_set(b)->Ok_0);
    let z = set_state(read_set(c)->Ok_0);
    lemma_state_of_listing(listing(merged_state(x, y)), merged_state(x, y));
    lemma_state_of_listing(listing(merged_state(y, z)), merged_state(y, z));
    law_merged_state(x, y, z);
}

/// A merged payload merged with itself, or with either payload that went into it,
/// is that payload again.
pub proof fn law_merge_idempotent(
    a: Seq<u8>,
    b: Seq<u8>,
    ab: Seq<u8>,
    again: Seq<u8>,
    more: Seq<u8>,
)
    requires
        merges_to(a, b, ab),
        merges_to(ab, ab, again),
        merges_to(ab, b, more),
    ensures
        again == ab,
        more == ab,
{
    let x = set_state(read_set(a)->Ok_0);
    let y = set_state(read_set(b)->Ok_0);
    lemma_state_of_listing(listing(merged_state(x, y)), merged_state(x, y));
    law_merged_state(merged_state(x, y), y, y);
    law_merged_state(x, y, y);
    law_merged_state(y, y, y);
}

/// Whether every merge reads back as what was merged.
pub open spec fn merges_read_back() -> bool {
    forall|a: Seq<u8>, b: Seq<u8>|
        read_set(a) is Ok && read_set(b) is Ok ==> merges_to(a, b, #[trigger] merged_or_incoming(a, b))
}

/// Merging a payload in twice is merging it once, and the order of two is no matter.
pub proof fn lemma_merging_on(held: Seq<u8>, p: Seq<u8>, q: Seq<u8>)
    requires
        merges_read_back(),
        read_set(held) is Ok,
        read_set(p) is Ok,
        read_set(q) is Ok,
    ensures
        read_set(merged_or_incoming(held, p)) is Ok,
        merged_or_incoming(merged_or_incoming(held, p), p) == merged_or_incoming(held, p),
        merged_or_incoming(merged_or_incoming(held, p), q) == merged_or_incoming(
            merged_or_incoming(held, q),
            p,
        ),
{
    let x = set_state(read_set(held)->Ok_0);
    let y = set_state(read_set(p)->Ok_0);
    let z = set_state(read_set(q)->Ok_0);
    assert(merges_to(held, p, merged_or_incoming(held, p)));
    assert(merges_to(held, q, merged_or_incoming(held, q)));
    lemma_state_of_listing(listing(merged_state(x, y)), merged_state(x, y));
    lemma_state_of_listing(listing(merged_state(x, z)), merged_state(x, z));
    law_merged_state(x, y, y);
    law_merged_state(y, y, y);
    law_merged_state(x, y, z);
    law_merged_state(x, z, y);
    law_merged_state(y, z, y);
}

} // verus!
