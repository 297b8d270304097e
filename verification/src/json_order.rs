//! JSON values with the members of every record in the order of their names.

use vstd::prelude::*;
use crate::json::{
    json_view, lemma_list_view, lemma_record_view, list_view, record_view, Json, JsonView,
};
use crate::sorting::{in_order, key_names, lemma_order_exists, order_by, order_of, positions};
use crate::text::{lemma_lex_irreflexive, lex_lt};

verus! {

/// The names of the members.
pub open spec fn member_names(fields: Seq<(Seq<char>, JsonView)>) -> Seq<Seq<char>> {
    Seq::new(fields.len(), |i: int| fields[i].0)
}

/// `v` with the members of every record in it in the order of their names.
pub open spec fn ordered_json(v: JsonView) -> JsonView
    decreases v,
{
    match v {
        JsonView::List(items) => JsonView::List(ordered_items(items)),
        JsonView::Record(fields) => JsonView::Record(
            in_order::<String, (Seq<char>, JsonView)>(
                ordered_fields(fields),
                member_names(fields),
            ),
        ),
        _ => v,
    }
}

/// The items, each with its records in order.
pub open spec fn ordered_items(items: Seq<JsonView>) -> Seq<JsonView>
    decreases items,
{
    if items.len() == 0 {
        seq![]
    } else {
        ordered_items(items.drop_last()).push(ordered_json(items.last()))
    }
}

/// The members, each with the records of its value in order.
pub open spec fn ordered_fields(fields: Seq<(Seq<char>, JsonView)>) -> Seq<(Seq<char>, JsonView)>
    decreases fields,
{
    if fields.len() == 0 {
        seq![]
    } else {
        ordered_fields(fields.drop_last()).push((fields.last().0, ordered_json(fields.last().1)))
    }
}

proof fn lemma_ordered_items(s: Seq<JsonView>)
    ensures
        ordered_items(s).len() == s.len(),
        forall|i: int| 0 <= i < s.len() ==> #[trigger] ordered_items(s)[i] == ordered_json(s[i]),
    decreases s.len(),
{
    if s.len() > 0 {
        lemma_ordered_items(s.drop_last());
        assert forall|i: int| 0 <= i < s.len() implies #[trigger] ordered_items(s)[i]
            == ordered_json(s[i]) by {
            if i < s.len() - 1 {
                assert(ordered_items(s)[i] == ordered_items(s.drop_last())[i]);
            }
        }
    }
}

proof fn lemma_ordered_fields(s: Seq<(Seq<char>, JsonView)>)
    ensures
        ordered_fields(s).len() == s.len(),
        forall|i: int|
            0 <= i < s.len() ==> #[trigger] ordered_fields(s)[i] == (s[i].0, ordered_json(s[i].1)),
    decreases s.len(),
{
    if s.len() > 0 {
        lemma_ordered_fields(s.drop_last());
        assert forall|i: int| 0 <= i < s.len() implies #[trigger] ordered_fields(s)[i] == (
            s[i].0,
            ordered_json(s[i].1),
        ) by {
            if i < s.len() - 1 {
                assert(ordered_fields(s)[i] == ordered_fields(s.drop_last())[i]);
            }
        }
    }
}

spec fn is_ordered_copy(a: Json, b: Json) -> bool {
    json_view(a) == ordered_json(json_view(b))
}

/// `j` with the members of every record in it in the order of their names.
pub(crate) fn in_name_order(j: &Json) -> (r: Json)
    ensures
        r@ == ordered_json(j@),
    decreases *j,
{
    match j {
        Json::Null => Json::Null,
        Json::Bool(b) => Json::Bool(*b),
        Json::Unsigned(n) => Json::Unsigned(*n),
        Json::Negative(n) => Json::Negative(*n),
        Json::Real(s) => Json::Real(s.clone()),
        Json::Text(s) => Json::Text(s.clone()),
        Json::List(items) => {
            let mut out: Vec<Json> = Vec::new();
            let mut i: usize = 0;
            while i < items.len()
                invariant
                    i <= items@.len(),
                    decreases_to!(j => items@),
                    out@.len() == i,
                    forall|k: int| 0 <= k < i ==> is_ordered_copy(#[trigger] out@[k], items@[k]),
                decreases items@.len() - i,
            {
                out.push(in_name_order(&items[i]));
                i += 1;
            }
            proof {
                lemma_list_view(out@);
                lemma_list_view(items@);
                lemma_ordered_items(list_view(items@));
                assert forall|k: int| 0 <= k < out@.len() implies #[trigger] list_view(out@)[k]
                    == ordered_items(list_view(items@))[k] by {
                    assert(is_ordered_copy(out@[k], items@[k]));
                    assert(list_view(items@)[k] == json_view(items@[k]));
                }
                assert(list_view(out@) =~= ordered_items(list_view(items@)));
            }
            Json::List(out)
        },
        Json::Record(fields) => {
            let mut names: Vec<String> = Vec::new();
            let mut n: usize = 0;
            while n < fields.len()
                invariant
                    n <= fields@.len(),
                    names@.len() == n,
                    forall|k: int| 0 <= k < n ==> #[trigger] names@[k]@ == fields@[k].0@,
                decreases fields@.len() - n,
            {
                names.push(fields[n].0.clone());
                n += 1;
            }
            let order = order_of(&names);
            let ghost ranks = positions(order@);
            let mut out: Vec<(String, Json)> = Vec::new();
            let mut i: usize = 0;
            while i < order.len()
                invariant
                    i <= order@.len(),
                    decreases_to!(j => fields@),
                    ranks == positions(order@),
                    ranks.len() == fields@.len(),
                    forall|k: int| 0 <= k < ranks.len()
                        ==> 0 <= #[trigger] ranks[k] < fields@.len(),
                    out@.len() == i,
                    forall|k: int|
                        0 <= k < i ==> (#[trigger] out@[k]).0@ == fields@[ranks[k]].0@
                            && is_ordered_copy(out@[k].1, fields@[ranks[k]].1),
                decreases order@.len() - i,
            {
                assert(0 <= ranks[i as int] < fields@.len());
                let at: usize = order[i];
                let e = &fields[at];
                assert(decreases_to!(fields@ => fields@[at as int]));
                out.push((e.0.clone(), in_name_order(&e.1)));
                i += 1;
            }
            proof {
                let views = record_view(fields@);
                lemma_record_view(out@);
                lemma_record_view(fields@);
                lemma_ordered_fields(views);
                assert(key_names(names@) =~= member_names(views));
                let sorted = in_order::<String, (Seq<char>, JsonView)>(
                    ordered_fields(views),
                    member_names(views),
                );
                assert forall|k: int| 0 <= k < out@.len() implies #[trigger] record_view(out@)[k]
                    == sorted[k] by {
                    assert(0 <= ranks[k] < fields@.len());
                    assert(is_ordered_copy(out@[k].1, fields@[ranks[k]].1));
                    assert(views[ranks[k]] == (
                        fields@[ranks[k]].0@,
                        json_view(fields@[ranks[k]].1),
                    ));
                }
                assert(record_view(out@) =~= sorted);
            }
            Json::Record(out)
        },
    }
}

// ---- laws ----

/// Whether `r` gives each of `n` places once, for `m` places.
pub open spec fn rearranges(r: Seq<int>, n: int, m: int) -> bool {
    r.len() == n && n == m && r.no_duplicates()
}

/// Whether two JSON values are the same but for the order in which records name their
/// members: lists have the same items at the same places, and records have the same
/// members, each with the same value, in some order.
pub open spec fn same_json(a: JsonView, b: JsonView) -> bool
    decreases a,
{
    match (a, b) {
        (JsonView::List(x), JsonView::List(y)) => x.len() == y.len() && forall|i: int|
            0 <= i < x.len() ==> same_json(#[trigger] x[i], y[i]),
        (JsonView::Record(x), JsonView::Record(y)) => exists|r: Seq<int>| #[trigger]
            rearranges(r, x.len() as int, y.len() as int) && forall|i: int|
                0 <= i < r.len() ==> 0 <= #[trigger] r[i] < x.len() && y[i].0 == x[r[i]].0
                    && same_json(x[r[i]].1, y[i].1),
        _ => a == b,
    }
}

proof fn lemma_same_value(v: JsonView)
    ensures
        same_json(v, ordered_json(v)),
    decreases v,
{
    match v {
        JsonView::List(items) => {
            lemma_ordered_items(items);
            assert forall|i: int| 0 <= i < items.len() implies same_json(
                #[trigger] items[i],
                ordered_items(items)[i],
            ) by {
                lemma_same_value(items[i]);
            }
        },
        JsonView::Record(x) => {
            let names = member_names(x);
            let o = order_by::<String>(names);
            let y = ordered_json(v)->Record_0;
            lemma_ordered_fields(x);
            lemma_order_exists::<String>(names);
            assert forall|i: int| 0 <= i < x.len() implies same_json(
                (#[trigger] x[i]).1,
                ordered_fields(x)[i].1,
            ) by {
                assert(decreases_to!(x => x[i]));
                lemma_same_value(x[i].1);
            }
            assert forall|i: int, k: int|
                0 <= i < o.len() && 0 <= k < o.len() && i != k implies o[i] != o[k] by {
                lemma_lex_irreflexive(names[o[i]]);
                if i < k {
                    assert(crate::sorting::ranks_before::<String>(names, o[i], o[k]));
                } else {
                    assert(crate::sorting::ranks_before::<String>(names, o[k], o[i]));
                }
            }
            assert(rearranges(o, x.len() as int, y.len() as int));
            assert forall|i: int| 0 <= i < o.len() implies 0 <= #[trigger] o[i] < x.len()
                && y[i].0 == x[o[i]].0 && same_json(x[o[i]].1, y[i].1) by {
                assert(y[i] == ordered_fields(x)[o[i]]);
                assert(same_json(x[o[i]].1, ordered_fields(x)[o[i]].1));
            }
        },
        _ => {},
    }
}

/// Putting a value in the order of names changes nothing of it but that order: its
/// lists keep their items in place, its records their members and what they hold.
pub proof fn law_ordering_keeps_the_value(v: JsonView)
    ensures
        same_json(v, ordered_json(v)),
        ordered_json(v) matches JsonView::Record(y) ==> forall|i: int, k: int|
            0 <= i < k < y.len() ==> (#[trigger] y[i]).0 == (#[trigger] y[k]).0 || lex_lt(
                y[i].0,
                y[k].0,
            ),
{
    lemma_same_value(v);
    if v is Record {
        let x = v->Record_0;
        let names = member_names(x);
        let o = order_by::<String>(names);
        let y = ordered_json(v)->Record_0;
        lemma_ordered_fields(x);
        lemma_order_exists::<String>(names);
        assert forall|i: int, k: int| 0 <= i < k < y.len() implies (#[trigger] y[i]).0
            == (#[trigger] y[k]).0 || lex_lt(y[i].0, y[k].0) by {
            assert(crate::sorting::ranks_before::<String>(names, o[i], o[k]));
            assert(y[i] == ordered_fields(x)[o[i]] && y[k] == ordered_fields(x)[o[k]]);
        }
    }
}

} // verus!
