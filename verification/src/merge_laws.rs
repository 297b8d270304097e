//! What merging is for: no device's latest word on a value, or on its own total, is
//! lost, and nothing is made up.

use vstd::prelude::*;
use crate::counter::{
    counter_apply_delta, counter_value, merge_counter_or_lww, merge_counter_payloads,
    parse_counter_entries, serialize_counter_entries, CounterError, PnEntry,
};
use crate::crdt::{
    merge_or_set_or_lww, merge_or_set_payloads, parse_elements, present_elements,
    serialize_elements, OrSetElement, OrSetError,
};
use crate::hlc::Hlc;
use crate::json::{json_read, JsonView};
use crate::ordered::lists;
use crate::sorting::{
    lemma_in_order_keeps, lemma_order_exists, lemma_same_keys, order_by, ranks_before,
};
use crate::text::{lex_lt, text_views};

verus! {

// ---- clocks ----

/// A reading as one number: readings are ordered as these are.
pub open spec fn moment(h: Hlc) -> int {
    h.wall_ms * 0x1_0000_0000 + h.ctr
}

/// A reading is earlier than another exactly where its number is smaller.
pub proof fn law_earlier_is_smaller(a: Hlc, b: Hlc, r: bool)
    requires
        call_ensures(Hlc::earlier, (a, b), r),
    ensures
        r == (moment(a) < moment(b)),
{
}

/// The later of two readings is one of them, and neither is later than it.
pub proof fn law_later_of_two(a: Hlc, b: Hlc, r: Hlc)
    requires
        call_ensures(Hlc::max, (a, b), r),
    ensures
        r == a || r == b,
        moment(a) <= moment(r),
        moment(b) <= moment(r),
{
}

/// A minted reading is the first of all that are later than the one before and not
/// before the wall clock.
pub proof fn law_minted_is_the_next(prev: Option<Hlc>, now: u64, r: Hlc, other: Hlc)
    requires
        call_ensures(Hlc::mint, (prev, now), r),
        prev is Some ==> prev->0.ctr < u32::MAX || prev->0.wall_ms < u64::MAX,
    ensures
        r.wall_ms >= now,
        prev is Some ==> moment(prev->0) < moment(r),
        other.wall_ms >= now && (prev is Some ==> moment(prev->0) < moment(other)) ==> moment(r)
            <= moment(other),
{
}

// ---- sets ----

/// Whether a value is among the elements.
pub open spec fn known(s: Seq<OrSetElement>, v: Seq<char>) -> bool {
    exists|k: int| 0 <= k < s.len() && (#[trigger] s[k]).v@ == v
}

/// Whether `h` is the latest add of a value among the elements.
pub open spec fn latest_add(s: Seq<OrSetElement>, v: Seq<char>, h: Hlc) -> bool {
    &&& exists|k: int| 0 <= k < s.len() && (#[trigger] s[k]).v@ == v && s[k].h == h
    &&& forall|k: int| 0 <= k < s.len() && (#[trigger] s[k]).v@ == v ==> moment(s[k].h) <= moment(h)
}

/// Whether `d` is the latest remove of a value among the elements, or none where none
/// of them has one.
pub open spec fn latest_remove(s: Seq<OrSetElement>, v: Seq<char>, d: Option<Hlc>) -> bool {
    &&& d is Some ==> exists|k: int| 0 <= k < s.len() && (#[trigger] s[k]).v@ == v && s[k].d == d
    &&& forall|k: int|
        0 <= k < s.len() && (#[trigger] s[k]).v@ == v && s[k].d is Some ==> d is Some && moment(
            s[k].d->0,
        ) <= moment(d->0)
}

proof fn lemma_set_state(s: Seq<OrSetElement>)
    ensures
        forall|v: Seq<char>| #[trigger]
            crate::crdt::set_state(crate::crdt::element_views(s)).contains_key(v) <==> known(s, v),
        forall|v: Seq<char>| #[trigger]
            crate::crdt::set_state(crate::crdt::element_views(s)).contains_key(v) ==> latest_add(
                s,
                v,
                crate::crdt::set_state(crate::crdt::element_views(s))[v].0,
            ) && latest_remove(s, v, crate::crdt::set_state(crate::crdt::element_views(s))[v].1),
    decreases s.len(),
{
    let m = crate::crdt::set_state(crate::crdt::element_views(s));
    if s.len() > 0 {
        let front = s.drop_last();
        lemma_set_state(front);
        let f = crate::crdt::set_state(crate::crdt::element_views(front));
        let e = s.last();
        assert(crate::crdt::element_views(s).drop_last() =~= crate::crdt::element_views(front));
        assert(forall|k: int| 0 <= k < front.len() ==> front[k] == #[trigger] s[k]);
        assert forall|v: Seq<char>| #[trigger] m.contains_key(v) <==> known(s, v) by {
            if known(front, v) {
                let k = choose|k: int| 0 <= k < front.len() && (#[trigger] front[k]).v@ == v;
                assert(s[k].v@ == v);
            }
            if known(s, v) && v != e.v@ {
                let k = choose|k: int| 0 <= k < s.len() && (#[trigger] s[k]).v@ == v;
                assert(front[k].v@ == v);
            }
            assert(s[s.len() - 1].v@ == e.v@);
        }
        assert forall|v: Seq<char>| #[trigger] m.contains_key(v) implies latest_add(s, v, m[v].0)
            && latest_remove(s, v, m[v].1) by {
            assert(s[s.len() - 1] == e);
            if f.contains_key(v) {
                let k = choose|k: int|
                    0 <= k < front.len() && (#[trigger] front[k]).v@ == v && front[k].h == f[v].0;
                assert(s[k].h == f[v].0);
                if f[v].1 is Some {
                    let j = choose|j: int|
                        0 <= j < front.len() && (#[trigger] front[j]).v@ == v && front[j].d
                            == f[v].1;
                    assert(s[j].d == f[v].1);
                }
            }
            assert forall|k: int| 0 <= k < s.len() && (#[trigger] s[k]).v@ == v implies moment(
                s[k].h,
            ) <= moment(m[v].0) && (s[k].d is Some ==> m[v].1 is Some && moment(s[k].d->0)
                <= moment(m[v].1->0)) by {
                if k < front.len() {
                    assert(front[k].v@ == v);
                    assert(f.contains_key(v));
                }
            }
        }
    }
}

proof fn lemma_merged_set(
    a: &[u8],
    b: &[u8],
    x: Vec<OrSetElement>,
    y: Vec<OrSetElement>,
    merged: &[u8],
    z: Vec<OrSetElement>,
)
    requires
        call_ensures(parse_elements, (a,), Ok::<Vec<OrSetElement>, OrSetError>(x)),
        call_ensures(parse_elements, (b,), Ok::<Vec<OrSetElement>, OrSetError>(y)),
        call_ensures(parse_elements, (merged,), Ok::<Vec<OrSetElement>, OrSetError>(z)),
        crate::crdt::merges_to(a@, b@, merged@),
    ensures
        forall|v: Seq<char>| #[trigger] known(z@, v) <==> known(x@ + y@, v),
        forall|i: int|
            0 <= i < z@.len() ==> latest_add(x@ + y@, (#[trigger] z@[i]).v@, z@[i].h)
                && latest_remove(x@ + y@, z@[i].v@, z@[i].d),
        forall|i: int, j: int|
            0 <= i < j < z@.len() ==> lex_lt((#[trigger] z@[i]).v@, (#[trigger] z@[j]).v@),
{
    let all = x@ + y@;
    lemma_set_state(all);
    assert(crate::crdt::element_views(all) =~= crate::crdt::element_views(x@)
        + crate::crdt::element_views(y@));
    crate::crdt::lemma_state_of_both(
        crate::crdt::element_views(x@),
        crate::crdt::element_views(y@),
    );
    let m = crate::crdt::set_state(crate::crdt::element_views(all));
    let l = crate::crdt::element_views(z@);
    assert(lists(l, m));
    assert forall|v: Seq<char>| #[trigger] known(z@, v) <==> known(all, v) by {
        if known(z@, v) {
            let k = choose|k: int| 0 <= k < z@.len() && (#[trigger] z@[k]).v@ == v;
            assert(l[k].0 == v);
        }
        if known(all, v) {
            assert(m.contains_key(v));
            let i = choose|i: int| 0 <= i < l.len() && (#[trigger] l[i]).0 == v;
            assert(z@[i].v@ == v);
        }
    }
    assert forall|i: int| 0 <= i < z@.len() implies latest_add(
        all,
        (#[trigger] z@[i]).v@,
        z@[i].h,
    ) && latest_remove(all, z@[i].v@, z@[i].d) by {
        assert(m.contains_key(l[i].0) && m[l[i].0] == l[i].1);
    }
    assert forall|i: int, j: int| 0 <= i < j < z@.len() implies lex_lt(
        (#[trigger] z@[i]).v@,
        (#[trigger] z@[j]).v@,
    ) by {
        assert(lex_lt(l[i].0, l[j].0));
    }
}

/// What two payloads of a set merge to holds each value that either holds, once, in
/// order, and no other. Its add is the latest that either has for it, its remove the
/// latest that either has for it: each is one of theirs, and none of theirs is later.
pub proof fn law_merge_keeps_the_latest(
    a: &[u8],
    b: &[u8],
    x: Vec<OrSetElement>,
    y: Vec<OrSetElement>,
    r: Vec<u8>,
    merged: &[u8],
    z: Vec<OrSetElement>,
)
    requires
        call_ensures(parse_elements, (a,), Ok::<Vec<OrSetElement>, OrSetError>(x)),
        call_ensures(parse_elements, (b,), Ok::<Vec<OrSetElement>, OrSetError>(y)),
        call_ensures(merge_or_set_payloads, (a, b), Ok::<Vec<u8>, OrSetError>(r))
            || call_ensures(merge_or_set_or_lww, (a, b), r),
        merged@ == r@,
        call_ensures(parse_elements, (merged,), Ok::<Vec<OrSetElement>, OrSetError>(z)),
    ensures
        forall|v: Seq<char>| #[trigger] known(z@, v) <==> known(x@ + y@, v),
        forall|i: int|
            0 <= i < z@.len() ==> latest_add(x@ + y@, (#[trigger] z@[i]).v@, z@[i].h)
                && latest_remove(x@ + y@, z@[i].v@, z@[i].d),
        forall|i: int, j: int|
            0 <= i < j < z@.len() ==> lex_lt((#[trigger] z@[i]).v@, (#[trigger] z@[j]).v@),
{
    lemma_merged_set(a, b, x, y, merged, z);
}

/// The values that are given as present are those of the elements without a remove or
/// with one before the add, in the order of the elements.
pub proof fn law_present_are_the_added_since(
    bytes: &[u8],
    x: Vec<OrSetElement>,
    r: Vec<String>,
)
    requires
        call_ensures(parse_elements, (bytes,), Ok::<Vec<OrSetElement>, OrSetError>(x)),
        call_ensures(present_elements, (bytes,), Ok::<Vec<String>, OrSetError>(r)),
    ensures
        text_views(r@) == x@.filter(
            |e: OrSetElement| e.d is None || moment(e.d->0) < moment(e.h),
        ).map_values(|e: OrSetElement| e.v@),
{
    lemma_present(x@);
}

proof fn lemma_present(s: Seq<OrSetElement>)
    ensures
        crate::crdt::present_values(crate::crdt::element_views(s)) == s.filter(
            |e: OrSetElement| e.d is None || moment(e.d->0) < moment(e.h),
        ).map_values(|e: OrSetElement| e.v@),
    decreases s.len(),
{
    let p = |e: OrSetElement| e.d is None || moment(e.d->0) < moment(e.h);
    let f = |e: OrSetElement| e.v@;
    reveal(Seq::filter);
    if s.len() > 0 {
        let front = s.drop_last();
        lemma_present(front);
        assert(crate::crdt::element_views(s).drop_last() =~= crate::crdt::element_views(front));
        assert(front.filter(p).push(s.last()).map_values(f) =~= front.filter(p).map_values(f).push(
            f(s.last()),
        ));
    } else {
        assert(s.filter(p).map_values(f) =~= seq![]);
    }
}

/// A value is in the merged set exactly where one of the two sides added it later than
/// every remove of it that either side knows. So a remove is lost on no device, and an
/// add that came after it wins.
pub proof fn law_last_word_wins(
    a: &[u8],
    b: &[u8],
    x: Vec<OrSetElement>,
    y: Vec<OrSetElement>,
    r: Vec<u8>,
    merged: &[u8],
    z: Vec<OrSetElement>,
    present: Vec<String>,
    v: Seq<char>,
)
    requires
        call_ensures(parse_elements, (a,), Ok::<Vec<OrSetElement>, OrSetError>(x)),
        call_ensures(parse_elements, (b,), Ok::<Vec<OrSetElement>, OrSetError>(y)),
        call_ensures(merge_or_set_payloads, (a, b), Ok::<Vec<u8>, OrSetError>(r))
            || call_ensures(merge_or_set_or_lww, (a, b), r),
        merged@ == r@,
        call_ensures(parse_elements, (merged,), Ok::<Vec<OrSetElement>, OrSetError>(z)),
        call_ensures(present_elements, (merged,), Ok::<Vec<String>, OrSetError>(present)),
    ensures
        text_views(present@).contains(v) <==> exists|k: int|
            0 <= k < (x@ + y@).len() && (#[trigger] (x@ + y@)[k]).v@ == v && forall|j: int|
                0 <= j < (x@ + y@).len() && (#[trigger] (x@ + y@)[j]).v@ == v && (x@ + y@)[j].d is Some
                    ==> moment((x@ + y@)[j].d->0) < moment((x@ + y@)[k].h),
{
    let all = x@ + y@;
    law_merge_keeps_the_latest(a, b, x, y, r, merged, z);
    law_present_are_the_added_since(merged, z, present);
    lemma_kept_values(z@, v);
    if text_views(present@).contains(v) {
        let n = choose|n: int|
            0 <= n < z@.len() && (#[trigger] z@[n]).v@ == v && (z@[n].d is None || moment(
                z@[n].d->0,
            ) < moment(z@[n].h));
        assert(latest_add(all, z@[n].v@, z@[n].h) && latest_remove(all, z@[n].v@, z@[n].d));
        let k = choose|k: int|
            0 <= k < all.len() && (#[trigger] all[k]).v@ == v && all[k].h == z@[n].h;
        assert forall|j: int|
            0 <= j < all.len() && (#[trigger] all[j]).v@ == v && all[j].d is Some implies moment(
            all[j].d->0,
        ) < moment(all[k].h) by {}
    }
    if exists|k: int|
        0 <= k < all.len() && (#[trigger] all[k]).v@ == v && forall|j: int|
            0 <= j < all.len() && (#[trigger] all[j]).v@ == v && all[j].d is Some ==> moment(
                all[j].d->0,
            ) < moment(all[k].h) {
        let k = choose|k: int|
            0 <= k < all.len() && (#[trigger] all[k]).v@ == v && forall|j: int|
                0 <= j < all.len() && (#[trigger] all[j]).v@ == v && all[j].d is Some ==> moment(
                    all[j].d->0,
                ) < moment(all[k].h);
        assert(known(all, v));
        assert(known(z@, v));
        let n = choose|n: int| 0 <= n < z@.len() && (#[trigger] z@[n]).v@ == v;
        assert(latest_add(all, z@[n].v@, z@[n].h) && latest_remove(all, z@[n].v@, z@[n].d));
        assert(moment(all[k].h) <= moment(z@[n].h));
    }
}

/// The values that a filter on the clocks keeps.
proof fn lemma_kept_values(s: Seq<OrSetElement>, v: Seq<char>)
    ensures
        s.filter(
            |e: OrSetElement| e.d is None || moment(e.d->0) < moment(e.h),
        ).map_values(|e: OrSetElement| e.v@).contains(v) <==> exists|n: int|
            0 <= n < s.len() && (#[trigger] s[n]).v@ == v && (s[n].d is None || moment(s[n].d->0)
                < moment(s[n].h)),
{
    let p = |e: OrSetElement| e.d is None || moment(e.d->0) < moment(e.h);
    let f = |e: OrSetElement| e.v@;
    let kept = s.filter(p);
    if kept.map_values(f).contains(v) {
        let i = choose|i: int| 0 <= i < kept.len() && kept.map_values(f)[i] == v;
        lemma_filter_from(s, p, i);
        s.lemma_filter_pred(p, i);
        let n = choose|n: int| 0 <= n < s.len() && s[n] == kept[i];
        assert(s[n].v@ == v);
    }
    if exists|n: int|
        0 <= n < s.len() && (#[trigger] s[n]).v@ == v && (s[n].d is None || moment(s[n].d->0)
            < moment(s[n].h)) {
        let n = choose|n: int|
            0 <= n < s.len() && (#[trigger] s[n]).v@ == v && (s[n].d is None || moment(s[n].d->0)
                < moment(s[n].h));
        s.lemma_filter_contains(p, n);
        let i = choose|i: int| 0 <= i < kept.len() && kept[i] == s[n];
        assert(kept.map_values(f)[i] == v);
    }
}

/// What a filter keeps was there.
proof fn lemma_filter_from<A>(s: Seq<A>, p: spec_fn(A) -> bool, i: int)
    requires
        0 <= i < s.filter(p).len(),
    ensures
        s.contains(s.filter(p)[i]),
    decreases s.len(),
{
    reveal(Seq::filter);
    if s.len() > 0 {
        let front = s.drop_last();
        if i < front.filter(p).len() {
            lemma_filter_from(front, p, i);
            let k = choose|k: int| 0 <= k < front.len() && front[k] == front.filter(p)[i];
            assert(s[k] == front[k]);
        } else {
            assert(s[s.len() - 1] == s.last());
        }
    }
}

/// A clock in JSON has the members `wall_ms` and `ctr`.
pub open spec fn clock_record(h: Hlc) -> JsonView {
    JsonView::Record(
        seq![
            ("wall_ms"@, JsonView::Unsigned(h.wall_ms)),
            ("ctr"@, JsonView::Unsigned(h.ctr as u64)),
        ],
    )
}

/// A payload whose JSON is a record of `elements`, each a record of the value `v`, its
/// add `h` and, unless it is left out or null, its remove `d`, holds those elements in
/// that order.
pub proof fn law_elements_are_read_by_name(
    bytes: &[u8],
    r: Result<Vec<OrSetElement>, OrSetError>,
    items: Seq<JsonView>,
    values: Seq<(Seq<char>, Hlc, Option<Hlc>)>,
)
    requires
        call_ensures(parse_elements, (bytes,), r),
        bytes@.len() > 0,
        json_read(bytes@) == Some(
            JsonView::Record(seq![("elements"@, JsonView::List(items))]),
        ),
        items.len() == values.len(),
        forall|i: int|
            0 <= i < items.len() ==> #[trigger] items[i] == JsonView::Record(
                seq![
                    ("v"@, JsonView::Text(values[i].0)),
                    ("h"@, clock_record(values[i].1)),
                ] + match values[i].2 {
                    Some(d) => seq![("d"@, clock_record(d))],
                    None => seq![],
                },
            ),
    ensures
        r is Ok,
        r->Ok_0@.len() == values.len(),
        forall|i: int|
            0 <= i < values.len() ==> (#[trigger] r->Ok_0@[i]).v@ == values[i].0 && r->Ok_0@[i].h
                == values[i].1 && r->Ok_0@[i].d == values[i].2,
{
    let s = Seq::new(values.len(), |i: int| (values[i].0, (values[i].1, values[i].2)));
    reveal_with_fuel(crate::json::member, 2);
    assert forall|i: int| 0 <= i < items.len() implies #[trigger] items[i]
        == crate::crdt::element_json(s[i]) by {
        let add = seq![
            ("v"@, JsonView::Text(values[i].0)),
            ("h"@, clock_record(values[i].1)),
        ];
        let none: Seq<(Seq<char>, JsonView)> = seq![];
        assert(add + none =~= add);
        if values[i].2 is Some {
            let d = ("d"@, clock_record(values[i].2->0));
            assert(add + seq![d] =~= add.push(d));
        }
    }
    assert(items =~= Seq::new(s.len(), |i: int| crate::crdt::element_json(s[i])));
    crate::crdt::lemma_items_read(s);
    assert forall|i: int| 0 <= i < values.len() implies (#[trigger] r->Ok_0@[i]).v@ == values[i].0
        && r->Ok_0@[i].h == values[i].1 && r->Ok_0@[i].d == values[i].2 by {
        assert(crate::crdt::element_views(r->Ok_0@)[i] == s[i]);
    }
}

/// What is written of elements reads back as the same elements, in the order of their
/// values.
pub proof fn law_written_elements_read_back(
    x: &Vec<OrSetElement>,
    r: Vec<u8>,
    bytes: &[u8],
    z: Vec<OrSetElement>,
)
    requires
        call_ensures(serialize_elements, (x,), r),
        bytes@ == r@,
        call_ensures(parse_elements, (bytes,), Ok::<Vec<OrSetElement>, OrSetError>(z)),
    ensures
        z@.map_values(|e: OrSetElement| (e.v@, e.h, e.d)).to_multiset() == x@.map_values(
            |e: OrSetElement| (e.v@, e.h, e.d),
        ).to_multiset(),
        forall|i: int, j: int|
            0 <= i < j < z@.len() ==> (#[trigger] z@[i]).v@ == (#[trigger] z@[j]).v@ || lex_lt(
                z@[i].v@,
                z@[j].v@,
            ),
{
    let s = crate::crdt::element_views(x@);
    let t = crate::crdt::element_views(z@);
    let names = Seq::new(s.len(), |i: int| s[i].0);
    let f = |e: (Seq<char>, (Hlc, Option<Hlc>))| (e.0, e.1.0, e.1.1);
    lemma_in_order_keeps::<String, (Seq<char>, (Hlc, Option<Hlc>))>(s, names);
    lemma_order_exists::<String>(names);
    lemma_same_keys(t, s, f);
    assert(t.map_values(f) =~= z@.map_values(|e: OrSetElement| (e.v@, e.h, e.d)));
    assert(s.map_values(f) =~= x@.map_values(|e: OrSetElement| (e.v@, e.h, e.d)));
    assert forall|i: int, j: int| 0 <= i < j < z@.len() implies (#[trigger] z@[i]).v@
        == (#[trigger] z@[j]).v@ || lex_lt(z@[i].v@, z@[j].v@) by {
        let o = order_by::<String>(names);
        assert(ranks_before::<String>(names, o[i], o[j]));
        assert(t[i] == s[o[i]] && t[j] == s[o[j]]);
    }
}

// ---- counters ----

/// Whether a replica has an entry.
pub open spec fn counts(s: Seq<PnEntry>, replica: Seq<char>) -> bool {
    exists|k: int| 0 <= k < s.len() && (#[trigger] s[k]).r@ == replica
}

/// Whether `p` and `n` are the largest totals of a replica among the entries.
pub open spec fn largest_totals(s: Seq<PnEntry>, replica: Seq<char>, p: u64, n: u64) -> bool {
    &&& exists|k: int| 0 <= k < s.len() && (#[trigger] s[k]).r@ == replica && s[k].p == p
    &&& exists|k: int| 0 <= k < s.len() && (#[trigger] s[k]).r@ == replica && s[k].n == n
    &&& forall|k: int|
        0 <= k < s.len() && (#[trigger] s[k]).r@ == replica ==> s[k].p <= p && s[k].n <= n
}

proof fn lemma_counter_state(s: Seq<PnEntry>)
    ensures
        forall|v: Seq<char>| #[trigger]
            crate::counter::counter_state(crate::counter::entry_views(s)).contains_key(v) <==> counts(
                s,
                v,
            ),
        forall|v: Seq<char>| #[trigger]
            crate::counter::counter_state(crate::counter::entry_views(s)).contains_key(v)
                ==> largest_totals(
                s,
                v,
                crate::counter::counter_state(crate::counter::entry_views(s))[v].0,
                crate::counter::counter_state(crate::counter::entry_views(s))[v].1,
            ),
    decreases s.len(),
{
    let m = crate::counter::counter_state(crate::counter::entry_views(s));
    if s.len() > 0 {
        let front = s.drop_last();
        lemma_counter_state(front);
        let f = crate::counter::counter_state(crate::counter::entry_views(front));
        let e = s.last();
        assert(crate::counter::entry_views(s).drop_last() =~= crate::counter::entry_views(front));
        assert(forall|k: int| 0 <= k < front.len() ==> front[k] == #[trigger] s[k]);
        assert(s[s.len() - 1] == e);
        assert forall|v: Seq<char>| #[trigger] m.contains_key(v) <==> counts(s, v) by {
            if counts(front, v) {
                let k = choose|k: int| 0 <= k < front.len() && (#[trigger] front[k]).r@ == v;
                assert(s[k].r@ == v);
            }
            if counts(s, v) && v != e.r@ {
                let k = choose|k: int| 0 <= k < s.len() && (#[trigger] s[k]).r@ == v;
                assert(front[k].r@ == v);
            }
        }
        assert forall|v: Seq<char>| #[trigger] m.contains_key(v) implies largest_totals(
            s,
            v,
            m[v].0,
            m[v].1,
        ) by {
            if f.contains_key(v) {
                let k = choose|k: int|
                    0 <= k < front.len() && (#[trigger] front[k]).r@ == v && front[k].p == f[v].0;
                let j = choose|j: int|
                    0 <= j < front.len() && (#[trigger] front[j]).r@ == v && front[j].n == f[v].1;
                assert(s[k].p == f[v].0 && s[j].n == f[v].1);
            }
            assert forall|k: int| 0 <= k < s.len() && (#[trigger] s[k]).r@ == v implies s[k].p
                <= m[v].0 && s[k].n <= m[v].1 by {
                if k < front.len() {
                    assert(front[k].r@ == v);
                    assert(f.contains_key(v));
                }
            }
        }
    }
}

/// What two payloads of a counter merge to has an entry for each replica that either
/// has, once, in order, and for no other. Each of its two totals is the largest that
/// either side has for that replica: one of theirs, and none of theirs is larger.
pub proof fn law_merge_keeps_the_largest(
    a: &[u8],
    b: &[u8],
    x: Vec<PnEntry>,
    y: Vec<PnEntry>,
    r: Vec<u8>,
    merged: &[u8],
    z: Vec<PnEntry>,
)
    requires
        call_ensures(parse_counter_entries, (a,), Ok::<Vec<PnEntry>, CounterError>(x)),
        call_ensures(parse_counter_entries, (b,), Ok::<Vec<PnEntry>, CounterError>(y)),
        call_ensures(merge_counter_payloads, (a, b), Ok::<Vec<u8>, CounterError>(r))
            || call_ensures(merge_counter_or_lww, (a, b), r),
        merged@ == r@,
        call_ensures(parse_counter_entries, (merged,), Ok::<Vec<PnEntry>, CounterError>(z)),
    ensures
        forall|v: Seq<char>| #[trigger] counts(z@, v) <==> counts(x@ + y@, v),
        forall|i: int|
            0 <= i < z@.len() ==> largest_totals(
                x@ + y@,
                (#[trigger] z@[i]).r@,
                z@[i].p,
                z@[i].n,
            ),
        forall|i: int, j: int|
            0 <= i < j < z@.len() ==> lex_lt((#[trigger] z@[i]).r@, (#[trigger] z@[j]).r@),
{
    let all = x@ + y@;
    lemma_counter_state(all);
    assert(crate::counter::entry_views(all) =~= crate::counter::entry_views(x@)
        + crate::counter::entry_views(y@));
    crate::counter::lemma_state_of_both(
        crate::counter::entry_views(x@),
        crate::counter::entry_views(y@),
    );
    let m = crate::counter::counter_state(crate::counter::entry_views(all));
    let l = crate::counter::entry_views(z@);
    assert(lists(l, m));
    assert forall|v: Seq<char>| #[trigger] counts(z@, v) <==> counts(all, v) by {
        if counts(z@, v) {
            let k = choose|k: int| 0 <= k < z@.len() && (#[trigger] z@[k]).r@ == v;
            assert(l[k].0 == v);
        }
        if counts(all, v) {
            assert(m.contains_key(v));
            let i = choose|i: int| 0 <= i < l.len() && (#[trigger] l[i]).0 == v;
            assert(z@[i].r@ == v);
        }
    }
    assert forall|i: int| 0 <= i < z@.len() implies largest_totals(
        all,
        (#[trigger] z@[i]).r@,
        z@[i].p,
        z@[i].n,
    ) by {
        assert(m.contains_key(l[i].0) && m[l[i].0] == l[i].1);
    }
    assert forall|i: int, j: int| 0 <= i < j < z@.len() implies lex_lt(
        (#[trigger] z@[i]).r@,
        (#[trigger] z@[j]).r@,
    ) by {
        assert(lex_lt(l[i].0, l[j].0));
    }
}

/// The sum of some numbers.
pub open spec fn sum(s: Seq<int>) -> int {
    s.fold_left(0, |a: int, b: int| a + b)
}

/// All that the entries added.
pub open spec fn all_added(s: Seq<PnEntry>) -> int {
    sum(s.map_values(|e: PnEntry| e.p as int))
}

/// All that the entries took away.
pub open spec fn all_taken(s: Seq<PnEntry>) -> int {
    sum(s.map_values(|e: PnEntry| e.n as int))
}

proof fn lemma_sums(s: Seq<PnEntry>)
    ensures
        crate::counter::added(crate::counter::entry_views(s)) == all_added(s),
        crate::counter::subtracted(crate::counter::entry_views(s)) == all_taken(s),
    decreases s.len(),
{
    if s.len() > 0 {
        let front = s.drop_last();
        lemma_sums(front);
        assert(crate::counter::entry_views(s).drop_last() =~= crate::counter::entry_views(front));
        let p = |e: PnEntry| e.p as int;
        let n = |e: PnEntry| e.n as int;
        assert(s.map_values(p).drop_last() =~= front.map_values(p));
        assert(s.map_values(n).drop_last() =~= front.map_values(n));
    }
}

/// A counter stands at the sum of all that its replicas added less the sum of all that
/// they took away, a sum beyond an `i64` counting as the largest `i64`.
pub proof fn law_value_is_added_less_taken(bytes: &[u8], x: Vec<PnEntry>, r: i64)
    requires
        call_ensures(parse_counter_entries, (bytes,), Ok::<Vec<PnEntry>, CounterError>(x)),
        call_ensures(counter_value, (bytes,), Ok::<i64, CounterError>(r)),
    ensures
        r == vstd::math::min(all_added(x@), i64::MAX as int) - vstd::math::min(
            all_taken(x@),
            i64::MAX as int,
        ),
{
    lemma_sums(x@);
}

/// A change moves a counter by exactly that much, where no sum is beyond an `i64`. So
/// two changes add up, and one undoes the other.
pub proof fn law_change_moves_the_value(
    bytes: &[u8],
    replica: &str,
    delta: i64,
    r: Vec<u8>,
    changed: &[u8],
    x: Vec<PnEntry>,
    before: i64,
    after: i64,
)
    requires
        call_ensures(counter_apply_delta, (bytes, replica, delta), r),
        changed@ == r@,
        call_ensures(parse_counter_entries, (bytes,), Ok::<Vec<PnEntry>, CounterError>(x)),
        call_ensures(counter_value, (bytes,), Ok::<i64, CounterError>(before)),
        call_ensures(counter_value, (changed,), Ok::<i64, CounterError>(after)),
        all_added(x@) + vstd::math::max(delta as int, 0) <= i64::MAX,
        all_taken(x@) + vstd::math::max(-delta, 0) <= i64::MAX,
    ensures
        after == before + delta,
{
    lemma_sums(x@);
    let s = crate::counter::entry_views(x@);
    let t = crate::counter::bumped(s, replica@, delta);
    crate::counter::law_changes_add_up(s, replica@, delta);
    lemma_in_order_keeps::<String, (Seq<char>, (u64, u64))>(t, crate::counter::names(t));
    crate::counter::lemma_sums_of_same(crate::counter::sorted_entries(t), t);
}

/// A change by one replica leaves the entries of all others as they are.
pub proof fn law_change_is_of_one_replica(
    bytes: &[u8],
    replica: &str,
    delta: i64,
    r: Vec<u8>,
    changed: &[u8],
    x: Vec<PnEntry>,
    z: Vec<PnEntry>,
)
    requires
        call_ensures(counter_apply_delta, (bytes, replica, delta), r),
        changed@ == r@,
        call_ensures(parse_counter_entries, (bytes,), Ok::<Vec<PnEntry>, CounterError>(x)),
        call_ensures(parse_counter_entries, (changed,), Ok::<Vec<PnEntry>, CounterError>(z)),
    ensures
        forall|i: int|
            0 <= i < x@.len() && (#[trigger] x@[i]).r@ != replica@ ==> exists|k: int|
                0 <= k < z@.len() && (#[trigger] z@[k]).r@ == x@[i].r@ && z@[k].p == x@[i].p
                    && z@[k].n == x@[i].n,
        forall|k: int|
            0 <= k < z@.len() && (#[trigger] z@[k]).r@ != replica@ ==> exists|i: int|
                0 <= i < x@.len() && (#[trigger] x@[i]).r@ == z@[k].r@ && x@[i].p == z@[k].p
                    && x@[i].n == z@[k].n,
{
    let s = crate::counter::entry_views(x@);
    let t = crate::counter::bumped(s, replica@, delta);
    let u = crate::counter::entry_views(z@);
    lemma_others_stay(s, replica@, delta);
    lemma_in_order_keeps::<String, (Seq<char>, (u64, u64))>(t, crate::counter::names(t));
    broadcast use vstd::seq_lib::group_to_multiset_ensures;

    assert forall|i: int| 0 <= i < x@.len() && (#[trigger] x@[i]).r@ != replica@ implies exists|k: int|
        0 <= k < z@.len() && (#[trigger] z@[k]).r@ == x@[i].r@ && z@[k].p == x@[i].p && z@[k].n
            == x@[i].n by {
        assert(s.contains(s[i]));
        assert(t.contains(s[i]));
        assert(u.to_multiset().count(s[i]) > 0);
        let k = choose|k: int| 0 <= k < u.len() && u[k] == s[i];
        assert(z@[k].r@ == x@[i].r@);
    }
    assert forall|k: int| 0 <= k < z@.len() && (#[trigger] z@[k]).r@ != replica@ implies exists|i: int|
        0 <= i < x@.len() && (#[trigger] x@[i]).r@ == z@[k].r@ && x@[i].p == z@[k].p && x@[i].n
            == z@[k].n by {
        assert(u.contains(u[k]));
        assert(t.to_multiset().count(u[k]) > 0);
        assert(t.contains(u[k]));
        let i = choose|i: int| 0 <= i < s.len() && s[i] == u[k];
        assert(x@[i].r@ == z@[k].r@);
    }
}

proof fn lemma_others_stay(s: Seq<(Seq<char>, (u64, u64))>, replica: Seq<char>, delta: i64)
    ensures
        forall|e: (Seq<char>, (u64, u64))|
            e.0 != replica ==> (#[trigger] crate::counter::bumped(s, replica, delta).contains(e)
                <==> s.contains(e)),
    decreases s.len(),
{
    let t = crate::counter::bumped(s, replica, delta);
    if delta != 0 {
        assert forall|e: (Seq<char>, (u64, u64))| e.0 != replica implies (#[trigger] t.contains(e)
            <==> s.contains(e)) by {
            if s.len() > 0 {
                let rest = s.drop_first();
                assert(s =~= seq![s[0]] + rest);
                if s[0].0 == replica {
                    if s.contains(e) {
                        let k = choose|k: int| 0 <= k < s.len() && s[k] == e;
                        assert(t[k] == e);
                    }
                    if t.contains(e) {
                        let k = choose|k: int| 0 <= k < t.len() && t[k] == e;
                        assert(s[k] == e);
                    }
                } else {
                    lemma_others_stay(rest, replica, delta);
                    let u = crate::counter::bumped(rest, replica, delta);
                    if s.contains(e) && e != s[0] {
                        let k = choose|k: int| 0 <= k < s.len() && s[k] == e;
                        assert(rest[k - 1] == e);
                        assert(u.contains(e));
                        let j = choose|j: int| 0 <= j < u.len() && u[j] == e;
                        assert(t[j + 1] == e);
                    }
                    if t.contains(e) && e != s[0] {
                        let k = choose|k: int| 0 <= k < t.len() && t[k] == e;
                        assert(u[k - 1] == e);
                        assert(u.contains(e));
                        assert(rest.contains(e));
                        let j = choose|j: int| 0 <= j < rest.len() && rest[j] == e;
                        assert(s[j + 1] == e);
                    }
                    assert(t[0] == s[0]);
                }
            } else {
                assert(t[0].0 == replica);
            }
        }
    }
}

/// A payload whose JSON is a record of `entries`, each a record of the replica `r`, all
/// that it added `p` and all that it took away `n`, holds those entries in that order.
pub proof fn law_entries_are_read_by_name(
    bytes: &[u8],
    r: Result<Vec<PnEntry>, CounterError>,
    items: Seq<JsonView>,
    values: Seq<(Seq<char>, u64, u64)>,
)
    requires
        call_ensures(parse_counter_entries, (bytes,), r),
        bytes@.len() > 0,
        json_read(bytes@) == Some(JsonView::Record(seq![("entries"@, JsonView::List(items))])),
        items.len() == values.len(),
        forall|i: int|
            0 <= i < items.len() ==> #[trigger] items[i] == JsonView::Record(
                seq![
                    ("r"@, JsonView::Text(values[i].0)),
                    ("p"@, JsonView::Unsigned(values[i].1)),
                    ("n"@, JsonView::Unsigned(values[i].2)),
                ],
            ),
    ensures
        r is Ok,
        r->Ok_0@.len() == values.len(),
        forall|i: int|
            0 <= i < values.len() ==> (#[trigger] r->Ok_0@[i]).r@ == values[i].0 && r->Ok_0@[i].p
                == values[i].1 && r->Ok_0@[i].n == values[i].2,
{
    let s = Seq::new(values.len(), |i: int| (values[i].0, (values[i].1, values[i].2)));
    reveal_with_fuel(crate::json::member, 2);
    assert(items =~= Seq::new(s.len(), |i: int| crate::counter::entry_json(s[i])));
    crate::counter::lemma_items_read(s);
    assert forall|i: int| 0 <= i < values.len() implies (#[trigger] r->Ok_0@[i]).r@ == values[i].0
        && r->Ok_0@[i].p == values[i].1 && r->Ok_0@[i].n == values[i].2 by {
        assert(crate::counter::entry_views(r->Ok_0@)[i] == s[i]);
    }
}

/// What is written of entries reads back as the same entries, in the order of their
/// replicas.
pub proof fn law_written_entries_read_back(
    x: &Vec<PnEntry>,
    r: Vec<u8>,
    bytes: &[u8],
    z: Vec<PnEntry>,
)
    requires
        call_ensures(serialize_counter_entries, (x,), r),
        bytes@ == r@,
        call_ensures(parse_counter_entries, (bytes,), Ok::<Vec<PnEntry>, CounterError>(z)),
    ensures
        z@.map_values(|e: PnEntry| (e.r@, e.p, e.n)).to_multiset() == x@.map_values(
            |e: PnEntry| (e.r@, e.p, e.n),
        ).to_multiset(),
        forall|i: int, j: int|
            0 <= i < j < z@.len() ==> (#[trigger] z@[i]).r@ == (#[trigger] z@[j]).r@ || lex_lt(
                z@[i].r@,
                z@[j].r@,
            ),
{
    let s = crate::counter::entry_views(x@);
    let t = crate::counter::entry_views(z@);
    let names = crate::counter::names(s);
    let f = |e: (Seq<char>, (u64, u64))| (e.0, e.1.0, e.1.1);
    lemma_in_order_keeps::<String, (Seq<char>, (u64, u64))>(s, names);
    lemma_order_exists::<String>(names);
    lemma_same_keys(t, s, f);
    assert(t.map_values(f) =~= z@.map_values(|e: PnEntry| (e.r@, e.p, e.n)));
    assert(s.map_values(f) =~= x@.map_values(|e: PnEntry| (e.r@, e.p, e.n)));
    assert forall|i: int, j: int| 0 <= i < j < z@.len() implies (#[trigger] z@[i]).r@
        == (#[trigger] z@[j]).r@ || lex_lt(z@[i].r@, z@[j].r@) by {
        let o = order_by::<String>(names);
        assert(ranks_before::<String>(names, o[i], o[j]));
        assert(t[i] == s[o[i]] && t[j] == s[o[j]]);
    }
}

} // verus!
