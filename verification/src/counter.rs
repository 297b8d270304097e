//! Counters that many replicas add to and subtract from. A counter is stored as a
//! JSON payload with the totals of each replica; merging two payloads keeps, for
//! each replica, the larger of each total.

use vstd::prelude::*;
use vstd::utf8::encode_utf8;
use crate::json::{
    json_fault, json_read, json_text, json_view, lemma_list_nesting, lemma_list_view,
    lemma_plain_fields, lemma_plain_items, lemma_record_nesting, lemma_record_view,
    lemma_text_has_bytes, list_view, member, nesting, parse_or_fault, part, plain, record_view,
    render_json, shaped, Json, JsonView,
};
use crate::ordered::{lemma_lists_unique, listing, lists, names_ascend, pairs, OrderedMap};
use crate::sorting::{
    in_order, key_names, lemma_in_order_keeps, lemma_order_exists, order_by, order_of, placed,
    positions, ranks_before,
};
use crate::text::{lemma_lex_irreflexive, lex_lt, same_text};

verus! {

/// What one replica added in all and subtracted in all.
#[derive(Debug, Clone, PartialEq, Eq)]
pub struct PnEntry {
    /// The replica.
    pub r: String,
    /// All it added.
    pub p: u64,
    /// All it subtracted.
    pub n: u64,
}

/// The entries of a counter, as a payload holds them.
#[derive(Debug, Clone)]
pub struct PnCounterPayload {
    pub entries: Vec<PnEntry>,
}

impl Default for PnCounterPayload {
    /// No entries.
    fn default() -> (r: Self)
        ensures
            r.entries@.len() == 0,
    {
        PnCounterPayload { entries: Vec::new() }
    }
}

/// Why a payload is no counter.
#[derive(Debug, PartialEq, Eq)]
pub enum CounterError {
    /// Not JSON; with what the JSON reader says.
    InvalidJson(String),
    /// JSON, but no record with a list of entries.
    Malformed,
}

/// Why a payload is no counter, by its values.
pub enum CounterErrorView {
    InvalidJson(Seq<char>),
    Malformed,
}

impl View for CounterError {
    type V = CounterErrorView;

    open spec fn view(&self) -> CounterErrorView {
        match *self {
            CounterError::InvalidJson(said) => CounterErrorView::InvalidJson(said@),
            CounterError::Malformed => CounterErrorView::Malformed,
        }
    }
}

// ---- the model ----

/// The larger of two totals.
pub open spec fn larger(a: u64, b: u64) -> u64 {
    if a >= b {
        a
    } else {
        b
    }
}

/// The totals of one replica seen from two sides.
pub open spec fn joined(a: (u64, u64), b: (u64, u64)) -> (u64, u64) {
    (larger(a.0, b.0), larger(a.1, b.1))
}

/// The state `m` after one more entry is seen.
pub open spec fn with_entry(
    m: Map<Seq<char>, (u64, u64)>,
    e: (Seq<char>, (u64, u64)),
) -> Map<Seq<char>, (u64, u64)> {
    m.insert(
        e.0,
        if m.contains_key(e.0) {
            joined(m[e.0], e.1)
        } else {
            e.1
        },
    )
}

/// The state of a counter: the totals of each replica.
pub open spec fn counter_state(s: Seq<(Seq<char>, (u64, u64))>) -> Map<Seq<char>, (u64, u64)>
    decreases s.len(),
{
    if s.len() == 0 {
        Map::empty()
    } else {
        with_entry(counter_state(s.drop_last()), s.last())
    }
}

/// The state that knows all that either of two states knows.
pub open spec fn merged_state(
    a: Map<Seq<char>, (u64, u64)>,
    b: Map<Seq<char>, (u64, u64)>,
) -> Map<Seq<char>, (u64, u64)> {
    Map::new(
        |r: Seq<char>| a.contains_key(r) || b.contains_key(r),
        |r: Seq<char>|
            if a.contains_key(r) && b.contains_key(r) {
                joined(a[r], b[r])
            } else if a.contains_key(r) {
                a[r]
            } else {
                b[r]
            },
    )
}

/// All that was added.
pub open spec fn added(s: Seq<(Seq<char>, (u64, u64))>) -> nat
    decreases s.len(),
{
    if s.len() == 0 {
        0
    } else {
        added(s.drop_last()) + s.last().1.0 as nat
    }
}

/// All that was subtracted.
pub open spec fn subtracted(s: Seq<(Seq<char>, (u64, u64))>) -> nat
    decreases s.len(),
{
    if s.len() == 0 {
        0
    } else {
        subtracted(s.drop_last()) + s.last().1.1 as nat
    }
}

/// `n`, or the largest `i64` where `n` is beyond it.
pub open spec fn capped(n: nat) -> int {
    if n <= i64::MAX {
        n as int
    } else {
        i64::MAX as int
    }
}

/// What the counter stands at: all that was added less all that was subtracted.
pub open spec fn total(s: Seq<(Seq<char>, (u64, u64))>) -> int {
    capped(added(s)) - capped(subtracted(s))
}

/// `a` plus `b`, or the largest `u64` where the sum is beyond it.
pub open spec fn saturated(a: u64, b: nat) -> u64 {
    if a + b <= u64::MAX {
        (a + b) as u64
    } else {
        u64::MAX
    }
}

/// Totals after a change by `delta`: what is positive adds to the first, what is
/// negative to the second.
pub open spec fn changed(e: (u64, u64), delta: i64) -> (u64, u64) {
    if delta >= 0 {
        (saturated(e.0, delta as nat), e.1)
    } else {
        (e.0, saturated(e.1, (-delta) as nat))
    }
}

/// The entries after `replica` changed the counter by `delta`: its first entry, or
/// a new one at the end. A change by zero changes nothing.
pub open spec fn bumped(
    s: Seq<(Seq<char>, (u64, u64))>,
    replica: Seq<char>,
    delta: i64,
) -> Seq<(Seq<char>, (u64, u64))>
    decreases s.len(),
{
    if delta == 0 {
        s
    } else if s.len() == 0 {
        seq![(replica, changed((0, 0), delta))]
    } else if s[0].0 == replica {
        s.update(0, (replica, changed(s[0].1, delta)))
    } else {
        seq![s[0]] + bumped(s.drop_first(), replica, delta)
    }
}

// ---- the payload ----

/// An entry in JSON.
pub open spec fn entry_json(e: (Seq<char>, (u64, u64))) -> JsonView {
    JsonView::Record(
        seq![
            ("r"@, JsonView::Text(e.0)),
            ("p"@, JsonView::Unsigned(e.1.0)),
            ("n"@, JsonView::Unsigned(e.1.1)),
        ],
    )
}

/// A counter in JSON.
pub open spec fn counter_json(s: Seq<(Seq<char>, (u64, u64))>) -> JsonView {
    JsonView::Record(
        seq![("entries"@, JsonView::List(Seq::new(s.len(), |i: int| entry_json(s[i]))))],
    )
}

/// The payload with these entries.
pub open spec fn counter_bytes(s: Seq<(Seq<char>, (u64, u64))>) -> Seq<u8> {
    encode_utf8(json_text(counter_json(s)))
}

/// The entry that a JSON value writes.
pub open spec fn read_entry(v: JsonView) -> Option<(Seq<char>, (u64, u64))> {
    if !shaped(v, 3) {
        None
    } else {
        match (part(v, 0, "r"@), part(v, 1, "p"@), part(v, 2, "n"@)) {
            (
                Some(JsonView::Text(r)),
                Some(JsonView::Unsigned(p)),
                Some(JsonView::Unsigned(n)),
            ) => Some((r, (p, n))),
            _ => None,
        }
    }
}

/// The entries that the JSON values write, if each writes one.
pub open spec fn read_entries(items: Seq<JsonView>) -> Option<Seq<(Seq<char>, (u64, u64))>>
    decreases items.len(),
{
    if items.len() == 0 {
        Some(seq![])
    } else {
        match (read_entries(items.drop_last()), read_entry(items.last())) {
            (Some(s), Some(e)) => Some(s.push(e)),
            _ => None,
        }
    }
}

/// The entries of a payload. Nothing, and JSON's null, are an empty counter.
pub open spec fn read_counter(
    bytes: Seq<u8>,
) -> Result<Seq<(Seq<char>, (u64, u64))>, CounterErrorView> {
    if bytes.len() == 0 {
        Ok(seq![])
    } else {
        match json_read(bytes) {
            None => Err(CounterErrorView::InvalidJson(json_fault(bytes))),
            Some(JsonView::Null) => Ok(seq![]),
            Some(JsonView::Record(fields)) => match member(fields, "entries"@) {
                None => Ok(seq![]),
                Some(JsonView::List(items)) => match read_entries(items) {
                    Some(s) => Ok(s),
                    None => Err(CounterErrorView::Malformed),
                },
                Some(_) => Err(CounterErrorView::Malformed),
            },
            Some(_) => Err(CounterErrorView::Malformed),
        }
    }
}

/// The entries of a payload, none where it is no counter.
pub open spec fn entries_or_none(bytes: Seq<u8>) -> Seq<(Seq<char>, (u64, u64))> {
    match read_counter(bytes) {
        Ok(s) => s,
        Err(_) => seq![],
    }
}

/// Whether `r` is the merge of the payloads `a` and `b`: the payload of the merged
/// state, and one that reads back as it.
pub open spec fn merges_to(a: Seq<u8>, b: Seq<u8>, r: Seq<u8>) -> bool {
    let m = merged_state(
        counter_state(read_counter(a)->Ok_0),
        counter_state(read_counter(b)->Ok_0),
    );
    &&& read_counter(a) is Ok
    &&& read_counter(b) is Ok
    &&& r == counter_bytes(listing(m))
    &&& lists(listing(m), m)
    &&& read_counter(r) == Ok::<Seq<(Seq<char>, (u64, u64))>, CounterErrorView>(listing(m))
}

/// The payload that `existing` and `incoming` give together: their merge, or the
/// incoming one where either is no counter.
pub open spec fn merged_or_incoming(existing: Seq<u8>, incoming: Seq<u8>) -> Seq<u8> {
    if read_counter(existing) is Ok && read_counter(incoming) is Ok {
        counter_bytes(
            listing(
                merged_state(
                    counter_state(read_counter(existing)->Ok_0),
                    counter_state(read_counter(incoming)->Ok_0),
                ),
            ),
        )
    } else {
        incoming
    }
}

/// The names of the replicas, entry by entry.
pub open spec fn names(s: Seq<(Seq<char>, (u64, u64))>) -> Seq<Seq<char>> {
    Seq::new(s.len(), |i: int| s[i].0)
}

/// The entries in the order of the replicas; those of one replica keep their order.
pub open spec fn sorted_entries(s: Seq<(Seq<char>, (u64, u64))>) -> Seq<(Seq<char>, (u64, u64))> {
    in_order::<String, (Seq<char>, (u64, u64))>(s, names(s))
}

/// The entries by their values.
pub open spec fn entry_views(s: Seq<PnEntry>) -> Seq<(Seq<char>, (u64, u64))> {
    Seq::new(s.len(), |i: int| (s[i].r@, (s[i].p, s[i].n)))
}

// ---- reading ----

/// Reads an entry.
fn entry_of(v: &Json) -> (r: Option<PnEntry>)
    ensures
        r is Some <==> read_entry(v@) is Some,
        r is Some ==> (r->0.r@, (r->0.p, r->0.n)) == read_entry(v@)->0,
{
    if !v.shaped(3) {
        return None;
    }
    match (v.part(0, "r"), v.part(1, "p"), v.part(2, "n")) {
        (Some(Json::Text(r)), Some(Json::Unsigned(p)), Some(Json::Unsigned(n))) => Some(
            PnEntry { r: r.clone(), p: *p, n: *n },
        ),
        _ => None,
    }
}

proof fn lemma_read_entries_prefix(items: Seq<JsonView>, i: int)
    requires
        0 <= i <= items.len(),
        read_entries(items.take(i)) is None,
    ensures
        read_entries(items) is None,
    decreases items.len() - i,
{
    if i == items.len() {
        assert(items.take(i) == items);
    } else {
        assert(items.take(i + 1).drop_last() == items.take(i));
        lemma_read_entries_prefix(items, i + 1);
    }
}

/// Reads the entries of a payload.
pub fn parse_counter_entries(bytes: &[u8]) -> (r: Result<Vec<PnEntry>, CounterError>)
    ensures
        match read_counter(bytes@) {
            Ok(s) => r is Ok && entry_views(r->Ok_0@) == s,
            Err(e) => r is Err && r->Err_0@ == e,
        },
{
    let mut r: Vec<PnEntry> = Vec::new();
    assert(entry_views(r@) =~= seq![]);
    if bytes.len() == 0 {
        return Ok(r);
    }
    let value = match parse_or_fault(bytes) {
        Ok(v) => v,
        Err(said) => {
            return Err(CounterError::InvalidJson(said));
        },
    };
    match &value {
        Json::Null => Ok(r),
        Json::Record(_) => match value.field("entries") {
            None => Ok(r),
            Some(Json::List(items)) => {
                let ghost views = list_view(items@);
                proof {
                    lemma_list_view(items@);
                    assert(views.take(0) =~= seq![]);
                }
                let mut i: usize = 0;
                while i < items.len()
                    invariant
                        i <= items@.len(),
                        views == list_view(items@),
                        views.len() == items@.len(),
                        forall|k: int|
                            0 <= k < items@.len() ==> #[trigger] views[k] == json_view(items@[k]),
                        read_entries(views.take(i as int)) == Some(entry_views(r@)),
                        read_counter(bytes@) == (match read_entries(views) {
                            Some(s) => Ok::<Seq<(Seq<char>, (u64, u64))>, CounterErrorView>(s),
                            None => Err(CounterErrorView::Malformed),
                        }),
                    decreases items@.len() - i,
                {
                    assert(views.take(i + 1).drop_last() == views.take(i as int));
                    assert(views.take(i + 1).last() == views[i as int]);
                    match entry_of(&items[i]) {
                        Some(e) => {
                            let ghost before = r@;
                            r.push(e);
                            assert(entry_views(r@) =~= entry_views(before).push(
                                (e.r@, (e.p, e.n)),
                            ));
                        },
                        None => {
                            proof {
                                lemma_read_entries_prefix(views, i + 1);
                            }
                            return Err(CounterError::Malformed);
                        },
                    }
                    i += 1;
                }
                assert(views.take(i as int) == views);
                Ok(r)
            },
            Some(_) => Err(CounterError::Malformed),
        },
        _ => Err(CounterError::Malformed),
    }
}

// ---- writing ----

/// An entry as a JSON value.
fn entry_value(e: &PnEntry) -> (r: Json)
    ensures
        r@ == entry_json((e.r@, (e.p, e.n))),
{
    let mut fields: Vec<(String, Json)> = Vec::new();
    fields.push(("r".to_owned(), Json::Text(e.r.clone())));
    fields.push(("p".to_owned(), Json::Unsigned(e.p)));
    fields.push(("n".to_owned(), Json::Unsigned(e.n)));
    proof {
        lemma_record_view(fields@);
        assert(record_view(fields@) =~= entry_json((e.r@, (e.p, e.n)))->Record_0);
    }
    Json::Record(fields)
}

proof fn lemma_entry_plain(e: (Seq<char>, (u64, u64)))
    ensures
        plain(entry_json(e)),
        nesting(entry_json(e)) <= 1,
        read_entry(entry_json(e)) == Some(e),
{
    reveal_strlit("r");
    reveal_strlit("p");
    reveal_strlit("n");
    let fields = entry_json(e)->Record_0;
    assert("r"@[0] == 'r' && "p"@[0] == 'p' && "n"@[0] == 'n');
    lemma_plain_fields(fields);
    lemma_record_nesting(fields, 0);
    reveal_with_fuel(member, 4);
}

/// What is written of a counter is a plain JSON value that reads back as it.
proof fn lemma_counter_plain(s: Seq<(Seq<char>, (u64, u64))>)
    ensures
        plain(counter_json(s)),
        nesting(counter_json(s)) <= 3,
        member(counter_json(s)->Record_0, "entries"@) is Some,
        member(counter_json(s)->Record_0, "entries"@)->0 is List,
        read_entries(member(counter_json(s)->Record_0, "entries"@)->0->List_0) == Some(s),
{
    let items = Seq::new(s.len(), |i: int| entry_json(s[i]));
    let fields = counter_json(s)->Record_0;
    assert forall|i: int| 0 <= i < items.len() implies plain(#[trigger] items[i]) && nesting(
        items[i],
    ) <= 1 by {
        lemma_entry_plain(s[i]);
    }
    lemma_plain_items(items);
    lemma_list_nesting(items, 1);
    reveal_strlit("entries");
    lemma_plain_fields(fields);
    lemma_record_nesting(fields, 2);
    reveal_with_fuel(member, 2);
    lemma_items_read(s);
}

pub(crate) proof fn lemma_items_read(s: Seq<(Seq<char>, (u64, u64))>)
    ensures
        read_entries(Seq::new(s.len(), |i: int| entry_json(s[i]))) == Some(s),
    decreases s.len(),
{
    let items = Seq::new(s.len(), |i: int| entry_json(s[i]));
    if s.len() == 0 {
        assert(s =~= seq![]);
    } else {
        let front = s.drop_last();
        lemma_items_read(front);
        assert(items.drop_last() =~= Seq::new(front.len(), |i: int| entry_json(front[i])));
        lemma_entry_plain(s.last());
        assert(front.push(s.last()) =~= s);
    }
}

/// The text of a counter, as it is stored.
fn render_counter(entries: &Vec<PnEntry>) -> (r: String)
    ensures
        r@ == json_text(counter_json(entry_views(entries@))),
        read_counter(encode_utf8(r@)) == Ok::<Seq<(Seq<char>, (u64, u64))>, CounterErrorView>(
            entry_views(entries@),
        ),
{
    let ghost views = entry_views(entries@);
    let mut items: Vec<Json> = Vec::new();
    let mut i: usize = 0;
    while i < entries.len()
        invariant
            i <= entries@.len(),
            items@.len() == i,
            views == entry_views(entries@),
            forall|k: int| 0 <= k < i ==> #[trigger] items@[k]@ == entry_json(views[k]),
        decreases entries@.len() - i,
    {
        items.push(entry_value(&entries[i]));
        i += 1;
    }
    proof {
        lemma_list_view(items@);
        assert forall|k: int| 0 <= k < items@.len() implies #[trigger] list_view(items@)[k]
            == entry_json(views[k]) by {
            assert(items@[k]@ == entry_json(views[k]));
        }
        assert(list_view(items@) =~= Seq::new(views.len(), |k: int| entry_json(views[k])));
    }
    let mut fields: Vec<(String, Json)> = Vec::new();
    fields.push(("entries".to_owned(), Json::List(items)));
    let value = Json::Record(fields);
    proof {
        lemma_record_view(fields@);
        assert(record_view(fields@) =~= counter_json(views)->Record_0);
        lemma_counter_plain(views);
    }
    let text = render_json(&value);
    proof {
        lemma_text_has_bytes(text@);
    }
    text
}

// ---- merging ----

/// Seeing more entries is merging their state in.
pub(crate) proof fn lemma_state_of_both(
    a: Seq<(Seq<char>, (u64, u64))>,
    b: Seq<(Seq<char>, (u64, u64))>,
)
    ensures
        counter_state(a + b) == merged_state(counter_state(a), counter_state(b)),
    decreases b.len(),
{
    if b.len() == 0 {
        assert(a + b =~= a);
        assert(merged_state(counter_state(a), counter_state(b)) =~= counter_state(a));
    } else {
        lemma_state_of_both(a, b.drop_last());
        assert((a + b).drop_last() =~= a + b.drop_last());
        assert(counter_state(a + b) =~= merged_state(counter_state(a), counter_state(b)));
    }
}

/// A state written out in order is that state.
proof fn lemma_state_of_listing(
    s: Seq<(Seq<char>, (u64, u64))>,
    m: Map<Seq<char>, (u64, u64)>,
)
    requires
        lists(s, m),
    ensures
        counter_state(s) == m,
    decreases s.len(),
{
    if s.len() == 0 {
        assert(counter_state(s) =~= m);
    } else {
        let front = s.drop_last();
        let name = s.last().0;
        let rest = m.remove(name);
        assert(names_ascend(front)) by {
            assert forall|i: int, j: int| 0 <= i < j < front.len() implies lex_lt(
                (#[trigger] front[i]).0,
                (#[trigger] front[j]).0,
            ) by {
                assert(front[i] == s[i] && front[j] == s[j]);
            }
        }
        assert forall|i: int| 0 <= i < front.len() implies rest.contains_key(
            (#[trigger] front[i]).0,
        ) && rest[front[i].0] == front[i].1 by {
            assert(front[i] == s[i]);
            assert(lex_lt(s[i].0, s[s.len() - 1].0));
            lemma_lex_irreflexive(name);
        }
        assert forall|n: Seq<char>| #[trigger] rest.contains_key(n) implies exists|i: int|
            0 <= i < front.len() && (#[trigger] front[i]).0 == n by {
            let i = choose|i: int| 0 <= i < s.len() && (#[trigger] s[i]).0 == n;
            assert(i < s.len() - 1);
            assert(front[i].0 == n);
        }
        lemma_state_of_listing(front, rest);
        assert(!rest.contains_key(name));
        assert(counter_state(s) =~= m);
    }
}

/// Adds the entries to the state.
fn add_all(state: &mut OrderedMap<String, (u64, u64)>, entries: &Vec<PnEntry>)
    ensures
        forall|seen: Seq<(Seq<char>, (u64, u64))>|
            old(state)@ == #[trigger] counter_state(seen) ==> final(state)@ == counter_state(
                seen + entry_views(entries@),
            ),
{
    let ghost views = entry_views(entries@);
    let ghost start = state@;
    let mut i: usize = 0;
    proof {
        assert forall|seen: Seq<(Seq<char>, (u64, u64))>|
            start == #[trigger] counter_state(seen) implies state@ == counter_state(
            seen + views.take(0),
        ) by {
            assert(seen + views.take(0) =~= seen);
        }
    }
    while i < entries.len()
        invariant
            i <= entries@.len(),
            views == entry_views(entries@),
            forall|seen: Seq<(Seq<char>, (u64, u64))>|
                start == #[trigger] counter_state(seen) ==> state@ == counter_state(
                    seen + views.take(i as int),
                ),
        decreases entries@.len() - i,
    {
        let e = &entries[i];
        let ghost before = state@;
        let totals: (u64, u64) = match state.get(&e.r) {
            Some(known) => (
                if known.0 >= e.p {
                    known.0
                } else {
                    e.p
                },
                if known.1 >= e.n {
                    known.1
                } else {
                    e.n
                },
            ),
            None => (e.p, e.n),
        };
        state.insert(e.r.clone(), totals);
        proof {
            assert(state@ == with_entry(before, views[i as int]));
            assert forall|seen: Seq<(Seq<char>, (u64, u64))>|
                start == #[trigger] counter_state(seen) implies state@ == counter_state(
                seen + views.take(i + 1),
            ) by {
                let all = seen + views.take(i + 1);
                assert(all.drop_last() =~= seen + views.take(i as int));
                assert(all.last() == views[i as int]);
            }
        }
        i += 1;
    }
    assert(views.take(i as int) =~= views);
}

/// The entries in the order of the replicas.
fn sort_entries(entries: &Vec<PnEntry>) -> (r: Vec<PnEntry>)
    ensures
        entry_views(r@) == sorted_entries(entry_views(entries@)),
{
    let ghost s = entry_views(entries@);
    let mut keys: Vec<String> = Vec::new();
    let mut k: usize = 0;
    while k < entries.len()
        invariant
            k <= entries@.len(),
            keys@.len() == k,
            forall|j: int| 0 <= j < k ==> (#[trigger] keys@[j])@ == entries@[j].r@,
        decreases entries@.len() - k,
    {
        keys.push(entries[k].r.clone());
        k += 1;
    }
    assert(key_names(keys@) =~= names(s));
    let order = order_of(&keys);
    let mut sorted: Vec<PnEntry> = Vec::new();
    let mut j: usize = 0;
    while j < order.len()
        invariant
            j <= order@.len(),
            order@.len() == entries@.len(),
            sorted@.len() == j,
            s == entry_views(entries@),
            positions(order@) == order_by::<String>(names(s)),
            forall|i: int| 0 <= i < order@.len()
                ==> 0 <= #[trigger] positions(order@)[i] < entries@.len(),
            forall|i: int|
                0 <= i < j ==> ((#[trigger] sorted@[i]).r@, (sorted@[i].p, sorted@[i].n))
                    == sorted_entries(s)[i],
        decreases order@.len() - j,
    {
        assert(0 <= positions(order@)[j as int] < entries@.len());
        let e = &entries[order[j]];
        sorted.push(PnEntry { r: e.r.clone(), p: e.p, n: e.n });
        j += 1;
    }
    assert(entry_views(sorted@) =~= sorted_entries(s));
    sorted
}

/// The payload of a counter, the entries in the order of the replicas.
pub fn serialize_counter_entries(entries: &Vec<PnEntry>) -> (r: Vec<u8>)
    ensures
        r@ == counter_bytes(sorted_entries(entry_views(entries@))),
        read_counter(r@) == Ok::<Seq<(Seq<char>, (u64, u64))>, CounterErrorView>(
            sorted_entries(entry_views(entries@)),
        ),
{
    let sorted = sort_entries(entries);
    let text = render_counter(&sorted);
    text.as_str().as_bytes_vec()
}

/// Merges two payloads: for each replica the larger of each total, the replicas in
/// order. Fails where the first payload, or else the second, is no counter.
pub fn merge_counter_payloads(a: &[u8], b: &[u8]) -> (r: Result<Vec<u8>, CounterError>)
    ensures
        match (read_counter(a@), read_counter(b@)) {
            (Err(e), _) => r is Err && r->Err_0@ == e,
            (Ok(_), Err(e)) => r is Err && r->Err_0@ == e,
            (Ok(_), Ok(_)) => r is Ok && merges_to(a@, b@, r->Ok_0@),
        },
{
    let first = match parse_counter_entries(a) {
        Ok(s) => s,
        Err(e) => {
            return Err(e);
        },
    };
    let second = match parse_counter_entries(b) {
        Ok(s) => s,
        Err(e) => {
            return Err(e);
        },
    };
    let ghost none: Seq<(Seq<char>, (u64, u64))> = seq![];
    let ghost x = entry_views(first@);
    let ghost y = entry_views(second@);
    let mut state: OrderedMap<String, (u64, u64)> = OrderedMap::new();
    assert(state@ == counter_state(none));
    add_all(&mut state, &first);
    assert(none + x =~= x);
    add_all(&mut state, &second);
    proof {
        lemma_state_of_both(x, y);
    }
    let listed = state.listed();
    let mut entries: Vec<PnEntry> = Vec::new();
    let mut i: usize = 0;
    while i < listed.len()
        invariant
            i <= listed@.len(),
            entries@.len() == i,
            forall|k: int|
                0 <= k < i ==> (#[trigger] entries@[k]).r@ == listed@[k].0@ && (
                entries@[k].p,
                entries@[k].n,
                ) == listed@[k].1,
        decreases listed@.len() - i,
    {
        entries.push(PnEntry { r: listed[i].0.clone(), p: listed[i].1.0, n: listed[i].1.1 });
        i += 1;
    }
    assert(entry_views(entries@) =~= pairs(listed@));
    let text = render_counter(&entries);
    Ok(text.as_str().as_bytes_vec())
}

/// Merges two payloads, or takes the incoming one as it is where either is no
/// counter.
pub fn merge_counter_or_lww(existing: &[u8], incoming: &[u8]) -> (r: Vec<u8>)
    ensures
        r@ == merged_or_incoming(existing@, incoming@),
        read_counter(existing@) is Ok && read_counter(incoming@) is Ok ==> merges_to(
            existing@,
            incoming@,
            r@,
        ),
        !(read_counter(existing@) is Ok && read_counter(incoming@) is Ok) ==> r@ == incoming@,
{
    match merge_counter_payloads(existing, incoming) {
        Ok(r) => r,
        Err(_) => vstd::slice::slice_to_vec(incoming),
    }
}

/// What the counter of a payload stands at. A sum beyond an `i64` counts as the
/// largest `i64`.
pub fn counter_value(bytes: &[u8]) -> (r: Result<i64, CounterError>)
    ensures
        match read_counter(bytes@) {
            Ok(s) => r is Ok && r->Ok_0 as int == total(s),
            Err(e) => r is Err && r->Err_0@ == e,
        },
{
    let entries = match parse_counter_entries(bytes) {
        Ok(s) => s,
        Err(e) => {
            return Err(e);
        },
    };
    let ghost views = entry_views(entries@);
    let mut p: i64 = 0;
    let mut n: i64 = 0;
    let mut i: usize = 0;
    while i < entries.len()
        invariant
            i <= entries@.len(),
            views == entry_views(entries@),
            0 <= p,
            0 <= n,
            p as int == capped(added(views.take(i as int))),
            n as int == capped(subtracted(views.take(i as int))),
        decreases entries@.len() - i,
    {
        assert(views.take(i + 1).drop_last() == views.take(i as int));
        let room_p: u64 = (i64::MAX - p) as u64;
        p = if entries[i].p <= room_p {
            p + entries[i].p as i64
        } else {
            i64::MAX
        };
        let room_n: u64 = (i64::MAX - n) as u64;
        n = if entries[i].n <= room_n {
            n + entries[i].n as i64
        } else {
            i64::MAX
        };
        i += 1;
    }
    assert(views.take(i as int) == views);
    Ok(p - n)
}

// ---- changing ----

/// The totals after a change.
fn change(p: u64, n: u64, delta: i64) -> (r: (u64, u64))
    ensures
        r == changed((p, n), delta),
{
    if delta >= 0 {
        (p.saturating_add(delta as u64), n)
    } else {
        let magnitude: u64 = if delta == i64::MIN {
            0x8000_0000_0000_0000
        } else {
            (-delta) as u64
        };
        (p, n.saturating_add(magnitude))
    }
}

proof fn lemma_bumped_at(
    s: Seq<(Seq<char>, (u64, u64))>,
    replica: Seq<char>,
    delta: i64,
    i: int,
)
    requires
        delta != 0,
        0 <= i <= s.len(),
        forall|k: int| 0 <= k < i ==> (#[trigger] s[k]).0 != replica,
        i < s.len() ==> s[i].0 == replica,
    ensures
        i < s.len() ==> bumped(s, replica, delta) == s.update(
            i,
            (replica, changed(s[i].1, delta)),
        ),
        i == s.len() ==> bumped(s, replica, delta) == s.push((replica, changed((0, 0), delta))),
    decreases i,
{
    if i > 0 {
        let rest = s.drop_first();
        assert forall|k: int| 0 <= k < i - 1 implies (#[trigger] rest[k]).0 != replica by {
            assert(rest[k] == s[k + 1]);
        }
        assert(s[0].0 != replica);
        lemma_bumped_at(rest, replica, delta, i - 1);
        if i < s.len() {
            assert(bumped(s, replica, delta) =~= s.update(i, (replica, changed(s[i].1, delta))));
        } else {
            assert(bumped(s, replica, delta) =~= s.push((replica, changed((0, 0), delta))));
        }
    } else if s.len() == 0 {
        assert(bumped(s, replica, delta) =~= s.push((replica, changed((0, 0), delta))));
    }
}

/// Changes the counter of a payload by `delta` on behalf of `replica`, and gives
/// the text of the payload with the entries in the order of the replicas. A payload
/// that is no counter counts as an empty one.
pub fn counter_delta_text(bytes: &[u8], replica: &str, delta: i64) -> (r: String)
    ensures
        ({
            let s = bumped(entries_or_none(bytes@), replica@, delta);
            &&& r@ == json_text(counter_json(sorted_entries(s)))
            &&& read_counter(encode_utf8(r@)) == Ok::<Seq<(Seq<char>, (u64, u64))>, CounterErrorView>(
                sorted_entries(s),
            )
        }),
{
    let mut entries: Vec<PnEntry> = match parse_counter_entries(bytes) {
        Ok(s) => s,
        Err(_) => {
            let none: Vec<PnEntry> = Vec::new();
            assert(entry_views(none@) =~= seq![]);
            none
        },
    };
    let ghost views = entry_views(entries@);
    if delta != 0 {
        let mut i: usize = 0;
        while i < entries.len() && !same_text(entries[i].r.as_str(), replica)
            invariant
                i <= entries@.len(),
                views == entry_views(entries@),
                forall|k: int| 0 <= k < i ==> (#[trigger] views[k]).0 != replica@,
            ensures
                i <= entries@.len(),
                forall|k: int| 0 <= k < i ==> (#[trigger] views[k]).0 != replica@,
                i < entries@.len() ==> views[i as int].0 == replica@,
            decreases entries@.len() - i,
        {
            i += 1;
        }
        proof {
            lemma_bumped_at(views, replica@, delta, i as int);
        }
        if i < entries.len() {
            let totals = change(entries[i].p, entries[i].n, delta);
            entries.set(i, PnEntry { r: replica.to_owned(), p: totals.0, n: totals.1 });
        } else {
            let totals = change(0, 0, delta);
            entries.push(PnEntry { r: replica.to_owned(), p: totals.0, n: totals.1 });
        }
    }
    let ghost s = bumped(views, replica@, delta);
    assert(entry_views(entries@) =~= s);
    let sorted = sort_entries(&entries);
    let text = render_counter(&sorted);
    text
}

/// Changes the counter of a payload by `delta` on behalf of `replica`, and gives
/// the payload with the entries in the order of the replicas. A payload that is no
/// counter counts as an empty one.
pub fn counter_apply_delta(bytes: &[u8], replica: &str, delta: i64) -> (r: Vec<u8>)
    ensures
        ({
            let s = bumped(entries_or_none(bytes@), replica@, delta);
            &&& r@ == counter_bytes(sorted_entries(s))
            &&& read_counter(r@) == Ok::<Seq<(Seq<char>, (u64, u64))>, CounterErrorView>(
                sorted_entries(s),
            )
        }),
{
    let text = counter_delta_text(bytes, replica, delta);
    text.as_str().as_bytes_vec()
}

// ---- laws ----

/// Merging states is commutative, associative and idempotent, and the empty state
/// adds nothing.
pub proof fn law_merged_state(
    a: Map<Seq<char>, (u64, u64)>,
    b: Map<Seq<char>, (u64, u64)>,
    c: Map<Seq<char>, (u64, u64)>,
)
    ensures
        merged_state(a, b) == merged_state(b, a),
        merged_state(merged_state(a, b), c) == merged_state(a, merged_state(b, c)),
        merged_state(a, a) == a,
        merged_state(a, Map::empty()) == a,
{
    assert(merged_state(a, b) =~= merged_state(b, a));
    assert(merged_state(merged_state(a, b), c) =~= merged_state(a, merged_state(b, c)));
    assert(merged_state(a, a) =~= a);
    assert(merged_state(a, Map::empty()) =~= a);
}

/// No total of a replica is smaller after a merge, and none is larger than on the
/// side where it is largest.
pub proof fn law_totals_never_fall(
    a: Map<Seq<char>, (u64, u64)>,
    b: Map<Seq<char>, (u64, u64)>,
    r: Seq<char>,
)
    requires
        a.contains_key(r),
    ensures
        merged_state(a, b).contains_key(r),
        merged_state(a, b)[r].0 >= a[r].0,
        merged_state(a, b)[r].1 >= a[r].1,
        !b.contains_key(r) ==> merged_state(a, b)[r] == a[r],
        b.contains_key(r) ==> merged_state(a, b)[r] == joined(a[r], b[r]),
{
}

/// Merging payloads in either order gives the same bytes.
pub proof fn law_merge_commutative(a: Seq<u8>, b: Seq<u8>, ab: Seq<u8>, ba: Seq<u8>)
    requires
        merges_to(a, b, ab),
        merges_to(b, a, ba),
    ensures
        ab == ba,
{
    let x = counter_state(read_counter(a)->Ok_0);
    let y = counter_state(read_counter(b)->Ok_0);
    law_merged_state(x, y, y);
}

/// However three payloads are grouped, merging them gives the same bytes.
pub proof fn law_merge_associative(
    a: Seq<u8>,
    b: Seq<u8>,
    c: Seq<u8>,
    ab: Seq<u8>,
    bc: Seq<u8>,
    left: Seq<u8>,
    right: Seq<u8>,
)
    requires
        merges_to(a, b, ab),
        merges_to(b, c, bc),
        merges_to(ab, c, left),
        merges_to(a, bc, right),
    ensures
        left == right,
{
    let x = counter_state(read_counter(a)->Ok_0);
    let y = counter_state(read_counter(b)->Ok_0);
    let z = counter_state(read_counter(c)->Ok_0);
    lemma_state_of_listing(listing(merged_state(x, y)), merged_state(x, y));
    lemma_state_of_listing(listing(merged_state(y, z)), merged_state(y, z));
    law_merged_state(x, y, z);
}

/// A merged payload merged with itself, or with either payload that went into it,
/// is that payload again.
pub proof fn law_merge_idempotent(
    a: Seq<u8>,
    b: Seq<u8>,
    ab: Seq<u8>,
    again: Seq<u8>,
    more: Seq<u8>,
)
    requires
        merges_to(a, b, ab),
        merges_to(ab, ab, again),
        merges_to(ab, b, more),
    ensures
        again == ab,
        more == ab,
{
    let x = counter_state(read_counter(a)->Ok_0);
    let y = counter_state(read_counter(b)->Ok_0);
    lemma_state_of_listing(listing(merged_state(x, y)), merged_state(x, y));
    law_merged_state(merged_state(x, y), y, y);
    law_merged_state(x, y, y);
    law_merged_state(y, y, y);
}

/// Changes by one replica add up: where nothing saturates, the counter moves by
/// exactly the change.
pub proof fn law_changes_add_up(s: Seq<(Seq<char>, (u64, u64))>, replica: Seq<char>, delta: i64)
    requires
        added(s) + (if delta >= 0 {
            delta as int
        } else {
            0
        }) <= i64::MAX,
        subtracted(s) + (if delta >= 0 {
            0
        } else {
            -delta
        }) <= i64::MAX,
    ensures
        total(bumped(s, replica, delta)) == total(s) + delta,
{
    lemma_sums_after(s, replica, delta);
}

/// Where every replica has one entry, the state holds that entry.
proof fn lemma_distinct_state(s: Seq<(Seq<char>, (u64, u64))>)
    requires
        names(s).no_duplicates(),
    ensures
        forall|i: int|
            0 <= i < s.len() ==> counter_state(s).contains_key((#[trigger] s[i]).0)
                && counter_state(s)[s[i].0] == s[i].1,
        forall|n: Seq<char>| #[trigger]
            counter_state(s).contains_key(n) ==> names(s).contains(n),
    decreases s.len(),
{
    if s.len() > 0 {
        let front = s.drop_last();
        assert(names(front) =~= names(s).drop_last());
        lemma_distinct_state(front);
        let last = s.last().0;
        assert(names(s)[s.len() - 1] == last);
        if counter_state(front).contains_key(last) {
            let k = choose|k: int| 0 <= k < names(front).len() && names(front)[k] == last;
            assert(names(s)[k] == last);
        }
        assert forall|i: int| 0 <= i < s.len() implies counter_state(s).contains_key(
            (#[trigger] s[i]).0,
        ) && counter_state(s)[s[i].0] == s[i].1 by {
            if i < s.len() - 1 {
                assert(front[i] == s[i]);
                assert(names(s)[i] == s[i].0);
            }
        }
        assert forall|n: Seq<char>| #[trigger] counter_state(s).contains_key(n) implies names(
            s,
        ).contains(n) by {
            if n != last {
                let k = choose|k: int| 0 <= k < names(front).len() && names(front)[k] == n;
                assert(names(s)[k] == n);
            }
        }
    }
}

/// Where every replica has one entry, the entries in order write out the state.
proof fn lemma_sorted_lists(s: Seq<(Seq<char>, (u64, u64))>)
    requires
        names(s).no_duplicates(),
    ensures
        lists(sorted_entries(s), counter_state(s)),
        counter_state(sorted_entries(s)) == counter_state(s),
{
    let keys = names(s);
    let r = order_by::<String>(keys);
    let t = sorted_entries(s);
    let m = counter_state(s);
    lemma_order_exists::<String>(keys);
    lemma_distinct_state(s);
    assert forall|i: int, j: int| 0 <= i < j < t.len() implies lex_lt(
        (#[trigger] t[i]).0,
        (#[trigger] t[j]).0,
    ) by {
        assert(ranks_before::<String>(keys, r[i], r[j]));
        assert(0 <= r[i] < keys.len() && 0 <= r[j] < keys.len());
    }
    assert forall|i: int| 0 <= i < t.len() implies m.contains_key((#[trigger] t[i]).0)
        && m[t[i].0] == t[i].1 by {
        assert(0 <= r[i] < keys.len());
        assert(t[i] == s[r[i]]);
    }
    assert forall|n: Seq<char>| #[trigger] m.contains_key(n) implies exists|i: int|
        0 <= i < t.len() && (#[trigger] t[i]).0 == n by {
        let k = choose|k: int| 0 <= k < keys.len() && keys[k] == n;
        assert(placed(r, k));
        let i = choose|i: int| 0 <= i < r.len() && #[trigger] r[i] == k;
        assert(t[i].0 == n);
    }
    lemma_state_of_listing(t, m);
}

/// The sums do not depend on the order of the entries.
pub(crate) proof fn lemma_sums_of_same(s: Seq<(Seq<char>, (u64, u64))>, t: Seq<(Seq<char>, (u64, u64))>)
    requires
        s.to_multiset() == t.to_multiset(),
    ensures
        added(s) == added(t),
        subtracted(s) == subtracted(t),
    decreases s.len(),
{
    broadcast use vstd::seq_lib::group_to_multiset_ensures;

    vstd::seq_lib::to_multiset_len(s);
    vstd::seq_lib::to_multiset_len(t);
    if s.len() > 0 {
        let x = s.last();
        assert(s.contains(x));
        assert(t.to_multiset().count(x) > 0);
        let i = choose|i: int| 0 <= i < t.len() && t[i] == x;
        let front = s.drop_last();
        let rest = t.remove(i);
        assert(front.push(x) =~= s);
        assert(rest.insert(i, x) =~= t);
        assert(front.to_multiset() =~= rest.to_multiset());
        lemma_sums_of_same(front, rest);
        lemma_sums_without(t, i);
    }
}

proof fn lemma_sums_without(s: Seq<(Seq<char>, (u64, u64))>, i: int)
    requires
        0 <= i < s.len(),
    ensures
        added(s) == added(s.remove(i)) + s[i].1.0,
        subtracted(s) == subtracted(s.remove(i)) + s[i].1.1,
    decreases s.len(),
{
    if i == s.len() - 1 {
        assert(s.remove(i) =~= s.drop_last());
    } else {
        assert(s.remove(i).drop_last() =~= s.drop_last().remove(i));
        assert(s.remove(i).last() == s.last());
        lemma_sums_without(s.drop_last(), i);
    }
}

/// The totals of a replica that has an entry, or none.
pub open spec fn totals_of(m: Map<Seq<char>, (u64, u64)>, replica: Seq<char>) -> (u64, u64) {
    if m.contains_key(replica) {
        m[replica]
    } else {
        (0, 0)
    }
}

/// What a change makes of the state of a counter with one entry for each replica.
proof fn lemma_bumped_state(s: Seq<(Seq<char>, (u64, u64))>, replica: Seq<char>, delta: i64)
    requires
        names(s).no_duplicates(),
    ensures
        names(bumped(s, replica, delta)).no_duplicates(),
        counter_state(bumped(s, replica, delta)) == (if delta == 0 {
            counter_state(s)
        } else {
            counter_state(s).insert(
                replica,
                changed(totals_of(counter_state(s), replica), delta),
            )
        }),
{
    if delta != 0 {
        let t = bumped(s, replica, delta);
        let i: int = if names(s).contains(replica) {
            choose|i: int| 0 <= i < names(s).len() && names(s)[i] == replica
        } else {
            s.len() as int
        };
        assert forall|k: int| 0 <= k < i implies (#[trigger] s[k]).0 != replica by {
            assert(names(s)[k] == s[k].0);
        }
        lemma_bumped_at(s, replica, delta, i);
        assert forall|k: int, l: int| 0 <= k < t.len() && 0 <= l < t.len() && k != l implies names(
            t,
        )[k] != names(t)[l] by {
            if k < s.len() && l < s.len() {
                assert(names(s)[k] != names(s)[l]);
            }
            if k < s.len() {
                assert(names(s)[k] == s[k].0);
            }
            if l < s.len() {
                assert(names(s)[l] == s[l].0);
            }
        }
        lemma_distinct_state(s);
        lemma_distinct_state(t);
        let m = counter_state(s);
        let after = m.insert(replica, changed(totals_of(m, replica), delta));
        assert(t[i].0 == replica);
        assert forall|n: Seq<char>| #[trigger] counter_state(t).contains_key(n)
            <==> after.contains_key(n) by {
            if counter_state(t).contains_key(n) {
                let k = choose|k: int| 0 <= k < names(t).len() && names(t)[k] == n;
                if k < s.len() {
                    assert(s[k].0 == n);
                }
            }
            if after.contains_key(n) && n != replica {
                let k = choose|k: int| 0 <= k < names(s).len() && names(s)[k] == n;
                assert(t[k].0 == n);
            }
        }
        assert forall|n: Seq<char>| #[trigger] counter_state(t).contains_key(
            n,
        ) implies counter_state(t)[n] == after[n] by {
            let k = choose|k: int| 0 <= k < names(t).len() && names(t)[k] == n;
            assert(t[k].0 == n);
            if k < s.len() {
                assert(s[k].0 == n);
            }
            if n == replica && i == s.len() && m.contains_key(replica) {
                assert(names(s).contains(replica));
            }
        }
        assert(counter_state(t) =~= after);
    }
}

/// A change of a counter by a replica moves what the counter stands at by exactly the
/// change, where no sum is beyond an `i64`. It raises one total of that replica and
/// leaves the others; the entries stand in the order of the replicas; and merging the
/// old payload into the new one gives the new one again.
pub proof fn law_delta_moves_the_counter(
    before: Seq<u8>,
    replica: Seq<char>,
    delta: i64,
    after: Seq<u8>,
    merge: Seq<u8>,
)
    requires
        read_counter(before) is Ok,
        names(read_counter(before)->Ok_0).no_duplicates(),
        added(read_counter(before)->Ok_0) + (if delta >= 0 {
            delta as int
        } else {
            0
        }) <= i64::MAX,
        subtracted(read_counter(before)->Ok_0) + (if delta >= 0 {
            0
        } else {
            -delta
        }) <= i64::MAX,
        ({
            let s = sorted_entries(bumped(entries_or_none(before), replica, delta));
            &&& after == counter_bytes(s)
            &&& read_counter(after) == Ok::<Seq<(Seq<char>, (u64, u64))>, CounterErrorView>(s)
        }),
    ensures
        total(read_counter(after)->Ok_0) == total(read_counter(before)->Ok_0) + delta,
        ({
            let a = counter_state(read_counter(before)->Ok_0);
            let b = counter_state(read_counter(after)->Ok_0);
            &&& totals_of(b, replica) == (
                (totals_of(a, replica).0 + (if delta > 0 {
                    delta as int
                } else {
                    0
                })) as u64,
                (totals_of(a, replica).1 + (if delta < 0 {
                    -delta
                } else {
                    0
                })) as u64,
            )
            &&& forall|q: Seq<char>|
                q != replica ==> #[trigger] b.contains_key(q) == a.contains_key(q) && (
                a.contains_key(q) ==> b[q] == a[q])
        }),
        names_ascend(read_counter(after)->Ok_0),
        merges_to(before, after, merge) ==> merge == after,
{
    let s = read_counter(before)->Ok_0;
    let t = bumped(s, replica, delta);
    let u = sorted_entries(t);
    lemma_bumped_state(s, replica, delta);
    lemma_sorted_lists(t);
    lemma_sums_after(s, replica, delta);
    lemma_in_order_keeps::<String, (Seq<char>, (u64, u64))>(t, names(t));
    lemma_sums_of_same(u, t);
    let a = counter_state(s);
    let b = counter_state(t);
    lemma_totals_within(s, replica);
    let m = merged_state(a, b);
    assert(m =~= b);
    if merges_to(before, after, merge) {
        lemma_lists_unique(listing(m), u, m);
    }
}

/// A total of a replica is part of the sum.
proof fn lemma_totals_within(s: Seq<(Seq<char>, (u64, u64))>, replica: Seq<char>)
    requires
        names(s).no_duplicates(),
    ensures
        totals_of(counter_state(s), replica).0 <= added(s),
        totals_of(counter_state(s), replica).1 <= subtracted(s),
{
    lemma_distinct_state(s);
    if counter_state(s).contains_key(replica) {
        let k = choose|k: int| 0 <= k < names(s).len() && names(s)[k] == replica;
        assert(s[k].0 == replica);
        lemma_sums_without(s, k);
    }
}

/// The sums of a sequence by its front.
proof fn lemma_sums_front(e: (Seq<char>, (u64, u64)), s: Seq<(Seq<char>, (u64, u64))>)
    ensures
        added(seq![e] + s) == e.1.0 + added(s),
        subtracted(seq![e] + s) == e.1.1 + subtracted(s),
    decreases s.len(),
{
    let all = seq![e] + s;
    if s.len() == 0 {
        assert(all.drop_last() =~= s);
    } else {
        assert(all.drop_last() =~= seq![e] + s.drop_last());
        lemma_sums_front(e, s.drop_last());
    }
}

proof fn lemma_sums_after(s: Seq<(Seq<char>, (u64, u64))>, replica: Seq<char>, delta: i64)
    requires
        added(s) + (if delta >= 0 {
            delta as int
        } else {
            0
        }) <= i64::MAX,
        subtracted(s) + (if delta >= 0 {
            0
        } else {
            -delta
        }) <= i64::MAX,
    ensures
        added(bumped(s, replica, delta)) == added(s) + (if delta >= 0 {
            delta as int
        } else {
            0
        }),
        subtracted(bumped(s, replica, delta)) == subtracted(s) + (if delta >= 0 {
            0
        } else {
            -delta
        }),
    decreases s.len(),
{
    let t = bumped(s, replica, delta);
    if delta != 0 {
        if s.len() == 0 {
            assert(t.drop_last() =~= s);
            assert(t.last() == (replica, changed((0, 0), delta)));
        } else {
            let rest = s.drop_first();
            assert(s =~= seq![s[0]] + rest);
            lemma_sums_front(s[0], rest);
            if s[0].0 == replica {
                let e = (replica, changed(s[0].1, delta));
                assert(t =~= seq![e] + rest);
                lemma_sums_front(e, rest);
            } else {
                lemma_sums_after(rest, replica, delta);
                lemma_sums_front(s[0], bumped(rest, replica, delta));
            }
        }
    }
}

/// Whether every merge reads back as what was merged.
pub open spec fn merges_read_back() -> bool {
    forall|a: Seq<u8>, b: Seq<u8>|
        read_counter(a) is Ok && read_counter(b) is Ok ==> merges_to(a, b, #[trigger] merged_or_incoming(a, b))
}

/// Merging a payload in twice is merging it once, and the order of two is no matter.
pub proof fn lemma_merging_on(held: Seq<u8>, p: Seq<u8>, q: Seq<u8>)
    requires
        merges_read_back(),
        read_counter(held) is Ok,
        read_counter(p) is Ok,
        read_counter(q) is Ok,
    ensures
        read_counter(merged_or_incoming(held, p)) is Ok,
        merged_or_incoming(merged_or_incoming(held, p), p) == merged_or_incoming(held, p),
        merged_or_incoming(merged_or_incoming(held, p), q) == merged_or_incoming(
            merged_or_incoming(held, q),
            p,
        ),
{
    let x = counter_state(read_counter(held)->Ok_0);
    let y = counter_state(read_counter(p)->Ok_0);
    let z = counter_state(read_counter(q)->Ok_0);
    assert(merges_to(held, p, merged_or_incoming(held, p)));
    assert(merges_to(held, q, merged_or_incoming(held, q)));
    lemma_state_of_listing(listing(merged_state(x, y)), merged_state(x, y));
    lemma_state_of_listing(listing(merged_state(x, z)), merged_state(x, z));
    law_merged_state(x, y, y);
    law_merged_state(y, y, y);
    law_merged_state(x, y, z);
    law_merged_state(x, z, y);
    law_merged_state(y, z, y);
}

} // verus!
