//! The cases that every store has to pass.
//!
//! What fails here is not seen elsewhere: a transaction that landed in part, a change
//! that was applied twice, or a horizon ahead of the rows all look like a healthy
//! client with slightly wrong data. So every store is run through the same cases.

use vstd::prelude::*;
use vstd::utf8::encode_utf8;
use crate::apply::{
    batch_after, drained, fresh_batch, law_echoed_page_changes_nothing,
    law_page_is_a_sequence_of_operations, law_rows_of_a_page_land, lemma_run_is_batch_after,
    page_applied, run, ApplyEngine, BatchState, FrameView, DEFAULT_MAX_BATCH,
};
use crate::events::Operation;
use crate::in_memory::InMemoryStorage;
use crate::json::{
    json_read, json_text, lemma_list_nesting, lemma_list_view, lemma_plain_fields,
    lemma_plain_items, lemma_record_nesting, lemma_record_view, list_view, member, nesting,
    parse_json, part, plain, record_view, render_json, Json, JsonView,
};
use crate::lsn::Lsn;
use crate::names::lemma_names_unique;
use crate::numbers::{decimal, decimal_text, digits_of, lemma_decimal_round_trip};
use crate::pull::{
    decoded, frame_of, frames_of, operation_named, optional, read_row, read_rows, request_json,
    row_bytes, text_part, Horizon, PullCursor, PullError, PullErrorView, PullOutcome, PullRowView,
};
use crate::pull_snapshot::{
    decoded_snapshot, read_snapshot_row, read_snapshot_rows, snapshot_steps, steps_taken,
    SnapshotRowView,
};
use crate::snapshot_laws::{as_listed, grouped, law_snapshot_replaces, listed, names_table};
use crate::storage::{fresh_store, table_pks, Storage, StorageError, StoreState};
use crate::text::{same_text, text_views};
use crate::transport::optional_str;
use crate::verdicts::{
    bytes_of, horizon_given, judge_echo, judge_horizon, judge_reaping, judge_resnapshot,
    judge_transaction, keys, lemma_echo_refused, lemma_horizon_refused, lemma_reaping_refused,
    lemma_resnapshot_refused, lemma_transaction_refused, payload_given, some_of_transaction,
    text_of_horizon, Failure, ECHO_CASE, HORIZON_CASE, REAP_CASE, RESNAPSHOT_CASE, TRANSACTION_CASE,
};

verus! {

// ---- what the server sends ----

/// A change row of a page, as JSON.
spec fn row_json(
    seq: u64,
    xid: u64,
    table: Seq<char>,
    pk: Seq<char>,
    op: Seq<char>,
    horizon: u64,
) -> JsonView {
    JsonView::Record(
        seq![
            ("horizon"@, JsonView::Text(decimal(horizon as nat))),
            ("seq"@, JsonView::Unsigned(seq)),
            ("xid"@, JsonView::Text(decimal(xid as nat))),
            ("table_name"@, JsonView::Text(table)),
            ("pk"@, JsonView::Text(pk)),
            ("op"@, JsonView::Text(op)),
            ("row"@, row_value(seq, pk, op)),
        ],
    )
}

/// The row that a change carries: a delete carries none.
pub open spec fn row_value(seq: u64, pk: Seq<char>, op: Seq<char>) -> JsonView {
    if op == "delete"@ {
        JsonView::Null
    } else {
        JsonView::Record(seq![("id"@, JsonView::Text(pk)), ("v"@, JsonView::Unsigned(seq))])
    }
}

/// A text member.
fn text_of(name: &str, value: &str) -> (r: (String, Json))
    ensures
        r.0@ == name@,
        r.1@ == JsonView::Text(value@),
{
    (name.to_owned(), Json::Text(value.to_owned()))
}

/// One change row of a page.
fn row(seq: u64, xid: u64, table: &str, pk: &str, op: &str, horizon: u64) -> (r: Json)
    ensures
        r@ == row_json(seq, xid, table@, pk@, op@, horizon),
{
    let value = if same_text(op, "delete") {
        Json::Null
    } else {
        let mut inner: Vec<(String, Json)> = Vec::new();
        inner.push(text_of("id", pk));
        inner.push(("v".to_owned(), Json::Unsigned(seq)));
        proof {
            lemma_record_view(inner@);
            assert(record_view(inner@) =~= row_value(seq, pk@, op@)->Record_0);
        }
        Json::Record(inner)
    };
    let mut fields: Vec<(String, Json)> = Vec::new();
    fields.push(text_of("horizon", decimal_text(horizon).as_str()));
    fields.push(("seq".to_owned(), Json::Unsigned(seq)));
    fields.push(text_of("xid", decimal_text(xid).as_str()));
    fields.push(text_of("table_name", table));
    fields.push(text_of("pk", pk));
    fields.push(text_of("op", op));
    fields.push(("row".to_owned(), value));
    proof {
        lemma_record_view(fields@);
        assert(record_view(fields@) =~= row_json(seq, xid, table@, pk@, op@, horizon)->Record_0);
    }
    Json::Record(fields)
}

/// The body of a response with the rows.
fn body(rows: Vec<Json>) -> (r: String)
    ensures
        small(list_view(rows@)) ==> json_read(encode_utf8(r@)) == Some(
            JsonView::List(list_view(rows@)),
        ),
{
    let ghost items = list_view(rows@);
    proof {
        if small(items) {
            lemma_plain_items(items);
            lemma_list_nesting(items, 2);
        }
    }
    render_json(&Json::List(rows))
}

/// Whether the rows are plain and nest no deeper than a row does.
spec fn small(items: Seq<JsonView>) -> bool {
    forall|i: int| 0 <= i < items.len() ==> plain(#[trigger] items[i]) && nesting(items[i]) <= 2
}

/// The member at `i` is found by its name.
proof fn lemma_member_at(fields: Seq<(Seq<char>, JsonView)>, i: int)
    requires
        0 <= i < fields.len(),
        forall|j: int| 0 <= j < i ==> (#[trigger] fields[j]).0 != fields[i].0,
    ensures
        member(fields, fields[i].0) == Some(fields[i].1),
    decreases fields.len(),
{
    if i > 0 {
        assert(fields[0].0 != fields[i].0);
        let rest = fields.drop_first();
        assert(rest[i - 1] == fields[i]);
        assert forall|j: int| 0 <= j < i - 1 implies (#[trigger] rest[j]).0 != rest[i - 1].0 by {
            assert(rest[j] == fields[j + 1]);
        }
        lemma_member_at(rest, i - 1);
    }
}

/// A change of the log by its values.
pub struct Change {
    pub seq: u64,
    pub xid: u64,
    pub table: Seq<char>,
    pub pk: Seq<char>,
    pub op: Operation,
}

/// The spelling of an operation.
pub open spec fn op_text(op: Operation) -> Seq<char> {
    match op {
        Operation::Insert => "insert"@,
        Operation::Update => "update"@,
        Operation::Delete => "delete"@,
    }
}

/// The row of a page that says the change.
spec fn change_row(c: Change, horizon: u64) -> PullRowView {
    PullRowView {
        horizon: decimal(horizon as nat),
        seq: c.seq,
        xid: decimal(c.xid as nat),
        table: c.table,
        pk: c.pk,
        op: op_text(c.op),
        row: optional(Some(row_value(c.seq, c.pk, op_text(c.op)))),
    }
}

/// The frame of the change.
pub open spec fn change_frame(c: Change) -> FrameView {
    FrameView {
        lsn: c.seq,
        op: c.op,
        table: c.table,
        pk: c.pk,
        payload: if c.op == Operation::Delete {
            None
        } else {
            Some(row_bytes(optional(Some(row_value(c.seq, c.pk, op_text(c.op))))))
        },
        txn_id: Some(c.xid),
    }
}

/// The JSON of the change.
spec fn change_json(c: Change, horizon: u64) -> JsonView {
    row_json(c.seq, c.xid, c.table, c.pk, op_text(c.op), horizon)
}

proof fn lemma_change(c: Change, horizon: u64)
    ensures
        plain(change_json(c, horizon)),
        nesting(change_json(c, horizon)) <= 2,
        read_row(change_json(c, horizon)) == Some(change_row(c, horizon)),
        frame_of(change_row(c, horizon)) == Ok::<FrameView, PullErrorView>(change_frame(c)),
{
    reveal_strlit("horizon");
    reveal_strlit("seq");
    reveal_strlit("xid");
    reveal_strlit("table_name");
    reveal_strlit("pk");
    reveal_strlit("op");
    reveal_strlit("row");
    reveal_strlit("id");
    reveal_strlit("v");
    reveal_strlit("insert");
    reveal_strlit("update");
    reveal_strlit("delete");
    let v = change_json(c, horizon);
    let f = v->Record_0;
    let inner = row_value(c.seq, c.pk, op_text(c.op));
    assert("pk"@[0] == 'p' && "op"@[0] == 'o' && "seq"@[0] == 's' && "xid"@[0] == 'x' && "row"@[0]
        == 'r');
    assert("horizon"@.len() == 7 && "table_name"@.len() == 10);
    assert forall|i: int, j: int| 0 <= i < j < f.len() implies (#[trigger] f[i]).0 != (
    #[trigger] f[j]).0 by {}
    assert("insert"@[0] == 'i' && "update"@[0] == 'u' && "delete"@[0] == 'd');
    if inner is Record {
        assert("id"@.len() != "v"@.len());
        lemma_plain_fields(inner->Record_0);
        lemma_record_nesting(inner->Record_0, 0);
    }
    assert forall|i: int| 0 <= i < f.len() implies nesting((#[trigger] f[i]).1) <= 1 by {}
    assert forall|i: int| 0 <= i < f.len() implies plain((#[trigger] f[i]).1) by {}
    lemma_plain_fields(f);
    lemma_record_nesting(f, 1);
    lemma_member_at(f, 0);
    lemma_member_at(f, 1);
    lemma_member_at(f, 2);
    lemma_member_at(f, 3);
    lemma_member_at(f, 4);
    lemma_member_at(f, 5);
    lemma_member_at(f, 6);
    lemma_decimal_round_trip(c.xid as nat, u64::MAX as nat);
    assert(operation_named(op_text(c.op)) == Some(c.op));
}

/// The rows of the changes.
spec fn change_rows(cs: Seq<Change>, horizon: u64) -> Seq<PullRowView> {
    Seq::new(cs.len(), |i: int| change_row(cs[i], horizon))
}

/// The frames of the changes.
pub open spec fn change_frames(cs: Seq<Change>) -> Seq<FrameView> {
    Seq::new(cs.len(), |i: int| change_frame(cs[i]))
}

/// The JSON of the changes.
spec fn change_items(cs: Seq<Change>, horizon: u64) -> Seq<JsonView> {
    Seq::new(cs.len(), |i: int| change_json(cs[i], horizon))
}

proof fn lemma_page(cs: Seq<Change>, horizon: u64)
    ensures
        small(change_items(cs, horizon)),
        read_rows(change_items(cs, horizon)) == Some(change_rows(cs, horizon)),
        frames_of(change_rows(cs, horizon)) == Ok::<Seq<FrameView>, PullErrorView>(
            change_frames(cs),
        ),
    decreases cs.len(),
{
    assert forall|i: int| 0 <= i < cs.len() implies plain(
        #[trigger] change_items(cs, horizon)[i],
    ) && nesting(change_items(cs, horizon)[i]) <= 2 by {
        lemma_change(cs[i], horizon);
    }
    if cs.len() == 0 {
        assert(change_rows(cs, horizon) =~= seq![]);
        assert(change_frames(cs) =~= seq![]);
    } else {
        let front = cs.drop_last();
        lemma_page(front, horizon);
        lemma_change(cs.last(), horizon);
        assert(change_items(cs, horizon).drop_last() =~= change_items(front, horizon));
        assert(change_rows(cs, horizon) =~= change_rows(front, horizon).push(
            change_row(cs.last(), horizon),
        ));
        assert(change_rows(cs, horizon).drop_last() =~= change_rows(front, horizon));
        assert(change_frames(cs) =~= change_frames(front).push(change_frame(cs.last())));
    }
}

/// Whether an engine has nothing waiting, no transaction open and no snapshot begun.
spec fn at_rest(b: BatchState) -> bool {
    b.pending.len() == 0 && b.open is None && b.windows.dom() == Set::<Seq<char>>::empty()
}

/// After a page of changes the engine is at rest again.
proof fn lemma_settled(
    b: BatchState,
    s: StoreState,
    cs: Seq<Change>,
    b2: BatchState,
    s2: StoreState,
)
    requires
        at_rest(b),
        cs.len() > 0,
        page_applied(b, s, change_frames(cs), b2, s2),
    ensures
        at_rest(b2),
        b2.cap == b.cap,
        s2.merging == s.merging,
{
    let frames = change_frames(cs);
    let (batches, stores) = choose|batches: Seq<BatchState>, stores: Seq<StoreState>| #[trigger]
        run(batches, stores, frames) && batches[0] == b && stores[0] == s && drained(
            batches.last(),
            stores.last(),
            b2,
            s2,
        );
    lemma_run_is_batch_after(batches, stores, frames);
    lemma_cap(b, frames);
    assert(frames.last() == change_frame(cs.last()));
    assert(batch_after(b, frames).pending.len() > 0);
    law_page_is_a_sequence_of_operations(b, s, frames, b2, s2);
}

proof fn lemma_cap(b: BatchState, frames: Seq<FrameView>)
    ensures
        batch_after(b, frames).cap == b.cap,
    decreases frames.len(),
{
    if frames.len() > 0 {
        lemma_cap(b, frames.drop_last());
    }
}

/// Whether a store is new and succeeds in every call.
pub open spec fn blank<S: Storage>(s: S) -> bool {
    s.dependable() && s.state() == fresh_store()
}

/// Applies a page of changes, of which none is a delete. Every row of it is there
/// afterwards, nothing waits, and the store was handed the horizon.
fn pull<S: Storage>(
    cursor: &mut PullCursor,
    engine: &mut ApplyEngine<S>,
    rows: Vec<Json>,
    Ghost(cs): Ghost<Seq<Change>>,
    Ghost(horizon): Ghost<u64>,
) -> (r: Option<PullOutcome>)
    requires
        list_view(rows@) == change_items(cs, horizon),
        0 < cs.len() < old(cursor).limit(),
        forall|i: int| 0 <= i < cs.len() ==> (#[trigger] cs[i]).op != Operation::Delete,
        at_rest(old(engine).batch()),
        old(cursor).position() != decimal(horizon as nat),
    ensures
        old(engine).backing().dependable() ==> r is Some,
        r is Some ==> {
            &&& r->0.rows_applied == cs.len()
            &&& final(cursor).position() == decimal(horizon as nat)
            &&& final(cursor).limit() == old(cursor).limit()
            &&& at_rest(final(engine).batch())
            &&& final(engine).batch().cap == old(engine).batch().cap
            &&& final(engine).store().merging == old(engine).store().merging
            &&& forall|i: int|
                0 <= i < cs.len() ==> final(engine).store().rows.contains_key(
                    ((#[trigger] cs[i]).table, cs[i].pk),
                )
            &&& exists|s: StoreState| #[trigger]
                page_applied(
                    old(engine).batch(),
                    old(engine).store(),
                    change_frames(cs),
                    final(engine).batch(),
                    s,
                ) && s.rows == final(engine).store().rows
            &&& exists|h: &mut S, text: &str, said: Result<(), StorageError>| #[trigger]
                call_ensures(S::save_horizon, (h, text), said) && text@ == decimal(horizon as nat)
                    && *final(h) == final(engine).backing()
        },
        r is None ==> exists|
            c: &mut PullCursor,
            e: &mut ApplyEngine<S>,
            text: &str,
            said: Result<PullOutcome, PullError>,
        | #[trigger]
            call_ensures(PullCursor::apply::<S>, (c, e, text), said) && said is Err && *c == *old(
                cursor,
            ) && *e == *old(engine) && decoded(text@) == Ok::<Seq<PullRowView>, PullErrorView>(
                change_rows(cs, horizon),
            ),
        final(engine).backing().dependable() == old(engine).backing().dependable(),
{
    let ghost b = engine.batch();
    let ghost s0 = engine.store();
    proof {
        lemma_page(cs, horizon);
    }
    let text = body(rows);
    let ghost frames = change_frames(cs);
    let ghost views = change_rows(cs, horizon);
    assert(decoded(text@) == Ok::<Seq<PullRowView>, PullErrorView>(views));
    assert(views[0].horizon == decimal(horizon as nat));
    match cursor.apply(engine, text.as_str()) {
        Ok(outcome) => {
            proof {
                let s = choose|s: StoreState| #[trigger]
                    page_applied(b, s0, frames, engine.batch(), s) && engine.store() == (
                    StoreState { horizon: engine.store().horizon, ..s });
                lemma_settled(b, s0, cs, engine.batch(), s);
                assert forall|i: int| 0 <= i < cs.len() implies engine.store().rows.contains_key(
                    ((#[trigger] cs[i]).table, cs[i].pk),
                ) by {
                    assert(frames[i] == change_frame(cs[i]));
                    assert(b.pending + frames =~= frames);
                    assert forall|k: int| 0 <= k < frames.len() implies (#[trigger] frames[k]).op
                        != Operation::Delete by {
                        assert(frames[k] == change_frame(cs[k]));
                    }
                    law_rows_of_a_page_land(b, s0, frames, engine.batch(), s, frames[i]);
                }
            }
            Some(outcome)
        },
        Err(_) => None,
    }
}

/// A transaction on three tables, and one behind it.
pub open spec fn transaction_page() -> Seq<Change> {
    seq![
        Change { seq: 1, xid: 100, table: "orders"@, pk: "o1"@, op: Operation::Insert },
        Change { seq: 2, xid: 100, table: "order_lines"@, pk: "l1"@, op: Operation::Insert },
        Change { seq: 3, xid: 100, table: "shipments"@, pk: "s1"@, op: Operation::Insert },
        Change { seq: 4, xid: 101, table: "orders"@, pk: "o2"@, op: Operation::Insert },
    ]
}

/// A row and its change.
pub open spec fn echo_page() -> Seq<Change> {
    seq![
        Change { seq: 1, xid: 100, table: "orders"@, pk: "o1"@, op: Operation::Insert },
        Change { seq: 2, xid: 100, table: "orders"@, pk: "o1"@, op: Operation::Update },
    ]
}

/// Two transactions that the horizon covers.
pub open spec fn horizon_page() -> Seq<Change> {
    seq![
        Change { seq: 1, xid: 100, table: "orders"@, pk: "o1"@, op: Operation::Insert },
        Change { seq: 2, xid: 104, table: "orders"@, pk: "o2"@, op: Operation::Insert },
    ]
}

/// One row.
pub open spec fn resnapshot_page() -> Seq<Change> {
    seq![
        Change { seq: 1, xid: 100, table: "orders"@, pk: "o1"@, op: Operation::Insert },
    ]
}

/// Two rows, of which the snapshot lists one.
pub open spec fn reap_page() -> Seq<Change> {
    seq![
        Change { seq: 1, xid: 100, table: "orders"@, pk: "stays"@, op: Operation::Insert },
        Change { seq: 2, xid: 100, table: "orders"@, pk: "goes"@, op: Operation::Insert },
    ]
}

/// Whether a store, asked for the keys of a table, gave these.
pub open spec fn gave_pks<S: Storage>(s: S, table: Seq<char>, pks: Seq<Seq<char>>) -> bool {
    exists|t: &str, x: Vec<String>| #[trigger]
        call_ensures(S::pks_for_table, (&s, t), Ok::<Vec<String>, StorageError>(x)) && t@ == table
            && text_views(x@) == pks
}

/// Whether a store, asked for a row, gave this payload.
pub open spec fn gave_payload<S: Storage>(
    s: S,
    table: Seq<char>,
    pk: Seq<char>,
    payload: Option<Seq<u8>>,
) -> bool {
    exists|t: &str, p: &str, x: Option<Vec<u8>>| #[trigger]
        call_ensures(S::read_payload, (&s, t, p), Ok::<Option<Vec<u8>>, StorageError>(x)) && t@
            == table && p@ == pk && bytes_of(x) == payload
}

/// Whether a store, asked how far the log was pulled, gave this.
pub open spec fn gave_horizon<S: Storage>(s: S, horizon: Option<Seq<char>>) -> bool {
    exists|x: Option<String>| #[trigger]
        call_ensures(S::horizon, (&s,), Ok::<Option<String>, StorageError>(x)) && match x {
            Some(h) => horizon == Some(h@),
            None => horizon is None,
        }
}

/// Whether a store, asked for the keys of a table, answered this: the keys, or nothing
/// where it failed.
pub open spec fn heard_pks<S: Storage>(s: S, table: Seq<char>, x: Option<Vec<String>>) -> bool {
    exists|t: &str, said: Result<Vec<String>, StorageError>| #[trigger]
        call_ensures(S::pks_for_table, (&s, t), said) && t@ == table && match x {
            Some(pks) => said is Ok && said->Ok_0 == pks,
            None => said is Err,
        }
}

/// Whether a store, asked for a row, answered this.
pub open spec fn heard_payload<S: Storage>(
    s: S,
    table: Seq<char>,
    pk: Seq<char>,
    x: Option<Option<Vec<u8>>>,
) -> bool {
    match x {
        Some(payload) => exists|t: &str, p: &str| #[trigger]
            call_ensures(
                S::read_payload,
                (&s, t, p),
                Ok::<Option<Vec<u8>>, StorageError>(payload),
            ) && t@ == table && p@ == pk,
        None => exists|t: &str, p: &str, e: StorageError| #[trigger]
            call_ensures(
                S::read_payload,
                (&s, t, p),
                Err::<Option<Vec<u8>>, StorageError>(e),
            ) && t@ == table && p@ == pk,
    }
}

/// Whether a store, asked how far the log was pulled, answered this.
pub open spec fn heard_horizon<S: Storage>(s: S, x: Option<Option<String>>) -> bool {
    match x {
        Some(h) => call_ensures(S::horizon, (&s,), Ok::<Option<String>, StorageError>(h)),
        None => exists|e: StorageError| #[trigger]
            call_ensures(S::horizon, (&s,), Err::<Option<String>, StorageError>(e)),
    }
}

/// Asks a store for the keys of a table.
fn ask_pks<S: Storage>(s: &S, table: &str) -> (r: Option<Vec<String>>)
    ensures
        heard_pks(*s, table@, r),
        r is Some ==> gave_pks(*s, table@, text_views(r->0@)),
        r is Some ==> forall|pk: Seq<char>| #[trigger]
            text_views(r->0@).contains(pk) <==> s.state().rows.contains_key((table@, pk)),
        s.dependable() ==> r is Some,
{
    match s.pks_for_table(table) {
        Ok(pks) => Some(pks),
        Err(_) => None,
    }
}

/// Asks a store for a row.
fn ask_payload<S: Storage>(s: &S, table: &str, pk: &str) -> (r: Option<Option<Vec<u8>>>)
    ensures
        heard_payload(*s, table@, pk@, r),
        r is Some ==> gave_payload(*s, table@, pk@, bytes_of(r->0)),
        s.dependable() ==> r is Some,
{
    match s.read_payload(table, pk) {
        Ok(payload) => Some(payload),
        Err(_) => None,
    }
}

/// Asks a store how far the log was pulled.
fn ask_horizon<S: Storage>(s: &S) -> (r: Option<Option<String>>)
    ensures
        heard_horizon(*s, r),
        r is Some ==> gave_horizon(*s, text_of_horizon(r->0)),
        r is Some && r->0 is Some ==> s.state().horizon == Some(r->0->0@),
        s.dependable() ==> r is Some,
{
    match s.horizon() {
        Ok(h) => Some(h),
        Err(_) => None,
    }
}

/// Whether a page of changes brings an engine and its store from `b` and `from` to
/// `b2` and the rows of `to`.
pub open spec fn pulled<S: Storage>(
    b: BatchState,
    from: S,
    cs: Seq<Change>,
    b2: BatchState,
    to: S,
) -> bool {
    exists|s: StoreState| #[trigger]
        page_applied(b, from.state(), change_frames(cs), b2, s) && s.rows == to.state().rows
}

/// Whether a batch is that of a new engine on the store.
pub open spec fn new_batch<S: Storage>(b: BatchState, s: S) -> bool {
    &&& b == fresh_batch(b.mark, DEFAULT_MAX_BATCH)
    &&& b.mark == s.state().checkpoint || b.mark == Lsn(0)
}

/// Whether the store held every table of the transaction, and the one behind it, when
/// it was asked after the page.
pub open spec fn transaction_seen_whole<S: Storage>(start: S) -> bool {
    exists|
        b: BatchState,
        b2: BatchState,
        last: S,
        orders: Seq<Seq<char>>,
        lines: Seq<Seq<char>>,
        shipments: Seq<Seq<char>>,
    |
        {
            &&& new_batch(b, start)
            &&& #[trigger] pulled(b, start, transaction_page(), b2, last)
            &&& #[trigger] gave_pks(last, "orders"@, orders)
            &&& #[trigger] gave_pks(last, "order_lines"@, lines)
            &&& #[trigger] gave_pks(last, "shipments"@, shipments)
            &&& some_of_transaction(orders)
            &&& some_of_transaction(lines)
            &&& some_of_transaction(shipments)
            &&& orders.contains("o2"@)
        }
}

/// Whether the store gave the same keys and the same payload after the page and after
/// its echo.
pub open spec fn echo_seen_alike<S: Storage>(start: S) -> bool {
    exists|
        b: BatchState,
        b1: BatchState,
        one: S,
        b2: BatchState,
        two: S,
        pks: Seq<Seq<char>>,
        payload: Option<Seq<u8>>,
    |
        {
            &&& new_batch(b, start)
            &&& #[trigger] pulled(b, start, echo_page(), b1, one)
            &&& #[trigger] pulled(b1, one, echo_page(), b2, two)
            &&& gave_pks(one, "orders"@, pks)
            &&& #[trigger] gave_pks(two, "orders"@, pks)
            &&& gave_payload(one, "orders"@, "o1"@, payload)
            &&& #[trigger] gave_payload(two, "orders"@, "o1"@, payload)
        }
}

/// Whether the store gave the horizon of the page, and every row that it covers.
pub open spec fn horizon_seen_covered<S: Storage>(start: S) -> bool {
    exists|b: BatchState, b2: BatchState, last: S, pks: Seq<Seq<char>>|
        {
            &&& new_batch(b, start)
            &&& #[trigger] pulled(b, start, horizon_page(), b2, last)
            &&& gave_horizon(last, Some("105"@))
            &&& #[trigger] gave_pks(last, "orders"@, pks)
            &&& pks.contains("o1"@)
            &&& pks.contains("o2"@)
        }
}

/// Whether the store gave a horizon after the page, and neither a horizon nor a row
/// after it was cleared.
pub open spec fn clearing_seen<S: Storage>(start: S) -> bool {
    exists|b: BatchState, b2: BatchState, full: S, kept: Seq<char>, cleared: S|
        {
            &&& new_batch(b, start)
            &&& #[trigger] pulled(b, start, resnapshot_page(), b2, full)
            &&& #[trigger] gave_horizon(full, Some(kept))
            &&& cleared.state() == (StoreState { merging: full.state().merging, ..fresh_store() })
            &&& gave_horizon(cleared, None)
            &&& #[trigger] gave_pks(cleared, "orders"@, seq![])
        }
}

/// Whether the store gave the listed row, not the other one, and the horizon of the
/// snapshot, when it was asked after the snapshot.
pub open spec fn reaping_seen<S: Storage>(start: S) -> bool {
    exists|
        b: BatchState,
        b1: BatchState,
        seeded: S,
        b2: BatchState,
        s: StoreState,
        last: S,
        pks: Seq<Seq<char>>,
    |
        {
            &&& new_batch(b, start)
            &&& #[trigger] pulled(b, start, reap_page(), b1, seeded)
            &&& #[trigger] steps_taken(
                seq![],
                snapshot_steps(picture()),
                b1,
                seeded.state(),
                b2,
                s,
            )
            &&& last.state().rows == s.rows
            &&& #[trigger] gave_pks(last, "orders"@, pks)
            &&& pks.contains("stays"@)
            &&& !pks.contains("goes"@)
            &&& gave_horizon(last, Some("400"@))
        }
}

/// Whether `r` is the verdict on what the store answered after a transaction on three
/// tables, or on a store that did not take it.
pub open spec fn transaction_judged<S: Storage>(start: S, r: Result<(), Failure>) -> bool {
    ||| call_ensures(
        judge_transaction,
        (None::<usize>, &None::<Vec<String>>, &None::<Vec<String>>, &None::<Vec<String>>),
        r,
    )
    ||| exists|
        b: BatchState,
        b2: BatchState,
        last: S,
        applied: usize,
        orders: Option<Vec<String>>,
        lines: Option<Vec<String>>,
        shipments: Option<Vec<String>>,
    |
        {
            &&& new_batch(b, start)
            &&& #[trigger] pulled(b, start, transaction_page(), b2, last)
            &&& applied == transaction_page().len()
            &&& heard_pks(last, "orders"@, orders)
            &&& heard_pks(last, "order_lines"@, lines)
            &&& heard_pks(last, "shipments"@, shipments)
            &&& #[trigger] call_ensures(
                judge_transaction,
                (Some(applied), &orders, &lines, &shipments),
                r,
            )
        }
}

/// Whether `r` is the verdict on what the store answered after a page and after its
/// echo, or on a store that did not take the one or the other.
pub open spec fn echo_judged<S: Storage>(start: S, r: Result<(), Failure>) -> bool {
    ||| call_ensures(
        judge_echo,
        (
            false,
            &None::<Vec<String>>,
            &None::<Option<Vec<u8>>>,
            false,
            &None::<Vec<String>>,
            &None::<Option<Vec<u8>>>,
        ),
        r,
    )
    ||| exists|
        b: BatchState,
        b1: BatchState,
        one: S,
        pks_one: Option<Vec<String>>,
        payload_one: Option<Option<Vec<u8>>>,
    |
        {
            &&& new_batch(b, start)
            &&& #[trigger] pulled(b, start, echo_page(), b1, one)
            &&& heard_pks(one, "orders"@, pks_one)
            &&& heard_payload(one, "orders"@, "o1"@, payload_one)
            &&& #[trigger] call_ensures(
                judge_echo,
                (
                    true,
                    &pks_one,
                    &payload_one,
                    false,
                    &None::<Vec<String>>,
                    &None::<Option<Vec<u8>>>,
                ),
                r,
            )
        }
    ||| exists|
        b: BatchState,
        b1: BatchState,
        one: S,
        pks_one: Option<Vec<String>>,
        payload_one: Option<Option<Vec<u8>>>,
        b2: BatchState,
        two: S,
        pks_two: Option<Vec<String>>,
        payload_two: Option<Option<Vec<u8>>>,
    |
        {
            &&& new_batch(b, start)
            &&& #[trigger] pulled(b, start, echo_page(), b1, one)
            &&& heard_pks(one, "orders"@, pks_one)
            &&& heard_payload(one, "orders"@, "o1"@, payload_one)
            &&& #[trigger] pulled(b1, one, echo_page(), b2, two)
            &&& heard_pks(two, "orders"@, pks_two)
            &&& heard_payload(two, "orders"@, "o1"@, payload_two)
            &&& #[trigger] call_ensures(
                judge_echo,
                (true, &pks_one, &payload_one, true, &pks_two, &payload_two),
                r,
            )
        }
}

/// The horizon that a request carries as text.
pub open spec fn carried_by(request: Seq<char>) -> Option<Seq<char>> {
    match json_read(encode_utf8(request)) {
        Some(v) => text_part(part(v, 1, "since"@)),
        None => None,
    }
}

/// Whether `carried` is the horizon in the request of a client that resumes at `saved`.
pub open spec fn resumed_at(saved: Option<Option<String>>, carried: Option<String>) -> bool {
    text_of_horizon(carried) == (match horizon_given(saved) {
        Some(Some(h)) => carried_by(json_text(request_json(h, 200))),
        _ => None,
    })
}

/// Whether `r` is the verdict on what the store answered after the page under a horizon,
/// or on a store that did not take it.
pub open spec fn horizon_judged<S: Storage>(start: S, r: Result<(), Failure>) -> bool {
    ||| call_ensures(
        judge_horizon,
        (false, &None::<Option<String>>, &None::<Vec<String>>, &None::<String>),
        r,
    )
    ||| exists|
        b: BatchState,
        b2: BatchState,
        last: S,
        saved: Option<Option<String>>,
        pks: Option<Vec<String>>,
        carried: Option<String>,
    |
        {
            &&& new_batch(b, start)
            &&& #[trigger] pulled(b, start, horizon_page(), b2, last)
            &&& heard_horizon(last, saved)
            &&& heard_pks(last, "orders"@, pks)
            &&& resumed_at(saved, carried)
            &&& #[trigger] call_ensures(judge_horizon, (true, &saved, &pks, &carried), r)
        }
}

/// Whether `r` is the verdict on what the store answered after a page and after it was
/// cleared, or on a store that did not take the page or was not cleared.
pub open spec fn resnapshot_judged<S: Storage>(start: S, r: Result<(), Failure>) -> bool {
    ||| call_ensures(
        judge_resnapshot,
        (
            false,
            &None::<Option<String>>,
            false,
            &None::<Option<String>>,
            &None::<Vec<String>>,
        ),
        r,
    )
    ||| exists|b: BatchState, b2: BatchState, full: S, kept: Option<Option<String>>|
        {
            &&& new_batch(b, start)
            &&& #[trigger] pulled(b, start, resnapshot_page(), b2, full)
            &&& heard_horizon(full, kept)
            &&& #[trigger] call_ensures(
                judge_resnapshot,
                (true, &kept, false, &None::<Option<String>>, &None::<Vec<String>>),
                r,
            )
        }
    ||| exists|
        b: BatchState,
        b2: BatchState,
        full: S,
        kept: Option<Option<String>>,
        cleared: S,
        left: Option<Option<String>>,
        pks: Option<Vec<String>>,
    |
        {
            &&& new_batch(b, start)
            &&& #[trigger] pulled(b, start, resnapshot_page(), b2, full)
            &&& heard_horizon(full, kept)
            &&& cleared.state() == (StoreState { merging: full.state().merging, ..fresh_store() })
            &&& heard_horizon(cleared, left)
            &&& #[trigger] heard_pks(cleared, "orders"@, pks)
            &&& #[trigger] call_ensures(judge_resnapshot, (true, &kept, true, &left, &pks), r)
        }
}

/// Whether `r` is the verdict on what the store answered after a snapshot that lists one
/// of two rows, or on a store that did not take the rows or the snapshot.
pub open spec fn reaping_judged<S: Storage>(start: S, r: Result<(), Failure>) -> bool {
    ||| call_ensures(
        judge_reaping,
        (
            false,
            &None::<Option<String>>,
            &None::<Vec<String>>,
            &None::<Option<String>>,
        ),
        r,
    )
    ||| exists|b: BatchState, b1: BatchState, seeded: S|
        {
            &&& new_batch(b, start)
            &&& #[trigger] pulled(b, start, reap_page(), b1, seeded)
            &&& call_ensures(
                judge_reaping,
                (
                    true,
                    &None::<Option<String>>,
                    &None::<Vec<String>>,
                    &None::<Option<String>>,
                ),
                r,
            )
        }
    ||| exists|
        b: BatchState,
        b1: BatchState,
        seeded: S,
        b2: BatchState,
        s: StoreState,
        last: S,
        moved: Option<String>,
        pks: Option<Vec<String>>,
        kept: Option<Option<String>>,
    |
        {
            &&& new_batch(b, start)
            &&& #[trigger] pulled(b, start, reap_page(), b1, seeded)
            &&& #[trigger] steps_taken(
                seq![],
                snapshot_steps(picture()),
                b1,
                seeded.state(),
                b2,
                s,
            )
            &&& last.state().rows == s.rows
            &&& text_of_horizon(moved) == Some(decimal(400))
            &&& #[trigger] heard_pks(last, "orders"@, pks)
            &&& heard_horizon(last, kept)
            &&& #[trigger] call_ensures(judge_reaping, (true, &Some(moved), &pks, &kept), r)
        }
}

/// One transaction on three tables is applied as the rows of three tables: a client
/// never holds an order without its lines.
fn a_multi_table_transaction_is_never_seen_in_pieces<S: Storage>(storage: S) -> (r: Result<
    (),
    Failure,
>)
    ensures
        storage.dependable() ==> r is Ok,
        transaction_judged(storage, r),
        r is Ok ==> transaction_seen_whole(storage),
        r is Err ==> r->Err_0.case@ == TRANSACTION_CASE@,
        r is Err && r->Err_0.said@ == "apply the page"@ ==> exists|
            c: &mut PullCursor,
            e: &mut ApplyEngine<S>,
            text: &str,
            said: Result<PullOutcome, PullError>,
        | #[trigger]
            call_ensures(PullCursor::apply::<S>, (c, e, text), said) && said is Err && (*e).backing()
                == storage
                && decoded(text@) == Ok::<Seq<PullRowView>, PullErrorView>(
                change_rows(transaction_page(), 102),
            ),
{
    let ghost start = storage;
    let mut engine = ApplyEngine::new(storage);
    let ghost b0 = engine.batch();
    let mut cursor = PullCursor::fresh();
    let mut rows: Vec<Json> = Vec::new();
    rows.push(row(1, 100, "orders", "o1", "insert", 102));
    rows.push(row(2, 100, "order_lines", "l1", "insert", 102));
    rows.push(row(3, 100, "shipments", "s1", "insert", 102));
    rows.push(row(4, 101, "orders", "o2", "insert", 102));
    let ghost cs = transaction_page();
    proof {
        lemma_list_view(rows@);
        assert(list_view(rows@) =~= change_items(cs, 102));
        lemma_not_the_start(102);
        reveal_strlit("o1");
        reveal_strlit("l1");
        reveal_strlit("s1");
    }
    let outcome = match pull(&mut cursor, &mut engine, rows, Ghost(cs), Ghost(102)) {
        Some(outcome) => outcome,
        None => {
            return judge_transaction(None, &None, &None, &None);
        },
    };
    let orders = ask_pks(engine.storage(), "orders");
    let lines = ask_pks(engine.storage(), "order_lines");
    let shipments = ask_pks(engine.storage(), "shipments");
    proof {
        assert(pulled(b0, start, cs, engine.batch(), engine.backing()));
        if orders is Some && lines is Some && shipments is Some {
            assert(text_views(orders->0@).contains(cs[0].pk));
            assert(text_views(lines->0@).contains(cs[1].pk));
            assert(text_views(shipments->0@).contains(cs[2].pk));
            assert(text_views(orders->0@).contains(cs[3].pk));
        }
        lemma_transaction_refused(
            Some(outcome.rows_applied),
            keys(orders),
            keys(lines),
            keys(shipments),
        );
    }
    judge_transaction(Some(outcome.rows_applied), &orders, &lines, &shipments)
}

/// No horizon of the cases is where a fresh cursor stands.
proof fn lemma_not_the_start(horizon: u64)
    requires
        horizon > 0,
    ensures
        decimal(horizon as nat) != "0"@,
{
    reveal_strlit("0");
    lemma_decimal_round_trip(horizon as nat, u64::MAX as nat);
    lemma_decimal_round_trip(0, u64::MAX as nat);
    assert(decimal(0) =~= "0"@);
}

/// Whether a store answers by its rows alone: it gives the keys of a table in one
/// order, and looks a row up or does not.
pub open spec fn steady<S: Storage>() -> bool {
    &&& forall|a: &S, b: &S, t: &str, u: &str, x: Vec<String>, y: Vec<String>|
        #[trigger] call_ensures(S::pks_for_table, (a, t), Ok::<Vec<String>, StorageError>(x))
            && #[trigger] call_ensures(
            S::pks_for_table,
            (b, u),
            Ok::<Vec<String>, StorageError>(y),
        ) && t@ == u@ && a.state().rows == b.state().rows ==> text_views(x@) == text_views(y@)
    &&& forall|
        a: &S,
        b: &S,
        t: &str,
        u: &str,
        p: &str,
        q: &str,
        x: Option<Vec<u8>>,
        y: Option<Vec<u8>>,
    |
        #[trigger] call_ensures(
            S::read_payload,
            (a, t, p),
            Ok::<Option<Vec<u8>>, StorageError>(x),
        ) && #[trigger] call_ensures(
            S::read_payload,
            (b, u, q),
            Ok::<Option<Vec<u8>>, StorageError>(y),
        ) && t@ == u@ && p@ == q@ && a.state().rows == b.state().rows ==> bytes_of(x) == bytes_of(
            y,
        )
}

/// A client pulls its own writes back. Applying a page twice is like applying it once.
fn an_echoed_page_applies_twice_with_the_same_result<S: Storage>(storage: S) -> (r: Result<
    (),
    Failure,
>)
    ensures
        blank(storage) && steady::<S>() ==> r is Ok,
        echo_judged(storage, r),
        r is Ok ==> echo_seen_alike(storage),
        r is Err ==> r->Err_0.case@ == ECHO_CASE@,
        r is Err && r->Err_0.said@ == "first apply"@ ==> exists|
            c: &mut PullCursor,
            e: &mut ApplyEngine<S>,
            text: &str,
            said: Result<PullOutcome, PullError>,
        | #[trigger]
            call_ensures(PullCursor::apply::<S>, (c, e, text), said) && said is Err && (*e).backing()
                == storage
                && decoded(text@) == Ok::<Seq<PullRowView>, PullErrorView>(
                change_rows(echo_page(), 101),
            ),
        r is Err && r->Err_0.said@ == "second apply"@ ==> exists|
            c: &mut PullCursor,
            e: &mut ApplyEngine<S>,
            text: &str,
            said: Result<PullOutcome, PullError>,
        | #[trigger]
            call_ensures(PullCursor::apply::<S>, (c, e, text), said) && said is Err
                && decoded(text@) == Ok::<Seq<PullRowView>, PullErrorView>(
                change_rows(echo_page(), 101),
            ),
{
    let ghost start = storage;
    let mut engine = ApplyEngine::new(storage);
    let mut rows: Vec<Json> = Vec::new();
    rows.push(row(1, 100, "orders", "o1", "insert", 101));
    rows.push(row(2, 100, "orders", "o1", "update", 101));
    let mut echo: Vec<Json> = Vec::new();
    echo.push(row(1, 100, "orders", "o1", "insert", 101));
    echo.push(row(2, 100, "orders", "o1", "update", 101));
    let ghost cs = echo_page();
    proof {
        lemma_list_view(rows@);
        assert(list_view(rows@) =~= change_items(cs, 101));
        lemma_list_view(echo@);
        assert(list_view(echo@) =~= change_items(cs, 101));
        lemma_not_the_start(101);
    }
    let ghost b0 = engine.batch();
    let ghost s0 = engine.store();
    let mut first = PullCursor::fresh();
    match pull(&mut first, &mut engine, rows, Ghost(cs), Ghost(101)) {
        Some(_) => {},
        None => {
            proof {
                lemma_echo_refused(false, None, None, false, None, None);
            }
            return judge_echo(false, &None, &None, false, &None, &None);
        },
    }
    let ghost b1 = engine.batch();
    let ghost s1 = engine.store();
    let ghost one = engine.backing();
    assert(pulled(b0, start, cs, b1, one));
    let after_one = ask_pks(engine.storage(), "orders");
    let payload_one = ask_payload(engine.storage(), "orders", "o1");
    if after_one.is_none() || payload_one.is_none() {
        proof {
            lemma_echo_refused(
                true,
                keys(after_one),
                payload_given(payload_one),
                false,
                None,
                None,
            );
        }
        return judge_echo(true, &after_one, &payload_one, false, &None, &None);
    }
    let mut second = PullCursor::fresh();
    match pull(&mut second, &mut engine, echo, Ghost(cs), Ghost(101)) {
        Some(_) => {},
        None => {
            proof {
                lemma_echo_refused(
                    true,
                    keys(after_one),
                    payload_given(payload_one),
                    false,
                    None,
                    None,
                );
            }
            return judge_echo(true, &after_one, &payload_one, false, &None, &None);
        },
    }
    let after_two = ask_pks(engine.storage(), "orders");
    let payload_two = ask_payload(engine.storage(), "orders", "o1");
    proof {
        assert(pulled(b1, one, cs, engine.batch(), engine.backing()));
        if blank(start) {
            let frames = change_frames(cs);
            let t1 = choose|s: StoreState| #[trigger]
                page_applied(b0, s0, frames, b1, s) && s.rows == s1.rows;
            let t2 = choose|s: StoreState| #[trigger]
                page_applied(b1, s1, frames, engine.batch(), s) && s.rows == engine.store().rows;
            law_page_is_a_sequence_of_operations(b0, s0, frames, b1, t1);
            assert(b0.pending =~= b1.pending);
            law_echoed_page_changes_nothing(
                b0,
                s0,
                frames,
                b1,
                t1,
                b1,
                s1,
                engine.batch(),
                t2,
            );
        }
        lemma_echo_refused(
            true,
            keys(after_one),
            payload_given(payload_one),
            true,
            keys(after_two),
            payload_given(payload_two),
        );
    }
    judge_echo(true, &after_one, &payload_one, true, &after_two, &payload_two)
}

/// The horizon that a request carries as text.
fn carried_since(request: &str) -> (r: Option<String>)
    ensures
        text_of_horizon(r) == carried_by(request@),
{
    let bytes = request.as_bytes_vec();
    match parse_json(bytes.as_slice()) {
        Some(v) => match v.part(1, "since") {
            Some(since) => match since.as_text() {
                Some(text) => Some(text.clone()),
                None => None,
            },
            None => None,
        },
        None => None,
    }
}

/// What a request carries is where the cursor stands.
proof fn lemma_carried(since: Seq<char>, max_rows: usize)
    ensures
        text_part(part(request_json(since, max_rows), 1, "since"@)) == Some(since),
{
    reveal_strlit("max_rows");
    reveal_strlit("since");
    assert("max_rows"@.len() != "since"@.len());
    lemma_member_at(request_json(since, max_rows)->Record_0, 1);
}

/// The texts of the horizons that the cases expect.
proof fn lemma_expected()
    ensures
        decimal(105) == "105"@,
        decimal(400) == "400"@,
{
    reveal_strlit("105");
    reveal_strlit("400");
    reveal_with_fuel(digits_of, 4);
    assert(decimal(105) =~= "105"@);
    assert(decimal(400) =~= "400"@);
}

/// The horizon is saved after the rows: everything that it covers is there.
fn the_horizon_never_runs_ahead_of_the_rows<S: Storage>(storage: S) -> (r: Result<(), Failure>)
    ensures
        storage.dependable() && (forall|h: &mut S, text: &str, said: Result<(), StorageError>|
            #[trigger] call_ensures(S::save_horizon, (h, text), said) && said is Ok
                ==> (*final(h)).state().horizon == Some(text@)) && reads_horizon::<S>() ==> r is Ok,
        horizon_judged(storage, r),
        r is Ok ==> horizon_seen_covered(storage),
        r is Err ==> r->Err_0.case@ == HORIZON_CASE@,
        r is Err && r->Err_0.said@ == "apply"@ ==> exists|
            c: &mut PullCursor,
            e: &mut ApplyEngine<S>,
            text: &str,
            said: Result<PullOutcome, PullError>,
        | #[trigger]
            call_ensures(PullCursor::apply::<S>, (c, e, text), said) && said is Err && (*e).backing()
                == storage
                && decoded(text@) == Ok::<Seq<PullRowView>, PullErrorView>(
                change_rows(horizon_page(), 105),
            ),
{
    let ghost start = storage;
    let mut engine = ApplyEngine::new(storage);
    let ghost b0 = engine.batch();
    let mut cursor = PullCursor::fresh();
    let mut rows: Vec<Json> = Vec::new();
    rows.push(row(1, 100, "orders", "o1", "insert", 105));
    rows.push(row(2, 104, "orders", "o2", "insert", 105));
    let ghost cs = horizon_page();
    proof {
        lemma_list_view(rows@);
        assert(list_view(rows@) =~= change_items(cs, 105));
        lemma_not_the_start(105);
        lemma_expected();
        lemma_carried("105"@, 200);
    }
    match pull(&mut cursor, &mut engine, rows, Ghost(cs), Ghost(105)) {
        Some(_) => {},
        None => {
            return judge_horizon(false, &None, &None, &None);
        },
    }
    let saved = ask_horizon(engine.storage());
    let pks = ask_pks(engine.storage(), "orders");
    let carried = match &saved {
        Some(Some(at)) => {
            let resumed = PullCursor::resume(Horizon::new(at.as_str()), 200);
            carried_since(resumed.request_body().as_str())
        },
        _ => None,
    };
    proof {
        assert(pulled(b0, start, cs, engine.batch(), engine.backing()));
        if pks is Some {
            assert(text_views(pks->0@).contains(cs[0].pk));
            assert(text_views(pks->0@).contains(cs[1].pk));
        }
        lemma_horizon_refused(true, horizon_given(saved), keys(pks), text_of_horizon(carried));
    }
    judge_horizon(true, &saved, &pks, &carried)
}

/// Whether a store gives back the horizon that it keeps.
pub open spec fn reads_horizon<S: Storage>() -> bool {
    forall|a: &S, x: Option<String>| #[trigger]
        call_ensures(S::horizon, (a,), Ok::<Option<String>, StorageError>(x))
            && a.state().horizon is Some ==> x is Some
}

/// A client that starts over clears its store, and no horizon survives that: the next
/// pull would resume in the middle of the log.
fn a_resnapshot_leaves_no_stale_horizon<S: Storage>(storage: S) -> (r: Result<(), Failure>)
    ensures
        storage.dependable() && (forall|h: &mut S, text: &str, said: Result<(), StorageError>|
            #[trigger] call_ensures(S::save_horizon, (h, text), said) && said is Ok
                ==> (*final(h)).state().horizon == Some(text@)) && reads_horizon::<S>() ==> r is Ok,
        resnapshot_judged(storage, r),
        r is Ok ==> clearing_seen(storage),
        r is Err ==> r->Err_0.case@ == RESNAPSHOT_CASE@,
        r is Err && r->Err_0.said@ == "apply"@ ==> exists|
            c: &mut PullCursor,
            e: &mut ApplyEngine<S>,
            text: &str,
            said: Result<PullOutcome, PullError>,
        | #[trigger]
            call_ensures(PullCursor::apply::<S>, (c, e, text), said) && said is Err && (*e).backing()
                == storage
                && decoded(text@) == Ok::<Seq<PullRowView>, PullErrorView>(
                change_rows(resnapshot_page(), 101),
            ),
        r is Err && r->Err_0.said@ == "clear for re-snapshot"@ ==> exists|
            h: &mut S,
            said: Result<(), StorageError>,
        | #[trigger] call_ensures(S::clear, (h,), said) && said is Err,
{
    let ghost start = storage;
    let mut engine = ApplyEngine::new(storage);
    let ghost b0 = engine.batch();
    let mut cursor = PullCursor::fresh();
    let mut rows: Vec<Json> = Vec::new();
    rows.push(row(1, 100, "orders", "o1", "insert", 101));
    let ghost cs = resnapshot_page();
    proof {
        lemma_list_view(rows@);
        assert(list_view(rows@) =~= change_items(cs, 101));
        lemma_not_the_start(101);
    }
    match pull(&mut cursor, &mut engine, rows, Ghost(cs), Ghost(101)) {
        Some(_) => {},
        None => {
            proof {
                lemma_resnapshot_refused(false, None, false, None, None);
            }
            return judge_resnapshot(false, &None, false, &None, &None);
        },
    }
    let ghost full = engine.backing();
    assert(pulled(b0, start, cs, engine.batch(), full));
    let kept = ask_horizon(engine.storage());
    proof {
        lemma_resnapshot_refused(true, horizon_given(kept), false, None, None);
    }
    match &kept {
        Some(Some(_)) => {},
        _ => {
            return judge_resnapshot(true, &kept, false, &None, &None);
        },
    }
    match engine.storage_mut().clear() {
        Ok(_) => {},
        Err(_) => {
            return judge_resnapshot(true, &kept, false, &None, &None);
        },
    }
    let left = ask_horizon(engine.storage());
    let pks = ask_pks(engine.storage(), "orders");
    proof {
        if pks is Some && pks->0@.len() != 0 {
            assert(text_views(pks->0@).contains(text_views(pks->0@)[0]));
        }
        if pks is Some && pks->0@.len() == 0 {
            assert(text_views(pks->0@) =~= seq![]);
        }
        lemma_resnapshot_refused(
            true,
            horizon_given(kept),
            true,
            horizon_given(left),
            keys(pks),
        );
    }
    judge_resnapshot(true, &kept, true, &left, &pks)
}

/// A row of a snapshot, as JSON. A row without a table only carries the horizon, and
/// one without a key only names its table.
spec fn snap_json(horizon: u64, table: Option<Seq<char>>, pk: Option<Seq<char>>) -> JsonView {
    JsonView::Record(
        seq![
            ("horizon"@, JsonView::Text(decimal(horizon as nat))),
            ("table_name"@, text_or_null(table)),
            ("pk"@, text_or_null(pk)),
            ("row"@, snap_value(pk)),
        ],
    )
}

/// A text, or null.
spec fn text_or_null(t: Option<Seq<char>>) -> JsonView {
    match t {
        Some(s) => JsonView::Text(s),
        None => JsonView::Null,
    }
}

/// The row under a key of a snapshot.
pub open spec fn snap_value(pk: Option<Seq<char>>) -> JsonView {
    match pk {
        Some(p) => JsonView::Record(seq![("id"@, JsonView::Text(p))]),
        None => JsonView::Null,
    }
}

/// The row of a snapshot by its values.
pub open spec fn snap_row(
    horizon: u64,
    table: Option<Seq<char>>,
    pk: Option<Seq<char>>,
) -> SnapshotRowView {
    SnapshotRowView {
        horizon: decimal(horizon as nat),
        table,
        pk,
        row: optional(Some(snap_value(pk))),
    }
}

/// One row of a snapshot.
fn snap(horizon: u64, table: Option<&str>, pk: Option<&str>) -> (r: Json)
    ensures
        r@ == snap_json(horizon, optional_str(table), optional_str(pk)),
{
    let mut fields: Vec<(String, Json)> = Vec::new();
    fields.push(text_of("horizon", decimal_text(horizon).as_str()));
    fields.push(
        (
            "table_name".to_owned(),
            match table {
                Some(t) => Json::Text(t.to_owned()),
                None => Json::Null,
            },
        ),
    );
    fields.push(
        (
            "pk".to_owned(),
            match pk {
                Some(p) => Json::Text(p.to_owned()),
                None => Json::Null,
            },
        ),
    );
    let value = match pk {
        Some(p) => {
            let mut inner: Vec<(String, Json)> = Vec::new();
            inner.push(text_of("id", p));
            proof {
                lemma_record_view(inner@);
                assert(record_view(inner@) =~= snap_value(Some(p@))->Record_0);
            }
            Json::Record(inner)
        },
        None => Json::Null,
    };
    fields.push(("row".to_owned(), value));
    proof {
        lemma_record_view(fields@);
        assert(record_view(fields@) =~= snap_json(
            horizon,
            optional_str(table),
            optional_str(pk),
        )->Record_0);
    }
    Json::Record(fields)
}

proof fn lemma_snap(horizon: u64, table: Option<Seq<char>>, pk: Option<Seq<char>>)
    ensures
        plain(snap_json(horizon, table, pk)),
        nesting(snap_json(horizon, table, pk)) <= 2,
        read_snapshot_row(snap_json(horizon, table, pk)) == Some(snap_row(horizon, table, pk)),
{
    reveal_strlit("horizon");
    reveal_strlit("table_name");
    reveal_strlit("pk");
    reveal_strlit("id");
    reveal_strlit("row");
    let v = snap_json(horizon, table, pk);
    let f = v->Record_0;
    let inner = snap_value(pk);
    assert("pk"@.len() == 2 && "row"@.len() == 3 && "horizon"@.len() == 7 && "table_name"@.len()
        == 10);
    assert forall|i: int, j: int| 0 <= i < j < f.len() implies (#[trigger] f[i]).0 != (
    #[trigger] f[j]).0 by {}
    if inner is Record {
        lemma_plain_fields(inner->Record_0);
        lemma_record_nesting(inner->Record_0, 0);
    }
    assert forall|i: int| 0 <= i < f.len() implies nesting((#[trigger] f[i]).1) <= 1 by {}
    assert forall|i: int| 0 <= i < f.len() implies plain((#[trigger] f[i]).1) by {}
    lemma_plain_fields(f);
    lemma_record_nesting(f, 1);
    lemma_member_at(f, 0);
    lemma_member_at(f, 1);
    lemma_member_at(f, 2);
    lemma_member_at(f, 3);
}

/// The snapshot of the last case: one order is left, and a table that went empty.
pub open spec fn picture() -> Seq<SnapshotRowView> {
    seq![
        snap_row(400, None, None),
        snap_row(400, Some("orders"@), None),
        snap_row(400, Some("orders"@), Some("stays"@)),
        snap_row(400, Some("invoices"@), None),
    ]
}

/// What the snapshot leaves of two orders.
proof fn lemma_reaped(b: BatchState, start: StoreState, b2: BatchState, s2: StoreState)
    requires
        at_rest(b),
        steps_taken(seq![], snapshot_steps(picture()), b, start, b2, s2),
    ensures
        s2.rows.contains_key(("orders"@, "stays"@)),
        !s2.rows.contains_key(("orders"@, "goes"@)),
{
    let rows = picture();
    reveal_strlit("orders");
    reveal_strlit("invoices");
    reveal_strlit("stays");
    reveal_strlit("goes");
    assert("orders"@.len() != "invoices"@.len());
    assert("stays"@.len() != "goes"@.len());
    assert(b.windows =~= Map::<Seq<char>, Set<Seq<char>>>::empty());
    assert(grouped(rows));
    law_snapshot_replaces(seq![], rows, b, start, b2, s2);
    reveal_with_fuel(listed, 5);
    assert(rows.drop_last().last() == rows[2]);
    assert(rows.drop_last().drop_last().last() == rows[1]);
    assert(rows.drop_last().drop_last().drop_last().last() == rows[0]);
    assert(listed(rows, "orders"@, "stays"@) is Some);
    assert(listed(rows, "orders"@, "goes"@) is None);
    assert(rows[1].table == Some("orders"@));
    assert(names_table(rows, "orders"@));
    assert(as_listed(seq![], rows, start, s2.rows, "orders"@, "stays"@));
    assert(as_listed(seq![], rows, start, s2.rows, "orders"@, "goes"@));
}

/// A snapshot lists what there is, and says nothing of what was deleted. A row that it
/// does not list goes, or the client would keep it for ever.
fn a_snapshot_reaps_rows_deleted_while_away<S: Storage>(storage: S) -> (r: Result<(), Failure>)
    ensures
        storage.dependable() && (forall|h: &mut S, text: &str, said: Result<(), StorageError>|
            #[trigger] call_ensures(S::save_horizon, (h, text), said) && said is Ok
                ==> (*final(h)).state().horizon == Some(text@)) && reads_horizon::<S>() ==> r is Ok,
        reaping_judged(storage, r),
        r is Ok ==> reaping_seen(storage),
        r is Err ==> r->Err_0.case@ == REAP_CASE@,
        r is Err && r->Err_0.said@ == "seed"@ ==> exists|
            c: &mut PullCursor,
            e: &mut ApplyEngine<S>,
            text: &str,
            said: Result<PullOutcome, PullError>,
        | #[trigger]
            call_ensures(PullCursor::apply::<S>, (c, e, text), said) && said is Err && (*e).backing()
                == storage
                && decoded(text@) == Ok::<Seq<PullRowView>, PullErrorView>(
                change_rows(reap_page(), 101),
            ),
        r is Err && r->Err_0.said@ == "apply snapshot"@ ==> exists|
            c: &mut PullCursor,
            e: &mut ApplyEngine<S>,
            text: &str,
            exempt: &[(String, String)],
            said: Result<PullOutcome, PullError>,
        | #[trigger]
            call_ensures(PullCursor::apply_snapshot::<S>, (c, e, text, exempt), said) && said is Err
                && decoded_snapshot(text@) == Ok::<Seq<SnapshotRowView>, PullErrorView>(picture())
                && exempt@.len() == 0,
{
    let ghost start = storage;
    let mut engine = ApplyEngine::new(storage);
    let ghost b0 = engine.batch();
    let mut cursor = PullCursor::fresh();
    let mut rows: Vec<Json> = Vec::new();
    rows.push(row(1, 100, "orders", "stays", "insert", 101));
    rows.push(row(2, 100, "orders", "goes", "insert", 101));
    let ghost cs = reap_page();
    proof {
        lemma_list_view(rows@);
        assert(list_view(rows@) =~= change_items(cs, 101));
        lemma_not_the_start(101);
    }
    match pull(&mut cursor, &mut engine, rows, Ghost(cs), Ghost(101)) {
        Some(_) => {},
        None => {
            proof {
                lemma_reaping_refused(false, None, None, None);
            }
            return judge_reaping(false, &None, &None, &None);
        },
    }
    let mut listing: Vec<Json> = Vec::new();
    listing.push(snap(400, None, None));
    listing.push(snap(400, Some("orders"), None));
    listing.push(snap(400, Some("orders"), Some("stays")));
    listing.push(snap(400, Some("invoices"), None));
    let ghost items = list_view(listing@);
    proof {
        lemma_list_view(listing@);
        lemma_picture(items);
        lemma_expected();
        lemma_decimal_round_trip(101, u64::MAX as nat);
        lemma_decimal_round_trip(400, u64::MAX as nat);
    }
    let snapshot = body(listing);
    let none: Vec<(String, String)> = Vec::new();
    let ghost b1 = engine.batch();
    let ghost s1 = engine.store();
    let ghost seeded = engine.backing();
    assert(pulled(b0, start, cs, b1, seeded));
    let out = match cursor.apply_snapshot(&mut engine, snapshot.as_str(), none.as_slice()) {
        Ok(out) => out,
        Err(_) => {
            proof {
                lemma_reaping_refused(true, None, None, None);
            }
            return judge_reaping(true, &None, &None, &None);
        },
    };
    proof {
        assert(none@ =~= seq![]);
        let s = choose|s: StoreState| #[trigger]
            steps_taken(seq![], snapshot_steps(picture()), b1, s1, engine.batch(), s)
                && engine.store().rows == s.rows;
        lemma_reaped(b1, s1, engine.batch(), s);
    }
    let pks = ask_pks(engine.storage(), "orders");
    let kept = ask_horizon(engine.storage());
    let moved = match out.horizon {
        Some(h) => Some(h.as_str().to_owned()),
        None => None,
    };
    proof {
        lemma_reaping_refused(
            true,
            Some(text_of_horizon(moved)),
            keys(pks),
            horizon_given(kept),
        );
    }
    judge_reaping(true, &Some(moved), &pks, &kept)
}

/// The response of the last case reads as its snapshot.
proof fn lemma_picture(items: Seq<JsonView>)
    requires
        items.len() == 4,
        items[0] == snap_json(400, None, None),
        items[1] == snap_json(400, Some("orders"@), None),
        items[2] == snap_json(400, Some("orders"@), Some("stays"@)),
        items[3] == snap_json(400, Some("invoices"@), None),
    ensures
        small(items),
        read_snapshot_rows(items) == Some(picture()),
{
    lemma_snap(400, None, None);
    lemma_snap(400, Some("orders"@), None);
    lemma_snap(400, Some("orders"@), Some("stays"@));
    lemma_snap(400, Some("invoices"@), None);
    reveal_with_fuel(read_snapshot_rows, 5);
    let three = items.drop_last();
    let two = three.drop_last();
    let one = two.drop_last();
    assert(one.drop_last() =~= seq![]);
    assert(three.last() == items[2] && two.last() == items[1] && one.last() == items[0]);
    assert(read_snapshot_rows(items)->0 =~= picture());
}

/// The names of the cases, in order.
pub open spec fn case_names() -> Seq<Seq<char>> {
    seq![TRANSACTION_CASE@, ECHO_CASE@, HORIZON_CASE@, RESNAPSHOT_CASE@, REAP_CASE@]
}

/// Whether `r` is the verdict of the case at `i` on a store.
#[verifier::opaque]
pub open spec fn judged_at<S: Storage>(s: S, i: int, r: Result<(), Failure>) -> bool {
    if i == 0 {
        transaction_judged(s, r)
    } else if i == 1 {
        echo_judged(s, r)
    } else if i == 2 {
        horizon_judged(s, r)
    } else if i == 3 {
        resnapshot_judged(s, r)
    } else {
        reaping_judged(s, r)
    }
}

/// Whether a store was seen to do what the case at `i` asks for.
#[verifier::opaque]
pub open spec fn seen_at<S: Storage>(s: S, i: int) -> bool {
    if i == 0 {
        transaction_seen_whole(s)
    } else if i == 1 {
        echo_seen_alike(s)
    } else if i == 2 {
        horizon_seen_covered(s)
    } else if i == 3 {
        clearing_seen(s)
    } else {
        reaping_seen(s)
    }
}

/// Whether the case at `i` passed a store from `make`.
pub open spec fn case_passed<S: Storage, F: Fn() -> S>(make: F, i: int) -> bool {
    exists|s: S, r: Result<(), Failure>| #[trigger]
        call_ensures(make, (), s) && #[trigger] judged_at(s, i, r) && r is Ok && seen_at(s, i)
}

/// Whether the case at `i` failed a store from `make` with this failure.
pub open spec fn case_failed<S: Storage, F: Fn() -> S>(make: F, i: int, e: Failure) -> bool {
    exists|s: S| #[trigger]
        call_ensures(make, (), s) && judged_at(s, i, Err::<(), Failure>(e))
}

/// The name of the case at `i`.
fn case_name(i: usize) -> (r: &'static str)
    requires
        i < 5,
    ensures
        r@ == case_names()[i as int],
{
    if i == 0 {
        TRANSACTION_CASE
    } else if i == 1 {
        ECHO_CASE
    } else if i == 2 {
        HORIZON_CASE
    } else if i == 3 {
        RESNAPSHOT_CASE
    } else {
        REAP_CASE
    }
}

/// Runs the case at `i` against a new store.
fn run_case<S: Storage>(i: usize, storage: S) -> (r: Result<(), Failure>)
    requires
        i < 5,
    ensures
        judged_at(storage, i as int, r),
        r is Ok ==> seen_at(storage, i as int),
        r is Err ==> r->Err_0.case@ == case_names()[i as int],
        blank(storage) && steady::<S>() && (forall|
            h: &mut S,
            text: &str,
            said: Result<(), StorageError>,
        | #[trigger]
            call_ensures(S::save_horizon, (h, text), said) && said is Ok
                ==> (*final(h)).state().horizon == Some(text@)) && reads_horizon::<S>() ==> r is Ok,
{
    reveal(judged_at);
    reveal(seen_at);
    if i == 0 {
        a_multi_table_transaction_is_never_seen_in_pieces(storage)
    } else if i == 1 {
        an_echoed_page_applies_twice_with_the_same_result(storage)
    } else if i == 2 {
        the_horizon_never_runs_ahead_of_the_rows(storage)
    } else if i == 3 {
        a_resnapshot_leaves_no_stale_horizon(storage)
    } else {
        a_snapshot_reaps_rows_deleted_while_away(storage)
    }
}

/// Runs every case against a new store from `make`. The result is the names of the
/// cases, in order, or the first failure. A store that succeeds in every call,
/// answers by its rows alone and keeps its horizon passes.
pub fn run_all<S: Storage, F: Fn() -> S>(make: F) -> (r: Result<Vec<&'static str>, Failure>)
    requires
        call_requires(make, ()),
    ensures
        r is Ok ==> r->Ok_0@.len() == case_names().len() && forall|i: int|
            0 <= i < r->Ok_0@.len() ==> (#[trigger] r->Ok_0@[i])@ == case_names()[i],
        r is Ok ==> forall|i: int| 0 <= i < case_names().len() ==> #[trigger] case_passed(make, i),
        r is Err ==> exists|k: int|
            0 <= k < case_names().len() && #[trigger] case_names()[k] == r->Err_0.case@
                && case_failed(make, k, r->Err_0) && forall|i: int|
                0 <= i < k ==> #[trigger] case_passed(make, i),
        (forall|s: S| #[trigger] call_ensures(make, (), s) ==> blank(s)) && steady::<S>()
            && (forall|h: &mut S, text: &str, said: Result<(), StorageError>| #[trigger]
            call_ensures(S::save_horizon, (h, text), said) && said is Ok
                ==> (*final(h)).state().horizon == Some(text@)) && reads_horizon::<S>()
            ==> r is Ok,
{
    let mut ran: Vec<&'static str> = Vec::new();
    let mut i: usize = 0;
    while i < 5
        invariant
            i <= 5,
            call_requires(make, ()),
            ran@.len() == i,
            forall|k: int| 0 <= k < i ==> (#[trigger] ran@[k])@ == case_names()[k],
            forall|k: int| 0 <= k < i ==> #[trigger] case_passed(make, k),
        decreases 5 - i,
    {
        let store = make();
        let verdict = run_case(i, store);
        match verdict {
            Ok(_) => {
                assert(judged_at(store, i as int, verdict));
                assert(case_passed(make, i as int));
            },
            Err(e) => {
                assert(case_failed(make, i as int, e));
                return Err(e);
            },
        }
        ran.push(case_name(i));
        i += 1;
    }
    Ok(ran)
}

/// A new store in memory.
pub fn new_in_memory() -> (r: InMemoryStorage)
    ensures
        blank(r),
{
    InMemoryStorage::new()
}

/// The store in memory passes every case.
pub fn in_memory_conforms() -> (r: Result<Vec<&'static str>, Failure>)
    ensures
        r is Ok,
        r->Ok_0@.len() == case_names().len(),
        forall|i: int|
            0 <= i < r->Ok_0@.len() ==> (#[trigger] r->Ok_0@[i])@ == case_names()[i],
        forall|i: int|
            0 <= i < case_names().len() ==> #[trigger] case_passed(new_in_memory, i),
{
    proof {
        lemma_in_memory_is_steady();
    }
    run_all(new_in_memory)
}

proof fn lemma_in_memory_is_steady()
    ensures
        steady::<InMemoryStorage>(),
{
    assert forall|
        a: &InMemoryStorage,
        b: &InMemoryStorage,
        t: &str,
        u: &str,
        x: Vec<String>,
        y: Vec<String>,
    |
        #[trigger] call_ensures(
            InMemoryStorage::pks_for_table,
            (a, t),
            Ok::<Vec<String>, StorageError>(x),
        ) && #[trigger] call_ensures(
            InMemoryStorage::pks_for_table,
            (b, u),
            Ok::<Vec<String>, StorageError>(y),
        ) && t@ == u@ && a.state().rows == b.state().rows implies text_views(x@) == text_views(
        y@,
    ) by {
        lemma_names_unique(text_views(x@), text_views(y@), table_pks(a.state().rows, t@));
    }
}

} // verus!
