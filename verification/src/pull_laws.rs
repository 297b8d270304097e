//! What pulling is for: the rows of a page reach the store as they came, whole
//! transactions at a time, and the horizon follows them.

use vstd::prelude::*;
use vstd::utf8::encode_utf8;
use crate::appwrite_pull::{
    change_frames, decoded_page, page_plan, scanned_horizon, ChangeView, PageView,
};
use crate::apply::{ApplyEngine, Frame, FrameView};
use crate::events::Operation;
use crate::in_memory::InMemoryStorage;
use crate::json::{json_read, json_text, member, JsonView};
use crate::json_order::{law_ordering_keeps_the_value, ordered_json, same_json};
use crate::numbers::{decimal, lemma_decimal_round_trip, read_unsigned};
use crate::pull::{
    applicable, before_xid, decode_rows, frame_of, frames_of, moved, next_horizon, read_rows,
    row_bytes, Horizon, PullCursor, PullError, PullErrorView, PullOutcome, PullRow, PullRowView,
};
use crate::pull_snapshot::{
    decoded_snapshot, read_snapshot_rows, snapshot_steps, SnapshotRowView, SnapshotStep,
};
use crate::storage::{Storage, StorageError};
use crate::text::lex_lt;

verus! {

// ---- a page of the log ----

/// Whether a JSON value is a record that names the parts of a log row so. Numbers and
/// texts are both taken for the two ids; a row that is null or missing is none.
pub open spec fn says_row(v: JsonView, row: PullRowView) -> bool {
    v matches JsonView::Record(f) && {
        &&& names_id(f, "horizon"@, row.horizon)
        &&& member(f, "seq"@) == Some(JsonView::Unsigned(row.seq))
        &&& names_id(f, "xid"@, row.xid)
        &&& member(f, "table_name"@) == Some(JsonView::Text(row.table))
        &&& member(f, "pk"@) == Some(JsonView::Text(row.pk))
        &&& member(f, "op"@) == Some(JsonView::Text(row.op))
        &&& names_row(f, row.row)
    }
}

/// Whether a record has an id under a name, as text or as a number.
pub open spec fn names_id(f: Seq<(Seq<char>, JsonView)>, name: Seq<char>, id: Seq<char>) -> bool {
    match member(f, name) {
        Some(JsonView::Text(s)) => id == s,
        Some(JsonView::Unsigned(n)) => id == decimal(n as nat),
        _ => false,
    }
}

/// Whether a record has this value as its `row`.
pub open spec fn names_row(f: Seq<(Seq<char>, JsonView)>, row: Option<JsonView>) -> bool {
    match row {
        Some(v) => !(v is Null) && member(f, "row"@) == Some(v),
        None => member(f, "row"@) is None || member(f, "row"@) == Some(JsonView::Null),
    }
}

/// A response whose JSON is a list of log rows holds those rows, in that order.
pub proof fn law_rows_are_read_by_name(
    body: &str,
    r: Result<Vec<PullRow>, PullError>,
    items: Seq<JsonView>,
    rows: Seq<PullRowView>,
)
    requires
        call_ensures(decode_rows, (body,), r),
        json_read(encode_utf8(body@)) == Some(JsonView::List(items)),
        items.len() == rows.len(),
        forall|i: int| 0 <= i < items.len() ==> says_row(#[trigger] items[i], rows[i]),
    ensures
        r is Ok,
        r->Ok_0@.len() == rows.len(),
        forall|i: int| 0 <= i < rows.len() ==> (#[trigger] r->Ok_0@[i])@ == rows[i],
{
    lemma_rows_read(items, rows);
    assert forall|i: int| 0 <= i < rows.len() implies (#[trigger] r->Ok_0@[i])@ == rows[i] by {
        assert(crate::pull::row_views(r->Ok_0@)[i] == rows[i]);
    }
}

proof fn lemma_rows_read(items: Seq<JsonView>, rows: Seq<PullRowView>)
    requires
        items.len() == rows.len(),
        forall|i: int| 0 <= i < items.len() ==> says_row(#[trigger] items[i], rows[i]),
    ensures
        read_rows(items) == Some(rows),
    decreases items.len(),
{
    if items.len() > 0 {
        let front = items.drop_last();
        assert forall|i: int| 0 <= i < front.len() implies says_row(
            #[trigger] front[i],
            rows.drop_last()[i],
        ) by {
            assert(front[i] == items[i]);
        }
        lemma_rows_read(front, rows.drop_last());
        assert(says_row(items[items.len() - 1], rows[rows.len() - 1]));
        assert(rows.drop_last().push(rows.last()) =~= rows);
    } else {
        assert(rows =~= seq![]);
    }
}

/// What a row holds is stored as the text of the same JSON value: arrays have the same
/// items at the same places, records the same members with the same values, in the
/// order of their names.
pub proof fn law_row_is_stored_as_it_came(v: JsonView)
    ensures
        exists|w: JsonView|
            row_bytes(Some(v)) == encode_utf8(#[trigger] json_text(w)) && same_json(v, w) && (
            w matches JsonView::Record(y) ==> forall|i: int, k: int|
                0 <= i < k < y.len() ==> (#[trigger] y[i]).0 == (#[trigger] y[k]).0 || lex_lt(
                    y[i].0,
                    y[k].0,
                )),
{
    law_ordering_keeps_the_value(v);
    let w = ordered_json(v);
    assert(row_bytes(Some(v)) == encode_utf8(json_text(w)));
}

/// A row becomes a change at its own number, of its own table and key, in the
/// transaction that its id writes. An insert or an update carries the row; a delete
/// carries none. Any other word for the operation is refused.
pub proof fn law_row_becomes_a_change(row: &PullRow, r: Result<Frame, PullError>, xid: u64)
    requires
        call_ensures(PullRow::to_frame, (row,), r),
        row.xid@ == decimal(xid as nat),
    ensures
        r is Ok <==> row.op@ == "insert"@ || row.op@ == "update"@ || row.op@ == "delete"@,
        r is Ok ==> {
            let f = r->Ok_0@;
            &&& f.lsn == row.seq
            &&& f.table == row.table_name@
            &&& f.pk == row.pk@
            &&& f.txn_id == Some(xid)
            &&& row.op@ == "insert"@ ==> f.op == Operation::Insert
            &&& row.op@ == "update"@ ==> f.op == Operation::Update
            &&& row.op@ == "delete"@ ==> f.op == Operation::Delete && f.payload is None
            &&& row.op@ != "delete"@ && row.row is Some ==> exists|w: JsonView|
                f.payload == Some(encode_utf8(#[trigger] json_text(w))) && same_json(
                    row.row->0@,
                    w,
                )
        },
        r is Err ==> r->Err_0@ == (PullErrorView::UnknownOp {
            op: row.op@,
            table: row.table_name@,
            pk: row.pk@,
        }),
{
    reveal_strlit("insert");
    reveal_strlit("update");
    reveal_strlit("delete");
    assert("insert"@[0] == 'i' && "update"@[0] == 'u' && "delete"@[0] == 'd');
    lemma_decimal_round_trip(xid as nat, u64::MAX as nat);
    if row.row is Some {
        let v = row.row->0@;
        law_ordering_keeps_the_value(v);
        assert(row_bytes(Some(v)) == encode_utf8(json_text(ordered_json(v))));
    }
}

/// A row whose transaction is no number is refused, and not applied outside of it.
pub proof fn law_row_without_a_number_is_refused(row: &PullRow, r: Result<Frame, PullError>)
    requires
        call_ensures(PullRow::to_frame, (row,), r),
        row.xid@.len() == 0 || !('0' <= row.xid@[0] <= '9' || row.xid@[0] == '+'),
    ensures
        r is Err,
        r->Err_0 is BadXid || r->Err_0 is UnknownOp,
{
    if row.xid@.len() > 0 {
        let d = crate::numbers::without_plus(row.xid@);
        assert(d == row.xid@);
        assert(!crate::numbers::is_digit(d[0], 10));
        assert(!crate::numbers::all_digits(d, 10));
    }
}

/// The changes of rows are theirs one by one, in order. Where one has none, the first
/// such row says why.
pub proof fn law_changes_are_of_the_rows(rows: Seq<PullRowView>)
    ensures
        match frames_of(rows) {
            Ok(frames) => frames.len() == rows.len() && forall|i: int|
                0 <= i < rows.len() ==> frame_of(#[trigger] rows[i]) == Ok::<
                    FrameView,
                    PullErrorView,
                >(frames[i]),
            Err(e) => exists|i: int|
                0 <= i < rows.len() && frame_of(#[trigger] rows[i]) == Err::<
                    FrameView,
                    PullErrorView,
                >(e) && forall|k: int| 0 <= k < i ==> frame_of(#[trigger] rows[k]) is Ok,
        },
    decreases rows.len(),
{
    if rows.len() > 0 {
        let front = rows.drop_last();
        law_changes_are_of_the_rows(front);
        assert forall|i: int| 0 <= i < front.len() implies #[trigger] rows[i] == front[i] by {}
        match frames_of(front) {
            Ok(fs) => {
                match frames_of(rows) {
                    Ok(frames) => {
                        assert forall|i: int| 0 <= i < rows.len() implies frame_of(
                            #[trigger] rows[i],
                        ) == Ok::<FrameView, PullErrorView>(frames[i]) by {
                            if i < front.len() {
                                assert(frame_of(front[i]) == Ok::<FrameView, PullErrorView>(fs[i]));
                            }
                        }
                    },
                    Err(e) => {
                        let n = rows.len() - 1;
                        assert(frame_of(rows[n]) == Err::<FrameView, PullErrorView>(e));
                        assert forall|k: int| 0 <= k < n implies frame_of(
                            #[trigger] rows[k],
                        ) is Ok by {
                            assert(frame_of(front[k]) is Ok);
                        }
                    },
                }
            },
            Err(e) => {
                let i = choose|i: int|
                    0 <= i < front.len() && frame_of(#[trigger] front[i]) == Err::<
                        FrameView,
                        PullErrorView,
                    >(e) && forall|k: int| 0 <= k < i ==> frame_of(#[trigger] front[k]) is Ok;
                assert(frame_of(rows[i]) == Err::<FrameView, PullErrorView>(e));
                assert forall|k: int| 0 <= k < i implies frame_of(#[trigger] rows[k]) is Ok by {
                    assert(frame_of(front[k]) is Ok);
                }
            },
        }
    }
}

/// Of a full page the rows before its last transaction are applied, all of them and in
/// order; of any other page all rows are. A full page of one transaction is refused by
/// the id of that transaction.
pub proof fn law_transactions_are_not_cut(rows: Seq<PullRowView>, max_rows: usize)
    ensures
        rows.len() < max_rows || rows.len() == 0 ==> applicable(rows, max_rows) == Ok::<
            Seq<PullRowView>,
            PullErrorView,
        >(rows),
        rows.len() > 0 && rows.len() >= max_rows ==> match applicable(rows, max_rows) {
            Ok(kept) => {
                &&& 0 < kept.len() < rows.len()
                &&& kept == rows.take(kept.len() as int)
                &&& rows[kept.len() as int].xid == rows.last().xid
                &&& forall|i: int| 0 <= i < kept.len() ==> (#[trigger] kept[i]).xid
                    != rows.last().xid
            },
            Err(e) => rows[0].xid == rows.last().xid && e == (PullErrorView::PageTooSmall {
                xid: rows.last().xid,
                max_rows,
            }),
        },
{
    if rows.len() > 0 && rows.len() >= max_rows {
        lemma_before(rows, rows.last().xid);
        assert(rows[rows.len() - 1].xid == rows.last().xid);
    }
}

proof fn lemma_before(rows: Seq<PullRowView>, xid: Seq<char>)
    ensures
        before_xid(rows, xid) <= rows.len(),
        before_xid(rows, xid) < rows.len() ==> rows[before_xid(rows, xid) as int].xid == xid,
        forall|i: int| 0 <= i < before_xid(rows, xid) ==> (#[trigger] rows[i]).xid != xid,
    decreases rows.len(),
{
    if rows.len() > 0 && rows[0].xid != xid {
        let rest = rows.skip(1);
        lemma_before(rest, xid);
        assert forall|i: int| 0 <= i < before_xid(rows, xid) implies (#[trigger] rows[i]).xid
            != xid by {
            if i > 0 {
                assert(rest[i - 1] == rows[i]);
            }
        }
    }
}

/// The horizon goes where the rows that were applied end: of a page that is not full to
/// the horizon that the page gives, of a full one to the last transaction that was
/// applied. A page without rows, and one that leads to where the cursor is, move
/// nothing.
pub proof fn law_horizon_follows_the_rows(
    rows: Seq<PullRowView>,
    kept: Seq<PullRowView>,
    max_rows: usize,
    since: Seq<char>,
)
    ensures
        rows.len() == 0 ==> moved(next_horizon(rows, kept, max_rows), since) is None,
        0 < rows.len() < max_rows && rows[0].horizon != since ==> moved(
            next_horizon(rows, kept, max_rows),
            since,
        ) == Some(rows[0].horizon),
        rows.len() > 0 && rows.len() >= max_rows && kept.len() > 0 && kept[kept.len() - 1].xid
            != since ==> moved(next_horizon(rows, kept, max_rows), since) == Some(
            kept[kept.len() - 1].xid,
        ),
        moved(next_horizon(rows, kept, max_rows), since) != Some(since),
{
}

/// A request asks for what comes after the horizon of the cursor, as text, and for as
/// many rows as the cursor takes at once.
pub proof fn law_request_says_where_the_cursor_is(
    since: Horizon,
    max_rows: usize,
    c: PullCursor,
    r: String,
)
    requires
        call_ensures(PullCursor::resume, (since, max_rows), c),
        call_ensures(PullCursor::request_body, (&c,), r),
        max_rows > 0,
    ensures
        json_read(encode_utf8(r@)) matches Some(JsonView::Record(f)) && f.len() == 2 && member(
            f,
            "since"@,
        ) == Some(JsonView::Text(since@)) && member(f, "max_rows"@) == Some(
            JsonView::Unsigned(max_rows as u64),
        ),
{
    reveal_strlit("max_rows");
    reveal_strlit("since");
    assert("max_rows"@.len() != "since"@.len());
    reveal_with_fuel(member, 3);
}

// ---- a snapshot ----

/// Whether a JSON value is a record that names the parts of a snapshot row so.
pub open spec fn says_snapshot_row(v: JsonView, row: SnapshotRowView) -> bool {
    v matches JsonView::Record(f) && {
        &&& names_id(f, "horizon"@, row.horizon)
        &&& names_text(f, "table_name"@, row.table)
        &&& names_text(f, "pk"@, row.pk)
        &&& names_row(f, row.row)
    }
}

/// Whether a record has a text under a name, or nothing or null.
pub open spec fn names_text(
    f: Seq<(Seq<char>, JsonView)>,
    name: Seq<char>,
    text: Option<Seq<char>>,
) -> bool {
    match text {
        Some(s) => member(f, name) == Some(JsonView::Text(s)),
        None => member(f, name) is None || member(f, name) == Some(JsonView::Null),
    }
}

/// A response whose JSON is a list of snapshot rows holds those rows, in that order.
pub proof fn law_snapshot_rows_are_read_by_name(
    body: Seq<char>,
    items: Seq<JsonView>,
    rows: Seq<SnapshotRowView>,
)
    requires
        json_read(encode_utf8(body)) == Some(JsonView::List(items)),
        items.len() == rows.len(),
        forall|i: int| 0 <= i < items.len() ==> says_snapshot_row(#[trigger] items[i], rows[i]),
    ensures
        decoded_snapshot(body) == Ok::<Seq<SnapshotRowView>, PullErrorView>(rows),
{
    lemma_snapshot_rows_read(items, rows);
}

proof fn lemma_snapshot_rows_read(items: Seq<JsonView>, rows: Seq<SnapshotRowView>)
    requires
        items.len() == rows.len(),
        forall|i: int| 0 <= i < items.len() ==> says_snapshot_row(#[trigger] items[i], rows[i]),
    ensures
        read_snapshot_rows(items) == Some(rows),
    decreases items.len(),
{
    if items.len() > 0 {
        let front = items.drop_last();
        assert forall|i: int| 0 <= i < front.len() implies says_snapshot_row(
            #[trigger] front[i],
            rows.drop_last()[i],
        ) by {
            assert(front[i] == items[i]);
        }
        lemma_snapshot_rows_read(front, rows.drop_last());
        assert(says_snapshot_row(items[items.len() - 1], rows[rows.len() - 1]));
        assert(rows.drop_last().push(rows.last()) =~= rows);
    } else {
        assert(rows =~= seq![]);
    }
}

/// The first row of a table begins it, whatever table was open, and a row of a snapshot
/// arrives as an insert at the position zero, outside of any transaction, with the same
/// JSON value.
pub proof fn law_snapshot_row_arrives(row: SnapshotRowView)
    requires
        row.table is Some,
        row.pk is Some,
        row.row is Some,
    ensures
        snapshot_steps(seq![row]).len() == 4,
        snapshot_steps(seq![row])[0] == SnapshotStep::Begin(row.table->0),
        snapshot_steps(seq![row])[1] matches SnapshotStep::Row(f) && f.table == row.table->0
            && f.pk == row.pk->0 && f.op == Operation::Insert && f.lsn == 0 && f.txn_id is None
            && exists|w: JsonView|
            f.payload == Some(encode_utf8(#[trigger] json_text(w))) && same_json(row.row->0, w),
        snapshot_steps(seq![row])[2] == SnapshotStep::Commit,
        snapshot_steps(seq![row])[3] == SnapshotStep::End(row.table->0),
{
    let rows = seq![row];
    let none: Seq<SnapshotRowView> = seq![];
    assert(rows.drop_last() =~= none);
    reveal_with_fuel(crate::pull_snapshot::steps_up_to, 2);
    reveal_with_fuel(crate::pull_snapshot::open_table, 2);
    law_ordering_keeps_the_value(row.row->0);
    assert(row_bytes(row.row) == encode_utf8(json_text(ordered_json(row.row->0))));
    let turn: Seq<SnapshotStep> = seq![];
    assert(turn + seq![SnapshotStep::Begin(row.table->0)] =~= seq![
        SnapshotStep::Begin(row.table->0),
    ]);
}

// ---- a page of the feed ----

/// Whether a JSON value is a record that names the parts of a change so.
pub open spec fn says_change(v: JsonView, c: ChangeView) -> bool {
    v matches JsonView::Record(f) && {
        &&& member(f, "seq"@) == Some(JsonView::Text(c.seq))
        &&& member(f, "table"@) == Some(JsonView::Text(c.table))
        &&& member(f, "pk"@) == Some(JsonView::Text(c.pk))
        &&& member(f, "op"@) == Some(JsonView::Text(c.op))
        &&& names_row(f, c.row)
    }
}

/// A response whose JSON is a record of a page of the feed holds that page, its changes
/// in that order.
pub proof fn law_feed_page_is_read_by_name(
    body: Seq<char>,
    f: Seq<(Seq<char>, JsonView)>,
    items: Seq<JsonView>,
    p: PageView,
)
    requires
        json_read(encode_utf8(body)) == Some(JsonView::Record(f)),
        member(f, "head"@) == Some(JsonView::Text(p.head)),
        member(f, "scanned_through"@) == Some(JsonView::Text(p.scanned_through)),
        member(f, "has_more"@) == Some(JsonView::Bool(p.has_more)),
        member(f, "changes"@) == Some(JsonView::List(items)),
        items.len() == p.changes.len(),
        forall|i: int| 0 <= i < items.len() ==> says_change(#[trigger] items[i], p.changes[i]),
    ensures
        decoded_page(body) == Ok::<PageView, crate::appwrite_pull::FeedErrorView>(p),
{
    lemma_changes_read(items, p.changes);
}

proof fn lemma_changes_read(items: Seq<JsonView>, changes: Seq<ChangeView>)
    requires
        items.len() == changes.len(),
        forall|i: int| 0 <= i < items.len() ==> says_change(#[trigger] items[i], changes[i]),
    ensures
        crate::appwrite_pull::read_changes(items) == Some(changes),
    decreases items.len(),
{
    if items.len() > 0 {
        let front = items.drop_last();
        assert forall|i: int| 0 <= i < front.len() implies says_change(
            #[trigger] front[i],
            changes.drop_last()[i],
        ) by {
            assert(front[i] == items[i]);
        }
        lemma_changes_read(front, changes.drop_last());
        assert(says_change(items[items.len() - 1], changes[changes.len() - 1]));
        assert(changes.drop_last().push(changes.last()) =~= changes);
    } else {
        assert(changes =~= seq![]);
    }
}

/// Whether a change is `f`: at the number that its text writes, of its table and key,
/// alone in its transaction, with the same JSON value unless it is a delete.
pub open spec fn change_is(c: ChangeView, f: FrameView) -> bool {
    &&& read_unsigned(c.seq, 10, u64::MAX as nat) == Some(f.lsn as nat)
    &&& f.txn_id == Some(f.lsn)
    &&& f.table == c.table
    &&& f.pk == c.pk
    &&& c.table.len() > 0
    &&& c.pk.len() > 0
    &&& c.op == "insert"@ ==> f.op == Operation::Insert
    &&& c.op == "update"@ ==> f.op == Operation::Update
    &&& c.op == "delete"@ ==> f.op == Operation::Delete && f.payload is None
    &&& c.op == "insert"@ || c.op == "update"@ || c.op == "delete"@
    &&& c.op != "delete"@ ==> c.row is Some && exists|w: JsonView|
        f.payload == Some(encode_utf8(#[trigger] json_text(w))) && same_json(c.row->0, w)
}

/// A page of the feed that is accepted is applied change by change, in order: each at
/// its own number, which is after those before it and within what was searched.
pub proof fn law_feed_changes_are_applied(changes: Seq<ChangeView>, after: u64, scanned: u64)
    requires
        change_frames(changes, after, scanned) is Ok,
    ensures
        change_frames(changes, after, scanned)->Ok_0.len() == changes.len(),
        forall|i: int|
            0 <= i < changes.len() ==> change_is(
                #[trigger] changes[i],
                change_frames(changes, after, scanned)->Ok_0[i],
            ),
    decreases changes.len(),
{
    if changes.len() > 0 {
        let front = changes.drop_last();
        law_feed_changes_are_applied(front, after, scanned);
        reveal_strlit("insert");
        reveal_strlit("update");
        reveal_strlit("delete");
        assert("insert"@[0] == 'i' && "update"@[0] == 'u' && "delete"@[0] == 'd');
        let frames = change_frames(changes, after, scanned)->Ok_0;
        let c = changes.last();
        if c.row is Some {
            law_ordering_keeps_the_value(c.row->0);
            assert(row_bytes(c.row) == encode_utf8(json_text(ordered_json(c.row->0))));
        }
        assert forall|i: int| 0 <= i < changes.len() implies change_is(
            #[trigger] changes[i],
            frames[i],
        ) by {
            if i < front.len() {
                assert(change_is(front[i], frames[i]));
            }
        }
    }
}

/// A page is accepted only where the cursor, the number searched and the head rise, and
/// the page says that there is more exactly where the head is not reached. The cursor
/// then goes to the number searched, and the store is given that number where it moved.
pub proof fn law_feed_cursor_goes_to_what_was_searched(
    p: PageView,
    after: u64,
    scanned: u64,
    head: u64,
)
    requires
        p.scanned_through == decimal(scanned as nat),
        p.head == decimal(head as nat),
    ensures
        page_plan(p, after) is Ok ==> after <= scanned <= head && p.has_more == (scanned < head) && (
        p.has_more ==> after < scanned),
        page_plan(p, after) is Ok ==> page_plan(p, after)->Ok_0.scanned == scanned && page_plan(
            p,
            after,
        )->Ok_0.head == head && page_plan(p, after)->Ok_0.has_more == p.has_more,
        after <= scanned <= head && p.has_more == (scanned < head) && (p.has_more ==> after
            < scanned) && p.changes.len() == 0 ==> page_plan(p, after) is Ok,
        scanned != after ==> scanned_horizon(scanned, after) == Some(decimal(scanned as nat)),
        scanned == after ==> scanned_horizon(scanned, after) is None,
{
    lemma_decimal_round_trip(scanned as nat, u64::MAX as nat);
    lemma_decimal_round_trip(head as nat, u64::MAX as nat);
}

// ---- whole pulls ----

proof fn lemma_frames_len(rows: Seq<PullRowView>)
    ensures
        crate::pull::frames_of(rows) is Ok ==> crate::pull::frames_of(rows)->Ok_0.len()
            == rows.len(),
    decreases rows.len(),
{
    if rows.len() > 0 {
        lemma_frames_len(rows.drop_last());
    }
}

/// A pull takes what the page holds, but for the last transaction of a full page, of
/// which more may follow. The cursor goes to the horizon of the page, and of a full page
/// to the last transaction that was taken; there the store keeps it.
pub proof fn law_pull_moves_with_its_rows(
    storage: InMemoryStorage,
    e0: ApplyEngine<InMemoryStorage>,
    c0: PullCursor,
    body: &str,
    r: PullOutcome,
    c1: PullCursor,
    e1: ApplyEngine<InMemoryStorage>,
    rows: Vec<PullRow>,
    max: usize,
    before: &Horizon,
    after: &Horizon,
    store: &InMemoryStorage,
    kept: Result<Option<String>, StorageError>,
)
    requires
        call_ensures(ApplyEngine::<InMemoryStorage>::new, (storage,), e0),
        exists|h: &mut PullCursor, g: &mut ApplyEngine<InMemoryStorage>| #[trigger]
            call_ensures(
                PullCursor::apply::<InMemoryStorage>,
                (h, g, body),
                Ok::<PullOutcome, PullError>(r),
            ) && *h == c0 && *final(h) == c1 && *g == e0 && *final(g) == e1,
        call_ensures(decode_rows, (body,), Ok::<Vec<PullRow>, PullError>(rows)),
        rows@.len() <= usize::MAX,
        call_ensures(PullCursor::max_rows, (&c0,), max),
        call_ensures(PullCursor::since, (&c0,), before),
        call_ensures(PullCursor::since, (&c1,), after),
        call_ensures(ApplyEngine::<InMemoryStorage>::storage, (&e1,), store),
        call_ensures(InMemoryStorage::horizon, (store,), kept),
    ensures
        r.more == (rows@.len() >= max),
        rows@.len() == 0 && !r.more ==> r.rows_applied == 0 && after@ == before@,
        0 < rows@.len() < max ==> r.rows_applied == rows@.len() && after@ == rows@[0].horizon@,
        rows@.len() > 0 && rows@.len() >= max ==> {
            let k = r.rows_applied as int;
            let last = rows@[rows@.len() - 1].xid@;
            &&& 0 < k < rows@.len()
            &&& after@ == rows@[k - 1].xid@
            &&& rows@[k].xid@ == last
            &&& forall|i: int| 0 <= i < k ==> (#[trigger] rows@[i]).xid@ != last
        },
        after@ != before@ ==> kept is Ok && kept->Ok_0 is Some && kept->Ok_0->0@ == after@,
{
    let v = crate::pull::row_views(rows@);
    assert(v.len() == rows@.len());
    assert forall|i: int| 0 <= i < rows@.len() implies #[trigger] v[i] == rows@[i]@ by {}
    let plan = applicable(v, max);
    law_transactions_are_not_cut(v, max);
    assert(plan is Ok);
    let taken = plan->Ok_0;
    lemma_frames_len(taken);
    assert(e0.batch().pending.len() == 0);
    law_horizon_follows_the_rows(v, taken, max, before@);
    if v.len() > 0 && v.len() >= max {
        let k = taken.len() as int;
        assert(taken[k - 1] == v[k - 1]);
        assert(v[k] == rows@[k]@);
        assert(v[k - 1] == rows@[k - 1]@);
        assert(v.last() == rows@[rows@.len() - 1]@);
        assert forall|i: int| 0 <= i < k implies (#[trigger] rows@[i]).xid@ != v.last().xid by {
            assert(taken[i] == v[i]);
        }
    } else if v.len() > 0 {
        assert(v[0] == rows@[0]@);
    }
}

} // verus!
