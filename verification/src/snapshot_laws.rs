//! What a snapshot comes to: of every table that it names, the client holds what the
//! snapshot lists, and of its own rows only those that are exempt.

use vstd::prelude::*;
use crate::apply::{
    admitted, by_position, closes, drained, fed, frame_op, frame_ops, frame_positions, BatchState,
    FrameView,
};
use crate::json::JsonView;
use crate::pull::row_bytes;
use crate::pull_snapshot::{
    ending, exempt_in, open_table, snapshot_frame, snapshot_steps, stepped, stepped_through,
    steps_taken, steps_up_to, SnapshotRowView, SnapshotStep,
};
use crate::sorting::{
    is_order, lemma_order_exists, lemma_order_unique, order_by, placed, ranks_before,
};
use crate::storage::{
    combined, op_applied, ops_applied, row_at, rows_without, table_pks, RowMap, StoreState,
};

verus! {

/// What the rows list last under a key: nothing where they do not list it.
pub open spec fn listed(
    rows: Seq<SnapshotRowView>,
    table: Seq<char>,
    pk: Seq<char>,
) -> Option<Option<JsonView>>
    decreases rows.len(),
{
    if rows.len() == 0 {
        None
    } else if rows.last().table == Some(table) && rows.last().pk == Some(pk) {
        Some(rows.last().row)
    } else {
        listed(rows.drop_last(), table, pk)
    }
}

/// Whether some row is on the table.
pub open spec fn names_table(rows: Seq<SnapshotRowView>, table: Seq<char>) -> bool {
    exists|i: int| 0 <= i < rows.len() && (#[trigger] rows[i]).table == Some(table)
}

/// Whether the rows of each table stand together.
pub open spec fn grouped(rows: Seq<SnapshotRowView>) -> bool {
    forall|i: int, j: int, k: int|
        0 <= i < j < k < rows.len() && (#[trigger] rows[i]).table is Some && rows[i].table == (
        #[trigger] rows[k]).table && (#[trigger] rows[j]).table is Some ==> rows[j].table
            == rows[i].table
}

/// The rows, with what waits applied to them.
spec fn effective(b: BatchState, s: StoreState) -> RowMap {
    ops_applied(s.merging, s.rows, frame_ops(b.pending), b.windows.dom())
}

/// The state after the rows, where `open` is the table that has begun.
spec fn holds(
    exempt: Seq<(String, String)>,
    rows: Seq<SnapshotRowView>,
    open: Option<Seq<char>>,
    start: StoreState,
    b: BatchState,
    s: StoreState,
) -> bool {
    &&& s.merging == start.merging
    &&& b.pending.len() > 0 ==> b.open is None
    &&& forall|i: int|
        0 <= i < b.pending.len() ==> {
            let f = #[trigger] b.pending[i];
            f.lsn == 0 && f.txn_id is None && f.payload is Some && f.op
                == crate::events::Operation::Insert && open == Some(f.table)
        }
    &&& open is None ==> b.windows == Map::<Seq<char>, Set<Seq<char>>>::empty()
    &&& open is Some ==> b.windows.dom() == set![open->0] && forall|pk: Seq<char>| #[trigger]
        b.windows[open->0].contains(pk) <==> start.rows.contains_key((open->0, pk)) && !exempt_in(
            exempt,
            open->0,
        ).contains(pk) && listed(rows, open->0, pk) is None
    &&& forall|table: Seq<char>, pk: Seq<char>|
        #![trigger row_at(effective(b, s), (table, pk))]
        kept_right(exempt, rows, open, start, effective(b, s), table, pk)
}

/// Whether a row is what the snapshot makes of it.
spec fn kept_right(
    exempt: Seq<(String, String)>,
    rows: Seq<SnapshotRowView>,
    open: Option<Seq<char>>,
    start: StoreState,
    now: RowMap,
    table: Seq<char>,
    pk: Seq<char>,
) -> bool {
    let key = (table, pk);
    match listed(rows, table, pk) {
        Some(row) => now.contains_key(key) && (!start.merging.or_sets.contains(table)
            && !start.merging.counters.contains(table) ==> now[key].0 == row_bytes(row)),
        None => if names_table(rows, table) && open != Some(table) && !exempt_in(
            exempt,
            table,
        ).contains(pk) {
            !now.contains_key(key)
        } else {
            row_at(now, key) == row_at(start.rows, key)
        },
    }
}

/// Frames at one position stand in order.
proof fn lemma_level(s: Seq<FrameView>)
    requires
        forall|i: int| 0 <= i < s.len() ==> (#[trigger] s[i]).lsn == 0,
    ensures
        by_position(s) == s,
{
    let keys = frame_positions(s);
    let same = Seq::new(s.len(), |i: int| i);
    assert(is_order::<u64>(keys, same)) by {
        assert forall|i: int, j: int| 0 <= i < j < same.len() implies ranks_before::<u64>(
            keys,
            #[trigger] same[i],
            #[trigger] same[j],
        ) by {
            assert(keys[i] == s[i].lsn && keys[j] == s[j].lsn);
        }
        assert forall|k: int| 0 <= k < keys.len() implies #[trigger] placed(same, k) by {
            assert(same[k] == k);
        }
    }
    lemma_order_exists::<u64>(keys);
    lemma_order_unique::<u64>(keys, order_by::<u64>(keys), same);
    assert(by_position(s) =~= s);
}

/// What a row of the snapshot makes of the rows.
proof fn lemma_row_fed(
    exempt: Seq<(String, String)>,
    rows: Seq<SnapshotRowView>,
    row: SnapshotRowView,
    start: StoreState,
    b: BatchState,
    s: StoreState,
    b2: BatchState,
    s2: StoreState,
)
    requires
        row.table is Some,
        row.pk is Some,
        holds(exempt, rows, row.table, start, b, s),
        fed(b, s, snapshot_frame(row.table->0, row.pk->0, row.row), b2, s2),
    ensures
        holds(exempt, rows.push(row), row.table, start, b2, s2),
{
    let t = row.table->0;
    let pk = row.pk->0;
    let f = snapshot_frame(t, pk, row.row);
    let after = rows.push(row);
    let now = effective(b, s);
    let key = (t, pk);
    let dom = b.windows.dom();
    let pending = b.pending.push(f);
    assert(!closes(b, f));
    assert(admitted(b, f).pending == pending);
    assert(dom.contains(t));
    assert(admitted(b, f).windows.dom() =~= dom);
    lemma_level(pending);
    assert(frame_ops(pending).drop_last() =~= frame_ops(b.pending));
    let next = ops_applied(s.merging, s.rows, frame_ops(pending), dom);
    assert(next == op_applied(s.merging, now, frame_op(f), 0, dom));
    assert(next == now.insert(key, (combined(s.merging, now, key, row_bytes(row.row)), 0)));
    assert(effective(b2, s2) == next);
    assert(after.drop_last() =~= rows);
    assert(forall|table: Seq<char>, p: Seq<char>| #[trigger]
        listed(after, table, p) == (if table == t && p == pk {
            Some(row.row)
        } else {
            listed(rows, table, p)
        }));
    assert forall|table: Seq<char>, p: Seq<char>|
        #![trigger row_at(effective(b2, s2), (table, p))]
        kept_right(exempt, after, row.table, start, effective(b2, s2), table, p) by {
        assert(kept_right(exempt, rows, row.table, start, now, table, p)) by {
            assert(row_at(now, (table, p)) == row_at(now, (table, p)));
        }
        lemma_names_push(rows, row, table);
    }
    assert(b2.windows[t] == b.windows[t].remove(pk));
    assert forall|p: Seq<char>| #[trigger] b2.windows[t].contains(p) <==> start.rows.contains_key(
        (t, p),
    ) && !exempt_in(exempt, t).contains(p) && listed(after, t, p) is None by {
        assert(b.windows[t].contains(p) <==> start.rows.contains_key((t, p)) && !exempt_in(
            exempt,
            t,
        ).contains(p) && listed(rows, t, p) is None);
    }
}

/// One more row names its own table, and those that were named.
proof fn lemma_names_push(rows: Seq<SnapshotRowView>, row: SnapshotRowView, table: Seq<char>)
    ensures
        names_table(rows.push(row), table) == (names_table(rows, table) || row.table == Some(
            table,
        )),
{
    let after = rows.push(row);
    if names_table(rows, table) {
        let i = choose|i: int| 0 <= i < rows.len() && (#[trigger] rows[i]).table == Some(table);
        assert(after[i].table == Some(table));
    }
    if row.table == Some(table) {
        assert(after[rows.len() as int].table == Some(table));
    }
    if names_table(after, table) {
        let i = choose|i: int| 0 <= i < after.len() && (#[trigger] after[i]).table == Some(table);
        if i < rows.len() {
            assert(rows[i].table == Some(table));
        }
    }
}

/// A commit leaves nothing waiting, and the rows as they were with what waited.
proof fn lemma_commit(
    exempt: Seq<(String, String)>,
    rows: Seq<SnapshotRowView>,
    open: Option<Seq<char>>,
    start: StoreState,
    b: BatchState,
    s: StoreState,
    b2: BatchState,
    s2: StoreState,
)
    requires
        holds(exempt, rows, open, start, b, s),
        drained(b, s, b2, s2),
    ensures
        holds(exempt, rows, open, start, b2, s2),
        b2.pending.len() == 0,
        s2.rows == effective(b2, s2),
{
    lemma_level(b.pending);
    assert(effective(b2, s2) == effective(b, s));
}

/// The end of a table removes what the snapshot did not list and what is not exempt.
proof fn lemma_end(
    exempt: Seq<(String, String)>,
    rows: Seq<SnapshotRowView>,
    table: Seq<char>,
    start: StoreState,
    b: BatchState,
    s: StoreState,
    b2: BatchState,
    s2: StoreState,
)
    requires
        holds(exempt, rows, Some(table), start, b, s),
        names_table(rows, table),
        b.pending.len() == 0,
        stepped(exempt, SnapshotStep::End(table), b, s, b2, s2),
    ensures
        holds(exempt, rows, None, start, b2, s2),
        b2.pending.len() == 0,
{
    assert(b.windows.dom().contains(table));
    assert(b2.windows =~= Map::<Seq<char>, Set<Seq<char>>>::empty());
    assert(effective(b, s) == s.rows);
    assert(effective(b2, s2) == rows_without(s.rows, table, b.windows[table]));
    assert forall|t: Seq<char>, p: Seq<char>|
        #![trigger row_at(effective(b2, s2), (t, p))]
        kept_right(exempt, rows, None, start, effective(b2, s2), t, p) by {
        assert(kept_right(exempt, rows, Some(table), start, s.rows, t, p)) by {
            assert(row_at(effective(b, s), (t, p)) == row_at(s.rows, (t, p)));
        }
        if t == table {
            assert(b.windows[table].contains(p) <==> start.rows.contains_key((table, p))
                && !exempt_in(exempt, table).contains(p) && listed(rows, table, p) is None);
        }
    }
}

/// A table begins with everything that the client holds of it unconfirmed.
proof fn lemma_begin(
    exempt: Seq<(String, String)>,
    rows: Seq<SnapshotRowView>,
    table: Seq<char>,
    start: StoreState,
    b: BatchState,
    s: StoreState,
    b2: BatchState,
    s2: StoreState,
)
    requires
        holds(exempt, rows, None, start, b, s),
        !names_table(rows, table),
        b.pending.len() == 0,
        stepped(exempt, SnapshotStep::Begin(table), b, s, b2, s2),
    ensures
        holds(exempt, rows, Some(table), start, b2, s2),
{
    assert(b2.windows.dom() =~= set![table]);
    assert(effective(b, s) == s.rows);
    assert(effective(b2, s2) == s.rows);
    assert forall|p: Seq<char>| listed(rows, table, p) is None by {
        lemma_listed_named(rows, table, p);
    }
    assert forall|t: Seq<char>, p: Seq<char>|
        #![trigger row_at(effective(b2, s2), (t, p))]
        kept_right(exempt, rows, Some(table), start, effective(b2, s2), t, p) by {
        assert(kept_right(exempt, rows, None, start, s.rows, t, p)) by {
            assert(row_at(effective(b, s), (t, p)) == row_at(s.rows, (t, p)));
        }
    }
    assert forall|p: Seq<char>| #[trigger] b2.windows[table].contains(p)
        <==> start.rows.contains_key((table, p)) && !exempt_in(exempt, table).contains(p)
        && listed(rows, table, p) is None by {
        assert(kept_right(exempt, rows, None, start, s.rows, table, p)) by {
            assert(row_at(effective(b, s), (table, p)) == row_at(s.rows, (table, p)));
        }
        assert(b2.windows[table] == table_pks(s.rows, table).difference(exempt_in(exempt, table)));
    }
}

/// A table that lists a key is named.
proof fn lemma_listed_named(rows: Seq<SnapshotRowView>, table: Seq<char>, pk: Seq<char>)
    ensures
        listed(rows, table, pk) is Some ==> names_table(rows, table),
    decreases rows.len(),
{
    if rows.len() > 0 {
        lemma_listed_named(rows.drop_last(), table, pk);
        lemma_names_push(rows.drop_last(), rows.last(), table);
        assert(rows.drop_last().push(rows.last()) =~= rows);
    }
}

/// A row that lists no key changes nothing.
proof fn lemma_no_key(
    exempt: Seq<(String, String)>,
    rows: Seq<SnapshotRowView>,
    row: SnapshotRowView,
    open: Option<Seq<char>>,
    start: StoreState,
    b: BatchState,
    s: StoreState,
)
    requires
        holds(exempt, rows, open, start, b, s),
        row.table is None || (row.pk is None && row.table == open),
    ensures
        holds(exempt, rows.push(row), open, start, b, s),
{
    let after = rows.push(row);
    assert(after.drop_last() =~= rows);
    assert(forall|table: Seq<char>, p: Seq<char>| #[trigger]
        listed(after, table, p) == listed(rows, table, p));
    assert forall|t: Seq<char>, p: Seq<char>|
        #![trigger row_at(effective(b, s), (t, p))]
        kept_right(exempt, after, open, start, effective(b, s), t, p) by {
        assert(kept_right(exempt, rows, open, start, effective(b, s), t, p));
        lemma_names_push(rows, row, t);
    }
}

/// The states around the last step.
proof fn lemma_last_step(
    exempt: Seq<(String, String)>,
    steps: Seq<SnapshotStep>,
    last: SnapshotStep,
    b: BatchState,
    s: StoreState,
    b2: BatchState,
    s2: StoreState,
) -> (mid: (BatchState, StoreState))
    requires
        steps_taken(exempt, steps.push(last), b, s, b2, s2),
    ensures
        steps_taken(exempt, steps, b, s, mid.0, mid.1),
        stepped(exempt, last, mid.0, mid.1, b2, s2),
{
    let all = steps.push(last);
    let (batches, stores) = choose|batches: Seq<BatchState>, stores: Seq<StoreState>| #[trigger]
        stepped_through(exempt, all, batches, stores) && batches[0] == b && stores[0] == s
            && batches.last() == b2 && stores.last() == s2;
    let n = steps.len() as int;
    assert(all[n] == last);
    assert(stepped(exempt, all[n], batches[n], stores[n], batches[n + 1], stores[n + 1]));
    assert(stepped_through(exempt, steps, batches.drop_last(), stores.drop_last())) by {
        assert forall|i: int| 0 <= i < steps.len() implies stepped(
            exempt,
            #[trigger] steps[i],
            batches.drop_last()[i],
            stores.drop_last()[i],
            batches.drop_last()[i + 1],
            stores.drop_last()[i + 1],
        ) by {
            assert(all[i] == steps[i]);
        }
    }
    (batches[n], stores[n])
}

/// The open table is that of the last row that is on one.
proof fn lemma_open(rows: Seq<SnapshotRowView>) -> (at: int)
    ensures
        open_table(rows) is Some ==> 0 <= at < rows.len() && rows[at].table == open_table(rows),
        open_table(rows) is None ==> at == -1,
        forall|i: int| at < i < rows.len() ==> (#[trigger] rows[i]).table is None,
    decreases rows.len(),
{
    if rows.len() == 0 {
        -1
    } else if rows.last().table is Some {
        rows.len() - 1
    } else {
        let at = lemma_open(rows.drop_last());
        assert forall|i: int| at < i < rows.len() implies (#[trigger] rows[i]).table is None by {
            if i < rows.len() - 1 {
                assert(rows.drop_last()[i].table is None);
            }
        }
        at
    }
}

/// A table that begins was not named before.
proof fn lemma_new_table(rows: Seq<SnapshotRowView>, row: SnapshotRowView)
    requires
        grouped(rows.push(row)),
        row.table is Some,
        open_table(rows) != row.table,
    ensures
        !names_table(rows, row.table->0),
{
    let at = lemma_open(rows);
    let all = rows.push(row);
    if names_table(rows, row.table->0) {
        let i = choose|i: int| 0 <= i < rows.len() && (#[trigger] rows[i]).table == row.table;
        assert(i < at);
        assert(all[i].table == all[rows.len() as int].table && all[at].table is Some);
        assert(all[at].table == all[i].table);
    }
}

/// What holds after the rows, up to the end of the last table.
proof fn lemma_rows(
    exempt: Seq<(String, String)>,
    rows: Seq<SnapshotRowView>,
    b: BatchState,
    start: StoreState,
    b2: BatchState,
    s2: StoreState,
)
    requires
        grouped(rows),
        b.pending.len() == 0,
        b.windows == Map::<Seq<char>, Set<Seq<char>>>::empty(),
        steps_taken(exempt, steps_up_to(rows), b, start, b2, s2),
    ensures
        holds(exempt, rows, open_table(rows), start, b2, s2),
    decreases rows.len(), 0nat,
{
    let steps = steps_up_to(rows);
    if rows.len() == 0 {
        assert(b2 == b && s2 == start);
        assert(effective(b, start) == start.rows);
    } else {
        let front = rows.drop_last();
        let row = rows.last();
        let before = steps_up_to(front);
        let open = open_table(front);
        assert(front.push(row) =~= rows);
        assert(grouped(front)) by {
            assert forall|i: int, j: int, k: int|
                0 <= i < j < k < front.len() && (#[trigger] front[i]).table is Some
                    && front[i].table == (#[trigger] front[k]).table && (
                #[trigger] front[j]).table is Some implies front[j].table == front[i].table by {
                assert(rows[i] == front[i] && rows[j] == front[j] && rows[k] == front[k]);
            }
        }
        if row.table is None {
            assert(steps =~= before);
            lemma_rows(exempt, front, b, start, b2, s2);
            lemma_no_key(exempt, front, row, open, start, b2, s2);
        } else {
            let t = row.table->0;
            let turned = before + (if open == Some(t) {
                seq![]
            } else {
                ending(open) + seq![SnapshotStep::Begin(t)]
            });
            if row.pk is Some {
                let f = snapshot_frame(t, row.pk->0, row.row);
                assert(steps =~= turned.push(SnapshotStep::Row(f)));
                let (b1, s1) = lemma_last_step(
                    exempt,
                    turned,
                    SnapshotStep::Row(f),
                    b,
                    start,
                    b2,
                    s2,
                );
                lemma_turn(exempt, front, row, b, start, b1, s1);
                lemma_row_fed(exempt, front, row, start, b1, s1, b2, s2);
            } else {
                assert(steps =~= turned);
                lemma_turn(exempt, front, row, b, start, b2, s2);
                lemma_no_key(exempt, front, row, row.table, start, b2, s2);
            }
        }
    }
}

/// What holds once the table of the next row has begun.
proof fn lemma_turn(
    exempt: Seq<(String, String)>,
    front: Seq<SnapshotRowView>,
    row: SnapshotRowView,
    b: BatchState,
    start: StoreState,
    b2: BatchState,
    s2: StoreState,
)
    requires
        row.table is Some,
        grouped(front),
        grouped(front.push(row)),
        b.pending.len() == 0,
        b.windows == Map::<Seq<char>, Set<Seq<char>>>::empty(),
        steps_taken(
            exempt,
            steps_up_to(front) + (if open_table(front) == row.table {
                seq![]
            } else {
                ending(open_table(front)) + seq![SnapshotStep::Begin(row.table->0)]
            }),
            b,
            start,
            b2,
            s2,
        ),
    ensures
        holds(exempt, front, row.table, start, b2, s2),
    decreases front.len(), 2nat,
{
    let before = steps_up_to(front);
    let open = open_table(front);
    let t = row.table->0;
    if open == row.table {
        assert(before + Seq::<SnapshotStep>::empty() =~= before);
        lemma_rows(exempt, front, b, start, b2, s2);
    } else {
        let begin = SnapshotStep::Begin(t);
        assert(before + (ending(open) + seq![begin]) =~= (before + ending(open)).push(begin));
        let (b1, s1) = lemma_last_step(exempt, before + ending(open), begin, b, start, b2, s2);
        lemma_ended(exempt, front, b, start, b1, s1);
        lemma_new_table(front, row);
        lemma_begin(exempt, front, t, start, b1, s1, b2, s2);
    }
}

/// What holds once the last table has ended.
proof fn lemma_ended(
    exempt: Seq<(String, String)>,
    rows: Seq<SnapshotRowView>,
    b: BatchState,
    start: StoreState,
    b2: BatchState,
    s2: StoreState,
)
    requires
        grouped(rows),
        b.pending.len() == 0,
        b.windows == Map::<Seq<char>, Set<Seq<char>>>::empty(),
        steps_taken(exempt, snapshot_steps(rows), b, start, b2, s2),
    ensures
        holds(exempt, rows, None, start, b2, s2),
        b2.pending.len() == 0,
    decreases rows.len(), 1nat,
{
    let before = steps_up_to(rows);
    match open_table(rows) {
        None => {
            assert(snapshot_steps(rows) =~= before);
            lemma_rows(exempt, rows, b, start, b2, s2);
            if b2.pending.len() > 0 {
                assert(b2.pending[0].lsn == 0);
            }
        },
        Some(t) => {
            let end = SnapshotStep::End(t);
            assert(snapshot_steps(rows) =~= before.push(SnapshotStep::Commit).push(end));
            let (b1, s1) = lemma_last_step(
                exempt,
                before.push(SnapshotStep::Commit),
                end,
                b,
                start,
                b2,
                s2,
            );
            let (b0, s0) = lemma_last_step(exempt, before, SnapshotStep::Commit, b, start, b1, s1);
            lemma_rows(exempt, rows, b, start, b0, s0);
            lemma_commit(exempt, rows, Some(t), start, b0, s0, b1, s1);
            let at = lemma_open(rows);
            assert(rows[at].table == Some(t));
            lemma_end(exempt, rows, t, start, b1, s1, b2, s2);
        },
    }
}

/// Whether the rows `now` hold, under a key, what a snapshot makes of the store
/// `start`. A table whose rows merge keeps a listed row, merged with what was there.
pub open spec fn as_listed(
    exempt: Seq<(String, String)>,
    rows: Seq<SnapshotRowView>,
    start: StoreState,
    now: RowMap,
    table: Seq<char>,
    pk: Seq<char>,
) -> bool {
    let key = (table, pk);
    match listed(rows, table, pk) {
        Some(row) => now.contains_key(key) && (!start.merging.or_sets.contains(table)
            && !start.merging.counters.contains(table) ==> now[key].0 == row_bytes(row)),
        None => if names_table(rows, table) && !exempt_in(exempt, table).contains(pk) {
            !now.contains_key(key)
        } else {
            row_at(now, key) == row_at(start.rows, key)
        },
    }
}

/// A snapshot replaces each table that it names: what it lists is there, with the
/// payload that it lists last; of the rest only what is exempt stays, as it was. The
/// tables that it does not name stay as they were. Nothing of the snapshot waits.
pub proof fn law_snapshot_replaces(
    exempt: Seq<(String, String)>,
    rows: Seq<SnapshotRowView>,
    b: BatchState,
    start: StoreState,
    b2: BatchState,
    s2: StoreState,
)
    requires
        grouped(rows),
        b.pending.len() == 0,
        b.windows == Map::<Seq<char>, Set<Seq<char>>>::empty(),
        steps_taken(exempt, snapshot_steps(rows), b, start, b2, s2),
    ensures
        b2.pending.len() == 0,
        b2.windows == Map::<Seq<char>, Set<Seq<char>>>::empty(),
        forall|table: Seq<char>, pk: Seq<char>| #[trigger]
            as_listed(exempt, rows, start, s2.rows, table, pk),
{
    lemma_ended(exempt, rows, b, start, b2, s2);
    assert(effective(b2, s2) == s2.rows);
    assert forall|table: Seq<char>, pk: Seq<char>| #[trigger]
        as_listed(exempt, rows, start, s2.rows, table, pk) by {
        assert(row_at(effective(b2, s2), (table, pk)) == row_at(s2.rows, (table, pk)));
    }
}

/// A snapshot takes no row away that is exempt, as those are that the client's own
/// writes wait on.
pub proof fn law_exempt_rows_survive_a_snapshot(
    exempt: Seq<(String, String)>,
    rows: Seq<SnapshotRowView>,
    b: BatchState,
    start: StoreState,
    b2: BatchState,
    s2: StoreState,
    i: int,
)
    requires
        grouped(rows),
        b.pending.len() == 0,
        b.windows == Map::<Seq<char>, Set<Seq<char>>>::empty(),
        steps_taken(exempt, snapshot_steps(rows), b, start, b2, s2),
        0 <= i < exempt.len(),
        start.rows.contains_key((exempt[i].0@, exempt[i].1@)),
    ensures
        s2.rows.contains_key((exempt[i].0@, exempt[i].1@)),
{
    law_snapshot_replaces(exempt, rows, b, start, b2, s2);
    assert(exempt_in(exempt, exempt[i].0@).contains(exempt[i].1@));
    assert(as_listed(exempt, rows, start, s2.rows, exempt[i].0@, exempt[i].1@));
}

} // verus!
