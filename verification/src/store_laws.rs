//! What the store in memory, its queue and the batches on it do from one call to the
//! next.

use vstd::prelude::*;
use vstd::utf8::encode_utf8;
use crate::apply::{
    admitted, by_position, closes, committed, emptied, fills, frame_op, frame_ops, fresh_batch,
    outcome, ApplyEngine, ApplyOutcome, Frame, FrameView,
};
use crate::counter::merge_counter_or_lww;
use crate::crdt::merge_or_set_or_lww;
use crate::events::{Operation, RowOp};
use crate::in_memory::{payload_pairs, InMemoryStorage};
use crate::json::{json_read, json_text, member, JsonView};
use crate::lsn::Lsn;
use crate::names::NameSet;
use crate::text::text_views;
use crate::outbox::{pks_on_table, waiting_views, without_id, Outbox, PendingWrite, WriteOp};
use crate::patch::{law_patch_sets_its_columns_only, patch_payload, with_columns};
use crate::sorting::lemma_in_order_keeps;
use crate::storage::{op_views, ops_applied, Storage, StorageError};

verus! {

// ---- rows ----

/// Whether an operation writes a row with a payload.
pub open spec fn sets_row(op: RowOp, table: Seq<char>, pk: Seq<char>, p: Seq<u8>) -> bool {
    match op {
        RowOp::Insert { table: t, pk: k, payload } => t@ == table && k@ == pk && payload@ == p,
        RowOp::Update { table: t, pk: k, payload } => t@ == table && k@ == pk && payload@ == p,
        RowOp::Delete { .. } => false,
    }
}

/// Whether an operation deletes a row.
pub open spec fn deletes_row(op: RowOp, table: Seq<char>, pk: Seq<char>) -> bool {
    match op {
        RowOp::Delete { table: t, pk: k } => t@ == table && k@ == pk,
        _ => false,
    }
}

proof fn lemma_one_op(
    before: InMemoryStorage,
    ops: &[(RowOp, u64)],
    at: Lsn,
    tables: &NameSet,
    after: InMemoryStorage,
)
    requires
        exists|h: &mut InMemoryStorage| #[trigger]
            call_ensures(
                InMemoryStorage::apply_batch,
                (h, ops, at, tables),
                Ok::<(), StorageError>(()),
            ) && *h == before && *final(h) == after,
        ops@.len() == 1,
    ensures
        after.store_view().merging == before.store_view().merging,
        after.store_view().rows == crate::storage::op_applied(
            before.store_view().merging,
            before.store_view().rows,
            ops@[0].0@,
            ops@[0].1,
            tables@,
        ),
{
    let v = op_views(ops@);
    assert(v.len() == 1);
    assert(v.last() == (ops@[0].0@, ops@[0].1));
    reveal_with_fuel(ops_applied, 2);
}

/// Of two operations on a row the one at the later position in the log stands, whichever
/// came first; at one position the one that came last does. In a table that a snapshot
/// is replacing the one that came last stands wherever it is. No other row changes.
pub proof fn law_later_position_stands(
    s0: InMemoryStorage,
    s1: InMemoryStorage,
    s2: InMemoryStorage,
    first: &[(RowOp, u64)],
    second: &[(RowOp, u64)],
    at: Lsn,
    tables: &NameSet,
    none: &NameSet,
    names: NameSet,
    fresh: InMemoryStorage,
    table: &str,
    pk: &str,
    p: Seq<u8>,
    q: Seq<u8>,
    r: Option<&[u8]>,
    other: &str,
    x: Option<&[u8]>,
    y: Option<&[u8]>,
)
    requires
        call_ensures(InMemoryStorage::new, (), fresh),
        call_ensures(InMemoryStorage::with_or_set_tables, (fresh, names), s0)
            || call_ensures(InMemoryStorage::with_counter_tables, (fresh, names), s0),
        !names@.contains(table@),
        !none@.contains(table@),
        exists|h: &mut InMemoryStorage| #[trigger]
            call_ensures(
                InMemoryStorage::apply_batch,
                (h, first, at, none),
                Ok::<(), StorageError>(()),
            ) && *h == s0 && *final(h) == s1,
        exists|h: &mut InMemoryStorage| #[trigger]
            call_ensures(
                InMemoryStorage::apply_batch,
                (h, second, at, tables),
                Ok::<(), StorageError>(()),
            ) && *h == s1 && *final(h) == s2,
        first@.len() == 1,
        second@.len() == 1,
        sets_row(first@[0].0, table@, pk@, p),
        sets_row(second@[0].0, table@, pk@, q) || deletes_row(second@[0].0, table@, pk@),
        call_ensures(InMemoryStorage::payload, (&s2, table, pk), r),
        other@ != pk@,
        call_ensures(InMemoryStorage::payload, (&s1, table, other), x),
        call_ensures(InMemoryStorage::payload, (&s2, table, other), y),
    ensures
        second@[0].1 < first@[0].1 && !tables@.contains(table@) ==> r is Some && r->0@ == p,
        second@[0].1 >= first@[0].1 || tables@.contains(table@) ==> {
            &&& sets_row(second@[0].0, table@, pk@, q) ==> r is Some && r->0@ == q
            &&& deletes_row(second@[0].0, table@, pk@) ==> r is None
        },
        x is Some <==> y is Some,
        x is Some ==> x->0@ == y->0@,
{
    lemma_one_op(s0, first, at, none, s1);
    lemma_one_op(s1, second, at, tables, s2);
    assert(!s0.store_view().rows.contains_key((table@, pk@)));
}

/// In a table of sets, and in one of counters, what is written is merged with what the
/// row holds.
pub proof fn law_merging_tables_merge(
    fresh: InMemoryStorage,
    names: NameSet,
    s: InMemoryStorage,
    s0: InMemoryStorage,
    s1: InMemoryStorage,
    s2: InMemoryStorage,
    first: &[(RowOp, u64)],
    second: &[(RowOp, u64)],
    at: Lsn,
    tables: &NameSet,
    table: &str,
    pk: &str,
    p: Seq<u8>,
    incoming: &[u8],
    held: Option<&[u8]>,
    r: Option<&[u8]>,
    of_sets: Vec<u8>,
    of_counters: Vec<u8>,
)
    requires
        call_ensures(InMemoryStorage::new, (), fresh),
        call_ensures(InMemoryStorage::with_or_set_tables, (fresh, names), s),
        call_ensures(InMemoryStorage::with_counter_tables, (fresh, names), s0) || s0 == s,
        names@.contains(table@),
        first@.len() == 1,
        second@.len() == 1,
        exists|h: &mut InMemoryStorage| #[trigger]
            call_ensures(
                InMemoryStorage::apply_batch,
                (h, first, at, tables),
                Ok::<(), StorageError>(()),
            ) && *h == s0 && *final(h) == s1,
        exists|h: &mut InMemoryStorage| #[trigger]
            call_ensures(
                InMemoryStorage::apply_batch,
                (h, second, at, tables),
                Ok::<(), StorageError>(()),
            ) && *h == s1 && *final(h) == s2,
        sets_row(first@[0].0, table@, pk@, p),
        sets_row(second@[0].0, table@, pk@, incoming@),
        first@[0].1 <= second@[0].1,
        call_ensures(InMemoryStorage::payload, (&s1, table, pk), held),
        held is Some,
        call_ensures(merge_or_set_or_lww, (held->0, incoming), of_sets),
        call_ensures(merge_counter_or_lww, (held->0, incoming), of_counters),
        call_ensures(InMemoryStorage::payload, (&s2, table, pk), r),
    ensures
        r is Some,
        s0 == s ==> r->0@ == of_sets@,
        call_ensures(InMemoryStorage::with_counter_tables, (fresh, names), s0) && !(s0 == s)
            ==> r->0@ == of_counters@,
{
    lemma_one_op(s0, first, at, tables, s1);
    lemma_one_op(s1, second, at, tables, s2);
}

/// A batch takes the position that it was committed at as the checkpoint, and never an
/// earlier one than was reached.
pub proof fn law_checkpoint_never_falls(
    before: InMemoryStorage,
    ops: &[(RowOp, u64)],
    at: Lsn,
    tables: &NameSet,
    after: InMemoryStorage,
    x: Result<Lsn, StorageError>,
    y: Result<Lsn, StorageError>,
)
    requires
        exists|h: &mut InMemoryStorage| #[trigger]
            call_ensures(
                InMemoryStorage::apply_batch,
                (h, ops, at, tables),
                Ok::<(), StorageError>(()),
            ) && *h == before && *final(h) == after,
        call_ensures(InMemoryStorage::checkpoint, (&before,), x),
        call_ensures(InMemoryStorage::checkpoint, (&after,), y),
    ensures
        x is Ok && y is Ok,
        y->Ok_0.0 >= x->Ok_0.0 && y->Ok_0.0 >= at.0,
        y->Ok_0.0 == x->Ok_0.0 || y->Ok_0.0 == at.0,
{
}

/// The rows that a table lists are those that can be read from it one by one.
pub proof fn law_listed_rows_are_the_rows(
    s: InMemoryStorage,
    table: &str,
    pk: &str,
    r: Option<&[u8]>,
    rows: Vec<(String, Vec<u8>)>,
    pks: Vec<String>,
)
    requires
        call_ensures(InMemoryStorage::payload, (&s, table, pk), r),
        call_ensures(InMemoryStorage::rows_for, (&s, table), rows),
        call_ensures(
            InMemoryStorage::pks_for_table,
            (&s, table),
            Ok::<Vec<String>, StorageError>(pks),
        ),
    ensures
        r is Some <==> exists|i: int| 0 <= i < rows@.len() && (#[trigger] rows@[i]).0@ == pk@,
        forall|i: int|
            0 <= i < rows@.len() && (#[trigger] rows@[i]).0@ == pk@ ==> r is Some && r->0@
                == rows@[i].1@,
        r is Some <==> exists|i: int| 0 <= i < pks@.len() && (#[trigger] pks@[i])@ == pk@,
{
    let m = crate::in_memory::table_rows(s.store_view().rows, table@);
    let v = payload_pairs(rows@);
    assert forall|i: int| 0 <= i < rows@.len() && (#[trigger] rows@[i]).0@ == pk@ implies r is Some
        && r->0@ == rows@[i].1@ by {
        assert(v[i] == (rows@[i].0@, rows@[i].1@));
        assert(m.contains_key(v[i].0));
    }
    if r is Some {
        assert(m.contains_key(pk@));
        let i = choose|i: int| 0 <= i < v.len() && (#[trigger] v[i]).0 == pk@;
        assert(rows@[i].0@ == pk@);
        assert(text_views(pks@).contains(pk@));
        let k = choose|k: int| 0 <= k < text_views(pks@).len() && text_views(pks@)[k] == pk@;
        assert(pks@[k]@ == pk@);
    }
    assert forall|i: int| 0 <= i < pks@.len() && (#[trigger] pks@[i])@ == pk@ implies r is Some by {
        assert(text_views(pks@)[i] == pk@);
        assert(text_views(pks@).contains(pk@));
    }
}

/// Deleting rows by their keys takes those out of the table and no other, and clearing
/// takes out everything.
pub proof fn law_deleted_rows_are_gone(
    before: InMemoryStorage,
    after: InMemoryStorage,
    cleared: InMemoryStorage,
    table: &str,
    pks: &[String],
    t: &str,
    pk: &str,
    x: Option<&[u8]>,
    y: Option<&[u8]>,
    z: Option<&[u8]>,
    at: Result<Lsn, StorageError>,
    horizon: Result<Option<String>, StorageError>,
)
    requires
        exists|h: &mut InMemoryStorage| #[trigger]
            call_ensures(
                InMemoryStorage::delete_pks,
                (h, table, pks),
                Ok::<(), StorageError>(()),
            ) && *h == before && *final(h) == after,
        exists|h: &mut InMemoryStorage| #[trigger]
            call_ensures(InMemoryStorage::clear, (h,), Ok::<(), StorageError>(())) && *h == before
                && *final(h) == cleared,
        call_ensures(InMemoryStorage::payload, (&before, t, pk), x),
        call_ensures(InMemoryStorage::payload, (&after, t, pk), y),
        call_ensures(InMemoryStorage::payload, (&cleared, t, pk), z),
        call_ensures(InMemoryStorage::checkpoint, (&cleared,), at),
        call_ensures(InMemoryStorage::horizon, (&cleared,), horizon),
    ensures
        t@ == table@ && (exists|i: int| 0 <= i < pks@.len() && (#[trigger] pks@[i])@ == pk@)
            ==> y is None,
        t@ != table@ || !(exists|i: int| 0 <= i < pks@.len() && (#[trigger] pks@[i])@ == pk@) ==> (
        x is Some <==> y is Some) && (x is Some ==> x->0@ == y->0@),
        z is None,
        at == Ok::<Lsn, StorageError>(Lsn(0)),
        horizon == Ok::<Option<String>, StorageError>(None),
{
    let names = crate::storage::name_set(text_views(pks@));
    assert(names.contains(pk@) <==> exists|i: int|
        0 <= i < pks@.len() && (#[trigger] pks@[i])@ == pk@) by {
        if names.contains(pk@) {
            let k = choose|k: int| 0 <= k < text_views(pks@).len() && text_views(pks@)[k] == pk@;
            assert(pks@[k]@ == pk@);
        }
        if exists|i: int| 0 <= i < pks@.len() && (#[trigger] pks@[i])@ == pk@ {
            let i = choose|i: int| 0 <= i < pks@.len() && (#[trigger] pks@[i])@ == pk@;
            assert(text_views(pks@)[i] == pk@);
        }
    }
}

/// A horizon that was saved is the one that is read.
pub proof fn law_saved_horizon_is_read(
    before: InMemoryStorage,
    horizon: &str,
    after: InMemoryStorage,
    r: Result<Option<String>, StorageError>,
)
    requires
        exists|h: &mut InMemoryStorage| #[trigger]
            call_ensures(
                InMemoryStorage::save_horizon,
                (h, horizon),
                Ok::<(), StorageError>(()),
            ) && *h == before && *final(h) == after,
        call_ensures(InMemoryStorage::horizon, (&after,), r),
    ensures
        r is Ok && r->Ok_0 is Some && r->Ok_0->0@ == horizon@,
{
}

// ---- local writes ----

/// A write shows at once: an upsert as its payload, a delete as no row. A patch and an
/// increment show nothing, and no other row changes.
pub proof fn law_local_write_shows_at_once(
    fresh: InMemoryStorage,
    ops: &[(RowOp, u64)],
    at: Lsn,
    tables: &NameSet,
    before: InMemoryStorage,
    write: &PendingWrite,
    after: InMemoryStorage,
    t: &str,
    pk: &str,
    x: Option<&[u8]>,
    y: Option<&[u8]>,
)
    requires
        call_ensures(InMemoryStorage::new, (), fresh),
        exists|h: &mut InMemoryStorage| #[trigger]
            call_ensures(
                InMemoryStorage::apply_batch,
                (h, ops, at, tables),
                Ok::<(), StorageError>(()),
            ) && *h == fresh && *final(h) == before,
        exists|h: &mut InMemoryStorage| #[trigger]
            call_ensures(InMemoryStorage::apply_local, (h, write), Ok::<(), StorageError>(()))
                && *h == before && *final(h) == after,
        call_ensures(InMemoryStorage::payload, (&before, t, pk), x),
        call_ensures(InMemoryStorage::payload, (&after, t, pk), y),
    ensures
        t@ == write.table@ && pk@ == write.pk@ && write.op == WriteOp::Upsert ==> y is Some
            && y->0@ == encode_utf8(
            match write.payload_json {
                Some(s) => s@,
                None => "null"@,
            },
        ),
        t@ == write.table@ && pk@ == write.pk@ && write.op == WriteOp::Delete ==> y is None,
        t@ != write.table@ || pk@ != write.pk@ || write.op == WriteOp::Patch || write.op
            == WriteOp::Increment ==> (x is Some <==> y is Some) && (x is Some ==> x->0@ == y->0@),
{
    assert(before.store_view().merging == fresh.store_view().merging);
}

/// A local write keeps the place in the log that its row had: what the server sends from
/// there on replaces it, and what is older does not.
pub proof fn law_server_replaces_a_local_write(
    fresh: InMemoryStorage,
    first: &[(RowOp, u64)],
    at: Lsn,
    none: &NameSet,
    s1: InMemoryStorage,
    write: &PendingWrite,
    s2: InMemoryStorage,
    second: &[(RowOp, u64)],
    s3: InMemoryStorage,
    table: &str,
    pk: &str,
    p: Seq<u8>,
    q: Seq<u8>,
    x: Option<&[u8]>,
    y: Option<&[u8]>,
)
    requires
        call_ensures(InMemoryStorage::new, (), fresh),
        exists|h: &mut InMemoryStorage| #[trigger]
            call_ensures(
                InMemoryStorage::apply_batch,
                (h, first, at, none),
                Ok::<(), StorageError>(()),
            ) && *h == fresh && *final(h) == s1,
        exists|h: &mut InMemoryStorage| #[trigger]
            call_ensures(InMemoryStorage::apply_local, (h, write), Ok::<(), StorageError>(()))
                && *h == s1 && *final(h) == s2,
        exists|h: &mut InMemoryStorage| #[trigger]
            call_ensures(
                InMemoryStorage::apply_batch,
                (h, second, at, none),
                Ok::<(), StorageError>(()),
            ) && *h == s2 && *final(h) == s3,
        !none@.contains(table@),
        first@.len() == 1,
        second@.len() == 1,
        sets_row(first@[0].0, table@, pk@, p),
        sets_row(second@[0].0, table@, pk@, q),
        write.op == WriteOp::Upsert,
        write.table@ == table@,
        write.pk@ == pk@,
        call_ensures(InMemoryStorage::payload, (&s2, table, pk), x),
        call_ensures(InMemoryStorage::payload, (&s3, table, pk), y),
    ensures
        x is Some && y is Some,
        second@[0].1 >= first@[0].1 ==> y->0@ == q,
        second@[0].1 < first@[0].1 ==> y->0@ == x->0@,
{
    lemma_one_op(fresh, first, at, none, s1);
    lemma_one_op(s2, second, at, none, s3);
    assert(s1.store_view().rows.contains_key((table@, pk@)));
}

/// A write that is queued waits behind the others, under an id that is larger than each
/// of theirs where they were queued before it.
pub proof fn law_queued_write_waits_last(
    before: InMemoryStorage,
    write: PendingWrite,
    id: u64,
    after: InMemoryStorage,
    x: Vec<(u64, PendingWrite)>,
    y: Vec<(u64, PendingWrite)>,
)
    requires
        exists|h: &mut InMemoryStorage| #[trigger]
            call_ensures(InMemoryStorage::enqueue, (h, write), Ok::<u64, StorageError>(id))
                && *h == before && *final(h) == after,
        call_ensures(
            InMemoryStorage::pending,
            (&before,),
            Ok::<Vec<(u64, PendingWrite)>, StorageError>(x),
        ),
        call_ensures(
            InMemoryStorage::pending,
            (&after,),
            Ok::<Vec<(u64, PendingWrite)>, StorageError>(y),
        ),
    ensures
        y@.len() == x@.len() + 1,
        forall|i: int|
            0 <= i < x@.len() ==> (#[trigger] y@[i]).0 == x@[i].0 && y@[i].1.table@
                == x@[i].1.table@ && y@[i].1.pk@ == x@[i].1.pk@ && y@[i].1.op == x@[i].1.op,
        y@.last().0 == id,
        y@.last().1.table@ == write.table@,
        y@.last().1.pk@ == write.pk@,
        y@.last().1.op == write.op,
        y@.last().1.payload_json is Some <==> write.payload_json is Some,
        write.payload_json is Some ==> y@.last().1.payload_json->0@ == write.payload_json->0@,
{
    let v = waiting_views(x@);
    let w = waiting_views(y@);
    assert(v.len() == x@.len() && w.len() == y@.len());
    assert(w == v.push((id, write@)));
    assert(w.last() == (y@.last().0, y@.last().1@));
    assert(w.last() == (id, write@));
    assert forall|i: int| 0 <= i < x@.len() implies (#[trigger] y@[i]).0 == x@[i].0
        && y@[i].1.table@ == x@[i].1.table@ && y@[i].1.pk@ == x@[i].1.pk@ && y@[i].1.op
        == x@[i].1.op by {
        assert(w[i] == v[i]);
        assert(w[i] == (y@[i].0, y@[i].1@));
        assert(v[i] == (x@[i].0, x@[i].1@));
    }
}

/// A write that is done waits no more; the others wait on, in the same order.
pub proof fn law_done_write_leaves(
    before: InMemoryStorage,
    id: u64,
    after: InMemoryStorage,
    x: Vec<(u64, PendingWrite)>,
    y: Vec<(u64, PendingWrite)>,
)
    requires
        exists|h: &mut InMemoryStorage| #[trigger]
            call_ensures(InMemoryStorage::mark_done, (h, id), Ok::<(), StorageError>(())) && *h
                == before && *final(h) == after,
        call_ensures(
            InMemoryStorage::pending,
            (&before,),
            Ok::<Vec<(u64, PendingWrite)>, StorageError>(x),
        ),
        call_ensures(
            InMemoryStorage::pending,
            (&after,),
            Ok::<Vec<(u64, PendingWrite)>, StorageError>(y),
        ),
    ensures
        waiting_views(y@) == waiting_views(x@).filter(
            |e: (u64, crate::outbox::WriteView)| e.0 != id,
        ),
{
    lemma_without_id(waiting_views(x@), id);
}

proof fn lemma_without_id(s: Seq<(u64, crate::outbox::WriteView)>, id: u64)
    ensures
        without_id(s, id) == s.filter(|e: (u64, crate::outbox::WriteView)| e.0 != id),
    decreases s.len(),
{
    reveal(Seq::filter);
    if s.len() > 0 {
        lemma_without_id(s.drop_last(), id);
    }
}

/// Whether some write of the queue is on a row.
pub open spec fn some_write_on(
    writes: Seq<(u64, PendingWrite)>,
    table: Seq<char>,
    pk: Seq<char>,
) -> bool {
    exists|i: int|
        0 <= i < writes.len() && (#[trigger] writes[i]).1.table@ == table && writes[i].1.pk@ == pk
}

/// The keys that writes wait on are those that some waiting write names, each once.
pub proof fn law_rows_that_wait(writes: &Vec<(u64, PendingWrite)>, table: &str, r: Vec<String>)
    requires
        call_ensures(pks_on_table, (writes, table), r),
    ensures
        forall|i: int|
            0 <= i < writes@.len() && (#[trigger] writes@[i]).1.table@ == table@ ==> exists|k: int|
                0 <= k < r@.len() && (#[trigger] r@[k])@ == writes@[i].1.pk@,
        forall|k: int| 0 <= k < r@.len() ==> some_write_on(writes@, table@, (#[trigger] r@[k])@),
        forall|i: int, k: int|
            0 <= i < k < r@.len() ==> (#[trigger] r@[i])@ != (#[trigger] r@[k])@,
{
    let v = waiting_views(writes@);
    let names = Set::new(|pk: Seq<char>| crate::outbox::waits_on(v, table@, pk));
    assert forall|i: int|
        0 <= i < writes@.len() && (#[trigger] writes@[i]).1.table@ == table@ implies exists|k: int|
        0 <= k < r@.len() && (#[trigger] r@[k])@ == writes@[i].1.pk@ by {
        assert(v[i] == (writes@[i].0, writes@[i].1@));
        assert(names.contains(writes@[i].1.pk@));
        assert(text_views(r@).contains(writes@[i].1.pk@));
        let k = choose|k: int|
            0 <= k < text_views(r@).len() && text_views(r@)[k] == writes@[i].1.pk@;
        assert(r@[k]@ == writes@[i].1.pk@);
    }
    assert forall|k: int| 0 <= k < r@.len() implies some_write_on(
        writes@,
        table@,
        (#[trigger] r@[k])@,
    ) by {
        assert(text_views(r@)[k] == r@[k]@);
        assert(text_views(r@).contains(r@[k]@));
        assert(names.contains(r@[k]@));
        let i = choose|i: int|
            0 <= i < v.len() && (#[trigger] v[i]).1.table == table@ && v[i].1.pk == r@[k]@;
        assert(writes@[i].1.table@ == table@);
    }
    assert forall|i: int, k: int| 0 <= i < k < r@.len() implies (#[trigger] r@[i])@ != (
    #[trigger] r@[k])@ by {
        assert(crate::text::lex_lt(text_views(r@)[i], text_views(r@)[k]));
        crate::text::lemma_lex_irreflexive(r@[i]@);
    }
}

/// What each kind of write is called on the wire. An increment is never read from it.
pub proof fn law_write_words(op: WriteOp, r: &'static str, s: &str, read: Option<WriteOp>)
    requires
        call_ensures(WriteOp::as_wire_str, (op,), r),
        call_ensures(WriteOp::from_wire_str, (s,), read),
    ensures
        op == WriteOp::Upsert ==> r@ == "upsert"@,
        op == WriteOp::Delete ==> r@ == "delete"@,
        op == WriteOp::Patch ==> r@ == "patch"@,
        op == WriteOp::Increment ==> r@ == "increment"@,
        s@ == r@ && op != WriteOp::Increment ==> read == Some(op),
        s@ != "upsert"@ && s@ != "delete"@ && s@ != "patch"@ ==> read is None,
{
    reveal_strlit("upsert");
    reveal_strlit("delete");
    reveal_strlit("patch");
    assert("upsert"@[0] == 'u' && "delete"@[0] == 'd' && "patch"@[0] == 'p');
}

/// A row that was patched has each column of the change, with the value that the change
/// says last, and every other column as it was. Only records are patched, with records.
pub proof fn law_patched_row(
    payload: &[u8],
    change: &[u8],
    r: Option<Vec<u8>>,
    f: Seq<(Seq<char>, JsonView)>,
    set: Seq<(Seq<char>, JsonView)>,
)
    requires
        call_ensures(patch_payload, (payload, change), r),
    ensures
        r is Some ==> json_read(payload@) is Some && json_read(payload@)->0 is Record && json_read(
            change@,
        ) is Some && json_read(change@)->0 is Record,
        json_read(payload@) == Some(JsonView::Record(f)) && json_read(change@) == Some(
            JsonView::Record(set),
        ) ==> r is Some && exists|g: Seq<(Seq<char>, JsonView)>|
            r->0@ == encode_utf8(#[trigger] json_text(JsonView::Record(g))) && has_columns(
                g,
                f,
                set,
            ),
{
    if json_read(payload@) == Some(JsonView::Record(f)) && json_read(change@) == Some(
        JsonView::Record(set),
    ) {
        let g = with_columns(f, set);
        assert forall|n: Seq<char>| #[trigger] named(n) implies column_after(g, f, set, n) by {
            law_patch_sets_its_columns_only(f, set, n);
        }
        assert(r->0@ == encode_utf8(json_text(JsonView::Record(g))));
    }
}

/// Any name of a column.
pub open spec fn named(n: Seq<char>) -> bool {
    true
}

/// Whether a column has the value that the change says last, or else what it had.
pub open spec fn column_after(
    g: Seq<(Seq<char>, JsonView)>,
    f: Seq<(Seq<char>, JsonView)>,
    set: Seq<(Seq<char>, JsonView)>,
    n: Seq<char>,
) -> bool {
    &&& (forall|i: int| 0 <= i < set.len() ==> (#[trigger] set[i]).0 != n) ==> member(g, n)
        == member(f, n)
    &&& forall|i: int|
        0 <= i < set.len() && (#[trigger] set[i]).0 == n && (forall|k: int|
            i < k < set.len() ==> (#[trigger] set[k]).0 != n) ==> member(g, n) == Some(set[i].1)
}

/// Whether every column is as it should be after a change.
pub open spec fn has_columns(
    g: Seq<(Seq<char>, JsonView)>,
    f: Seq<(Seq<char>, JsonView)>,
    set: Seq<(Seq<char>, JsonView)>,
) -> bool {
    forall|n: Seq<char>| #[trigger] named(n) ==> column_after(g, f, set, n)
}

// ---- batches ----

proof fn lemma_one_frame(f: FrameView)
    ensures
        by_position(seq![f]) == seq![f],
{
    lemma_in_order_keeps::<u64, FrameView>(seq![f], crate::apply::frame_positions(seq![f]));
    let s = by_position(seq![f]);
    assert(s.len() == 1);
    assert(s.to_multiset().contains(f) ==> s.contains(f)) by {
        s.to_multiset_ensures();
    }
    assert(seq![f].contains(f)) by {
        assert(seq![f][0] == f);
    }
    seq![f].to_multiset_ensures();
    assert(s.contains(f));
    assert(s[0] == f);
    assert(s =~= seq![f]);
}

/// What a frame is for the row that it names: its payload, or no bytes where an image is
/// missing, or no row.
pub open spec fn frame_leaves(f: Frame) -> Option<Seq<u8>> {
    if f.op == Operation::Delete {
        None
    } else if f.payload is Some {
        Some(f.payload->0@)
    } else {
        Some(seq![])
    }
}

/// A frame that is fed and flushed is in the store, counted once, and its position is the
/// checkpoint, as soon as the batch is full or the log is flushed.
pub proof fn law_fed_frame_lands(
    storage: InMemoryStorage,
    cap: usize,
    e0: ApplyEngine<InMemoryStorage>,
    frame: Frame,
    e1: ApplyEngine<InMemoryStorage>,
    fed: Option<ApplyOutcome>,
    e2: ApplyEngine<InMemoryStorage>,
    flushed: Option<ApplyOutcome>,
    store: &InMemoryStorage,
    table: &str,
    pk: &str,
    r: Option<&[u8]>,
    at: Result<Lsn, StorageError>,
)
    requires
        call_ensures(InMemoryStorage::new, (), storage),
        call_ensures(ApplyEngine::<InMemoryStorage>::with_max_batch, (storage, cap), e0),
        exists|h: &mut ApplyEngine<InMemoryStorage>| #[trigger]
            call_ensures(
                ApplyEngine::<InMemoryStorage>::feed,
                (h, frame),
                Ok::<Option<ApplyOutcome>, StorageError>(fed),
            ) && *h == e0 && *final(h) == e1,
        exists|h: &mut ApplyEngine<InMemoryStorage>| #[trigger]
            call_ensures(
                ApplyEngine::<InMemoryStorage>::flush,
                (h,),
                Ok::<Option<ApplyOutcome>, StorageError>(flushed),
            ) && *h == e1 && *final(h) == e2,
        call_ensures(ApplyEngine::<InMemoryStorage>::storage, (&e2,), store),
        call_ensures(InMemoryStorage::payload, (store, table, pk), r),
        call_ensures(InMemoryStorage::checkpoint, (store,), at),
    ensures
        table@ == frame.table@ && pk@ == frame.pk@ ==> (r is Some <==> frame_leaves(frame) is Some)
            && (r is Some ==> r->0@ == frame_leaves(frame)->0),
        table@ != frame.table@ || pk@ != frame.pk@ ==> r is None,
        fed is Some <==> frame.txn_id is None && cap <= 1,
        flushed is Some <==> fed is None,
        fed is Some ==> fed->0.rows_applied == 1 && fed->0.checkpoint.0 == frame.lsn,
        flushed is Some ==> flushed->0.rows_applied == 1 && flushed->0.checkpoint.0 == frame.lsn,
        at is Ok && at->Ok_0.0 == frame.lsn,
{
    let f = frame@;
    let b = e0.batch();
    assert(b == fresh_batch(Lsn(0), cap));
    let full = admitted(b, f);
    assert(full.pending =~= seq![f]);
    lemma_one_frame(f);
    let ops = frame_ops(seq![f]);
    assert(ops.len() == 1 && ops.last() == (frame_op(f), f.lsn));
    reveal_with_fuel(ops_applied, 2);
    assert(full.windows.dom() =~= Set::<Seq<char>>::empty());
    assert(full.windows =~= b.windows);
    let s0 = storage.state();
    let s2 = e2.store();
    assert(committed(full, s0, s2)) by {
        if fills(b, f) {
            assert(e1.batch() == emptied(full));
        } else {
            assert(e1.batch() == full);
        }
    }
    assert(s2.rows == crate::storage::op_applied(
        s0.merging,
        s0.rows,
        frame_op(f),
        f.lsn,
        Set::<Seq<char>>::empty(),
    ));
}

/// The frames of one transaction wait for each other, and a frame of another one commits
/// them, all at once, at the latest of their positions.
pub proof fn law_transaction_is_whole(
    storage: InMemoryStorage,
    cap: usize,
    e0: ApplyEngine<InMemoryStorage>,
    a: Frame,
    e1: ApplyEngine<InMemoryStorage>,
    x: Option<ApplyOutcome>,
    b: Frame,
    e2: ApplyEngine<InMemoryStorage>,
    y: Option<ApplyOutcome>,
    c: Frame,
    e3: ApplyEngine<InMemoryStorage>,
    z: Option<ApplyOutcome>,
    pending: bool,
)
    requires
        call_ensures(InMemoryStorage::new, (), storage),
        call_ensures(ApplyEngine::<InMemoryStorage>::with_max_batch, (storage, cap), e0),
        exists|h: &mut ApplyEngine<InMemoryStorage>| #[trigger]
            call_ensures(
                ApplyEngine::<InMemoryStorage>::feed,
                (h, a),
                Ok::<Option<ApplyOutcome>, StorageError>(x),
            ) && *h == e0 && *final(h) == e1,
        exists|h: &mut ApplyEngine<InMemoryStorage>| #[trigger]
            call_ensures(
                ApplyEngine::<InMemoryStorage>::feed,
                (h, b),
                Ok::<Option<ApplyOutcome>, StorageError>(y),
            ) && *h == e1 && *final(h) == e2,
        exists|h: &mut ApplyEngine<InMemoryStorage>| #[trigger]
            call_ensures(
                ApplyEngine::<InMemoryStorage>::feed,
                (h, c),
                Ok::<Option<ApplyOutcome>, StorageError>(z),
            ) && *h == e2 && *final(h) == e3,
        call_ensures(ApplyEngine::<InMemoryStorage>::has_pending, (&e3,), pending),
        a.txn_id is Some,
    ensures
        x is None,
        b.txn_id == a.txn_id ==> y is None && e2.store() == e0.store(),
        b.txn_id == a.txn_id ==> (z is Some <==> c.txn_id != a.txn_id),
        b.txn_id == a.txn_id && z is Some ==> pending && z->0.rows_applied == 2
            && z->0.checkpoint.0 == (if a.lsn >= b.lsn { a.lsn } else { b.lsn }),
        b.txn_id == a.txn_id && z is None ==> pending && e3.store() == e0.store(),
        b.txn_id != a.txn_id ==> y is Some && y->0.rows_applied == 1 && y->0.checkpoint.0 == a.lsn,
{
    let b0 = e0.batch();
    assert(b0 == fresh_batch(Lsn(0), cap));
    assert(e1.batch() == admitted(b0, a@));
    assert(e1.batch().pending.len() == 1);
    if b.txn_id == a.txn_id {
        assert(e2.batch() == admitted(e1.batch(), b@));
        assert(e2.batch().pending.len() == 2);
        if c.txn_id != a.txn_id {
            assert(closes(e2.batch(), c@));
            assert(e3.batch() == admitted(emptied(e2.batch()), c@));
            assert(z == Some(outcome(e2.batch())));
        } else {
            assert(e3.batch() == admitted(e2.batch(), c@));
        }
    } else {
        assert(y == Some(outcome(e1.batch())));
    }
}

/// Frames that belong to no transaction wait until the batch is full.
pub proof fn law_full_batch_commits(
    storage: InMemoryStorage,
    cap: usize,
    e0: ApplyEngine<InMemoryStorage>,
    a: Frame,
    e1: ApplyEngine<InMemoryStorage>,
    b: Frame,
    e2: ApplyEngine<InMemoryStorage>,
    y: Option<ApplyOutcome>,
)
    requires
        call_ensures(InMemoryStorage::new, (), storage),
        call_ensures(ApplyEngine::<InMemoryStorage>::with_max_batch, (storage, cap), e0),
        exists|h: &mut ApplyEngine<InMemoryStorage>| #[trigger]
            call_ensures(
                ApplyEngine::<InMemoryStorage>::feed,
                (h, a),
                Ok::<Option<ApplyOutcome>, StorageError>(None),
            ) && *h == e0 && *final(h) == e1,
        exists|h: &mut ApplyEngine<InMemoryStorage>| #[trigger]
            call_ensures(
                ApplyEngine::<InMemoryStorage>::feed,
                (h, b),
                Ok::<Option<ApplyOutcome>, StorageError>(y),
            ) && *h == e1 && *final(h) == e2,
        a.txn_id is None,
        b.txn_id is None,
    ensures
        y is Some <==> cap <= 2,
        y is Some ==> y->0.rows_applied == 2 && y->0.checkpoint.0 == (if a.lsn >= b.lsn {
            a.lsn
        } else {
            b.lsn
        }),
{
    let b0 = e0.batch();
    assert(b0 == fresh_batch(Lsn(0), cap));
    assert(e1.batch() == admitted(b0, a@));
    assert(e1.batch().pending.len() == 1);
}

/// A snapshot replaces its table: what it sends stands, whatever was there, what was
/// exempt stays, and every other row of the table goes. Other tables are left alone.
pub proof fn law_snapshot_replaces_its_table(
    storage: InMemoryStorage,
    e0: ApplyEngine<InMemoryStorage>,
    table: &str,
    exempt: &[String],
    nothing: &[String],
    e1: ApplyEngine<InMemoryStorage>,
    frame: Frame,
    e2: ApplyEngine<InMemoryStorage>,
    e3: ApplyEngine<InMemoryStorage>,
    e4: ApplyEngine<InMemoryStorage>,
    store: &InMemoryStorage,
    t: &str,
    pk: &str,
    before: Option<&[u8]>,
    after: Option<&[u8]>,
)
    requires
        call_ensures(ApplyEngine::<InMemoryStorage>::new, (storage,), e0),
        !storage.store_view().merging.or_sets.contains(table@),
        !storage.store_view().merging.counters.contains(table@),
        exists|h: &mut ApplyEngine<InMemoryStorage>| #[trigger]
            call_ensures(
                ApplyEngine::<InMemoryStorage>::snapshot_boundary,
                (h, table, true, exempt),
                Ok::<(), StorageError>(()),
            ) && *h == e0 && *final(h) == e1,
        exists|h: &mut ApplyEngine<InMemoryStorage>| #[trigger]
            call_ensures(
                ApplyEngine::<InMemoryStorage>::feed,
                (h, frame),
                Ok::<Option<ApplyOutcome>, StorageError>(None),
            ) && *h == e1 && *final(h) == e2,
        exists|h: &mut ApplyEngine<InMemoryStorage>, o: Option<ApplyOutcome>| #[trigger]
            call_ensures(
                ApplyEngine::<InMemoryStorage>::flush,
                (h,),
                Ok::<Option<ApplyOutcome>, StorageError>(o),
            ) && *h == e2 && *final(h) == e3,
        exists|h: &mut ApplyEngine<InMemoryStorage>| #[trigger]
            call_ensures(
                ApplyEngine::<InMemoryStorage>::snapshot_boundary,
                (h, table, false, nothing),
                Ok::<(), StorageError>(()),
            ) && *h == e3 && *final(h) == e4,
        frame.table@ == table@,
        frame.op != Operation::Delete,
        call_ensures(ApplyEngine::<InMemoryStorage>::storage, (&e4,), store),
        call_ensures(InMemoryStorage::payload, (&storage, t, pk), before),
        call_ensures(InMemoryStorage::payload, (store, t, pk), after),
    ensures
        t@ == table@ && pk@ == frame.pk@ ==> after is Some && after->0@ == frame_leaves(frame)->0,
        t@ == table@ && pk@ != frame.pk@ && !(exists|i: int|
            0 <= i < exempt@.len() && (#[trigger] exempt@[i])@ == pk@) ==> after is None,
        t@ != table@ || (pk@ != frame.pk@ && exists|i: int|
            0 <= i < exempt@.len() && (#[trigger] exempt@[i])@ == pk@) ==> (before is Some
            <==> after is Some) && (before is Some ==> before->0@ == after->0@),
{
    let f = frame@;
    let b1 = e1.batch();
    let w = crate::storage::table_pks(storage.state().rows, table@).difference(
        crate::storage::name_set(text_views(exempt@)),
    );
    assert(b1.windows[table@] == w);
    assert(b1.windows.dom().contains(table@));
    assert(b1.pending =~= seq![]);
    let b2 = admitted(b1, f);
    assert(e2.batch() == b2);
    assert(b2.pending =~= seq![f]);
    lemma_one_frame(f);
    let ops = frame_ops(seq![f]);
    assert(ops.len() == 1 && ops.last() == (frame_op(f), f.lsn));
    reveal_with_fuel(ops_applied, 2);
    assert(committed(b2, e2.store(), e3.store()));
    assert(b2.windows.dom().contains(table@));
    assert(e3.store().rows == crate::storage::op_applied(
        storage.state().merging,
        storage.state().rows,
        frame_op(f),
        f.lsn,
        b2.windows.dom(),
    ));
    assert(e3.batch().windows[table@] == w.remove(f.pk));
    let names = crate::storage::name_set(text_views(exempt@));
    assert(names.contains(pk@) <==> exists|i: int|
        0 <= i < exempt@.len() && (#[trigger] exempt@[i])@ == pk@) by {
        if names.contains(pk@) {
            let k = choose|k: int|
                0 <= k < text_views(exempt@).len() && text_views(exempt@)[k] == pk@;
            assert(exempt@[k]@ == pk@);
        }
        if exists|i: int| 0 <= i < exempt@.len() && (#[trigger] exempt@[i])@ == pk@ {
            let i = choose|i: int| 0 <= i < exempt@.len() && (#[trigger] exempt@[i])@ == pk@;
            assert(text_views(exempt@)[i] == pk@);
        }
    }
}

} // verus!
