//! Where a client keeps replicated rows and how far it has got.
//!
//! What matters is one property: the rows of a batch and the checkpoint that covers
//! them land together or not at all. `Storage::apply_batch` is that property.

use vstd::prelude::*;
use crate::events::{RowOp, RowOpView};
use crate::lsn::Lsn;
use crate::names::NameSet;
use crate::text::text_views;

verus! {

/// Why a storage operation did not happen.
#[derive(Debug, PartialEq, Eq)]
pub enum StorageError {
    /// The backend refused. Nothing of a batch was committed.
    Backend(String),
}

impl StorageError {
    /// The message of the error.
    pub fn to_text(&self) -> (r: String)
        ensures
            r@ == "storage backend error: "@ + self->Backend_0@,
    {
        let StorageError::Backend(message) = self;
        let mut out: String = "storage backend error: ".to_owned();
        out.append(message.as_str());
        out
    }
}

/// The place of a row: its table and its primary key.
pub type RowKey = (Seq<char>, Seq<char>);

/// The rows of a store: the payload of each, and the position in the log that it
/// was written at.
pub type RowMap = Map<RowKey, (Seq<u8>, u64)>;

/// The tables of a store whose payloads are merged and not replaced.
#[verifier::ext_equal]
pub struct MergeTables {
    /// Tables that hold sets.
    pub or_sets: Set<Seq<char>>,
    /// Tables that hold counters.
    pub counters: Set<Seq<char>>,
}

/// What a store holds.
#[verifier::ext_equal]
pub struct StoreState {
    pub rows: RowMap,
    /// The position in the log up to which everything is applied.
    pub checkpoint: Lsn,
    /// How far the log was pulled, as opaque text.
    pub horizon: Option<Seq<char>>,
    /// The epoch of the server's log that was kept last, or zero.
    pub epoch: u64,
    /// The checksum of the rules that was kept last, or zero.
    pub rules_checksum: u64,
    pub merging: MergeTables,
}

/// A store that nothing was ever put into.
pub open spec fn fresh_store() -> StoreState {
    StoreState {
        rows: Map::empty(),
        checkpoint: Lsn(0),
        horizon: None,
        epoch: 0,
        rules_checksum: 0,
        merging: MergeTables { or_sets: Set::empty(), counters: Set::empty() },
    }
}

/// The payload under `key`, or nothing.
pub open spec fn held_payload(rows: RowMap, key: RowKey) -> Seq<u8> {
    if rows.contains_key(key) {
        rows[key].0
    } else {
        seq![]
    }
}

/// The payload that a row gets when `incoming` arrives for it.
pub open spec fn combined(
    merging: MergeTables,
    rows: RowMap,
    key: RowKey,
    incoming: Seq<u8>,
) -> Seq<u8> {
    if merging.or_sets.contains(key.0) {
        crate::crdt::merged_or_incoming(held_payload(rows, key), incoming)
    } else if merging.counters.contains(key.0) {
        crate::counter::merged_or_incoming(held_payload(rows, key), incoming)
    } else {
        incoming
    }
}

/// Whether an operation from position `lsn` may touch the row: it is from no
/// earlier than what the row holds, or the table is being replaced as a whole.
pub open spec fn admits(rows: RowMap, key: RowKey, lsn: u64, replaced: Set<Seq<char>>) -> bool {
    replaced.contains(key.0) || !rows.contains_key(key) || rows[key].1 <= lsn
}

/// The rows after one operation.
pub open spec fn op_applied(
    merging: MergeTables,
    rows: RowMap,
    op: RowOpView,
    lsn: u64,
    replaced: Set<Seq<char>>,
) -> RowMap {
    let key = (op.table, op.pk);
    if !admits(rows, key, lsn, replaced) {
        rows
    } else {
        match op.payload {
            Some(incoming) => rows.insert(key, (combined(merging, rows, key, incoming), lsn)),
            None => rows.remove(key),
        }
    }
}

/// The rows after a sequence of operations.
pub open spec fn ops_applied(
    merging: MergeTables,
    rows: RowMap,
    ops: Seq<(RowOpView, u64)>,
    replaced: Set<Seq<char>>,
) -> RowMap
    decreases ops.len(),
{
    if ops.len() == 0 {
        rows
    } else {
        op_applied(
            merging,
            ops_applied(merging, rows, ops.drop_last(), replaced),
            ops.last().0,
            ops.last().1,
            replaced,
        )
    }
}

/// The operations by their values.
pub open spec fn op_views(ops: Seq<(RowOp, u64)>) -> Seq<(RowOpView, u64)> {
    Seq::new(ops.len(), |i: int| (ops[i].0@, ops[i].1))
}

/// The primary keys of the rows of a table.
pub open spec fn table_pks(rows: RowMap, table: Seq<char>) -> Set<Seq<char>> {
    Set::new(|pk: Seq<char>| rows.contains_key((table, pk)))
}

/// The rows without those of `table` whose primary keys are in `pks`.
pub open spec fn rows_without(rows: RowMap, table: Seq<char>, pks: Set<Seq<char>>) -> RowMap {
    rows.remove_keys(Set::new(|k: RowKey| k.0 == table && pks.contains(k.1)))
}

/// The set of the given names.
pub open spec fn name_set(names: Seq<Seq<char>>) -> Set<Seq<char>> {
    Set::new(|n: Seq<char>| names.contains(n))
}

/// Whether a checkpoint went from `before` to `after` when a commit was handed `handed`:
/// it is there now, or was no earlier and stayed.
pub open spec fn advanced(before: Lsn, handed: Lsn, after: Lsn) -> bool {
    after == handed || (after == before && before.0 >= handed.0)
}

/// Whether `after` is the store `before` with some of what it holds forgotten.
pub open spec fn partly_cleared(before: StoreState, after: StoreState) -> bool {
    let fresh = fresh_store();
    &&& after.rows == before.rows || after.rows == fresh.rows
    &&& after.checkpoint == before.checkpoint || after.checkpoint == fresh.checkpoint
    &&& after.horizon == before.horizon || after.horizon == fresh.horizon
    &&& after.epoch == before.epoch || after.epoch == fresh.epoch
    &&& after.rules_checksum == before.rules_checksum || after.rules_checksum
        == fresh.rules_checksum
    &&& after.merging == before.merging
}

/// Where a client keeps its rows. An implementation says what it holds by `state`;
/// the contracts say how each method changes that. Whether a call succeeds is up to
/// the implementation, unless it is `dependable`.
pub trait Storage: Sized {
    /// What the store holds.
    spec fn state(&self) -> StoreState;

    /// Whether every call on this store succeeds.
    spec fn dependable(&self) -> bool;

    /// The position in the log up to which everything is applied; zero in a fresh
    /// store.
    fn checkpoint(&self) -> (r: Result<Lsn, StorageError>)
        ensures
            r is Ok ==> r->Ok_0 == self.state().checkpoint,
            self.dependable() ==> r is Ok,
    ;

    /// The last epoch of the server's log that was saved, or zero. A store that
    /// keeps none says zero.
    fn epoch(&self) -> (r: Result<u64, StorageError>)
        ensures
            r is Ok ==> r->Ok_0 == self.state().epoch || r->Ok_0 == 0,
            self.dependable() ==> r is Ok,
        default_ensures
            r == Ok::<u64, StorageError>(0),
    {
        Ok(0)
    }

    /// Saves the epoch of the server's log. A store may keep none. Nothing else changes.
    fn save_epoch(&mut self, epoch: u64) -> (r: Result<(), StorageError>)
        ensures
            final(self).state() == old(self).state() || final(self).state() == (StoreState {
                epoch,
                ..old(self).state()
            }),
            r is Err ==> final(self).state() == old(self).state(),
            final(self).dependable() == old(self).dependable(),
            old(self).dependable() ==> r is Ok,
        default_ensures
            r is Ok,
            *final(self) == *old(self),
    {
        Ok(())
    }

    /// The last checksum of the rules that was saved, or zero. A store that keeps
    /// none says zero.
    fn rules_checksum(&self) -> (r: Result<u64, StorageError>)
        ensures
            r is Ok ==> r->Ok_0 == self.state().rules_checksum || r->Ok_0 == 0,
            self.dependable() ==> r is Ok,
        default_ensures
            r == Ok::<u64, StorageError>(0),
    {
        Ok(0)
    }

    /// Saves the checksum of the rules. A store may keep none. Nothing else changes.
    fn save_rules_checksum(&mut self, checksum: u64) -> (r: Result<(), StorageError>)
        ensures
            final(self).state() == old(self).state() || final(self).state() == (StoreState {
                rules_checksum: checksum,
                ..old(self).state()
            }),
            r is Err ==> final(self).state() == old(self).state(),
            final(self).dependable() == old(self).dependable(),
            old(self).dependable() ==> r is Ok,
        default_ensures
            r is Ok,
            *final(self) == *old(self),
    {
        Ok(())
    }

    /// How far the log was pulled. A store that keeps no horizon says nothing, and
    /// the log is pulled from its start.
    fn horizon(&self) -> (r: Result<Option<String>, StorageError>)
        ensures
            r is Ok && r->Ok_0 is Some ==> self.state().horizon == Some(r->Ok_0->0@),
            self.dependable() ==> r is Ok,
        default_ensures
            r == Ok::<Option<String>, StorageError>(None),
    {
        Ok(None)
    }

    /// Saves how far the log was pulled. A store may keep no horizon. Nothing else
    /// changes.
    fn save_horizon(&mut self, horizon: &str) -> (r: Result<(), StorageError>)
        ensures
            final(self).state() == old(self).state() || final(self).state() == (StoreState {
                horizon: Some(horizon@),
                ..old(self).state()
            }),
            r is Err ==> final(self).state() == old(self).state(),
            final(self).dependable() == old(self).dependable(),
            old(self).dependable() ==> r is Ok,
        default_ensures
            r is Ok,
            *final(self) == *old(self),
    {
        Ok(())
    }

    /// Applies the operations in order and moves the checkpoint, all together or not
    /// at all. An operation is passed over where the row holds something from a later
    /// position, unless its table is in `snapshot_tables`: those tables are being
    /// replaced as a whole. Afterwards the checkpoint is `checkpoint`; a store may leave
    /// a later one as it is.
    fn apply_batch(
        &mut self,
        ops: &[(RowOp, u64)],
        checkpoint: Lsn,
        snapshot_tables: &NameSet,
    ) -> (r: Result<(), StorageError>)
        ensures
            r is Ok ==> final(self).state() == (StoreState {
                rows: ops_applied(
                    old(self).state().merging,
                    old(self).state().rows,
                    op_views(ops@),
                    snapshot_tables@,
                ),
                checkpoint: final(self).state().checkpoint,
                ..old(self).state()
            }),
            r is Ok ==> advanced(
                old(self).state().checkpoint,
                checkpoint,
                final(self).state().checkpoint,
            ),
            r is Err ==> final(self).state() == old(self).state(),
            final(self).dependable() == old(self).dependable(),
            old(self).dependable() ==> r is Ok,
    ;

    /// The primary keys of the rows of a table, each once.
    fn pks_for_table(&self, table: &str) -> (r: Result<Vec<String>, StorageError>)
        ensures
            r is Ok ==> forall|pk: Seq<char>| #[trigger]
                text_views(r->Ok_0@).contains(pk) <==> self.state().rows.contains_key(
                    (table@, pk),
                ),
            r is Ok ==> text_views(r->Ok_0@).no_duplicates(),
            self.dependable() ==> r is Ok,
    ;

    /// The payload of a row. A store that cannot look rows up says nothing.
    fn read_payload(&self, table: &str, pk: &str) -> (r: Result<Option<Vec<u8>>, StorageError>)
        ensures
            r is Ok && r->Ok_0 is Some ==> self.state().rows.contains_key((table@, pk@))
                && self.state().rows[(table@, pk@)].0 == r->Ok_0->0@,
            self.dependable() ==> r is Ok,
        default_ensures
            r == Ok::<Option<Vec<u8>>, StorageError>(None),
    {
        Ok(None)
    }

    /// Deletes rows of a table. A key without a row is passed over. Where the call
    /// fails, some of them may be gone.
    fn delete_pks(&mut self, table: &str, pks: &[String]) -> (r: Result<(), StorageError>)
        ensures
            r is Ok ==> final(self).state() == (StoreState {
                rows: rows_without(old(self).state().rows, table@, name_set(text_views(pks@))),
                ..old(self).state()
            }),
            exists|gone: Set<Seq<char>>| #[trigger]
                gone.subset_of(name_set(text_views(pks@))) && final(self).state() == (StoreState {
                    rows: rows_without(old(self).state().rows, table@, gone),
                    ..old(self).state()
                }),
            final(self).dependable() == old(self).dependable(),
            old(self).dependable() ==> r is Ok,
    ;

    /// Forgets everything: no rows, the checkpoint and the epoch at zero and no horizon,
    /// so that the next account starts from a full snapshot. Where the call fails, some
    /// of it may be forgotten.
    fn clear(&mut self) -> (r: Result<(), StorageError>)
        ensures
            r is Ok ==> final(self).state() == (StoreState {
                merging: old(self).state().merging,
                ..fresh_store()
            }),
            r is Err ==> partly_cleared(old(self).state(), final(self).state()),
            final(self).dependable() == old(self).dependable(),
            old(self).dependable() ==> r is Ok,
    ;
}

// ---- laws ----

/// The row under `key`.
pub open spec fn row_at(rows: RowMap, key: RowKey) -> Option<(Seq<u8>, u64)> {
    if rows.contains_key(key) {
        Some(rows[key])
    } else {
        None
    }
}

/// An operation from before what the row holds changes nothing, unless the table is
/// being replaced as a whole.
pub proof fn law_stale_operation_is_passed_over(
    merging: MergeTables,
    rows: RowMap,
    op: RowOpView,
    lsn: u64,
    replaced: Set<Seq<char>>,
)
    requires
        rows.contains_key((op.table, op.pk)),
        lsn < rows[(op.table, op.pk)].1,
        !replaced.contains(op.table),
    ensures
        op_applied(merging, rows, op, lsn, replaced) == rows,
{
}

/// A batch changes no row but those that its operations are on.
pub proof fn law_batch_touches_its_rows_only(
    merging: MergeTables,
    rows: RowMap,
    ops: Seq<(RowOpView, u64)>,
    replaced: Set<Seq<char>>,
    key: RowKey,
)
    requires
        forall|i: int| 0 <= i < ops.len() ==> ((#[trigger] ops[i]).0.table, ops[i].0.pk) != key,
    ensures
        row_at(ops_applied(merging, rows, ops, replaced), key) == row_at(rows, key),
    decreases ops.len(),
{
    if ops.len() > 0 {
        assert forall|i: int| 0 <= i < ops.drop_last().len() implies (
            (#[trigger] ops.drop_last()[i]).0.table,
            ops.drop_last()[i].0.pk,
        ) != key by {
            assert(ops[i].0.table == ops.drop_last()[i].0.table);
        }
        law_batch_touches_its_rows_only(merging, rows, ops.drop_last(), replaced, key);
        let last = ops[ops.len() - 1].0;
        assert((last.table, last.pk) != key);
    }
}

/// The payload that a row of a table gets when `p` arrives for one that holds `held`.
spec fn joined(merging: MergeTables, table: Seq<char>, held: Seq<u8>, p: Seq<u8>) -> Seq<u8> {
    if merging.or_sets.contains(table) {
        crate::crdt::merged_or_incoming(held, p)
    } else if merging.counters.contains(table) {
        crate::counter::merged_or_incoming(held, p)
    } else {
        p
    }
}

/// The payload of a row that may be missing.
spec fn held_in(cur: Option<(Seq<u8>, u64)>) -> Seq<u8> {
    match cur {
        Some(row) => row.0,
        None => seq![],
    }
}

/// What one operation makes of the row under `key`.
spec fn slot_after(
    merging: MergeTables,
    cur: Option<(Seq<u8>, u64)>,
    op: (RowOpView, u64),
    key: RowKey,
    replaced: Set<Seq<char>>,
) -> Option<(Seq<u8>, u64)> {
    if (op.0.table, op.0.pk) != key || !slot_admits(cur, op.1, key, replaced) {
        cur
    } else {
        match op.0.payload {
            Some(p) => Some((joined(merging, key.0, held_in(cur), p), op.1)),
            None => None,
        }
    }
}

spec fn slot_admits(
    cur: Option<(Seq<u8>, u64)>,
    lsn: u64,
    key: RowKey,
    replaced: Set<Seq<char>>,
) -> bool {
    replaced.contains(key.0) || level(cur) <= lsn
}

/// What the operations make of the row under `key`, from the first on.
spec fn slots_after(
    merging: MergeTables,
    cur: Option<(Seq<u8>, u64)>,
    ops: Seq<(RowOpView, u64)>,
    key: RowKey,
    replaced: Set<Seq<char>>,
) -> Option<(Seq<u8>, u64)>
    decreases ops.len(),
{
    if ops.len() == 0 {
        cur
    } else {
        slots_after(
            merging,
            slot_after(merging, cur, ops[0], key, replaced),
            ops.drop_first(),
            key,
            replaced,
        )
    }
}

proof fn lemma_slots_last(
    merging: MergeTables,
    cur: Option<(Seq<u8>, u64)>,
    ops: Seq<(RowOpView, u64)>,
    key: RowKey,
    replaced: Set<Seq<char>>,
)
    requires
        ops.len() > 0,
    ensures
        slots_after(merging, cur, ops, key, replaced) == slot_after(
            merging,
            slots_after(merging, cur, ops.drop_last(), key, replaced),
            ops.last(),
            key,
            replaced,
        ),
    decreases ops.len(),
{
    let rest = ops.drop_first();
    if rest.len() == 0 {
        assert(ops.drop_last() =~= seq![]);
        assert(rest =~= seq![]);
        reveal_with_fuel(slots_after, 2);
    } else {
        lemma_slots_last(
            merging,
            slot_after(merging, cur, ops[0], key, replaced),
            rest,
            key,
            replaced,
        );
        assert(rest.drop_last() =~= ops.drop_last().drop_first());
    }
}

proof fn lemma_slots(
    merging: MergeTables,
    rows: RowMap,
    ops: Seq<(RowOpView, u64)>,
    replaced: Set<Seq<char>>,
    key: RowKey,
)
    ensures
        row_at(ops_applied(merging, rows, ops, replaced), key) == slots_after(
            merging,
            row_at(rows, key),
            ops,
            key,
            replaced,
        ),
    decreases ops.len(),
{
    if ops.len() > 0 {
        lemma_slots(merging, rows, ops.drop_last(), replaced, key);
        lemma_slots_last(merging, row_at(rows, key), ops, key, replaced);
    }
}

/// The position of a row, or less than every position.
spec fn level(cur: Option<(Seq<u8>, u64)>) -> int {
    match cur {
        Some(row) => row.1 as int,
        None => -1,
    }
}

/// A row that is not above another one comes to the same, or the other one does not
/// sink.
proof fn lemma_levels(
    merging: MergeTables,
    a: Option<(Seq<u8>, u64)>,
    b: Option<(Seq<u8>, u64)>,
    ops: Seq<(RowOpView, u64)>,
    key: RowKey,
    replaced: Set<Seq<char>>,
)
    requires
        !replaced.contains(key.0),
        level(b) <= level(a),
    ensures
        slots_after(merging, a, ops, key, replaced) == slots_after(merging, b, ops, key, replaced)
            || level(slots_after(merging, a, ops, key, replaced)) >= level(a),
    decreases ops.len(),
{
    if ops.len() > 0 {
        let x = slot_after(merging, a, ops[0], key, replaced);
        let y = slot_after(merging, b, ops[0], key, replaced);
        if x != y {
            lemma_levels(merging, x, y, ops.drop_first(), key, replaced);
        }
    }
}

// ---- tables that are not merged ----

/// After a write the row is at least at its position, or everything before it is
/// forgotten; so it holds the write where it is at that very position at the end.
proof fn lemma_replay_replaced_payloads(
    merging: MergeTables,
    a: Option<(Seq<u8>, u64)>,
    x: Option<(Seq<u8>, u64)>,
    ops: Seq<(RowOpView, u64)>,
    key: RowKey,
    replaced: Set<Seq<char>>,
)
    requires
        !merging.or_sets.contains(key.0),
        !merging.counters.contains(key.0),
        !replaced.contains(key.0),
        slots_after(merging, a, ops, key, replaced) == x,
    ensures
        slots_after(merging, x, ops, key, replaced) == x,
    decreases ops.len(),
{
    if ops.len() > 0 {
        let op = ops[0];
        let rest = ops.drop_first();
        let a2 = slot_after(merging, a, op, key, replaced);
        let x2 = slot_after(merging, x, op, key, replaced);
        if x2 == x {
            lemma_replay_replaced_payloads(merging, a2, x, rest, key, replaced);
        } else if a2 != x2 {
            lemma_levels(merging, a2, x2, rest, key, replaced);
        }
    }
}

// ---- tables that are merged ----

/// Whether a table holds sets or counters.
pub open spec fn merged(merging: MergeTables, table: Seq<char>) -> bool {
    merging.or_sets.contains(table) || merging.counters.contains(table)
}

/// Whether a payload is what its table holds: a set, or a counter.
pub open spec fn readable(merging: MergeTables, table: Seq<char>, p: Seq<u8>) -> bool {
    if merging.or_sets.contains(table) {
        crate::crdt::read_set(p) is Ok
    } else {
        crate::counter::read_counter(p) is Ok
    }
}

/// Whether what was merged in a table reads back.
pub open spec fn merges_read_back(merging: MergeTables, table: Seq<char>) -> bool {
    if merging.or_sets.contains(table) {
        crate::crdt::merges_read_back()
    } else {
        crate::counter::merges_read_back()
    }
}

/// Whether every write of the operations on a row carries what its table holds.
pub open spec fn writes_readable(
    merging: MergeTables,
    ops: Seq<(RowOpView, u64)>,
    key: RowKey,
) -> bool {
    forall|i: int|
        0 <= i < ops.len() && (#[trigger] ops[i]).0.table == key.0 && ops[i].0.pk == key.1
            && ops[i].0.payload is Some ==> readable(merging, key.0, ops[i].0.payload->0)
}

proof fn lemma_joined(
    merging: MergeTables,
    table: Seq<char>,
    held: Seq<u8>,
    p: Seq<u8>,
    q: Seq<u8>,
)
    requires
        merged(merging, table),
        merges_read_back(merging, table),
        readable(merging, table, held),
        readable(merging, table, p),
        readable(merging, table, q),
    ensures
        readable(merging, table, joined(merging, table, held, p)),
        joined(merging, table, joined(merging, table, held, p), p) == joined(
            merging,
            table,
            held,
            p,
        ),
        joined(merging, table, joined(merging, table, held, p), q) == joined(
            merging,
            table,
            joined(merging, table, held, q),
            p,
        ),
{
    if merging.or_sets.contains(table) {
        crate::crdt::lemma_merging_on(held, p, q);
    } else {
        crate::counter::lemma_merging_on(held, p, q);
    }
}

/// Nothing is a set and a counter.
proof fn lemma_nothing_is_readable(merging: MergeTables, table: Seq<char>)
    ensures
        readable(merging, table, seq![]),
{
}

/// Whether a row has taken a payload in: merging it again changes nothing.
spec fn holds_payload(
    merging: MergeTables,
    table: Seq<char>,
    cur: Option<(Seq<u8>, u64)>,
    p: Seq<u8>,
) -> bool {
    cur is Some && joined(merging, table, held_in(cur), p) == held_in(cur)
}

/// What a row has taken in stays, unless the row comes to the same as another one.
proof fn lemma_taken_in(
    merging: MergeTables,
    a: Option<(Seq<u8>, u64)>,
    b: Option<(Seq<u8>, u64)>,
    ops: Seq<(RowOpView, u64)>,
    key: RowKey,
    replaced: Set<Seq<char>>,
    p: Seq<u8>,
)
    requires
        merged(merging, key.0),
        merges_read_back(merging, key.0),
        writes_readable(merging, ops, key),
        readable(merging, key.0, p),
        a is Some,
        readable(merging, key.0, held_in(a)),
        holds_payload(merging, key.0, a, p),
        replaced.contains(key.0) || level(b) <= level(a),
    ensures
        slots_after(merging, a, ops, key, replaced) == slots_after(merging, b, ops, key, replaced)
            || holds_payload(
            merging,
            key.0,
            slots_after(merging, a, ops, key, replaced),
            p,
        ),
    decreases ops.len(),
{
    if ops.len() > 0 {
        let op = ops[0];
        let rest = ops.drop_first();
        let x = slot_after(merging, a, op, key, replaced);
        let y = slot_after(merging, b, op, key, replaced);
        if x != y {
            assert forall|i: int|
                0 <= i < rest.len() && (#[trigger] rest[i]).0.table == key.0 && rest[i].0.pk
                    == key.1 && rest[i].0.payload is Some implies readable(
                merging,
                key.0,
                rest[i].0.payload->0,
            ) by {
                assert(rest[i] == ops[i + 1]);
            }
            if x != a {
                lemma_joined(merging, key.0, held_in(a), p, op.0.payload->0);
                lemma_joined(merging, key.0, held_in(a), op.0.payload->0, p);
            }
            lemma_taken_in(merging, x, y, rest, key, replaced, p);
        }
    }
}

proof fn lemma_replay_merged_payloads(
    merging: MergeTables,
    a: Option<(Seq<u8>, u64)>,
    x: Option<(Seq<u8>, u64)>,
    ops: Seq<(RowOpView, u64)>,
    key: RowKey,
    replaced: Set<Seq<char>>,
)
    requires
        merged(merging, key.0),
        merges_read_back(merging, key.0),
        writes_readable(merging, ops, key),
        readable(merging, key.0, held_in(a)),
        !replaced.contains(key.0),
        slots_after(merging, a, ops, key, replaced) == x,
    ensures
        slots_after(merging, x, ops, key, replaced) == x,
    decreases ops.len(),
{
    if ops.len() > 0 {
        let op = ops[0];
        let rest = ops.drop_first();
        let a2 = slot_after(merging, a, op, key, replaced);
        let x2 = slot_after(merging, x, op, key, replaced);
        assert forall|i: int|
            0 <= i < rest.len() && (#[trigger] rest[i]).0.table == key.0 && rest[i].0.pk == key.1
                && rest[i].0.payload is Some implies readable(
            merging,
            key.0,
            rest[i].0.payload->0,
        ) by {
            assert(rest[i] == ops[i + 1]);
        }
        lemma_nothing_is_readable(merging, key.0);
        if op.0.table == key.0 && op.0.pk == key.1 && op.0.payload is Some {
            lemma_joined(merging, key.0, held_in(a), op.0.payload->0, op.0.payload->0);
        }
        if x2 == x {
            lemma_replay_merged_payloads(merging, a2, x, rest, key, replaced);
        } else if a2 != x2 {
            lemma_levels(merging, a2, x2, rest, key, replaced);
            if slot_admits(a, op.1, key, replaced) {
                let p = op.0.payload->0;
                lemma_taken_in(merging, a2, x2, rest, key, replaced, p);
            }
        }
    }
}

/// In a table that is being replaced every operation counts, so replaying them leads
/// to the same row, by way of rows with the same payload.
proof fn lemma_replay_whole_table(
    merging: MergeTables,
    a: Option<(Seq<u8>, u64)>,
    b: Option<(Seq<u8>, u64)>,
    x: Option<(Seq<u8>, u64)>,
    ops: Seq<(RowOpView, u64)>,
    key: RowKey,
    replaced: Set<Seq<char>>,
)
    requires
        replaced.contains(key.0),
        merged(merging, key.0) ==> merges_read_back(merging, key.0) && writes_readable(
            merging,
            ops,
            key,
        ) && readable(merging, key.0, held_in(a)),
        slots_after(merging, a, ops, key, replaced) == x,
        b == x || (b is Some && x is Some && held_in(b) == held_in(x)),
    ensures
        slots_after(merging, b, ops, key, replaced) == x || (slots_after(
            merging,
            b,
            ops,
            key,
            replaced,
        ) == b && slots_after(merging, a, ops, key, replaced) == a),
    decreases ops.len(),
{
    if ops.len() > 0 {
        let op = ops[0];
        let rest = ops.drop_first();
        let a2 = slot_after(merging, a, op, key, replaced);
        let b2 = slot_after(merging, b, op, key, replaced);
        assert(merged(merging, key.0) ==> writes_readable(merging, rest, key)) by {
            if merged(merging, key.0) {
                assert forall|i: int|
                    0 <= i < rest.len() && (#[trigger] rest[i]).0.table == key.0 && rest[i].0.pk
                        == key.1 && rest[i].0.payload is Some implies readable(
                    merging,
                    key.0,
                    rest[i].0.payload->0,
                ) by {
                    assert(rest[i] == ops[i + 1]);
                }
            }
        }
        lemma_nothing_is_readable(merging, key.0);
        if (op.0.table, op.0.pk) != key {
            lemma_replay_whole_table(merging, a, b, x, rest, key, replaced);
        } else if a2 != b2 {
            let p = op.0.payload->0;
            lemma_joined(merging, key.0, held_in(a), p, p);
            lemma_taken_in(merging, a2, b2, rest, key, replaced, p);
            if slots_after(merging, a2, rest, key, replaced) != slots_after(
                merging,
                b2,
                rest,
                key,
                replaced,
            ) {
                lemma_replay_whole_table(merging, a2, b2, x, rest, key, replaced);
            }
        }
    }
}

/// Applying a batch a second time changes nothing, so a log may be replayed: the row
/// that is there after the first time is there after the second. In a table whose
/// payloads are merged this is said of rows and payloads that are what the table
/// holds, and rests on merges reading back.
pub proof fn law_replay_changes_nothing(
    merging: MergeTables,
    rows: RowMap,
    ops: Seq<(RowOpView, u64)>,
    replaced: Set<Seq<char>>,
)
    requires
        forall|i: int|
            0 <= i < ops.len() && #[trigger] merged(merging, ops[i].0.table) ==> replays(
                merging,
                rows,
                ops,
                (ops[i].0.table, ops[i].0.pk),
            ),
    ensures
        ops_applied(merging, ops_applied(merging, rows, ops, replaced), ops, replaced)
            == ops_applied(merging, rows, ops, replaced),
{
    let once = ops_applied(merging, rows, ops, replaced);
    let twice = ops_applied(merging, once, ops, replaced);
    assert forall|key: RowKey| #[trigger] row_at(twice, key) == row_at(once, key) by {
        if exists|i: int|
            0 <= i < ops.len() && ((#[trigger] ops[i]).0.table, ops[i].0.pk) == key {
            let i = choose|i: int|
                0 <= i < ops.len() && ((#[trigger] ops[i]).0.table, ops[i].0.pk) == key;
            assert(merged(merging, ops[i].0.table) ==> replays(merging, rows, ops, key));
            lemma_slots(merging, rows, ops, replaced, key);
            lemma_slots(merging, once, ops, replaced, key);
            let a = row_at(rows, key);
            let x = row_at(once, key);
            if replaced.contains(key.0) {
                lemma_replay_whole_table(merging, a, x, x, ops, key, replaced);
            } else if merged(merging, key.0) {
                lemma_replay_merged_payloads(merging, a, x, ops, key, replaced);
            } else {
                lemma_replay_replaced_payloads(merging, a, x, ops, key, replaced);
            }
        } else {
            law_batch_touches_its_rows_only(merging, once, ops, replaced, key);
        }
    }
    assert forall|key: RowKey| #[trigger] twice.contains_key(key) == once.contains_key(key) by {
        assert(row_at(twice, key) == row_at(once, key));
    }
    assert forall|key: RowKey| #[trigger] twice.contains_key(key) implies twice[key]
        == once[key] by {
        assert(row_at(twice, key) == row_at(once, key));
    }
    assert(twice =~= once);
}

/// Whether a row of a merged table can be replayed: it holds what its table holds, as
/// every payload for it does, and merges read back.
pub open spec fn replays(
    merging: MergeTables,
    rows: RowMap,
    ops: Seq<(RowOpView, u64)>,
    key: RowKey,
) -> bool {
    &&& merges_read_back(merging, key.0)
    &&& readable(merging, key.0, held_payload(rows, key))
    &&& writes_readable(merging, ops, key)
}

/// Applying two batches one after the other is applying them as one.
pub proof fn law_batches_join(
    merging: MergeTables,
    rows: RowMap,
    a: Seq<(RowOpView, u64)>,
    b: Seq<(RowOpView, u64)>,
    replaced: Set<Seq<char>>,
)
    ensures
        ops_applied(merging, rows, a + b, replaced) == ops_applied(
            merging,
            ops_applied(merging, rows, a, replaced),
            b,
            replaced,
        ),
    decreases b.len(),
{
    if b.len() == 0 {
        assert(a + b =~= a);
    } else {
        assert((a + b).drop_last() =~= a + b.drop_last());
        law_batches_join(merging, rows, a, b.drop_last(), replaced);
    }
}

} // verus!
