//! A store and a queue in memory: the reference for what `Storage` and `Outbox`
//! promise.

use vstd::prelude::*;
use vstd::utf8::encode_utf8;
use crate::counter::merge_counter_or_lww;
use crate::crdt::merge_or_set_or_lww;
use crate::events::{RowOp, RowOpView};
use crate::lsn::Lsn;
use crate::names::{lists_names, NameSet};
use crate::ordered::{ascending, entries_map, lemma_entry, lists, Key, OrderedMap};
use crate::outbox::{
    numbered, waiting_views, without_id, Outbox, PendingWrite, QueueState, WriteOp, WriteView,
};
use crate::storage::{
    combined, fresh_store, held_payload, name_set, op_applied, op_views, ops_applied, rows_without,
    MergeTables, RowKey, RowMap, Storage, StorageError, StoreState,
};
use crate::text::{lemma_lex_irreflexive, lex_lt, same_text, text_views};

verus! {

/// A store and a queue in memory.
#[derive(Debug)]
pub struct InMemoryStorage {
    /// The payload of each row, and the position that it was written at.
    rows: OrderedMap<(String, String), (Vec<u8>, u64)>,
    checkpoint: Lsn,
    /// The waiting writes, oldest first.
    outbox: Vec<(u64, PendingWrite)>,
    /// The largest id that was given out.
    last_write_id: u64,
    or_set_tables: NameSet,
    counter_tables: NameSet,
    horizon: Option<String>,
}

/// The rows by their values.
spec fn row_views(m: Map<RowKey, (Vec<u8>, u64)>) -> RowMap {
    Map::new(|k: RowKey| m.contains_key(k), |k: RowKey| (m[k].0@, m[k].1))
}

/// The rows of a table: the payload under each primary key.
pub open spec fn table_rows(rows: RowMap, table: Seq<char>) -> Map<Seq<char>, Seq<u8>> {
    Map::new(
        |pk: Seq<char>| rows.contains_key((table, pk)),
        |pk: Seq<char>| rows[(table, pk)].0,
    )
}

/// The rows written out by their values.
pub open spec fn payload_pairs(s: Seq<(String, Vec<u8>)>) -> Seq<(Seq<char>, Seq<u8>)> {
    Seq::new(s.len(), |i: int| (s[i].0@, s[i].1@))
}

/// The bytes of a write's payload; a write without one stands for JSON's null.
pub open spec fn write_bytes(w: WriteView) -> Seq<u8> {
    match w.payload {
        Some(s) => encode_utf8(s),
        None => encode_utf8("null"@),
    }
}

/// The position that the row under `key` was written at, or zero.
pub open spec fn held_position(rows: RowMap, key: RowKey) -> u64 {
    if rows.contains_key(key) {
        rows[key].1
    } else {
        0
    }
}

/// The rows after a local write was shown in them. The row keeps its position, so that
/// the server's answer replaces what was shown.
pub open spec fn locally_applied(merging: MergeTables, rows: RowMap, w: WriteView) -> RowMap {
    let key = (w.table, w.pk);
    match w.op {
        WriteOp::Upsert => rows.insert(
            key,
            (combined(merging, rows, key, write_bytes(w)), held_position(rows, key)),
        ),
        WriteOp::Delete => rows.remove(key),
        WriteOp::Patch | WriteOp::Increment => rows,
    }
}

/// The payload that a row gets when `incoming` arrives for it.
fn combine(
    rows: &OrderedMap<(String, String), (Vec<u8>, u64)>,
    or_sets: &NameSet,
    counters: &NameSet,
    key: &(String, String),
    incoming: &[u8],
) -> (r: Vec<u8>)
    ensures
        r@ == combined(
            MergeTables { or_sets: or_sets@, counters: counters@ },
            row_views(rows@),
            (key.0@, key.1@),
            incoming@,
        ),
{
    let empty: Vec<u8> = Vec::new();
    let existing: &[u8] = match rows.get(key) {
        Some(row) => row.0.as_slice(),
        None => empty.as_slice(),
    };
    assert(existing@ =~= held_payload(row_views(rows@), (key.0@, key.1@)));
    if or_sets.contains(&key.0) {
        merge_or_set_or_lww(existing, incoming)
    } else if counters.contains(&key.0) {
        merge_counter_or_lww(existing, incoming)
    } else {
        vstd::slice::slice_to_vec(incoming)
    }
}

/// Applies one operation to the rows.
fn apply_op(
    rows: &mut OrderedMap<(String, String), (Vec<u8>, u64)>,
    or_sets: &NameSet,
    counters: &NameSet,
    op: &RowOp,
    lsn: u64,
    replaced: &NameSet,
)
    ensures
        row_views(final(rows)@) == op_applied(
            MergeTables { or_sets: or_sets@, counters: counters@ },
            row_views(old(rows)@),
            op@,
            lsn,
            replaced@,
        ),
{
    let ghost before = row_views(rows@);
    match op {
        RowOp::Insert { table, pk, payload } | RowOp::Update { table, pk, payload } => {
            let key = (table.clone(), pk.clone());
            let admitted = replaced.contains(table) || match rows.get(&key) {
                Some(row) => row.1 <= lsn,
                None => true,
            };
            if admitted {
                let bytes = combine(&*rows, or_sets, counters, &key, payload.as_slice());
                let ghost b = bytes@;
                rows.insert(key, (bytes, lsn));
                assert(row_views(rows@) =~= before.insert((table@, pk@), (b, lsn)));
            }
        },
        RowOp::Delete { table, pk } => {
            let key = (table.clone(), pk.clone());
            let admitted = replaced.contains(table) || match rows.get(&key) {
                Some(row) => row.1 <= lsn,
                None => true,
            };
            if admitted {
                rows.remove(&key);
                assert(row_views(rows@) =~= before.remove((table@, pk@)));
            }
        },
    }
}

impl InMemoryStorage {
    /// What the store holds.
    pub closed spec fn store_view(&self) -> StoreState {
        StoreState {
            rows: row_views(self.rows@),
            checkpoint: self.checkpoint,
            horizon: match self.horizon {
                Some(h) => Some(h@),
                None => None,
            },
            epoch: 0,
            rules_checksum: 0,
            merging: MergeTables {
                or_sets: self.or_set_tables@,
                counters: self.counter_tables@,
            },
        }
    }

    /// What the queue holds.
    pub closed spec fn queue_view(&self) -> QueueState {
        QueueState { waiting: waiting_views(self.outbox@), last_id: self.last_write_id }
    }

    /// An empty store and an empty queue.
    pub fn new() -> (r: Self)
        ensures
            r.store_view() == fresh_store(),
            r.queue_view() == (QueueState { waiting: seq![], last_id: 0 }),
    {
        let r = InMemoryStorage {
            rows: OrderedMap::new(),
            checkpoint: Lsn::zero(),
            outbox: Vec::new(),
            last_write_id: 0,
            or_set_tables: NameSet::new(),
            counter_tables: NameSet::new(),
            horizon: None,
        };
        assert(r.store_view().rows =~= fresh_store().rows);
        assert(r.queue_view().waiting =~= seq![]);
        r
    }

    /// The same store with the given tables holding sets.
    pub fn with_or_set_tables(self, tables: NameSet) -> (r: Self)
        ensures
            r.store_view() == (StoreState {
                merging: MergeTables { or_sets: tables@, ..self.store_view().merging },
                ..self.store_view()
            }),
            r.queue_view() == self.queue_view(),
    {
        let mut s = self;
        s.or_set_tables = tables;
        s
    }

    /// The same store with the given tables holding counters.
    pub fn with_counter_tables(self, tables: NameSet) -> (r: Self)
        ensures
            r.store_view() == (StoreState {
                merging: MergeTables { counters: tables@, ..self.store_view().merging },
                ..self.store_view()
            }),
            r.queue_view() == self.queue_view(),
    {
        let mut s = self;
        s.counter_tables = tables;
        s
    }

    /// Lets the given tables hold sets, and no others.
    pub fn set_or_set_tables(&mut self, tables: NameSet)
        ensures
            final(self).store_view() == (StoreState {
                merging: MergeTables { or_sets: tables@, ..old(self).store_view().merging },
                ..old(self).store_view()
            }),
            final(self).queue_view() == old(self).queue_view(),
    {
        self.or_set_tables = tables;
    }

    /// Lets the given tables hold counters, and no others.
    pub fn set_counter_tables(&mut self, tables: NameSet)
        ensures
            final(self).store_view() == (StoreState {
                merging: MergeTables { counters: tables@, ..old(self).store_view().merging },
                ..old(self).store_view()
            }),
            final(self).queue_view() == old(self).queue_view(),
    {
        self.counter_tables = tables;
    }

    /// The payload of a row.
    pub fn payload(&self, table: &str, pk: &str) -> (r: Option<&[u8]>)
        ensures
            r is Some <==> self.store_view().rows.contains_key((table@, pk@)),
            r is Some ==> r->0@ == self.store_view().rows[(table@, pk@)].0,
    {
        let key = (table.to_owned(), pk.to_owned());
        match self.rows.get(&key) {
            Some(row) => Some(row.0.as_slice()),
            None => None,
        }
    }

    /// The rows of a table: primary keys and payloads, in the order of the keys.
    pub fn rows_for(&self, table: &str) -> (r: Vec<(String, Vec<u8>)>)
        ensures
            lists(payload_pairs(r@), table_rows(self.store_view().rows, table@)),
    {
        let entries = self.rows.entries();
        let mut out: Vec<(String, Vec<u8>)> = Vec::new();
        let ghost mut from: Seq<int> = seq![];
        let mut i: usize = 0;
        while i < entries.len()
            invariant
                i <= entries@.len(),
                ascending(entries@),
                out@.len() == from.len(),
                forall|a: int| 0 <= a < from.len() ==> 0 <= #[trigger] from[a] < i,
                forall|a: int, b: int|
                    0 <= a < b < from.len() ==> #[trigger] from[a] < #[trigger] from[b],
                forall|a: int|
                    0 <= a < from.len() ==> entries@[#[trigger] from[a]].0.0@ == table@
                        && out@[a].0@ == entries@[from[a]].0.1@
                        && out@[a].1@ == entries@[from[a]].1.0@,
                forall|k: int|
                    0 <= k < i && (#[trigger] entries@[k]).0.0@ == table@ ==> from.contains(k),
            decreases entries@.len() - i,
        {
            let ghost then = from;
            let e = &entries[i];
            if same_text(e.0.0.as_str(), table) {
                out.push((e.0.1.clone(), crate::events::copy_bytes(&e.1.0)));
                proof {
                    from = from.push(i as int);
                    assert(from[from.len() - 1] == i);
                }
            }
            proof {
                assert forall|k: int|
                    0 <= k < i + 1 && (#[trigger] entries@[k]).0.0@
                        == table@ implies from.contains(k) by {
                    if k < i {
                        assert(then.contains(k));
                        let a = choose|a: int| 0 <= a < then.len() && then[a] == k;
                        assert(from[a] == k);
                    }
                }
            }
            i += 1;
        }
        proof {
            self.lemma_table_rows(entries@, from, payload_pairs(out@), table@);
        }
        out
    }

    proof fn lemma_table_rows(
        &self,
        entries: Seq<((String, String), (Vec<u8>, u64))>,
        from: Seq<int>,
        out: Seq<(Seq<char>, Seq<u8>)>,
        table: Seq<char>,
    )
        requires
            ascending(entries),
            entries_map(entries) == self.rows@,
            out.len() == from.len(),
            forall|a: int| 0 <= a < from.len() ==> 0 <= #[trigger] from[a] < entries.len(),
            forall|a: int, b: int|
                0 <= a < b < from.len() ==> #[trigger] from[a] < #[trigger] from[b],
            forall|a: int|
                0 <= a < from.len() ==> entries[#[trigger] from[a]].0.0@ == table && out[a].0
                    == entries[from[a]].0.1@ && out[a].1 == entries[from[a]].1.0@,
            forall|k: int|
                0 <= k < entries.len() && (#[trigger] entries[k]).0.0@ == table ==> from.contains(
                    k,
                ),
        ensures
            lists(out, table_rows(self.store_view().rows, table)),
    {
        let m = table_rows(self.store_view().rows, table);
        assert forall|a: int, b: int| 0 <= a < b < out.len() implies lex_lt(
            (#[trigger] out[a]).0,
            (#[trigger] out[b]).0,
        ) by {
            assert(from[a] < from[b]);
            let x = entries[from[a]].0;
            let y = entries[from[b]].0;
            assert(<(String, String)>::before(x.name(), y.name()));
            assert(x.0@ == table && y.0@ == table);
            lemma_lex_irreflexive(table);
        }
        assert forall|a: int| 0 <= a < out.len() implies m.contains_key((#[trigger] out[a]).0)
            && m[out[a].0] == out[a].1 by {
            assert(0 <= from[a] < entries.len());
            lemma_entry(entries, from[a]);
            assert(entries[from[a]].0.name() == (table, out[a].0));
        }
        assert forall|n: Seq<char>| #[trigger] m.contains_key(n) implies exists|a: int|
            0 <= a < out.len() && (#[trigger] out[a]).0 == n by {
            assert(self.rows@.contains_key((table, n)));
            let k = choose|k: int|
                0 <= k < entries.len() && (#[trigger] entries[k]).0.name() == (table, n);
            assert(entries[k].0.0@ == table);
            let a = choose|a: int| 0 <= a < from.len() && from[a] == k;
            assert(out[a].0 == n);
        }
    }

    /// The number of rows.
    pub fn row_count(&self) -> (r: usize)
        ensures
            self.store_view().rows.dom().finite(),
            r as nat == self.store_view().rows.dom().len(),
    {
        assert(self.store_view().rows.dom() =~= self.rows@.dom());
        self.rows.len()
    }

    /// The number of waiting writes.
    pub fn outbox_len(&self) -> (r: usize)
        ensures
            r as nat == self.queue_view().waiting.len(),
    {
        self.outbox.len()
    }
}

impl Default for InMemoryStorage {
    fn default() -> (r: Self)
        ensures
            r.store_view() == fresh_store(),
            r.queue_view() == (QueueState { waiting: seq![], last_id: 0 }),
    {
        InMemoryStorage::new()
    }
}

impl Storage for InMemoryStorage {
    open spec fn state(&self) -> StoreState {
        self.store_view()
    }

    open spec fn dependable(&self) -> bool {
        true
    }

    fn checkpoint(&self) -> (r: Result<Lsn, StorageError>) {
        Ok(self.checkpoint)
    }

    fn apply_batch(
        &mut self,
        ops: &[(RowOp, u64)],
        checkpoint: Lsn,
        snapshot_tables: &NameSet,
    ) -> (r: Result<(), StorageError>)
        ensures
            final(self).queue_view() == old(self).queue_view(),
            final(self).state().checkpoint.0 == (if checkpoint.0 > old(self).state().checkpoint.0 {
                checkpoint.0
            } else {
                old(self).state().checkpoint.0
            }),
    {
        let ghost before = row_views(self.rows@);
        let ghost views = op_views(ops@);
        let ghost merging = MergeTables {
            or_sets: self.or_set_tables@,
            counters: self.counter_tables@,
        };
        let mut i: usize = 0;
        assert(views.take(0) =~= seq![]);
        while i < ops.len()
            invariant
                i <= ops@.len(),
                views == op_views(ops@),
                merging == (MergeTables {
                    or_sets: self.or_set_tables@,
                    counters: self.counter_tables@,
                }),
                self.or_set_tables == old(self).or_set_tables,
                self.counter_tables == old(self).counter_tables,
                self.checkpoint == old(self).checkpoint,
                self.horizon == old(self).horizon,
                self.outbox == old(self).outbox,
                self.last_write_id == old(self).last_write_id,
                row_views(self.rows@) == ops_applied(
                    merging,
                    before,
                    views.take(i as int),
                    snapshot_tables@,
                ),
            decreases ops@.len() - i,
        {
            proof {
                assert(views.take(i + 1).drop_last() =~= views.take(i as int));
                assert(views.take(i + 1).last() == (ops@[i as int].0@, ops@[i as int].1));
            }
            apply_op(
                &mut self.rows,
                &self.or_set_tables,
                &self.counter_tables,
                &ops[i].0,
                ops[i].1,
                snapshot_tables,
            );
            i += 1;
        }
        assert(views.take(i as int) =~= views);
        if checkpoint.0 > self.checkpoint.0 {
            self.checkpoint = checkpoint;
        }
        Ok(())
    }

    fn pks_for_table(&self, table: &str) -> (r: Result<Vec<String>, StorageError>)
        ensures
            r is Ok ==> lists_names(
                text_views(r->Ok_0@),
                crate::storage::table_pks(self.state().rows, table@),
            ),
    {
        let rows = self.rows_for(table);
        let ghost s = payload_pairs(rows@);
        let mut out: Vec<String> = Vec::new();
        let mut i: usize = 0;
        while i < rows.len()
            invariant
                i <= rows@.len(),
                s == payload_pairs(rows@),
                out@.len() == i,
                forall|k: int| 0 <= k < i ==> #[trigger] out@[k]@ == s[k].0,
            decreases rows@.len() - i,
        {
            out.push(rows[i].0.clone());
            i += 1;
        }
        proof {
            let names = text_views(out@);
            let m = table_rows(self.state().rows, table@);
            assert forall|a: int, b: int| 0 <= a < b < names.len() implies lex_lt(
                #[trigger] names[a],
                #[trigger] names[b],
            ) by {
                assert(out@[a]@ == s[a].0 && out@[b]@ == s[b].0);
            }
            assert forall|n: Seq<char>| #[trigger] names.contains(n) <==> m.contains_key(n) by {
                if names.contains(n) {
                    let k = choose|k: int| 0 <= k < names.len() && names[k] == n;
                    assert(out@[k]@ == s[k].0);
                    assert(m.contains_key(s[k].0));
                }
                if m.contains_key(n) {
                    let k = choose|k: int| 0 <= k < s.len() && (#[trigger] s[k]).0 == n;
                    assert(out@[k]@ == s[k].0);
                    assert(names[k] == n);
                }
            }
            assert forall|a: int, b: int| 0 <= a < names.len() && 0 <= b < names.len() && a
                != b implies names[a] != names[b] by {
                lemma_lex_irreflexive(names[a]);
                if a < b {
                    assert(lex_lt(names[a], names[b]));
                } else {
                    assert(lex_lt(names[b], names[a]));
                }
            }
        }
        Ok(out)
    }

    fn read_payload(&self, table: &str, pk: &str) -> (r: Result<Option<Vec<u8>>, StorageError>)
        ensures
            r is Ok,
            r->Ok_0 is Some <==> self.state().rows.contains_key((table@, pk@)),
    {
        let key = (table.to_owned(), pk.to_owned());
        match self.rows.get(&key) {
            Some(row) => Ok(Some(crate::events::copy_bytes(&row.0))),
            None => Ok(None),
        }
    }

    fn delete_pks(&mut self, table: &str, pks: &[String]) -> (r: Result<(), StorageError>)
        ensures
            final(self).queue_view() == old(self).queue_view(),
    {
        let ghost before = row_views(self.rows@);
        let ghost names = text_views(pks@);
        let mut i: usize = 0;
        assert(rows_without(before, table@, name_set(names.take(0))) =~= before);
        while i < pks.len()
            invariant
                i <= pks@.len(),
                names == text_views(pks@),
                self.or_set_tables == old(self).or_set_tables,
                self.counter_tables == old(self).counter_tables,
                self.checkpoint == old(self).checkpoint,
                self.horizon == old(self).horizon,
                self.outbox == old(self).outbox,
                self.last_write_id == old(self).last_write_id,
                row_views(self.rows@) == rows_without(
                    before,
                    table@,
                    name_set(names.take(i as int)),
                ),
            decreases pks@.len() - i,
        {
            let ghost then = row_views(self.rows@);
            let key = (table.to_owned(), pks[i].clone());
            self.rows.remove(&key);
            proof {
                let a = names.take(i as int);
                let b = names.take(i + 1);
                assert forall|n: Seq<char>| #[trigger] b.contains(n) <==> (a.contains(n) || n
                    == names[i as int]) by {
                    if a.contains(n) {
                        let k = choose|k: int| 0 <= k < a.len() && a[k] == n;
                        assert(b[k] == n);
                    }
                    if b.contains(n) {
                        let k = choose|k: int| 0 <= k < b.len() && b[k] == n;
                        if k < i {
                            assert(a[k] == n);
                        }
                    }
                    assert(b[i as int] == names[i as int]);
                }
                assert(row_views(self.rows@) =~= then.remove((table@, names[i as int])));
                assert(row_views(self.rows@) =~= rows_without(before, table@, name_set(b)));
            }
            i += 1;
        }
        assert(names.take(i as int) =~= names);
        assert(name_set(names).subset_of(name_set(names)));
        Ok(())
    }

    fn horizon(&self) -> (r: Result<Option<String>, StorageError>)
        ensures
            r is Ok,
            r->Ok_0 is Some <==> self.state().horizon is Some,
    {
        match &self.horizon {
            Some(h) => Ok(Some(h.clone())),
            None => Ok(None),
        }
    }

    fn save_horizon(&mut self, horizon: &str) -> (r: Result<(), StorageError>)
        ensures
            final(self).state().horizon == Some(horizon@),
            final(self).queue_view() == old(self).queue_view(),
    {
        self.horizon = Some(horizon.to_owned());
        Ok(())
    }

    fn clear(&mut self) -> (r: Result<(), StorageError>)
        ensures
            final(self).queue_view() == (QueueState { waiting: seq![], ..old(self).queue_view() }),
    {
        self.rows = OrderedMap::new();
        self.checkpoint = Lsn::zero();
        self.horizon = None;
        self.outbox = Vec::new();
        proof {
            assert(self.state().rows =~= fresh_store().rows);
            assert(self.queue_view().waiting =~= seq![]);
        }
        Ok(())
    }
}

impl Outbox for InMemoryStorage {
    open spec fn queue(&self) -> QueueState {
        self.queue_view()
    }

    open spec fn store(&self) -> StoreState {
        self.store_view()
    }

    open spec fn showing(s: StoreState, w: WriteView) -> RowMap {
        locally_applied(s.merging, s.rows, w)
    }

    open spec fn prompt(&self) -> bool {
        true
    }

    fn enqueue(&mut self, write: PendingWrite) -> (r: Result<u64, StorageError>)
        ensures
            r == Ok::<u64, StorageError>((old(self).queue().last_id + 1) as u64),
    {
        let ghost before = waiting_views(self.outbox@);
        let ghost w = write@;
        self.last_write_id = self.last_write_id + 1;
        let id: u64 = self.last_write_id;
        self.outbox.push((id, write));
        assert(waiting_views(self.outbox@) =~= before.push((id, w)));
        Ok(id)
    }

    fn enqueue_batch(&mut self, writes: Vec<PendingWrite>) -> (r: Result<Vec<u64>, StorageError>)
        ensures
            writes@.len() == 0 ==> final(self).queue().last_id == old(self).queue().last_id,
    {
        let ghost before = waiting_views(self.outbox@);
        let ghost start = self.last_write_id;
        let mut ids: Vec<u64> = Vec::new();
        let mut i: usize = 0;
        proof {
            assert(before + numbered(seq![], seq![]) =~= before);
            assert(writes@.take(0) =~= seq![]);
        }
        while i < writes.len()
            invariant
                i <= writes@.len(),
                start + writes@.len() <= u64::MAX,
                self.last_write_id == start + i,
                self.rows == old(self).rows,
                self.or_set_tables == old(self).or_set_tables,
                self.counter_tables == old(self).counter_tables,
                self.checkpoint == old(self).checkpoint,
                self.horizon == old(self).horizon,
                ids@.len() == i,
                forall|k: int| 0 <= k < i ==> #[trigger] ids@[k] == start + k + 1,
                waiting_views(self.outbox@) == before + numbered(ids@, writes@.take(i as int)),
            decreases writes@.len() - i,
        {
            let ghost then = waiting_views(self.outbox@);
            let ghost given = ids@;
            self.last_write_id = self.last_write_id + 1;
            let id: u64 = self.last_write_id;
            self.outbox.push((id, writes[i].clone()));
            ids.push(id);
            proof {
                assert(waiting_views(self.outbox@) =~= then.push((id, writes@[i as int]@)));
                assert(numbered(ids@, writes@.take(i + 1)) =~= numbered(
                    given,
                    writes@.take(i as int),
                ).push((id, writes@[i as int]@)));
                assert(waiting_views(self.outbox@) =~= before + numbered(
                    ids@,
                    writes@.take(i + 1),
                ));
            }
            i += 1;
        }
        assert(writes@.take(i as int) =~= writes@);
        Ok(ids)
    }

    fn pending(&self) -> (r: Result<Vec<(u64, PendingWrite)>, StorageError>) {
        let mut out: Vec<(u64, PendingWrite)> = Vec::new();
        let mut i: usize = 0;
        while i < self.outbox.len()
            invariant
                i <= self.outbox@.len(),
                out@.len() == i,
                forall|k: int|
                    0 <= k < i ==> (#[trigger] out@[k]).0 == self.outbox@[k].0 && out@[k].1@
                        == self.outbox@[k].1@,
            decreases self.outbox@.len() - i,
        {
            let e = &self.outbox[i];
            out.push((e.0, e.1.clone()));
            i += 1;
        }
        assert(waiting_views(out@) =~= waiting_views(self.outbox@));
        Ok(out)
    }

    fn mark_done(&mut self, id: u64) -> (r: Result<(), StorageError>) {
        let ghost views = waiting_views(self.outbox@);
        let mut kept: Vec<(u64, PendingWrite)> = Vec::new();
        let mut i: usize = 0;
        assert(views.take(0) =~= seq![]);
        assert(waiting_views(kept@) =~= seq![]);
        while i < self.outbox.len()
            invariant
                i <= self.outbox@.len(),
                *self == *old(self),
                views == waiting_views(self.outbox@),
                waiting_views(kept@) == without_id(views.take(i as int), id),
            decreases self.outbox@.len() - i,
        {
            let ghost then = waiting_views(kept@);
            proof {
                assert(views.take(i + 1).drop_last() =~= views.take(i as int));
                assert(views.take(i + 1).last() == views[i as int]);
            }
            let e = &self.outbox[i];
            if e.0 != id {
                kept.push((e.0, e.1.clone()));
                assert(waiting_views(kept@) =~= then.push(views[i as int]));
            }
            i += 1;
        }
        assert(views.take(i as int) =~= views);
        self.outbox = kept;
        Ok(())
    }

    fn apply_local(&mut self, write: &PendingWrite) -> (r: Result<(), StorageError>)
        ensures
            r is Ok,
            final(self).store() == (StoreState {
                rows: Self::showing(old(self).store(), write@),
                ..old(self).store()
            }),
    {
        let ghost before = row_views(self.rows@);
        let key = (write.table.clone(), write.pk.clone());
        match write.op {
            WriteOp::Upsert => {
                let incoming: Vec<u8> = match &write.payload_json {
                    Some(s) => s.as_str().as_bytes_vec(),
                    None => "null".as_bytes_vec(),
                };
                let bytes = combine(
                    &self.rows,
                    &self.or_set_tables,
                    &self.counter_tables,
                    &key,
                    incoming.as_slice(),
                );
                let position: u64 = match self.rows.get(&key) {
                    Some(row) => row.1,
                    None => 0,
                };
                let ghost b = bytes@;
                self.rows.insert(key, (bytes, position));
                assert(row_views(self.rows@) =~= before.insert(
                    (write.table@, write.pk@),
                    (b, position),
                ));
            },
            WriteOp::Delete => {
                self.rows.remove(&key);
                assert(row_views(self.rows@) =~= before.remove((write.table@, write.pk@)));
            },
            WriteOp::Patch | WriteOp::Increment => {},
        }
        Ok(())
    }

    fn clear_outbox(&mut self) -> (r: Result<(), StorageError>)
        ensures
            final(self).queue().last_id == old(self).queue().last_id,
    {
        self.outbox = Vec::new();
        Ok(())
    }
}

/// A row that was written locally is there at once, and shows what was written; in a
/// table whose payloads are merged, what was written together with what was there.
pub proof fn law_local_write_shows(merging: MergeTables, rows: RowMap, w: WriteView)
    requires
        w.op == WriteOp::Upsert,
    ensures
        locally_applied(merging, rows, w).contains_key((w.table, w.pk)),
        locally_applied(merging, rows, w)[(w.table, w.pk)].0 == (if merging.or_sets.contains(
            w.table,
        ) {
            crate::crdt::merged_or_incoming(held_payload(rows, (w.table, w.pk)), write_bytes(w))
        } else if merging.counters.contains(w.table) {
            crate::counter::merged_or_incoming(held_payload(rows, (w.table, w.pk)), write_bytes(w))
        } else {
            write_bytes(w)
        }),
{
}

/// What the server sends for a row replaces what a local write showed there, where it
/// is from no earlier than what the row held before the write.
pub proof fn law_echo_replaces_local_write(
    merging: MergeTables,
    rows: RowMap,
    w: WriteView,
    op: RowOpView,
    lsn: u64,
    replaced: Set<Seq<char>>,
)
    requires
        w.op == WriteOp::Upsert,
        op.table == w.table,
        op.pk == w.pk,
        rows.contains_key((w.table, w.pk)) ==> rows[(w.table, w.pk)].1 <= lsn,
    ensures
        ({
            let key = (w.table, w.pk);
            let shown = locally_applied(merging, rows, w);
            let after = op_applied(merging, shown, op, lsn, replaced);
            match op.payload {
                Some(incoming) => after.contains_key(key) && after[key] == (
                    combined(merging, shown, key, incoming),
                    lsn,
                ),
                None => !after.contains_key(key),
            }
        }),
        op.payload is Some && !merging.or_sets.contains(w.table) && !merging.counters.contains(
            w.table,
        ) ==> op_applied(merging, locally_applied(merging, rows, w), op, lsn, replaced)[(
            w.table,
            w.pk,
        )].0 == op.payload->0,
{
}

/// A row that was deleted locally is gone.
pub proof fn law_local_delete_hides(merging: MergeTables, rows: RowMap, w: WriteView)
    requires
        w.op == WriteOp::Delete,
    ensures
        !locally_applied(merging, rows, w).contains_key((w.table, w.pk)),
{
}

/// A local write leaves every other row as it was.
pub proof fn law_local_write_touches_one_row(
    merging: MergeTables,
    rows: RowMap,
    w: WriteView,
    key: RowKey,
)
    requires
        key != (w.table, w.pk),
    ensures
        locally_applied(merging, rows, w).contains_key(key) == rows.contains_key(key),
        rows.contains_key(key) ==> locally_applied(merging, rows, w)[key] == rows[key],
{
}

} // verus!
