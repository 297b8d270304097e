//! The client engine: an apply engine with what a client adds to it, which is its
//! own writes, the clock that stamps them, and the condition of its subscription.

use vstd::prelude::*;
use crate::apply::{
    by_position, committed, emptied, fed, feed_failed, feed_outcome, frame_ops, fresh_batch,
    outcome, retained, ApplyEngine, ApplyOutcome, Frame, DEFAULT_MAX_BATCH,
};
use crate::counter::{bumped, counter_delta_text, counter_json, entries_or_none, sorted_entries};
use crate::crdt::{element_views, render_set, set_json, OrSetElement};
use crate::events::RowOp;
use crate::hlc::{minted, Hlc};
use crate::in_memory::{payload_pairs, table_rows, InMemoryStorage};
use crate::json::json_text;
use crate::lsn::Lsn;
use crate::names::NameSet;
use crate::numbers::{decimal, decimal_text};
use crate::ordered::lists;
use crate::outbox::{
    fresh_ids, numbered, write_op_named, Outbox, PendingWrite, QueueState, WriteOp, WriteView,
};
use crate::storage::{
    fresh_store, name_set, op_views, MergeTables, Storage, StorageError, StoreState,
};
use crate::text::text_views;

verus! {

// ---- writes ----

/// The operation that a script names. Anything but an update or a delete counts as
/// an insert.
pub fn parse_op(s: &str) -> (r: crate::events::Operation)
    ensures
        r == script_operation(s@),
{
    let chars = crate::text::chars_of(s);
    let lower = crate::text::lower_chars(&chars);
    let name = crate::text::string_of(lower.as_slice());
    if crate::text::same_text(name.as_str(), "update") {
        crate::events::Operation::Update
    } else if crate::text::same_text(name.as_str(), "delete") {
        crate::events::Operation::Delete
    } else {
        crate::events::Operation::Insert
    }
}

/// The operation that a script names, in letters of either case.
pub open spec fn script_operation(s: Seq<char>) -> crate::events::Operation {
    if crate::text::lower(s) == "update"@ {
        crate::events::Operation::Update
    } else if crate::text::lower(s) == "delete"@ {
        crate::events::Operation::Delete
    } else {
        crate::events::Operation::Insert
    }
}

/// The write that adds an element to a set at the time `h`, or removes it.
pub open spec fn set_write(
    table: Seq<char>,
    pk: Seq<char>,
    element: Seq<char>,
    h: Hlc,
    remove: bool,
) -> WriteView {
    let stamp = if remove {
        (Hlc { wall_ms: 0, ctr: 0 }, Some(h))
    } else {
        (h, None)
    };
    WriteView {
        table,
        op: WriteOp::Upsert,
        pk,
        payload: Some(json_text(set_json(seq![(element, stamp)]))),
    }
}

/// The write that adds an element to a set at the time `h`, or removes it.
pub fn or_set_write(table: &str, pk: &str, element: &str, h: Hlc, remove: bool) -> (r: PendingWrite)
    ensures
        r@ == set_write(table@, pk@, element@, h, remove),
{
    let e = OrSetElement {
        v: element.to_owned(),
        h: if remove {
            Hlc::zero()
        } else {
            h
        },
        d: if remove {
            Some(h)
        } else {
            None
        },
    };
    let ghost view = (e.v@, (e.h, e.d));
    let mut elements: Vec<OrSetElement> = Vec::new();
    elements.push(e);
    assert(element_views(elements@) =~= seq![view]);
    PendingWrite {
        table: table.to_owned(),
        op: WriteOp::Upsert,
        pk: pk.to_owned(),
        payload_json: Some(render_set(&elements)),
    }
}

/// The text of a counter after a replica changed it.
pub open spec fn changed_counter(existing: Seq<u8>, replica: Seq<char>, delta: i64) -> Seq<char> {
    json_text(counter_json(sorted_entries(bumped(entries_or_none(existing), replica, delta))))
}

/// The write that changes a counter on behalf of a replica.
pub open spec fn counter_change(
    table: Seq<char>,
    pk: Seq<char>,
    existing: Seq<u8>,
    replica: Seq<char>,
    delta: i64,
) -> WriteView {
    WriteView {
        table,
        op: WriteOp::Upsert,
        pk,
        payload: Some(changed_counter(existing, replica, delta)),
    }
}

/// The write that changes a counter, which stands at `existing`, on behalf of a
/// replica.
pub fn counter_write(table: &str, pk: &str, existing: &[u8], replica: &str, delta: i64) -> (r:
    PendingWrite)
    ensures
        r@ == counter_change(table@, pk@, existing@, replica@, delta),
{
    PendingWrite {
        table: table.to_owned(),
        op: WriteOp::Upsert,
        pk: pk.to_owned(),
        payload_json: Some(counter_delta_text(existing, replica, delta)),
    }
}

/// One operation of a batch as a script gives it: any part may be missing.
#[derive(Debug)]
pub struct BatchOp {
    pub table: Option<String>,
    pub op: Option<String>,
    pub pk: Option<String>,
    pub payload_json: Option<String>,
}

/// The text of a text that may be missing.
pub open spec fn optional_view(s: Option<String>) -> Option<Seq<char>> {
    match s {
        Some(s) => Some(s@),
        None => None,
    }
}

/// The write of an operation of a batch, or what is wrong with the operation.
pub open spec fn batch_write(op: BatchOp) -> Result<WriteView, Seq<char>> {
    match op.table {
        None => Err("writeBatch: missing table"@),
        Some(table) => match op.op {
            None => Err("writeBatch: missing op"@),
            Some(name) => match op.pk {
                None => Err("writeBatch: missing pk"@),
                Some(pk) => match write_op_named(name@) {
                    None => Err(
                        "writeBatch: invalid op '"@ + name@ + "' (expected upsert|delete|patch)"@,
                    ),
                    Some(kind) => Ok(
                        WriteView {
                            table: table@,
                            op: kind,
                            pk: pk@,
                            payload: optional_view(op.payload_json),
                        },
                    ),
                },
            },
        },
    }
}

/// The writes of a batch, or what is wrong with the first operation that has none.
pub open spec fn batch_write_views(ops: Seq<BatchOp>) -> Result<Seq<WriteView>, Seq<char>>
    decreases ops.len(),
{
    if ops.len() == 0 {
        Ok(seq![])
    } else {
        match batch_write_views(ops.drop_last()) {
            Err(e) => Err(e),
            Ok(s) => match batch_write(ops.last()) {
                Err(e) => Err(e),
                Ok(w) => Ok(s.push(w)),
            },
        }
    }
}

/// The writes by their values.
pub open spec fn write_views(s: Seq<PendingWrite>) -> Seq<WriteView> {
    Seq::new(s.len(), |i: int| s[i]@)
}

/// The same text again, where there is one.
fn copy_text(s: &Option<String>) -> (r: Option<String>)
    ensures
        optional_view(r) == optional_view(*s),
{
    match s {
        Some(s) => Some(s.clone()),
        None => None,
    }
}

/// The write of an operation of a batch.
fn write_of_op(op: &BatchOp) -> (r: Result<PendingWrite, String>)
    ensures
        match batch_write(*op) {
            Ok(w) => r is Ok && r->Ok_0@ == w,
            Err(e) => r is Err && r->Err_0@ == e,
        },
{
    let table = match &op.table {
        Some(s) => s,
        None => {
            return Err("writeBatch: missing table".to_owned());
        },
    };
    let name = match &op.op {
        Some(s) => s,
        None => {
            return Err("writeBatch: missing op".to_owned());
        },
    };
    let pk = match &op.pk {
        Some(s) => s,
        None => {
            return Err("writeBatch: missing pk".to_owned());
        },
    };
    match WriteOp::from_wire_str(name.as_str()) {
        Some(kind) => Ok(
            PendingWrite {
                table: table.clone(),
                op: kind,
                pk: pk.clone(),
                payload_json: copy_text(&op.payload_json),
            },
        ),
        None => {
            let mut out: String = "writeBatch: invalid op '".to_owned();
            out.append(name.as_str());
            out.append("' (expected upsert|delete|patch)");
            Err(out)
        },
    }
}

proof fn lemma_batch_prefix(ops: Seq<BatchOp>, i: int)
    requires
        0 <= i <= ops.len(),
        batch_write_views(ops.take(i)) is Err,
    ensures
        batch_write_views(ops) == batch_write_views(ops.take(i)),
    decreases ops.len() - i,
{
    if i == ops.len() {
        assert(ops.take(i) =~= ops);
    } else {
        assert(ops.take(i + 1).drop_last() =~= ops.take(i));
        lemma_batch_prefix(ops, i + 1);
    }
}

/// The writes of a batch.
pub fn batch_writes(ops: &Vec<BatchOp>) -> (r: Result<Vec<PendingWrite>, String>)
    ensures
        match batch_write_views(ops@) {
            Ok(s) => r is Ok && write_views(r->Ok_0@) == s,
            Err(e) => r is Err && r->Err_0@ == e,
        },
{
    let mut out: Vec<PendingWrite> = Vec::new();
    let mut i: usize = 0;
    assert(ops@.take(0) =~= seq![]);
    assert(write_views(out@) =~= seq![]);
    while i < ops.len()
        invariant
            i <= ops@.len(),
            batch_write_views(ops@.take(i as int)) == Ok::<Seq<WriteView>, Seq<char>>(
                write_views(out@),
            ),
        decreases ops@.len() - i,
    {
        proof {
            assert(ops@.take(i + 1).drop_last() =~= ops@.take(i as int));
            assert(ops@.take(i + 1).last() == ops@[i as int]);
            if batch_write_views(ops@.take(i + 1)) is Err {
                lemma_batch_prefix(ops@, i + 1);
            }
        }
        let ghost before = write_views(out@);
        let w = match write_of_op(&ops[i]) {
            Ok(w) => w,
            Err(e) => {
                return Err(e);
            },
        };
        let ghost v = w@;
        out.push(w);
        assert(write_views(out@) =~= before.push(v));
        i += 1;
    }
    assert(ops@.take(i as int) =~= ops@);
    Ok(out)
}

/// The id of a replica that was made at the given time as the given one in its
/// process.
pub fn replica_id(now_ms: u64, seq: u64) -> (r: String)
    ensures
        r@ == "wasm-"@ + decimal(now_ms as nat) + "-"@ + decimal(seq as nat),
{
    let mut out: String = "wasm-".to_owned();
    let a = decimal_text(now_ms);
    out.append(a.as_str());
    out.append("-");
    let b = decimal_text(seq);
    out.append(b.as_str());
    out
}

// ---- the engine ----

/// The client engine.
pub struct NostosEngine<S> {
    inner: ApplyEngine<S>,
    where_sql: Option<String>,
    replica_id: String,
    hlc_state: Option<Hlc>,
}

/// What failed, and what the store says of it.
fn failed(what: &str, e: &StorageError) -> (r: String)
    ensures
        r@ == what@ + "storage backend error: "@ + e->Backend_0@,
{
    let mut out: String = what.to_owned();
    let text = e.to_text();
    out.append(text.as_str());
    out
}

/// The payload that a counter is changed from: nothing where none was read.
pub open spec fn changed_from(read: Option<Vec<u8>>) -> Seq<u8> {
    match read {
        Some(bytes) => bytes@,
        None => seq![],
    }
}

/// A store with a write shown in it.
pub open spec fn with_write<S: Outbox>(s: StoreState, w: WriteView) -> StoreState {
    StoreState { rows: S::showing(s, w), ..s }
}

/// A store with those of the writes shown in it that `shown` says.
pub open spec fn with_writes<S: Outbox>(
    s: StoreState,
    writes: Seq<WriteView>,
    shown: Seq<bool>,
) -> StoreState
    decreases writes.len(),
{
    if writes.len() == 0 {
        s
    } else {
        let before = with_writes::<S>(s, writes.drop_last(), shown);
        if shown[writes.len() - 1] {
            with_write::<S>(before, writes.last())
        } else {
            before
        }
    }
}

proof fn lemma_with_writes_prefix<S: Outbox>(
    s: StoreState,
    writes: Seq<WriteView>,
    shown: Seq<bool>,
    last: bool,
)
    requires
        writes.len() <= shown.len(),
    ensures
        with_writes::<S>(s, writes, shown.push(last)) == with_writes::<S>(s, writes, shown),
    decreases writes.len(),
{
    if writes.len() > 0 {
        lemma_with_writes_prefix::<S>(s, writes.drop_last(), shown, last);
    }
}

impl<S: Storage + Outbox> NostosEngine<S> {
    /// The apply engine inside.
    pub closed spec fn applying(&self) -> ApplyEngine<S> {
        self.inner
    }

    /// The store.
    pub open spec fn backing(&self) -> S {
        self.applying().backing()
    }

    /// The queue of the client's own writes.
    pub open spec fn waiting(&self) -> QueueState {
        self.backing().queue()
    }

    /// What the store beside the queue holds.
    pub open spec fn beside(&self) -> StoreState {
        self.backing().store()
    }

    /// Whether the write was queued under the id, and shown in the rows or left unshown.
    pub open spec fn recorded(&self, before: &Self, id: u64, w: WriteView) -> bool {
        &&& id > before.waiting().last_id
        &&& self.waiting() == (QueueState {
            waiting: before.waiting().waiting.push((id, w)),
            last_id: id,
        })
        &&& self.beside() == with_write::<S>(before.beside(), w) || self.beside()
            == before.beside()
    }

    /// Whether the last write of the queue is shown in the rows.
    pub open spec fn shows_last(&self, before: &Self) -> bool {
        self.beside() == with_write::<S>(before.beside(), self.waiting().waiting.last().1)
    }

    /// The condition of the next subscription.
    pub closed spec fn condition(&self) -> Option<Seq<char>> {
        optional_view(self.where_sql)
    }

    /// The id of this replica.
    pub closed spec fn replica(&self) -> Seq<char> {
        self.replica_id@
    }

    /// The last time that was given out.
    pub closed spec fn clock(&self) -> Option<Hlc> {
        self.hlc_state
    }

    /// An engine on a store, under the given replica id.
    pub fn with_storage(storage: S, replica_id: String) -> (r: Self)
        ensures
            r.backing() == storage,
            r.applying().batch() == fresh_batch(r.applying().batch().mark, DEFAULT_MAX_BATCH),
            r.applying().batch().mark == storage.state().checkpoint || r.applying().batch().mark
                == Lsn(0),
            storage.dependable() ==> r.applying().batch().mark == storage.state().checkpoint,
            r.condition() is None,
            r.replica() == replica_id@,
            r.clock() is None,
    {
        NostosEngine {
            inner: ApplyEngine::new(storage),
            where_sql: None,
            replica_id,
            hlc_state: None,
        }
    }

    /// Sets the condition of the next subscription. An empty one is none.
    pub fn set_where_sql(&mut self, sql: Option<String>)
        ensures
            final(self).condition() == (match sql {
                Some(s) => if s@.len() > 0 {
                    Some(s@)
                } else {
                    None
                },
                None => None,
            }),
            final(self).applying() == old(self).applying(),
            final(self).replica() == old(self).replica(),
            final(self).clock() == old(self).clock(),
    {
        self.where_sql = match sql {
            Some(s) => if s.as_str().is_empty() {
                None
            } else {
                Some(s)
            },
            None => None,
        };
    }

    /// The condition of the next subscription.
    pub fn where_sql(&self) -> (r: Option<String>)
        ensures
            optional_view(r) == self.condition(),
    {
        copy_text(&self.where_sql)
    }

    /// The id of this replica.
    pub fn replica_name(&self) -> (r: &str)
        ensures
            r@ == self.replica(),
    {
        self.replica_id.as_str()
    }

    /// The apply engine inside, to be fed and flushed.
    pub fn apply_engine(&mut self) -> (r: &mut ApplyEngine<S>)
        ensures
            *r == old(self).applying(),
            final(self).applying() == *final(r),
            final(self).condition() == old(self).condition(),
            final(self).replica() == old(self).replica(),
            final(self).clock() == old(self).clock(),
    {
        &mut self.inner
    }

    /// The store, to be read.
    pub fn held(&self) -> (r: &S)
        ensures
            *r == self.backing(),
    {
        self.inner.storage()
    }

    /// Takes a frame in.
    pub fn feed(&mut self, frame: Frame) -> (r: Result<Option<ApplyOutcome>, StorageError>)
        ensures
            r is Ok ==> r->Ok_0 == feed_outcome(old(self).applying().batch(), frame@) && fed(
                old(self).applying().batch(),
                old(self).applying().store(),
                frame@,
                final(self).applying().batch(),
                final(self).applying().store(),
            ),
            r is Err ==> final(self).applying().batch() == feed_failed(
                old(self).applying().batch(),
                frame@,
            ) && final(self).applying().store() == old(self).applying().store(),
            r == Ok::<Option<ApplyOutcome>, StorageError>(None) ==> final(self).backing()
                == old(self).backing(),
            r is Ok && r->Ok_0 is Some ==> exists|
                h: &mut S,
                ops: &[(RowOp, u64)],
                at: Lsn,
                tables: &NameSet,
                said: Result<(), StorageError>,
            | #[trigger]
                call_ensures(S::apply_batch, (h, ops, at, tables), said)
                    && at == r->Ok_0->0.checkpoint && *h == old(self).backing()
                    && *final(h) == final(self).backing() && said is Ok,
            r is Err ==> exists|
                h: &mut S,
                ops: &[(RowOp, u64)],
                at: Lsn,
                tables: &NameSet,
                said: Result<(), StorageError>,
            | #[trigger]
                call_ensures(S::apply_batch, (h, ops, at, tables), said)
                    && at == final(self).applying().batch().mark
                    && *final(h) == final(self).backing()
                    && op_views(ops@) == frame_ops(final(self).applying().batch().pending)
                    && said == Err::<(), StorageError>(r->Err_0),
            final(self).backing().dependable() == old(self).backing().dependable(),
            old(self).backing().dependable() ==> r is Ok,
            final(self).condition() == old(self).condition(),
            final(self).replica() == old(self).replica(),
            final(self).clock() == old(self).clock(),
    {
        self.inner.feed(frame)
    }

    /// Commits the frames that wait.
    pub fn flush(&mut self) -> (r: Result<Option<ApplyOutcome>, StorageError>)
        ensures
            old(self).applying().batch().pending.len() == 0 ==> r == Ok::<
                Option<ApplyOutcome>,
                StorageError,
            >(None) && final(self).applying().batch() == old(self).applying().batch()
                && final(self).backing() == old(self).backing(),
            old(self).applying().batch().pending.len() > 0 && r is Ok ==> r->Ok_0 == Some(
                outcome(old(self).applying().batch()),
            ) && committed(
                old(self).applying().batch(),
                old(self).applying().store(),
                final(self).applying().store(),
            ) && final(self).applying().batch() == emptied(old(self).applying().batch()),
            r is Err ==> final(self).applying().batch() == retained(
                old(self).applying().batch(),
            ) && final(self).applying().store() == old(self).applying().store(),
            old(self).applying().batch().pending.len() > 0 ==> exists|
                h: &mut S,
                ops: &[(RowOp, u64)],
                at: Lsn,
                tables: &NameSet,
                said: Result<(), StorageError>,
            | #[trigger]
                call_ensures(S::apply_batch, (h, ops, at, tables), said)
                    && at == old(self).applying().batch().mark && *h == old(self).backing()
                    && *final(h) == final(self).backing() && op_views(ops@) == frame_ops(
                    by_position(old(self).applying().batch().pending),
                ) && tables@ == old(self).applying().batch().windows.dom() && (said is Ok) == (
                r is Ok) && (r is Err ==> said == Err::<(), StorageError>(r->Err_0)),
            final(self).backing().dependable() == old(self).backing().dependable(),
            old(self).backing().dependable() ==> r is Ok,
            final(self).condition() == old(self).condition(),
            final(self).replica() == old(self).replica(),
            final(self).clock() == old(self).clock(),
    {
        self.inner.flush()
    }

    /// The position in the log that the store has got to, or zero where it cannot be
    /// read.
    pub fn checkpoint(&self) -> (r: u64)
        ensures
            r == self.applying().store().checkpoint.0 || r == 0,
            self.backing().dependable() ==> r == self.applying().store().checkpoint.0,
    {
        match self.inner.checkpoint() {
            Ok(lsn) => lsn.raw(),
            Err(_) => 0,
        }
    }

    /// Whether there is a next time to give out.
    pub fn can_mint(&self) -> (r: bool)
        ensures
            r == (self.clock() is Some ==> self.clock()->0.ctr < u32::MAX
                || self.clock()->0.wall_ms < u64::MAX),
    {
        match self.hlc_state {
            Some(h) => h.ctr < u32::MAX || h.wall_ms < u64::MAX,
            None => true,
        }
    }

    /// Gives out the next time, for a clock that stands at `now_ms`.
    pub fn mint_hlc(&mut self, now_ms: u64) -> (r: Hlc)
        requires
            old(self).clock() is Some ==> old(self).clock()->0.ctr < u32::MAX
                || old(self).clock()->0.wall_ms < u64::MAX,
        ensures
            r == minted(old(self).clock(), now_ms),
            final(self).clock() == Some(r),
            final(self).applying() == old(self).applying(),
            final(self).condition() == old(self).condition(),
            final(self).replica() == old(self).replica(),
    {
        let h = Hlc::mint(self.hlc_state, now_ms);
        self.hlc_state = Some(h);
        h
    }

    /// Queues a write and shows it locally. The write is kept even where it cannot
    /// be shown; the second part says whether the store took it.
    pub fn record(&mut self, write: PendingWrite) -> (r: Result<(u64, bool), StorageError>)
        requires
            old(self).waiting().last_id < u64::MAX,
        ensures
            r is Ok ==> r->Ok_0.0 > old(self).waiting().last_id && final(self).waiting() == (
            QueueState {
                waiting: old(self).waiting().waiting.push((r->Ok_0.0, write@)),
                last_id: r->Ok_0.0,
            }),
            r is Ok ==> final(self).beside() == old(self).beside() || final(self).beside()
                == with_write::<S>(old(self).beside(), write@),
            r is Ok && !r->Ok_0.1 ==> final(self).beside() == old(self).beside(),
            r is Err ==> final(self).waiting().waiting == old(self).waiting().waiting
                && final(self).beside() == old(self).beside(),
            r is Err ==> exists|h: &mut S, said: Result<u64, StorageError>| #[trigger]
                call_ensures(S::enqueue, (h, write), said) && *h == old(self).backing()
                    && *final(h) == final(self).backing() && (said matches Err(e) && e
                    == r->Err_0),
            r is Ok && old(self).backing().prompt() && (forall|
                h: &mut S,
                w: &PendingWrite,
                said: Result<(), StorageError>,
            | #[trigger]
                call_ensures(S::apply_local, (h, w), said) && said is Ok
                    ==> (*final(h)).store() == with_write::<S>((*h).store(), w@))
                ==> final(self).shows_last(old(self)),
            final(self).applying().batch() == old(self).applying().batch(),
            final(self).condition() == old(self).condition(),
            final(self).replica() == old(self).replica(),
            final(self).clock() == old(self).clock(),
            final(self).backing().prompt() == old(self).backing().prompt(),
            old(self).backing().prompt() ==> r is Ok && r->Ok_0.1,
    {
        let copy = write.clone();
        let id: u64 = match self.inner.storage_mut().enqueue(write) {
            Ok(id) => id,
            Err(e) => {
                return Err(e);
            },
        };
        let shown = match self.inner.storage_mut().apply_local(&copy) {
            Ok(_) => true,
            Err(_) => false,
        };
        Ok((id, shown))
    }

    /// Queues a batch of writes, all of them or none, and shows them locally.
    pub fn write_batch(&mut self, ops: Vec<BatchOp>) -> (r: Result<Vec<u64>, String>)
        requires
            old(self).waiting().last_id + ops@.len() <= u64::MAX,
        ensures
            match batch_write_views(ops@) {
                Err(e) => r is Err && r->Err_0@ == e && final(self).waiting() == old(self).waiting()
                    && final(self).beside() == old(self).beside(),
                Ok(writes) => {
                    &&& r is Ok ==> r->Ok_0@.len() == writes.len() && fresh_ids(
                        r->Ok_0@,
                        old(self).waiting().last_id,
                    ) && final(self).waiting().waiting == old(self).waiting().waiting + Seq::new(
                        writes.len(),
                        |i: int| (r->Ok_0@[i], writes[i]),
                    )
                    &&& r is Ok ==> exists|shown: Seq<bool>|
                        shown.len() == writes.len() && (old(self).backing().prompt() && (forall|
                                h: &mut S,
                                w: &PendingWrite,
                                said: Result<(), StorageError>,
                            | #[trigger]
                                call_ensures(S::apply_local, (h, w), said) && said is Ok
                                    ==> (*final(h)).store() == with_write::<S>((*h).store(), w@))
                ==> !shown.contains(false)) && final(self).beside()
                            == #[trigger] with_writes::<S>(old(self).beside(), writes, shown)
                    &&& r is Err ==> final(self).waiting().waiting == old(self).waiting().waiting
                        && final(self).beside() == old(self).beside()
                    &&& r is Err ==> exists|
                        h: &mut S,
                        w: Vec<PendingWrite>,
                        said: Result<Vec<u64>, StorageError>,
                    | #[trigger]
                        call_ensures(S::enqueue_batch, (h, w), said) && *h == old(self).backing()
                            && write_views(w@) == writes && (said matches Err(e) && r->Err_0@
                            == "writeBatch: enqueue: "@ + "storage backend error: "@
                            + e->Backend_0@)
                },
            },
            final(self).applying().batch() == old(self).applying().batch(),
            final(self).condition() == old(self).condition(),
            final(self).replica() == old(self).replica(),
            final(self).clock() == old(self).clock(),
            old(self).backing().prompt() && batch_write_views(ops@) is Ok ==> r is Ok,
    {
        let writes = match batch_writes(&ops) {
            Ok(w) => w,
            Err(e) => {
                return Err(e);
            },
        };
        proof {
            lemma_batch_len(ops@);
        }
        let ghost views = write_views(writes@);
        let mut copies: Vec<PendingWrite> = Vec::new();
        let mut i: usize = 0;
        while i < writes.len()
            invariant
                i <= writes@.len(),
                copies@.len() == i,
                forall|k: int| 0 <= k < i ==> (#[trigger] copies@[k])@ == writes@[k]@,
            decreases writes@.len() - i,
        {
            copies.push(writes[i].clone());
            i += 1;
        }
        let ids = match self.inner.storage_mut().enqueue_batch(writes) {
            Ok(ids) => ids,
            Err(e) => {
                return Err(failed("writeBatch: enqueue: ", &e));
            },
        };
        let ghost queued = self.waiting();
        proof {
            assert(numbered(ids@, writes@) =~= Seq::new(views.len(), |i: int| (ids@[i], views[i])));
        }
        let ghost mut shown: Seq<bool> = seq![];
        let mut k: usize = 0;
        assert(views.take(0) =~= seq![]);
        while k < copies.len()
            invariant
                k <= copies@.len(),
                copies@.len() == views.len(),
                forall|i: int| 0 <= i < copies@.len() ==> (#[trigger] copies@[i])@ == views[i],
                self.waiting() == queued,
                self.backing().prompt() == old(self).backing().prompt(),
                shown.len() == k,
                old(self).backing().prompt() && (forall|
                    h: &mut S,
                    w: &PendingWrite,
                    said: Result<(), StorageError>,
                | #[trigger]
                    call_ensures(S::apply_local, (h, w), said) && said is Ok
                        ==> (*final(h)).store() == with_write::<S>((*h).store(), w@))
                ==> !shown.contains(false),
                self.beside() == with_writes::<S>(
                    old(self).beside(),
                    views.take(k as int),
                    shown,
                ),
                self.applying().batch() == old(self).applying().batch(),
                self.condition() == old(self).condition(),
                self.replica() == old(self).replica(),
                self.clock() == old(self).clock(),
            decreases copies@.len() - k,
        {
            let ghost before = shown;
            let ghost held = self.beside();
            let _ = self.inner.storage_mut().apply_local(&copies[k]);
            proof {
                let ok = self.beside() == with_write::<S>(held, views[k as int]);
                shown = before.push(ok);
                assert(views.take(k + 1).drop_last() =~= views.take(k as int));
                lemma_with_writes_prefix::<S>(
                    old(self).beside(),
                    views.take(k as int),
                    before,
                    ok,
                );
                if !before.contains(false) && ok {
                    assert forall|i: int| 0 <= i < shown.len() implies shown[i] by {
                        if i < before.len() {
                            assert(before.contains(before[i]));
                        }
                    }
                }
            }
            k += 1;
        }
        assert(views.take(k as int) =~= views);
        Ok(ids)
    }

    /// Adds an element to a set, or removes it, at the time of a clock that stands at
    /// `now_ms`.
    fn or_set_op(&mut self, table: &str, pk: &str, element: &str, remove: bool, now_ms: u64) -> (r:
        Result<u64, String>)
        requires
            old(self).waiting().last_id < u64::MAX,
            old(self).clock() is Some ==> old(self).clock()->0.ctr < u32::MAX
                || old(self).clock()->0.wall_ms < u64::MAX,
        ensures
            final(self).clock() == Some(minted(old(self).clock(), now_ms)),
            r is Ok ==> final(self).recorded(
                old(self),
                r->Ok_0,
                set_write(table@, pk@, element@, minted(old(self).clock(), now_ms), remove),
            ),
            r is Err ==> final(self).waiting().waiting == old(self).waiting().waiting
                && final(self).beside() == old(self).beside(),
            r is Err ==> exists|
                h: &mut S,
                w: PendingWrite,
                said: Result<u64, StorageError>,
            | #[trigger]
                call_ensures(S::enqueue, (h, w), said) && *h == old(self).backing() && w@
                    == set_write(
                    table@,
                    pk@,
                    element@,
                    minted(old(self).clock(), now_ms),
                    remove,
                ) && (said matches Err(e) && r->Err_0@ == "orSetOp: enqueue: "@
                    + "storage backend error: "@ + e->Backend_0@),
            r is Ok && old(self).backing().prompt() && (forall|
                h: &mut S,
                w: &PendingWrite,
                said: Result<(), StorageError>,
            | #[trigger]
                call_ensures(S::apply_local, (h, w), said) && said is Ok
                    ==> (*final(h)).store() == with_write::<S>((*h).store(), w@))
                ==> final(self).shows_last(old(self)),
            final(self).applying().batch() == old(self).applying().batch(),
            final(self).condition() == old(self).condition(),
            final(self).replica() == old(self).replica(),
            final(self).backing().prompt() == old(self).backing().prompt(),
            old(self).backing().prompt() ==> r is Ok,
    {
        let h = self.mint_hlc(now_ms);
        let write = or_set_write(table, pk, element, h, remove);
        match self.record(write) {
            Ok(done) => Ok(done.0),
            Err(e) => Err(failed("orSetOp: enqueue: ", &e)),
        }
    }

    /// Adds an element to a set.
    pub fn or_set_add(&mut self, table: &str, pk: &str, element: &str, now_ms: u64) -> (r: Result<
        u64,
        String,
    >)
        requires
            old(self).waiting().last_id < u64::MAX,
            old(self).clock() is Some ==> old(self).clock()->0.ctr < u32::MAX
                || old(self).clock()->0.wall_ms < u64::MAX,
        ensures
            final(self).clock() == Some(minted(old(self).clock(), now_ms)),
            r is Ok ==> final(self).recorded(
                old(self),
                r->Ok_0,
                set_write(table@, pk@, element@, minted(old(self).clock(), now_ms), false),
            ),
            r is Err ==> final(self).waiting().waiting == old(self).waiting().waiting
                && final(self).beside() == old(self).beside(),
            r is Err ==> exists|
                h: &mut S,
                w: PendingWrite,
                said: Result<u64, StorageError>,
            | #[trigger]
                call_ensures(S::enqueue, (h, w), said) && *h == old(self).backing() && w@
                    == set_write(
                    table@,
                    pk@,
                    element@,
                    minted(old(self).clock(), now_ms),
                    false,
                ) && (said matches Err(e) && r->Err_0@ == "orSetOp: enqueue: "@
                    + "storage backend error: "@ + e->Backend_0@),
            old(self).backing().prompt() ==> r is Ok,
            r is Ok && old(self).backing().prompt() && (forall|
                h: &mut S,
                w: &PendingWrite,
                said: Result<(), StorageError>,
            | #[trigger]
                call_ensures(S::apply_local, (h, w), said) && said is Ok
                    ==> (*final(h)).store() == with_write::<S>((*h).store(), w@))
                ==> final(self).shows_last(old(self)),
            final(self).applying().batch() == old(self).applying().batch(),
            final(self).condition() == old(self).condition(),
            final(self).replica() == old(self).replica(),
    {
        self.or_set_op(table, pk, element, false, now_ms)
    }

    /// Removes an element from a set.
    pub fn or_set_remove(&mut self, table: &str, pk: &str, element: &str, now_ms: u64) -> (r:
        Result<u64, String>)
        requires
            old(self).waiting().last_id < u64::MAX,
            old(self).clock() is Some ==> old(self).clock()->0.ctr < u32::MAX
                || old(self).clock()->0.wall_ms < u64::MAX,
        ensures
            final(self).clock() == Some(minted(old(self).clock(), now_ms)),
            r is Ok ==> final(self).recorded(
                old(self),
                r->Ok_0,
                set_write(table@, pk@, element@, minted(old(self).clock(), now_ms), true),
            ),
            r is Err ==> final(self).waiting().waiting == old(self).waiting().waiting
                && final(self).beside() == old(self).beside(),
            r is Err ==> exists|
                h: &mut S,
                w: PendingWrite,
                said: Result<u64, StorageError>,
            | #[trigger]
                call_ensures(S::enqueue, (h, w), said) && *h == old(self).backing() && w@
                    == set_write(
                    table@,
                    pk@,
                    element@,
                    minted(old(self).clock(), now_ms),
                    true,
                ) && (said matches Err(e) && r->Err_0@ == "orSetOp: enqueue: "@
                    + "storage backend error: "@ + e->Backend_0@),
            old(self).backing().prompt() ==> r is Ok,
            r is Ok && old(self).backing().prompt() && (forall|
                h: &mut S,
                w: &PendingWrite,
                said: Result<(), StorageError>,
            | #[trigger]
                call_ensures(S::apply_local, (h, w), said) && said is Ok
                    ==> (*final(h)).store() == with_write::<S>((*h).store(), w@))
                ==> final(self).shows_last(old(self)),
            final(self).applying().batch() == old(self).applying().batch(),
            final(self).condition() == old(self).condition(),
            final(self).replica() == old(self).replica(),
    {
        self.or_set_op(table, pk, element, true, now_ms)
    }

    /// Changes a counter: reads what it stands at, changes this replica's entry, and
    /// queues the result.
    fn counter_op(&mut self, table: &str, pk: &str, delta: i64) -> (r: Result<u64, String>)
        requires
            old(self).waiting().last_id < u64::MAX,
        ensures
            r is Ok ==> exists|read: Option<Vec<u8>>| #[trigger]
                call_ensures(
                    S::read_payload,
                    (&old(self).backing(), table, pk),
                    Ok::<Option<Vec<u8>>, StorageError>(read),
                ) && final(self).recorded(
                    old(self),
                    r->Ok_0,
                    counter_change(
                        table@,
                        pk@,
                        changed_from(read),
                        old(self).replica(),
                        delta,
                    ),
                ),
            r is Err ==> final(self).waiting().waiting == old(self).waiting().waiting
                && final(self).beside() == old(self).beside(),
            r is Err ==> (exists|said: Result<Option<Vec<u8>>, StorageError>| #[trigger]
                call_ensures(S::read_payload, (&old(self).backing(), table, pk), said) && (
                said matches Err(e) && r->Err_0@ == "counter: read_payload: "@
                    + "storage backend error: "@ + e->Backend_0@)) || (exists|
                read: Option<Vec<u8>>,
                h: &mut S,
                w: PendingWrite,
                said: Result<u64, StorageError>,
            |
                #![trigger call_ensures(S::enqueue, (h, w), said), changed_from(read)]
                call_ensures(S::enqueue, (h, w), said) && *h == old(self).backing() && w@
                    == counter_change(
                    table@,
                    pk@,
                    changed_from(read),
                    old(self).replica(),
                    delta,
                ) && call_ensures(
                    S::read_payload,
                    (&old(self).backing(), table, pk),
                    Ok::<Option<Vec<u8>>, StorageError>(read),
                ) && (said matches Err(e) && r->Err_0@ == "counter: enqueue: "@
                    + "storage backend error: "@ + e->Backend_0@)),
            r is Ok && old(self).backing().prompt() && (forall|
                h: &mut S,
                w: &PendingWrite,
                said: Result<(), StorageError>,
            | #[trigger]
                call_ensures(S::apply_local, (h, w), said) && said is Ok
                    ==> (*final(h)).store() == with_write::<S>((*h).store(), w@))
                ==> final(self).shows_last(old(self)),
            final(self).applying().batch() == old(self).applying().batch(),
            final(self).clock() == old(self).clock(),
            final(self).backing().prompt() == old(self).backing().prompt(),
            old(self).backing().prompt() && old(self).backing().dependable() ==> r is Ok,
            final(self).condition() == old(self).condition(),
            final(self).replica() == old(self).replica(),
    {
        let read = match self.inner.storage().read_payload(table, pk) {
            Ok(p) => p,
            Err(e) => {
                return Err(failed("counter: read_payload: ", &e));
            },
        };
        let empty: Vec<u8> = Vec::new();
        let existing: &Vec<u8> = match &read {
            Some(bytes) => bytes,
            None => &empty,
        };
        assert(existing@ =~= (changed_from(read)));
        let write = counter_write(table, pk, existing.as_slice(), self.replica_id.as_str(), delta);
        match self.record(write) {
            Ok(done) => Ok(done.0),
            Err(e) => Err(failed("counter: enqueue: ", &e)),
        }
    }

    /// Adds to a counter.
    pub fn counter_increment(&mut self, table: &str, pk: &str, delta: i64) -> (r: Result<
        u64,
        String,
    >)
        requires
            old(self).waiting().last_id < u64::MAX,
        ensures
            r is Ok ==> exists|read: Option<Vec<u8>>| #[trigger]
                call_ensures(
                    S::read_payload,
                    (&old(self).backing(), table, pk),
                    Ok::<Option<Vec<u8>>, StorageError>(read),
                ) && final(self).recorded(
                    old(self),
                    r->Ok_0,
                    counter_change(
                        table@,
                        pk@,
                        changed_from(read),
                        old(self).replica(),
                        delta,
                    ),
                ),
            r is Err ==> final(self).waiting().waiting == old(self).waiting().waiting
                && final(self).beside() == old(self).beside(),
            r is Err ==> (exists|said: Result<Option<Vec<u8>>, StorageError>| #[trigger]
                call_ensures(S::read_payload, (&old(self).backing(), table, pk), said) && (
                said matches Err(e) && r->Err_0@ == "counter: read_payload: "@
                    + "storage backend error: "@ + e->Backend_0@)) || (exists|
                read: Option<Vec<u8>>,
                h: &mut S,
                w: PendingWrite,
                said: Result<u64, StorageError>,
            |
                #![trigger call_ensures(S::enqueue, (h, w), said), changed_from(read)]
                call_ensures(S::enqueue, (h, w), said) && *h == old(self).backing() && w@
                    == counter_change(
                    table@,
                    pk@,
                    changed_from(read),
                    old(self).replica(),
                    delta,
                ) && call_ensures(
                    S::read_payload,
                    (&old(self).backing(), table, pk),
                    Ok::<Option<Vec<u8>>, StorageError>(read),
                ) && (said matches Err(e) && r->Err_0@ == "counter: enqueue: "@
                    + "storage backend error: "@ + e->Backend_0@)),
            old(self).backing().prompt() && old(self).backing().dependable() ==> r is Ok,
            r is Ok && old(self).backing().prompt() && (forall|
                h: &mut S,
                w: &PendingWrite,
                said: Result<(), StorageError>,
            | #[trigger]
                call_ensures(S::apply_local, (h, w), said) && said is Ok
                    ==> (*final(h)).store() == with_write::<S>((*h).store(), w@))
                ==> final(self).shows_last(old(self)),
            final(self).applying().batch() == old(self).applying().batch(),
            final(self).condition() == old(self).condition(),
            final(self).replica() == old(self).replica(),
            final(self).clock() == old(self).clock(),
    {
        self.counter_op(table, pk, delta)
    }

    /// Takes from a counter.
    pub fn counter_decrement(&mut self, table: &str, pk: &str, delta: i64) -> (r: Result<
        u64,
        String,
    >)
        requires
            old(self).waiting().last_id < u64::MAX,
            delta > i64::MIN,
        ensures
            r is Ok ==> exists|read: Option<Vec<u8>>| #[trigger]
                call_ensures(
                    S::read_payload,
                    (&old(self).backing(), table, pk),
                    Ok::<Option<Vec<u8>>, StorageError>(read),
                ) && final(self).recorded(
                    old(self),
                    r->Ok_0,
                    counter_change(
                        table@,
                        pk@,
                        changed_from(read),
                        old(self).replica(),
                        (-delta) as i64,
                    ),
                ),
            r is Err ==> final(self).waiting().waiting == old(self).waiting().waiting
                && final(self).beside() == old(self).beside(),
            r is Err ==> (exists|said: Result<Option<Vec<u8>>, StorageError>| #[trigger]
                call_ensures(S::read_payload, (&old(self).backing(), table, pk), said) && (
                said matches Err(e) && r->Err_0@ == "counter: read_payload: "@
                    + "storage backend error: "@ + e->Backend_0@)) || (exists|
                read: Option<Vec<u8>>,
                h: &mut S,
                w: PendingWrite,
                said: Result<u64, StorageError>,
            |
                #![trigger call_ensures(S::enqueue, (h, w), said), changed_from(read)]
                call_ensures(S::enqueue, (h, w), said) && *h == old(self).backing() && w@
                    == counter_change(
                    table@,
                    pk@,
                    changed_from(read),
                    old(self).replica(),
                    (-delta) as i64,
                ) && call_ensures(
                    S::read_payload,
                    (&old(self).backing(), table, pk),
                    Ok::<Option<Vec<u8>>, StorageError>(read),
                ) && (said matches Err(e) && r->Err_0@ == "counter: enqueue: "@
                    + "storage backend error: "@ + e->Backend_0@)),
            old(self).backing().prompt() && old(self).backing().dependable() ==> r is Ok,
            r is Ok && old(self).backing().prompt() && (forall|
                h: &mut S,
                w: &PendingWrite,
                said: Result<(), StorageError>,
            | #[trigger]
                call_ensures(S::apply_local, (h, w), said) && said is Ok
                    ==> (*final(h)).store() == with_write::<S>((*h).store(), w@))
                ==> final(self).shows_last(old(self)),
            final(self).applying().batch() == old(self).applying().batch(),
            final(self).condition() == old(self).condition(),
            final(self).replica() == old(self).replica(),
            final(self).clock() == old(self).clock(),
    {
        self.counter_op(table, pk, -delta)
    }

    /// The number of waiting writes, or zero where they cannot be read.
    pub fn pending_count(&self) -> (r: u64)
        ensures
            r as nat == self.waiting().waiting.len() || r == 0,
            self.backing().prompt() ==> r as nat == self.waiting().waiting.len(),
    {
        match self.inner.storage().pending() {
            Ok(writes) => {
                let n: usize = writes.len();
                assert(crate::outbox::waiting_views(writes@).len() == n);
                n as u64
            },
            Err(_) => 0,
        }
    }

    /// The payload of a row.
    pub fn read_payload(&self, table: &str, pk: &str) -> (r: Result<
        Option<Vec<u8>>,
        StorageError,
    >)
        ensures
            call_ensures(S::read_payload, (&self.backing(), table, pk), r),
            r is Ok && r->Ok_0 is Some ==> self.applying().store().rows.contains_key(
                (table@, pk@),
            ) && self.applying().store().rows[(table@, pk@)].0 == r->Ok_0->0@,
            self.backing().dependable() ==> r is Ok,
    {
        self.inner.storage().read_payload(table, pk)
    }
}

impl NostosEngine<InMemoryStorage> {
    /// An engine on an empty store in memory.
    pub fn new(replica_id: String) -> (r: Self)
        ensures
            r.applying().store() == fresh_store(),
            r.waiting() == (QueueState { waiting: seq![], last_id: 0 }),
            r.applying().batch() == fresh_batch(Lsn(0), DEFAULT_MAX_BATCH),
            r.condition() is None,
            r.replica() == replica_id@,
            r.clock() is None,
    {
        Self::with_storage(InMemoryStorage::new(), replica_id)
    }

    /// The number of rows.
    pub fn row_count(&self) -> (r: usize)
        ensures
            r as nat == self.applying().store().rows.dom().len(),
    {
        self.inner.storage().row_count()
    }

    /// The rows of a table: primary keys and payloads, in the order of the keys.
    pub fn rows_for(&self, table: &str) -> (r: Vec<(String, Vec<u8>)>)
        ensures
            lists(payload_pairs(r@), table_rows(self.applying().store().rows, table@)),
    {
        self.inner.storage().rows_for(table)
    }

    /// Lets the given tables hold sets and counters.
    pub fn set_crdt_tables(&mut self, or_set: Vec<String>, counter: Vec<String>)
        ensures
            final(self).applying().store() == (StoreState {
                merging: MergeTables {
                    or_sets: name_set(text_views(or_set@)),
                    counters: name_set(text_views(counter@)),
                },
                ..old(self).applying().store()
            }),
            final(self).waiting() == old(self).waiting(),
            final(self).applying().batch() == old(self).applying().batch(),
            final(self).condition() == old(self).condition(),
            final(self).replica() == old(self).replica(),
            final(self).clock() == old(self).clock(),
    {
        let sets = NameSet::of(or_set.as_slice());
        let counters = NameSet::of(counter.as_slice());
        proof {
            assert(sets@ =~= name_set(text_views(or_set@)));
            assert(counters@ =~= name_set(text_views(counter@)));
        }
        self.inner.storage_mut().set_or_set_tables(sets);
        self.inner.storage_mut().set_counter_tables(counters);
    }

    /// The rows that a query selects: none, for a store in memory has no queries.
    pub fn query(&self, sql: &str) -> (r: String)
        ensures
            r@ == "[]"@,
    {
        "[]".to_owned()
    }

    /// Forgets the rows and the waiting writes, for the next account. Frames that
    /// wait for a commit stay.
    pub fn clear(&mut self)
        ensures
            final(self).applying().store() == (StoreState {
                merging: old(self).applying().store().merging,
                ..fresh_store()
            }),
            final(self).waiting() == (QueueState { waiting: seq![], ..old(self).waiting() }),
            final(self).applying().batch() == old(self).applying().batch(),
            final(self).condition() == old(self).condition(),
            final(self).replica() == old(self).replica(),
            final(self).clock() == old(self).clock(),
    {
        match self.inner.storage_mut().clear() {
            Ok(_) => {},
            Err(_) => {},
        }
        match self.inner.storage_mut().clear_outbox() {
            Ok(_) => {},
            Err(_) => {},
        }
        assert(self.waiting().waiting =~= seq![]);
    }
}

proof fn lemma_batch_len(ops: Seq<BatchOp>)
    ensures
        batch_write_views(ops) is Ok ==> batch_write_views(ops)->Ok_0.len() == ops.len(),
    decreases ops.len(),
{
    if ops.len() > 0 {
        lemma_batch_len(ops.drop_last());
    }
}

} // verus!
