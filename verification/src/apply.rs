//! From a stream of replication frames to commits: frames are gathered up to the
//! end of their transaction, or up to a soft cap where they belong to none, and
//! committed to a store together.

use vstd::prelude::*;
use crate::events::{copy_bytes, Operation, RowOp, RowOpView};
use crate::lsn::Lsn;
use crate::names::NameSet;
use crate::ordered::{pairs, OrderedMap};
use crate::sorting::{
    in_order, key_names, lemma_order_exists, order_by, order_of, placed, positions,
};
use crate::storage::{
    advanced, merged, name_set, op_views, ops_applied, replays, rows_without, table_pks,
    MergeTables, RowKey, RowMap, Storage, StorageError, StoreState,
};
use crate::text::text_views;

verus! {

/// One replicated row.
#[derive(Debug, PartialEq, Eq)]
pub struct Frame {
    /// The position in the log.
    pub lsn: u64,
    pub op: Operation,
    pub table: String,
    pub pk: String,
    /// The row; nothing for a delete.
    pub payload: Option<Vec<u8>>,
    /// The transaction. Frames of one transaction are committed together.
    pub txn_id: Option<u64>,
}

/// A frame by its values.
#[verifier::ext_equal]
pub struct FrameView {
    pub lsn: u64,
    pub op: Operation,
    pub table: Seq<char>,
    pub pk: Seq<char>,
    pub payload: Option<Seq<u8>>,
    pub txn_id: Option<u64>,
}

impl View for Frame {
    type V = FrameView;

    open spec fn view(&self) -> FrameView {
        FrameView {
            lsn: self.lsn,
            op: self.op,
            table: self.table@,
            pk: self.pk@,
            payload: match self.payload {
                Some(p) => Some(p@),
                None => None,
            },
            txn_id: self.txn_id,
        }
    }
}

impl Clone for Frame {
    fn clone(&self) -> (r: Self)
        ensures
            r@ == self@,
    {
        let payload = match &self.payload {
            Some(p) => Some(copy_bytes(p)),
            None => None,
        };
        Frame {
            lsn: self.lsn,
            op: self.op,
            table: self.table.clone(),
            pk: self.pk.clone(),
            payload,
            txn_id: self.txn_id,
        }
    }
}

/// The operation of a frame on its row: an insert or update without a payload
/// writes an empty one, and a delete drops its payload.
pub open spec fn frame_op(f: FrameView) -> RowOpView {
    RowOpView {
        op: f.op,
        table: f.table,
        pk: f.pk,
        payload: match f.op {
            Operation::Delete => None,
            _ => match f.payload {
                Some(p) => Some(p),
                None => Some(seq![]),
            },
        },
    }
}

impl Frame {
    /// The operation of this frame on its row.
    pub fn into_row_op(self) -> (r: RowOp)
        ensures
            r@ == frame_op(self@),
    {
        let payload: Vec<u8> = match self.payload {
            Some(p) => p,
            None => Vec::new(),
        };
        match self.op {
            Operation::Insert => RowOp::Insert { table: self.table, pk: self.pk, payload },
            Operation::Update => RowOp::Update { table: self.table, pk: self.pk, payload },
            Operation::Delete => RowOp::Delete { table: self.table, pk: self.pk },
        }
    }

    /// The position in the log.
    pub fn lsn(&self) -> (r: Lsn)
        ensures
            r == Lsn(self.lsn),
    {
        Lsn(self.lsn)
    }
}

/// What a commit did.
#[derive(Debug, Clone, Copy, PartialEq, Eq, Structural)]
pub struct ApplyOutcome {
    /// The position to confirm to the server.
    pub checkpoint: Lsn,
    /// The number of frames committed.
    pub rows_applied: usize,
}

/// How many frames without a transaction are gathered before a commit.
pub const DEFAULT_MAX_BATCH: usize = 256;

/// What an engine holds beside its store.
#[verifier::ext_equal]
pub struct BatchState {
    /// The frames that wait for a commit.
    pub pending: Seq<FrameView>,
    /// The transaction that is open.
    pub open: Option<u64>,
    /// The latest position seen.
    pub mark: Lsn,
    /// The soft cap.
    pub cap: usize,
    /// The tables that a snapshot is replacing, each with the rows that the snapshot
    /// has not confirmed yet.
    pub windows: Map<Seq<char>, Set<Seq<char>>>,
}

/// The positions of the frames.
pub open spec fn frame_positions(s: Seq<FrameView>) -> Seq<u64> {
    Seq::new(s.len(), |i: int| s[i].lsn)
}

/// The frames in the order of their positions, where equal positions keep their
/// order.
pub open spec fn by_position(s: Seq<FrameView>) -> Seq<FrameView> {
    in_order::<u64, FrameView>(s, frame_positions(s))
}

/// The operations of the frames, with their positions.
pub open spec fn frame_ops(s: Seq<FrameView>) -> Seq<(RowOpView, u64)> {
    Seq::new(s.len(), |i: int| (frame_op(s[i]), s[i].lsn))
}

/// The frames by their values.
pub open spec fn frame_views(s: Seq<Frame>) -> Seq<FrameView> {
    Seq::new(s.len(), |i: int| s[i]@)
}

/// What a commit of the waiting frames reports.
pub open spec fn outcome(b: BatchState) -> ApplyOutcome {
    ApplyOutcome { checkpoint: b.mark, rows_applied: b.pending.len() as usize }
}

/// Whether `s2` is the store `s` after a commit of the waiting frames: every one of
/// them is applied, and the checkpoint is at the mark of the batch, or stayed where it
/// was no earlier.
pub open spec fn committed(b: BatchState, s: StoreState, s2: StoreState) -> bool {
    &&& s2 == (StoreState {
        rows: ops_applied(
            s.merging,
            s.rows,
            frame_ops(by_position(b.pending)),
            b.windows.dom(),
        ),
        checkpoint: s2.checkpoint,
        ..s
    })
    &&& advanced(s.checkpoint, b.mark, s2.checkpoint)
}

/// The batch of an engine that has taken in no frame yet.
pub open spec fn fresh_batch(mark: Lsn, cap: usize) -> BatchState {
    BatchState { pending: seq![], open: None, mark, cap, windows: Map::empty() }
}

/// The batch after a commit.
pub open spec fn emptied(b: BatchState) -> BatchState {
    BatchState { pending: seq![], open: None, ..b }
}

/// The batch after a commit that failed: nothing is lost.
pub open spec fn retained(b: BatchState) -> BatchState {
    BatchState { pending: by_position(b.pending), ..b }
}

/// The windows after a row of a table was seen.
pub open spec fn confirmed(
    windows: Map<Seq<char>, Set<Seq<char>>>,
    table: Seq<char>,
    pk: Seq<char>,
) -> Map<Seq<char>, Set<Seq<char>>> {
    if windows.contains_key(table) {
        windows.insert(table, windows[table].remove(pk))
    } else {
        windows
    }
}

/// The batch after a frame was taken in.
pub open spec fn admitted(b: BatchState, f: FrameView) -> BatchState {
    BatchState {
        pending: b.pending.push(f),
        open: f.txn_id,
        mark: if b.mark.0 >= f.lsn {
            b.mark
        } else {
            Lsn(f.lsn)
        },
        windows: confirmed(b.windows, f.table, f.pk),
        ..b
    }
}

/// Whether a frame ends the open transaction, so that what waits is committed before
/// it is taken in.
pub open spec fn closes(b: BatchState, f: FrameView) -> bool {
    b.open != f.txn_id && b.pending.len() > 0
}

/// Whether a frame without a transaction fills the batch, so that it is committed
/// with what waits.
pub open spec fn fills(b: BatchState, f: FrameView) -> bool {
    f.txn_id is None && b.pending.len() + 1 >= b.cap
}

/// Whether feeding `f` brings the batch `b` and the store `s` to `b2` and `s2`.
pub open spec fn fed(
    b: BatchState,
    s: StoreState,
    f: FrameView,
    b2: BatchState,
    s2: StoreState,
) -> bool {
    if closes(b, f) {
        committed(b, s, s2) && b2 == admitted(emptied(b), f)
    } else if fills(b, f) {
        committed(admitted(b, f), s, s2) && b2 == emptied(admitted(b, f))
    } else {
        s2 == s && b2 == admitted(b, f)
    }
}

/// What feeding `f` reports.
pub open spec fn feed_outcome(b: BatchState, f: FrameView) -> Option<ApplyOutcome> {
    if closes(b, f) {
        Some(outcome(b))
    } else if fills(b, f) {
        Some(outcome(admitted(b, f)))
    } else {
        None
    }
}

/// The batch after feeding `f` failed: a frame that ended a transaction was not
/// taken in, and nothing that waited is lost.
pub open spec fn feed_failed(b: BatchState, f: FrameView) -> BatchState {
    if closes(b, f) {
        retained(b)
    } else {
        retained(admitted(b, f))
    }
}

/// Turns frames into commits on a store.
#[derive(Debug)]
pub struct ApplyEngine<S> {
    storage: S,
    pending: Vec<Frame>,
    open_txn: Option<u64>,
    high_water: Lsn,
    max_batch: usize,
    snapshot_orphans: OrderedMap<String, NameSet>,
}

/// The windows by their values.
spec fn window_views(m: Map<Seq<char>, NameSet>) -> Map<Seq<char>, Set<Seq<char>>> {
    Map::new(|t: Seq<char>| m.contains_key(t), |t: Seq<char>| m[t]@)
}

impl<S: Storage> ApplyEngine<S> {
    /// What the engine holds beside its store.
    pub closed spec fn batch(&self) -> BatchState {
        BatchState {
            pending: frame_views(self.pending@),
            open: self.open_txn,
            mark: self.high_water,
            cap: self.max_batch,
            windows: window_views(self.snapshot_orphans@),
        }
    }

    /// The store.
    pub closed spec fn backing(&self) -> S {
        self.storage
    }

    /// What the store holds.
    pub open spec fn store(&self) -> StoreState {
        self.backing().state()
    }

    /// An engine on a store, with the default cap.
    pub fn new(storage: S) -> (r: Self)
        ensures
            r.backing() == storage,
            r.batch() == fresh_batch(r.batch().mark, DEFAULT_MAX_BATCH),
            r.batch().mark == storage.state().checkpoint || r.batch().mark == Lsn(0),
            storage.dependable() ==> r.batch().mark == storage.state().checkpoint,
    {
        Self::with_max_batch(storage, DEFAULT_MAX_BATCH)
    }

    /// An engine on a store, with the given cap. With a cap of zero or one every
    /// frame without a transaction is committed at once. The latest position starts
    /// at the checkpoint of the store, or at zero where that cannot be read.
    pub fn with_max_batch(storage: S, max_batch: usize) -> (r: Self)
        ensures
            r.backing() == storage,
            r.batch() == fresh_batch(r.batch().mark, max_batch),
            r.batch().mark == storage.state().checkpoint || r.batch().mark == Lsn(0),
            storage.dependable() ==> r.batch().mark == storage.state().checkpoint,
    {
        let high_water = match storage.checkpoint() {
            Ok(lsn) => lsn,
            Err(_) => Lsn::zero(),
        };
        let r = ApplyEngine {
            storage,
            pending: Vec::new(),
            open_txn: None,
            high_water,
            max_batch,
            snapshot_orphans: OrderedMap::new(),
        };
        assert(r.batch().pending =~= seq![]);
        assert(r.batch().windows =~= Map::empty());
        r
    }

    /// Gives the store back.
    pub fn into_storage(self) -> (r: S)
        ensures
            r == self.backing(),
    {
        self.storage
    }

    /// The store, to be changed.
    pub fn storage_mut(&mut self) -> (r: &mut S)
        ensures
            *r == old(self).backing(),
            final(self).backing() == *final(r),
            final(self).batch() == old(self).batch(),
    {
        &mut self.storage
    }

    /// The store.
    pub fn storage(&self) -> (r: &S)
        ensures
            *r == self.backing(),
    {
        &self.storage
    }

    /// The latest position seen.
    pub fn high_water(&self) -> (r: Lsn)
        ensures
            r == self.batch().mark,
    {
        self.high_water
    }

    /// The checkpoint of the store.
    pub fn checkpoint(&self) -> (r: Result<Lsn, StorageError>)
        ensures
            call_ensures(S::checkpoint, (&self.backing(),), r),
            r is Ok ==> r->Ok_0 == self.store().checkpoint,
            self.backing().dependable() ==> r is Ok,
    {
        self.storage.checkpoint()
    }

    /// The epoch that the store keeps.
    pub fn epoch(&self) -> (r: Result<u64, StorageError>)
        ensures
            call_ensures(S::epoch, (&self.backing(),), r),
            self.backing().dependable() ==> r is Ok,
    {
        self.storage.epoch()
    }

    /// Saves the epoch in the store.
    pub fn save_epoch(&mut self, epoch: u64) -> (r: Result<(), StorageError>)
        ensures
            exists|h: &mut S| #[trigger] call_ensures(S::save_epoch, (h, epoch), r)
                && *h == old(self).backing() && *final(h) == final(self).backing(),
            final(self).store() == old(self).store() || final(self).store() == (StoreState {
                epoch,
                ..old(self).store()
            }),
            final(self).batch() == old(self).batch(),
            final(self).backing().dependable() == old(self).backing().dependable(),
            old(self).backing().dependable() ==> r is Ok,
    {
        self.storage.save_epoch(epoch)
    }

    /// Whether frames wait for a commit.
    pub fn has_pending(&self) -> (r: bool)
        ensures
            r == (self.batch().pending.len() > 0),
    {
        self.pending.len() > 0
    }

    /// The frames that wait are as many as a `usize` counts.
    pub proof fn lemma_pending_fits(&self)
        ensures
            self.batch().pending.len() <= usize::MAX,
    {
        assert(self.pending@.len() == self.pending.len());
    }

    /// The tables that a snapshot is replacing.
    fn open_tables(&self) -> (r: NameSet)
        ensures
            r@ == self.batch().windows.dom(),
    {
        let entries = self.snapshot_orphans.listed();
        let ghost s = pairs(entries@);
        let ghost m = self.snapshot_orphans@;
        let mut r = NameSet::new();
        let mut i: usize = 0;
        while i < entries.len()
            invariant
                i <= entries@.len(),
                s == pairs(entries@),
                forall|k: int| 0 <= k < s.len() ==> m.contains_key((#[trigger] s[k]).0),
                forall|n: Seq<char>| #[trigger] r@.contains(n) ==> m.contains_key(n),
                forall|k: int| 0 <= k < i ==> r@.contains((#[trigger] s[k]).0),
            decreases entries@.len() - i,
        {
            assert(m.contains_key(s[i as int].0));
            r.insert(entries[i].0.clone());
            i += 1;
        }
        proof {
            assert forall|n: Seq<char>| r@.contains(n) <==> #[trigger]
                self.batch().windows.dom().contains(n) by {
                if m.contains_key(n) {
                    let k = choose|k: int| 0 <= k < s.len() && (#[trigger] s[k]).0 == n;
                    assert(r@.contains(s[k].0));
                }
            }
            assert(r@ =~= self.batch().windows.dom());
        }
        r
    }

    /// Brings the waiting frames into the order of their positions.
    fn sort_pending(&mut self)
        ensures
            final(self).batch() == retained(old(self).batch()),
            final(self).backing() == old(self).backing(),
    {
        let ghost before = self.batch();
        let mut keys: Vec<u64> = Vec::new();
        let mut i: usize = 0;
        while i < self.pending.len()
            invariant
                i <= self.pending@.len(),
                keys@.len() == i,
                forall|k: int| 0 <= k < i ==> #[trigger] keys@[k] == self.pending@[k].lsn,
            decreases self.pending@.len() - i,
        {
            keys.push(self.pending[i].lsn);
            i += 1;
        }
        let order = order_of(&keys);
        let ghost ranks = positions(order@);
        let mut sorted: Vec<Frame> = Vec::new();
        let mut j: usize = 0;
        while j < order.len()
            invariant
                j <= order@.len(),
                ranks == positions(order@),
                ranks.len() == self.pending@.len(),
                forall|k: int|
                    0 <= k < ranks.len() ==> 0 <= #[trigger] ranks[k] < self.pending@.len(),
                sorted@.len() == j,
                forall|k: int| 0 <= k < j ==> #[trigger] sorted@[k]@ == self.pending@[ranks[k]]@,
            decreases order@.len() - j,
        {
            assert(0 <= ranks[j as int] < self.pending@.len());
            sorted.push(self.pending[order[j]].clone());
            j += 1;
        }
        proof {
            assert(key_names(keys@) =~= frame_positions(before.pending));
            assert(frame_views(sorted@) =~= by_position(before.pending)) by {
                assert forall|k: int| 0 <= k < sorted@.len() implies frame_views(sorted@)[k]
                    == #[trigger] by_position(before.pending)[k] by {
                    assert(0 <= ranks[k] < self.pending@.len());
                    assert(sorted@[k]@ == self.pending@[ranks[k]]@);
                }
            }
        }
        self.pending = sorted;
    }

    /// Takes a frame in. A frame of another transaction than the open one, or of
    /// none, first has what waits committed; a frame of no transaction that fills the
    /// batch is committed with it. Frames of the open transaction only wait. Gives
    /// what the commit did, if there was one.
    pub fn feed(&mut self, frame: Frame) -> (r: Result<Option<ApplyOutcome>, StorageError>)
        ensures
            r is Ok ==> r->Ok_0 == feed_outcome(old(self).batch(), frame@) && fed(
                old(self).batch(),
                old(self).store(),
                frame@,
                final(self).batch(),
                final(self).store(),
            ),
            r is Ok && r->Ok_0 is Some ==> r->Ok_0->0.rows_applied as nat == (if closes(
                old(self).batch(),
                frame@,
            ) {
                old(self).batch().pending.len()
            } else {
                old(self).batch().pending.len() + 1
            }),
            r is Err ==> (closes(old(self).batch(), frame@) || fills(old(self).batch(), frame@))
                && final(self).batch() == feed_failed(old(self).batch(), frame@)
                && final(self).store() == old(self).store(),
            r == Ok::<Option<ApplyOutcome>, StorageError>(None) ==> final(self).backing()
                == old(self).backing(),
            r is Ok && r->Ok_0 is Some ==> exists|
                h: &mut S,
                ops: &[(RowOp, u64)],
                at: Lsn,
                tables: &NameSet,
                said: Result<(), StorageError>,
            | #[trigger]
                call_ensures(S::apply_batch, (h, ops, at, tables), said) && at
                    == r->Ok_0->0.checkpoint && *h == old(self).backing()
                    && *final(h) == final(self).backing() && said is Ok
                    && op_views(ops@) == frame_ops(
                    by_position(
                        if closes(old(self).batch(), frame@) {
                            old(self).batch().pending
                        } else {
                            old(self).batch().pending.push(frame@)
                        },
                    ),
                ),
            r is Err ==> exists|
                h: &mut S,
                ops: &[(RowOp, u64)],
                at: Lsn,
                tables: &NameSet,
                said: Result<(), StorageError>,
            | #[trigger]
                call_ensures(S::apply_batch, (h, ops, at, tables), said) && at
                    == final(self).batch().mark && *h == old(self).backing()
                    && *final(h) == final(self).backing()
                    && said == Err::<(), StorageError>(r->Err_0) && op_views(ops@) == frame_ops(
                    final(self).batch().pending,
                ) && tables@ == final(self).batch().windows.dom(),
            final(self).backing().dependable() == old(self).backing().dependable(),
            old(self).backing().dependable() ==> r is Ok,
    {
        let ghost b0 = self.batch();
        let ghost s0 = self.store();
        let txn_changed = match (self.open_txn, frame.txn_id) {
            (Some(open), Some(t)) => open != t,
            (Some(_), None) => true,
            (None, Some(_)) => true,
            (None, None) => false,
        };
        assert(txn_changed == (b0.open != frame@.txn_id));
        let mut flushed: Option<ApplyOutcome> = None;
        if txn_changed && self.pending.len() > 0 {
            flushed = match self.flush() {
                Ok(o) => o,
                Err(e) => {
                    return Err(e);
                },
            };
        }
        let ghost b1 = self.batch();
        let ghost f = frame@;
        if self.high_water.0 < frame.lsn {
            self.high_water = Lsn(frame.lsn);
        }
        self.open_txn = frame.txn_id;
        match self.snapshot_orphans.remove(&frame.table) {
            Some(orphans) => {
                let mut rest = orphans;
                rest.remove(&frame.pk);
                self.snapshot_orphans.insert(frame.table.clone(), rest);
            },
            None => {},
        }
        assert(window_views(self.snapshot_orphans@) =~= confirmed(b1.windows, f.table, f.pk));
        let ghost then = self.pending@;
        self.pending.push(frame);
        assert(frame_views(self.pending@) =~= frame_views(then).push(f));
        assert(self.batch() == admitted(b1, f));
        if self.open_txn.is_none() && self.pending.len() >= self.max_batch {
            if flushed.is_none() {
                flushed = match self.flush() {
                    Ok(o) => o,
                    Err(e) => {
                        return Err(e);
                    },
                };
            }
        }
        Ok(flushed)
    }

    /// The begin or the end of a snapshot of a table. At the begin, the rows of the
    /// table that are here become candidates for removal, but for `exempt_pks`: the
    /// client's own writes that the server does not know yet. A row that a frame
    /// confirms is a candidate no longer. At the end, the candidates that are left
    /// are deleted: the server deleted them while this client was away. An end
    /// without a begin does nothing.
    pub fn snapshot_boundary(
        &mut self,
        table: &str,
        begin: bool,
        exempt_pks: &[String],
    ) -> (r: Result<(), StorageError>)
        ensures
            begin && r is Ok ==> final(self).store() == old(self).store() && final(self).batch()
                == (BatchState {
                windows: old(self).batch().windows.insert(
                    table@,
                    table_pks(old(self).store().rows, table@).difference(
                        name_set(text_views(exempt_pks@)),
                    ),
                ),
                ..old(self).batch()
            }),
            begin && r is Err ==> final(self).store() == old(self).store() && final(self).batch()
                == old(self).batch(),
            begin ==> final(self).backing() == old(self).backing(),
            begin && r is Err ==> exists|t: &str, said: Result<Vec<String>, StorageError>|
                #[trigger] call_ensures(S::pks_for_table, (&old(self).backing(), t), said) && t@
                    == table@ && said == Err::<Vec<String>, StorageError>(r->Err_0),
            !begin && r is Err ==> exists|
                h: &mut S,
                t: &str,
                pks: &[String],
                said: Result<(), StorageError>,
            | #[trigger]
                call_ensures(S::delete_pks, (h, t, pks), said) && *h == old(self).backing()
                    && *final(h) == final(self).backing() && t@ == table@ && name_set(
                    text_views(pks@),
                ) == old(self).batch().windows[table@] && said == Err::<(), StorageError>(
                    r->Err_0,
                ),
            !begin && !old(self).batch().windows.contains_key(table@) ==> r is Ok
                && final(self).store() == old(self).store()
                    && final(self).batch() == old(self).batch(),
            !begin ==> final(self).batch() == (BatchState {
                windows: old(self).batch().windows.remove(table@),
                ..old(self).batch()
            }),
            !begin && r is Ok && old(self).batch().windows.contains_key(table@)
                ==> final(self).store() == (StoreState {
                rows: rows_without(
                    old(self).store().rows,
                    table@,
                    old(self).batch().windows[table@],
                ),
                ..old(self).store()
            }),
            !begin && old(self).batch().windows.contains_key(table@) ==> exists|gone: Set<
                Seq<char>,
            >| #[trigger]
                gone.subset_of(old(self).batch().windows[table@]) && final(self).store() == (
                StoreState {
                    rows: rows_without(old(self).store().rows, table@, gone),
                    ..old(self).store()
                }),
            final(self).backing().dependable() == old(self).backing().dependable(),
            old(self).backing().dependable() ==> r is Ok,
    {
        let ghost b0 = self.batch();
        let ghost s0 = self.store();
        if begin {
            let pks = match self.storage.pks_for_table(table) {
                Ok(pks) => pks,
                Err(e) => {
                    return Err(e);
                },
            };
            let mut orphans = NameSet::of(pks.as_slice());
            assert(orphans@ =~= table_pks(s0.rows, table@));
            let ghost names = text_views(exempt_pks@);
            let mut i: usize = 0;
            assert(orphans@ =~= table_pks(s0.rows, table@).difference(name_set(names.take(0))));
            while i < exempt_pks.len()
                invariant
                    i <= exempt_pks@.len(),
                    names == text_views(exempt_pks@),
                    orphans@ == table_pks(s0.rows, table@).difference(
                        name_set(names.take(i as int)),
                    ),
                decreases exempt_pks@.len() - i,
            {
                orphans.remove(&exempt_pks[i]);
                proof {
                    let a = names.take(i as int);
                    let b = names.take(i + 1);
                    assert forall|n: Seq<char>| #[trigger] b.contains(n) <==> (a.contains(n) || n
                        == names[i as int]) by {
                        if a.contains(n) {
                            let k = choose|k: int| 0 <= k < a.len() && a[k] == n;
                            assert(b[k] == n);
                        }
                        if b.contains(n) {
                            let k = choose|k: int| 0 <= k < b.len() && b[k] == n;
                            if k < i {
                                assert(a[k] == n);
                            }
                        }
                        assert(b[i as int] == names[i as int]);
                    }
                    assert(orphans@ =~= table_pks(s0.rows, table@).difference(name_set(b)));
                }
                i += 1;
            }
            assert(names.take(i as int) =~= names);
            let ghost seeds = orphans@;
            self.snapshot_orphans.insert(table.to_owned(), orphans);
            assert(window_views(self.snapshot_orphans@) =~= b0.windows.insert(table@, seeds));
            Ok(())
        } else {
            let taken = self.snapshot_orphans.remove(&table.to_owned());
            assert(window_views(self.snapshot_orphans@) =~= b0.windows.remove(table@));
            match taken {
                None => {
                    assert(b0.windows.remove(table@) =~= b0.windows);
                    Ok(())
                },
                Some(orphans) => {
                    if orphans.is_empty() {
                        assert(rows_without(s0.rows, table@, Set::empty()) =~= s0.rows);
                        assert(Set::<Seq<char>>::empty().subset_of(b0.windows[table@]));
                        Ok(())
                    } else {
                        let to_delete = orphans.names();
                        assert(name_set(text_views(to_delete@)) =~= orphans@);
                        self.storage.delete_pks(table, to_delete.as_slice())
                    }
                },
            }
        }
    }

    /// Commits the frames that wait, in the order of their positions, with the
    /// checkpoint at the latest position seen. Where the store refuses, the frames
    /// are kept for another try.
    pub fn flush(&mut self) -> (r: Result<Option<ApplyOutcome>, StorageError>)
        ensures
            old(self).batch().pending.len() == 0 ==> r == Ok::<Option<ApplyOutcome>, StorageError>(
                None,
            ) && final(self).batch() == old(self).batch()
                && final(self).backing() == old(self).backing(),
            old(self).batch().pending.len() > 0 && r is Ok ==> r->Ok_0 == Some(
                outcome(old(self).batch()),
            ) && committed(old(self).batch(), old(self).store(), final(self).store())
                && final(self).batch() == emptied(old(self).batch()),
            r is Err ==> final(self).batch() == retained(old(self).batch()) && final(self).store()
                == old(self).store(),
            old(self).batch().pending.len() > 0 ==> exists|
                h: &mut S,
                ops: &[(RowOp, u64)],
                at: Lsn,
                tables: &NameSet,
                said: Result<(), StorageError>,
            | #[trigger]
                call_ensures(S::apply_batch, (h, ops, at, tables), said) && at
                    == old(self).batch().mark && *h == old(self).backing()
                    && *final(h) == final(self).backing()
                    && op_views(ops@) == frame_ops(by_position(old(self).batch().pending))
                    && tables@ == old(self).batch().windows.dom() && (said is Ok) == (r is Ok) && (
                r is Err ==> said == Err::<(), StorageError>(r->Err_0)),
            final(self).backing().dependable() == old(self).backing().dependable(),
            old(self).backing().dependable() ==> r is Ok,
    {
        let count: usize = self.pending.len();
        if count == 0 {
            return Ok(None);
        }
        let ghost b0 = self.batch();
        let ghost s0 = self.store();
        let checkpoint = self.high_water;
        self.sort_pending();
        let ghost b1 = self.batch();
        let mut ops: Vec<(RowOp, u64)> = Vec::new();
        let mut i: usize = 0;
        while i < self.pending.len()
            invariant
                i <= self.pending@.len(),
                self.batch() == b1,
                self.backing() == old(self).backing(),
                ops@.len() == i,
                forall|k: int|
                    0 <= k < i ==> (#[trigger] ops@[k]).0@ == frame_op(self.pending@[k]@)
                        && ops@[k].1 == self.pending@[k].lsn,
            decreases self.pending@.len() - i,
        {
            let frame = self.pending[i].clone();
            let lsn: u64 = frame.lsn;
            ops.push((frame.into_row_op(), lsn));
            i += 1;
        }
        assert(op_views(ops@) =~= frame_ops(b1.pending));
        let snapshot_tables = self.open_tables();
        match self.storage.apply_batch(ops.as_slice(), checkpoint, &snapshot_tables) {
            Ok(_) => {
                self.pending = Vec::new();
                self.open_txn = None;
                assert(self.batch().pending =~= seq![]);
                Ok(Some(ApplyOutcome { checkpoint, rows_applied: count }))
            },
            Err(e) => Err(e),
        }
    }
}

/// Whether a flush brings the batch `b` and the store `s` to `b2` and `s2`.
pub open spec fn drained(b: BatchState, s: StoreState, b2: BatchState, s2: StoreState) -> bool {
    if b.pending.len() == 0 {
        b2 == b && s2 == s
    } else {
        committed(b, s, s2) && b2 == emptied(b)
    }
}

/// Whether feeding the frames and then flushing brings the batch `b` and the store
/// `s` to `b2` and `s2`.
pub open spec fn page_applied(
    b: BatchState,
    s: StoreState,
    frames: Seq<FrameView>,
    b2: BatchState,
    s2: StoreState,
) -> bool {
    exists|batches: Seq<BatchState>, stores: Seq<StoreState>| #[trigger]
        run(batches, stores, frames) && batches[0] == b && stores[0] == s && drained(
            batches.last(),
            stores.last(),
            b2,
            s2,
        )
}

/// Whether feeding the frames, without a flush, brings the batch `b` and the store `s`
/// to `b2` and `s2`.
pub open spec fn fed_through(
    b: BatchState,
    s: StoreState,
    frames: Seq<FrameView>,
    b2: BatchState,
    s2: StoreState,
) -> bool {
    exists|batches: Seq<BatchState>, stores: Seq<StoreState>| #[trigger]
        run(batches, stores, frames) && batches[0] == b && stores[0] == s && batches.last() == b2
            && stores.last() == s2
}

/// Whether `s2` is the store that feeding some of the frames, from the first on,
/// makes of `s`.
pub open spec fn partly_fed(
    b: BatchState,
    s: StoreState,
    frames: Seq<FrameView>,
    s2: StoreState,
) -> bool {
    exists|k: int, b2: BatchState| #![trigger fed_through(b, s, frames.take(k), b2, s2)]
        0 <= k <= frames.len() && fed_through(b, s, frames.take(k), b2, s2)
}

/// A run goes on with one more frame.
pub proof fn lemma_run_on(
    batches: Seq<BatchState>,
    stores: Seq<StoreState>,
    frames: Seq<FrameView>,
    f: FrameView,
    b: BatchState,
    s: StoreState,
)
    requires
        run(batches, stores, frames),
        fed(batches.last(), stores.last(), f, b, s),
    ensures
        run(batches.push(b), stores.push(s), frames.push(f)),
        batches.push(b)[0] == batches[0],
        stores.push(s)[0] == stores[0],
{
    let bs = batches.push(b);
    let ss = stores.push(s);
    let fs = frames.push(f);
    assert forall|i: int| 0 <= i < fs.len() implies fed(
        bs[i],
        ss[i],
        #[trigger] fs[i],
        bs[i + 1],
        ss[i + 1],
    ) by {
        if i < frames.len() {
            assert(fs[i] == frames[i]);
            assert(fed(batches[i], stores[i], frames[i], batches[i + 1], stores[i + 1]));
        }
    }
}

// ---- laws ----

/// A transaction is never split: while it is open, its frames only wait.
pub proof fn law_open_transaction_only_waits(b: BatchState, f: FrameView)
    requires
        b.open is Some,
        f.txn_id == b.open,
    ensures
        feed_outcome(b, f) is None,
        forall|s: StoreState, b2: BatchState, s2: StoreState| #[trigger]
            fed(b, s, f, b2, s2) ==> s2 == s && b2.pending == b.pending.push(f),
{
}

/// A frame of another transaction commits the open one whole, and waits itself.
pub proof fn law_transaction_commits_whole(
    b: BatchState,
    s: StoreState,
    f: FrameView,
    b2: BatchState,
    s2: StoreState,
)
    requires
        b.pending.len() > 0,
        f.txn_id != b.open,
        fed(b, s, f, b2, s2),
    ensures
        committed(b, s, s2),
        b2.pending == seq![f],
        feed_outcome(b, f) == Some(outcome(b)),
{
    assert(Seq::<FrameView>::empty().push(f) =~= seq![f]);
}

/// Whether feeding the frames one after another leads through the given states.
pub open spec fn run(
    batches: Seq<BatchState>,
    stores: Seq<StoreState>,
    frames: Seq<FrameView>,
) -> bool {
    &&& batches.len() == frames.len() + 1
    &&& stores.len() == frames.len() + 1
    &&& forall|i: int|
        0 <= i < frames.len() ==> fed(
            batches[i],
            stores[i],
            #[trigger] frames[i],
            batches[i + 1],
            stores[i + 1],
        )
}

/// Whether some frame is on the row.
pub open spec fn names_row(frames: Seq<FrameView>, table: Seq<char>, pk: Seq<char>) -> bool {
    exists|i: int|
        0 <= i < frames.len() && (#[trigger] frames[i]).table == table && frames[i].pk == pk
}

/// While a snapshot of a table is open, a row stays a candidate for removal exactly
/// as long as no frame is on it.
pub proof fn law_candidates_are_the_unconfirmed(
    batches: Seq<BatchState>,
    stores: Seq<StoreState>,
    frames: Seq<FrameView>,
    table: Seq<char>,
    pk: Seq<char>,
)
    requires
        run(batches, stores, frames),
        batches[0].windows.contains_key(table),
    ensures
        batches.last().windows.contains_key(table),
        batches.last().windows[table].contains(pk) <==> batches[0].windows[table].contains(pk)
            && !names_row(frames, table, pk),
    decreases frames.len(),
{
    if frames.len() > 0 {
        let n = frames.len() - 1;
        let front = frames.drop_last();
        assert forall|i: int| 0 <= i < front.len() implies fed(
            batches.drop_last()[i],
            stores.drop_last()[i],
            #[trigger] front[i],
            batches.drop_last()[i + 1],
            stores.drop_last()[i + 1],
        ) by {
            assert(frames[i] == front[i]);
        }
        law_candidates_are_the_unconfirmed(
            batches.drop_last(),
            stores.drop_last(),
            front,
            table,
            pk,
        );
        let b = batches[n];
        let f = frames[n];
        assert(fed(b, stores[n], f, batches[n + 1], stores[n + 1]));
        assert(batches.drop_last().last() == b);
        if names_row(front, table, pk) {
            let i = choose|i: int|
                0 <= i < front.len() && (#[trigger] front[i]).table == table && front[i].pk == pk;
            assert(frames[i].table == table);
        }
        if names_row(frames, table, pk) {
            let i = choose|i: int|
                0 <= i < frames.len() && (#[trigger] frames[i]).table == table && frames[i].pk
                    == pk;
            if i < n {
                assert(front[i].table == table);
            }
        }
    } else {
        assert(!names_row(frames, table, pk));
    }
}

/// The end of a snapshot removes exactly the candidates that no frame confirmed, and
/// leaves every other row as it is.
pub proof fn law_snapshot_removes_the_unconfirmed(
    batches: Seq<BatchState>,
    stores: Seq<StoreState>,
    frames: Seq<FrameView>,
    table: Seq<char>,
    key: RowKey,
)
    requires
        run(batches, stores, frames),
        batches[0].windows.contains_key(table),
    ensures
        ({
            let before = stores.last().rows;
            let after = rows_without(before, table, batches.last().windows[table]);
            let reaped = key.0 == table && batches[0].windows[table].contains(key.1)
                && !names_row(frames, table, key.1);
            crate::storage::row_at(after, key) == (if reaped {
                None
            } else {
                crate::storage::row_at(before, key)
            })
        }),
{
    law_candidates_are_the_unconfirmed(batches, stores, frames, table, key.1);
}

/// What a commit reports to the server is covered by the checkpoint of the store.
pub proof fn law_reported_position_is_durable(b: BatchState, s: StoreState, s2: StoreState)
    requires
        committed(b, s, s2),
    ensures
        outcome(b).checkpoint.0 <= s2.checkpoint.0,
{
}

/// The latest position seen never falls, so neither does what is reported.
pub proof fn law_mark_never_falls(
    b: BatchState,
    s: StoreState,
    f: FrameView,
    b2: BatchState,
    s2: StoreState,
)
    requires
        fed(b, s, f, b2, s2),
    ensures
        b.mark.0 <= b2.mark.0,
        f.lsn <= b2.mark.0,
{
}

/// The batch after a frame.
pub open spec fn next_batch(b: BatchState, f: FrameView) -> BatchState {
    if closes(b, f) {
        admitted(emptied(b), f)
    } else if fills(b, f) {
        emptied(admitted(b, f))
    } else {
        admitted(b, f)
    }
}

/// The operations that a frame has committed.
pub open spec fn ops_at(b: BatchState, f: FrameView) -> Seq<(RowOpView, u64)> {
    if closes(b, f) {
        frame_ops(by_position(b.pending))
    } else if fills(b, f) {
        frame_ops(by_position(b.pending.push(f)))
    } else {
        seq![]
    }
}

/// The batch after the frames.
pub open spec fn batch_after(b: BatchState, frames: Seq<FrameView>) -> BatchState
    decreases frames.len(),
{
    if frames.len() == 0 {
        b
    } else {
        next_batch(batch_after(b, frames.drop_last()), frames.last())
    }
}

/// The operations that the frames have committed.
pub open spec fn ops_during(b: BatchState, frames: Seq<FrameView>) -> Seq<(RowOpView, u64)>
    decreases frames.len(),
{
    if frames.len() == 0 {
        seq![]
    } else {
        ops_during(b, frames.drop_last()) + ops_at(
            batch_after(b, frames.drop_last()),
            frames.last(),
        )
    }
}

/// The operations that the frames and the flush after them have committed.
pub open spec fn page_ops(b: BatchState, frames: Seq<FrameView>) -> Seq<(RowOpView, u64)> {
    ops_during(b, frames) + frame_ops(by_position(batch_after(b, frames).pending))
}

/// A run ends in the batch after its frames, and its store holds what they have
/// committed.
pub proof fn lemma_run_is_batch_after(
    batches: Seq<BatchState>,
    stores: Seq<StoreState>,
    frames: Seq<FrameView>,
)
    requires
        run(batches, stores, frames),
    ensures
        batches.last() == batch_after(batches[0], frames),
        batches.last().windows.dom() == batches[0].windows.dom(),
        stores.last().merging == stores[0].merging,
        stores.last().rows == ops_applied(
            stores[0].merging,
            stores[0].rows,
            ops_during(batches[0], frames),
            batches[0].windows.dom(),
        ),
    decreases frames.len(),
{
    if frames.len() > 0 {
        let n = frames.len() - 1;
        let front = frames.drop_last();
        let bs = batches.drop_last();
        let ss = stores.drop_last();
        assert forall|i: int| 0 <= i < front.len() implies fed(
            bs[i],
            ss[i],
            #[trigger] front[i],
            bs[i + 1],
            ss[i + 1],
        ) by {
            assert(frames[i] == front[i]);
        }
        lemma_run_is_batch_after(bs, ss, front);
        let b = batches[n];
        let f = frames[n];
        assert(fed(b, stores[n], f, batches[n + 1], stores[n + 1]));
        assert(bs.last() == b && ss.last() == stores[n]);
        assert(confirmed(b.windows, f.table, f.pk).dom() =~= b.windows.dom());
        crate::storage::law_batches_join(
            stores[0].merging,
            stores[0].rows,
            ops_during(batches[0], front),
            ops_at(b, f),
            batches[0].windows.dom(),
        );
    }
}

/// A page comes down to one sequence of operations, which does not depend on what
/// the store holds.
pub proof fn law_page_is_a_sequence_of_operations(
    b: BatchState,
    s: StoreState,
    frames: Seq<FrameView>,
    b2: BatchState,
    s2: StoreState,
)
    requires
        page_applied(b, s, frames, b2, s2),
    ensures
        s2.rows == ops_applied(s.merging, s.rows, page_ops(b, frames), b.windows.dom()),
        s2.merging == s.merging,
        b2.pending.len() == 0,
{
    let (batches, stores) = choose|batches: Seq<BatchState>, stores: Seq<StoreState>| #[trigger]
        run(batches, stores, frames) && batches[0] == b && stores[0] == s && drained(
            batches.last(),
            stores.last(),
            b2,
            s2,
        );
    lemma_run_is_batch_after(batches, stores, frames);
    let last = batches.last();
    crate::storage::law_batches_join(
        s.merging,
        s.rows,
        ops_during(b, frames),
        frame_ops(by_position(last.pending)),
        b.windows.dom(),
    );
    if last.pending.len() == 0 {
        assert(frame_ops(by_position(last.pending)) =~= seq![]);
    }
}

/// What stands in the order of the positions is what was there.
proof fn lemma_by_position(s: Seq<FrameView>)
    ensures
        by_position(s).len() == s.len(),
        forall|i: int| 0 <= i < s.len() ==> by_position(s).contains(#[trigger] s[i]),
        forall|i: int| 0 <= i < s.len() ==> s.contains(#[trigger] by_position(s)[i]),
{
    let keys = frame_positions(s);
    let order = order_by::<u64>(keys);
    lemma_order_exists::<u64>(keys);
    assert forall|i: int| 0 <= i < s.len() implies by_position(s).contains(#[trigger] s[i]) by {
        assert(placed(order, i));
        let k = choose|k: int| 0 <= k < order.len() && #[trigger] order[k] == i;
        assert(by_position(s)[k] == s[i]);
    }
    assert forall|i: int| 0 <= i < s.len() implies s.contains(#[trigger] by_position(s)[i]) by {
        assert(0 <= order[i] < keys.len());
        assert(by_position(s)[i] == s[order[i]]);
    }
}

/// Whether one of the operations is that of the frame.
spec fn has_op(ops: Seq<(RowOpView, u64)>, f: FrameView) -> bool {
    exists|k: int| 0 <= k < ops.len() && (#[trigger] ops[k]).0 == frame_op(f)
}

/// The operations of frames in order are those of the frames.
proof fn lemma_ordered_ops(s: Seq<FrameView>, f: FrameView)
    requires
        s.contains(f),
    ensures
        has_op(frame_ops(by_position(s)), f),
{
    lemma_by_position(s);
    let i = choose|i: int| 0 <= i < s.len() && s[i] == f;
    assert(by_position(s).contains(s[i]));
    let k = choose|k: int| 0 <= k < s.len() && by_position(s)[k] == f;
    assert(frame_ops(by_position(s))[k].0 == frame_op(f));
}

/// Every frame has been committed or waits.
proof fn lemma_frames_are_kept(b: BatchState, frames: Seq<FrameView>, f: FrameView)
    requires
        frames.contains(f) || b.pending.contains(f),
    ensures
        has_op(ops_during(b, frames), f) || batch_after(b, frames).pending.contains(f),
    decreases frames.len(),
{
    if frames.len() > 0 {
        let front = frames.drop_last();
        let last = frames.last();
        let before = batch_after(b, front);
        let done = ops_during(b, front);
        let now = ops_at(before, last);
        assert forall|ops: Seq<(RowOpView, u64)>| #[trigger] has_op(ops, f) && (ops == done || ops
            == now) implies has_op(ops_during(b, frames), f) by {
            let k = choose|k: int| 0 <= k < ops.len() && (#[trigger] ops[k]).0 == frame_op(f);
            if ops == done {
                assert((done + now)[k] == ops[k]);
            } else {
                assert((done + now)[done.len() + k] == ops[k]);
            }
        }
        if front.contains(f) || b.pending.contains(f) {
            lemma_frames_are_kept(b, front, f);
            if !has_op(done, f) {
                let i = choose|i: int| 0 <= i < before.pending.len() && before.pending[i] == f;
                if closes(before, last) {
                    lemma_ordered_ops(before.pending, f);
                } else {
                    assert(before.pending.push(last)[i] == f);
                    if fills(before, last) {
                        lemma_ordered_ops(before.pending.push(last), f);
                    }
                }
            }
        } else {
            let i = choose|i: int| 0 <= i < frames.len() && frames[i] == f;
            if i < front.len() {
                assert(front[i] == f);
            }
            assert(last == f);
            if closes(before, last) {
                assert(emptied(before).pending.push(last)[0] == f);
            } else {
                assert(before.pending.push(last)[before.pending.len() as int] == f);
                if fills(before, last) {
                    lemma_ordered_ops(before.pending.push(last), f);
                }
            }
        }
    }
}

/// Whether an operation is that of one of the frames.
spec fn op_among(op: RowOpView, frames: Seq<FrameView>) -> bool {
    exists|i: int| 0 <= i < frames.len() && op == frame_op(#[trigger] frames[i])
}

/// Whether every operation is that of one of the frames.
spec fn ops_among(ops: Seq<(RowOpView, u64)>, frames: Seq<FrameView>) -> bool {
    forall|k: int| 0 <= k < ops.len() ==> op_among((#[trigger] ops[k]).0, frames)
}

/// Every operation is that of a frame of the page, or of one that waited before it.
proof fn lemma_ops_come_from_frames(b: BatchState, frames: Seq<FrameView>)
    ensures
        ops_among(ops_during(b, frames), b.pending + frames),
        forall|i: int|
            0 <= i < batch_after(b, frames).pending.len() ==> (b.pending + frames).contains(
                #[trigger] batch_after(b, frames).pending[i],
            ),
    decreases frames.len(),
{
    let all = b.pending + frames;
    if frames.len() == 0 {
        assert(all =~= b.pending);
    } else {
        let front = frames.drop_last();
        let last = frames.last();
        let before = batch_after(b, front);
        lemma_ops_come_from_frames(b, front);
        let fewer = b.pending + front;
        assert(all =~= fewer.push(last));
        let ready = before.pending.push(last);
        assert forall|i: int| 0 <= i < ready.len() implies all.contains(#[trigger] ready[i]) by {
            if i < before.pending.len() {
                assert(fewer.contains(before.pending[i]));
                let k = choose|k: int| 0 <= k < fewer.len() && fewer[k] == before.pending[i];
                assert(all[k] == ready[i]);
            } else {
                assert(all[fewer.len() as int] == last);
            }
        }
        assert forall|i: int| 0 <= i < before.pending.len() implies all.contains(
            #[trigger] before.pending[i],
        ) by {
            assert(ready[i] == before.pending[i]);
        }
        lemma_ordered_ops_among(before.pending, all);
        lemma_ordered_ops_among(ready, all);
        let done = ops_during(b, front);
        let now = ops_at(before, last);
        let both = done + now;
        assert forall|k: int| 0 <= k < both.len() implies op_among((#[trigger] both[k]).0, all) by {
            if k < done.len() {
                assert(op_among(done[k].0, fewer));
                let i = choose|i: int|
                    0 <= i < fewer.len() && done[k].0 == frame_op(#[trigger] fewer[i]);
                assert(all[i] == fewer[i]);
            } else {
                assert(op_among(now[k - done.len()].0, all));
            }
        }
        assert forall|i: int| 0 <= i < batch_after(b, frames).pending.len() implies all.contains(
            #[trigger] batch_after(b, frames).pending[i],
        ) by {
            if closes(before, last) {
                assert(batch_after(b, frames).pending[i] == last);
                assert(ready[before.pending.len() as int] == last);
            } else {
                assert(batch_after(b, frames).pending[i] == ready[i]);
            }
        }
    }
}

proof fn lemma_ordered_ops_among(s: Seq<FrameView>, all: Seq<FrameView>)
    requires
        forall|i: int| 0 <= i < s.len() ==> all.contains(#[trigger] s[i]),
    ensures
        ops_among(frame_ops(by_position(s)), all),
{
    lemma_by_position(s);
    let ops = frame_ops(by_position(s));
    assert forall|k: int| 0 <= k < ops.len() implies op_among((#[trigger] ops[k]).0, all) by {
        assert(s.contains(by_position(s)[k]));
        let j = choose|j: int| 0 <= j < s.len() && s[j] == by_position(s)[k];
        assert(all.contains(s[j]));
        let i = choose|i: int| 0 <= i < all.len() && all[i] == s[j];
        assert(ops[k].0 == frame_op(all[i]));
    }
}

/// Every row that a page inserts or updates is there after it, unless the page, or
/// what waited before it, deletes that row.
pub proof fn law_rows_of_a_page_land(
    b: BatchState,
    s: StoreState,
    frames: Seq<FrameView>,
    b2: BatchState,
    s2: StoreState,
    f: FrameView,
)
    requires
        page_applied(b, s, frames, b2, s2),
        frames.contains(f) || b.pending.contains(f),
        forall|i: int|
            0 <= i < (b.pending + frames).len() && (#[trigger] (b.pending + frames)[i]).table
                == f.table && (b.pending + frames)[i].pk == f.pk ==> (b.pending + frames)[i].op
                != Operation::Delete,
    ensures
        s2.rows.contains_key((f.table, f.pk)),
{
    law_page_is_a_sequence_of_operations(b, s, frames, b2, s2);
    let all = b.pending + frames;
    let waiting = batch_after(b, frames).pending;
    let done = ops_during(b, frames);
    let rest = frame_ops(by_position(waiting));
    let ops = page_ops(b, frames);
    lemma_frames_are_kept(b, frames, f);
    lemma_ops_come_from_frames(b, frames);
    lemma_ordered_ops_among(waiting, all);
    if frames.contains(f) {
        let i = choose|i: int| 0 <= i < frames.len() && frames[i] == f;
        assert(all[b.pending.len() + i] == f);
    } else {
        let i = choose|i: int| 0 <= i < b.pending.len() && b.pending[i] == f;
        assert(all[i] == f);
    }
    assert(has_op(ops, f)) by {
        if has_op(done, f) {
            let k = choose|k: int| 0 <= k < done.len() && (#[trigger] done[k]).0 == frame_op(f);
            assert(ops[k] == done[k]);
        } else {
            lemma_ordered_ops(waiting, f);
            let k = choose|k: int| 0 <= k < rest.len() && (#[trigger] rest[k]).0 == frame_op(f);
            assert(ops[done.len() + k] == rest[k]);
        }
    }
    let k = choose|k: int| 0 <= k < ops.len() && (#[trigger] ops[k]).0 == frame_op(f);
    assert forall|j: int|
        0 <= j < ops.len() && (#[trigger] ops[j]).0.table == f.table && ops[j].0.pk
            == f.pk implies ops[j].0.payload is Some by {
        if j < done.len() {
            assert(op_among(done[j].0, all));
        } else {
            assert(op_among(rest[j - done.len()].0, all));
        }
        let i = choose|i: int| 0 <= i < all.len() && ops[j].0 == frame_op(#[trigger] all[i]);
    }
    lemma_written_stays(s.merging, s.rows, ops, b.windows.dom(), (f.table, f.pk), k);
}

/// A row that is written and not deleted is there afterwards.
proof fn lemma_written_stays(
    merging: MergeTables,
    rows: RowMap,
    ops: Seq<(RowOpView, u64)>,
    replaced: Set<Seq<char>>,
    key: RowKey,
    k: int,
)
    requires
        0 <= k < ops.len(),
        ops[k].0.table == key.0,
        ops[k].0.pk == key.1,
        forall|j: int|
            0 <= j < ops.len() && (#[trigger] ops[j]).0.table == key.0 && ops[j].0.pk == key.1
                ==> ops[j].0.payload is Some,
    ensures
        ops_applied(merging, rows, ops, replaced).contains_key(key),
    decreases ops.len(),
{
    let front = ops.drop_last();
    if k < front.len() {
        assert(front[k] == ops[k]);
        assert forall|j: int|
            0 <= j < front.len() && (#[trigger] front[j]).0.table == key.0 && front[j].0.pk
                == key.1 implies front[j].0.payload is Some by {
            assert(ops[j] == front[j]);
        }
        lemma_written_stays(merging, rows, front, replaced, key, k);
    }
    assert(ops.last() == ops[ops.len() - 1]);
}

proof fn lemma_same_operations(a: BatchState, b: BatchState, frames: Seq<FrameView>)
    requires
        a.pending == b.pending,
        a.open == b.open,
        a.cap == b.cap,
    ensures
        ops_during(a, frames) == ops_during(b, frames),
        batch_after(a, frames).pending == batch_after(b, frames).pending,
        batch_after(a, frames).open == batch_after(b, frames).open,
        batch_after(a, frames).cap == batch_after(b, frames).cap,
    decreases frames.len(),
{
    if frames.len() > 0 {
        lemma_same_operations(a, b, frames.drop_last());
    }
}

/// A page that comes back a second time changes no row: applying it again leaves the
/// rows as they were after the first time. In a table whose payloads are merged this
/// is said of rows and payloads that are what the table holds.
pub proof fn law_echoed_page_changes_nothing(
    b: BatchState,
    s: StoreState,
    frames: Seq<FrameView>,
    b2: BatchState,
    s2: StoreState,
    b3: BatchState,
    s3: StoreState,
    b4: BatchState,
    s4: StoreState,
)
    requires
        page_applied(b, s, frames, b2, s2),
        page_applied(b3, s3, frames, b4, s4),
        s3.rows == s2.rows,
        s3.merging == s2.merging,
        b3.pending == b.pending,
        b3.open == b.open,
        b3.cap == b.cap,
        b3.windows.dom() == b.windows.dom(),
        forall|i: int|
            0 <= i < page_ops(b, frames).len() && #[trigger] merged(
                s.merging,
                page_ops(b, frames)[i].0.table,
            ) ==> replays(
                s.merging,
                s.rows,
                page_ops(b, frames),
                (page_ops(b, frames)[i].0.table, page_ops(b, frames)[i].0.pk),
            ),
    ensures
        s4.rows == s2.rows,
{
    law_page_is_a_sequence_of_operations(b, s, frames, b2, s2);
    law_page_is_a_sequence_of_operations(b3, s3, frames, b4, s4);
    lemma_same_operations(b, b3, frames);
    crate::storage::law_replay_changes_nothing(
        s.merging,
        s.rows,
        page_ops(b, frames),
        b.windows.dom(),
    );
}

} // verus!
