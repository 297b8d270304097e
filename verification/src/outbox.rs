//! The queue of a client's own writes that the server has not confirmed yet.

use vstd::prelude::*;
use crate::names::{lists_names, NameSet};
use crate::storage::{RowMap, StorageError, StoreState};
use crate::text::{same_text, text_views};

verus! {

/// What a client wants to do to a row.
#[derive(Debug, Clone, Copy, PartialEq, Eq, Structural)]
pub enum WriteOp {
    /// Insert the row, or replace it.
    Upsert,
    /// Delete the row. A missing row is no failure.
    Delete,
    /// Change some columns of a row that is there.
    Patch,
    /// Add to a column. Only the server can compute the result.
    Increment,
}

/// The spelling of an operation on the wire.
pub open spec fn write_op_name(op: WriteOp) -> Seq<char> {
    match op {
        WriteOp::Upsert => "upsert"@,
        WriteOp::Delete => "delete"@,
        WriteOp::Patch => "patch"@,
        WriteOp::Increment => "increment"@,
    }
}

/// The operation with the given spelling. An increment is never read: what a client
/// queues is an upsert, a delete or a patch.
pub open spec fn write_op_named(s: Seq<char>) -> Option<WriteOp> {
    if s == "upsert"@ {
        Some(WriteOp::Upsert)
    } else if s == "delete"@ {
        Some(WriteOp::Delete)
    } else if s == "patch"@ {
        Some(WriteOp::Patch)
    } else {
        None
    }
}

impl WriteOp {
    /// The spelling of the operation on the wire.
    pub fn as_wire_str(self) -> (r: &'static str)
        ensures
            r@ == write_op_name(self),
    {
        match self {
            WriteOp::Upsert => "upsert",
            WriteOp::Delete => "delete",
            WriteOp::Patch => "patch",
            WriteOp::Increment => "increment",
        }
    }

    /// The operation with the given spelling.
    pub fn from_wire_str(s: &str) -> (r: Option<Self>)
        ensures
            r == write_op_named(s@),
    {
        if same_text(s, "upsert") {
            Some(WriteOp::Upsert)
        } else if same_text(s, "delete") {
            Some(WriteOp::Delete)
        } else if same_text(s, "patch") {
            Some(WriteOp::Patch)
        } else {
            None
        }
    }
}

/// What is written of an upsert, a delete or a patch reads back as that operation.
pub proof fn law_write_op_round_trip(op: WriteOp)
    requires
        op != WriteOp::Increment,
    ensures
        write_op_named(write_op_name(op)) == Some(op),
{
    reveal_strlit("upsert");
    reveal_strlit("delete");
    reveal_strlit("patch");
    assert("upsert"@[0] == 'u' && "delete"@[0] == 'd' && "patch"@[0] == 'p');
}

/// A write that waits for the server: what the user did.
#[derive(Debug, PartialEq, Eq)]
pub struct PendingWrite {
    pub table: String,
    pub op: WriteOp,
    pub pk: String,
    /// The row, or the columns to change; nothing for a delete.
    pub payload_json: Option<String>,
}

/// A waiting write by its values.
#[verifier::ext_equal]
pub struct WriteView {
    pub table: Seq<char>,
    pub op: WriteOp,
    pub pk: Seq<char>,
    pub payload: Option<Seq<char>>,
}

impl View for PendingWrite {
    type V = WriteView;

    open spec fn view(&self) -> WriteView {
        WriteView {
            table: self.table@,
            op: self.op,
            pk: self.pk@,
            payload: match self.payload_json {
                Some(s) => Some(s@),
                None => None,
            },
        }
    }
}

impl Clone for PendingWrite {
    fn clone(&self) -> (r: Self)
        ensures
            r@ == self@,
    {
        let payload_json = match &self.payload_json {
            Some(s) => Some(s.clone()),
            None => None,
        };
        PendingWrite { table: self.table.clone(), op: self.op, pk: self.pk.clone(), payload_json }
    }
}

/// What a queue holds.
#[verifier::ext_equal]
pub struct QueueState {
    /// The waiting writes with their ids, oldest first.
    pub waiting: Seq<(u64, WriteView)>,
    /// The largest id that was ever given out.
    pub last_id: u64,
}

/// The waiting writes by their values.
pub open spec fn waiting_views(s: Seq<(u64, PendingWrite)>) -> Seq<(u64, WriteView)> {
    Seq::new(s.len(), |i: int| (s[i].0, s[i].1@))
}

/// The queue without the write with the given id.
pub open spec fn without_id(s: Seq<(u64, WriteView)>, id: u64) -> Seq<(u64, WriteView)>
    decreases s.len(),
{
    if s.len() == 0 {
        seq![]
    } else if s.last().0 == id {
        without_id(s.drop_last(), id)
    } else {
        without_id(s.drop_last(), id).push(s.last())
    }
}

/// Whether some waiting write is on the row.
pub open spec fn waits_on(s: Seq<(u64, WriteView)>, table: Seq<char>, pk: Seq<char>) -> bool {
    exists|i: int|
        0 <= i < s.len() && (#[trigger] s[i]).1.table == table && s[i].1.pk == pk
}

/// Whether `ids` are fresh ids for a batch: each larger than the ones before it, and all
/// of them larger than `last`.
pub open spec fn fresh_ids(ids: Seq<u64>, last: u64) -> bool {
    &&& forall|i: int| 0 <= i < ids.len() ==> #[trigger] ids[i] > last
    &&& forall|i: int, j: int| 0 <= i < j < ids.len() ==> #[trigger] ids[i] < #[trigger] ids[j]
}

/// The batch with its ids.
pub open spec fn numbered(ids: Seq<u64>, writes: Seq<PendingWrite>) -> Seq<(u64, WriteView)> {
    Seq::new(writes.len(), |i: int| (ids[i], writes[i]@))
}

/// Whether a call that gave out the ids `given` may have brought the queue from `q` to
/// `q2`: each id is larger than every one that was given out before.
pub open spec fn gave_ids(q: QueueState, given: Seq<u64>, q2: QueueState) -> bool {
    &&& fresh_ids(given, q.last_id)
    &&& q2.last_id >= (if given.len() > 0 {
        given.last()
    } else {
        q.last_id
    })
}

/// The queue of writes that the server has not confirmed. An implementation says
/// what it holds by `queue`. Whether a call succeeds is up to the implementation,
/// unless it is `prompt`.
pub trait Outbox: Sized {
    /// What the queue holds.
    spec fn queue(&self) -> QueueState;

    /// What the store beside the queue holds.
    spec fn store(&self) -> StoreState;

    /// The rows of such a store with a write shown in them.
    spec fn showing(s: StoreState, w: WriteView) -> RowMap;

    /// Whether every call on this queue succeeds.
    spec fn prompt(&self) -> bool;

    /// Puts a write at the end of the queue and gives it an id larger than every
    /// earlier one.
    fn enqueue(&mut self, write: PendingWrite) -> (r: Result<u64, StorageError>)
        requires
            old(self).queue().last_id < u64::MAX,
        ensures
            r is Ok ==> r->Ok_0 > old(self).queue().last_id && final(self).queue() == (
            QueueState {
                waiting: old(self).queue().waiting.push((r->Ok_0, write@)),
                last_id: r->Ok_0,
            }),
            r is Ok ==> gave_ids(old(self).queue(), seq![r->Ok_0], final(self).queue()),
            r is Err ==> final(self).queue().waiting == old(self).queue().waiting && gave_ids(
                old(self).queue(),
                seq![],
                final(self).queue(),
            ),
            final(self).store() == old(self).store(),
            final(self).prompt() == old(self).prompt(),
            old(self).prompt() ==> r is Ok,
    ;

    /// Puts the writes at the end of the queue, all of them or none.
    fn enqueue_batch(&mut self, writes: Vec<PendingWrite>) -> (r: Result<Vec<u64>, StorageError>)
        requires
            old(self).queue().last_id + writes@.len() <= u64::MAX,
        ensures
            r is Ok ==> r->Ok_0@.len() == writes@.len() && fresh_ids(
                r->Ok_0@,
                old(self).queue().last_id,
            ) && final(self).queue().waiting == old(self).queue().waiting + numbered(
                r->Ok_0@,
                writes@,
            ),
            r is Ok && writes@.len() > 0 ==> final(self).queue().last_id == r->Ok_0@.last(),
            r is Ok ==> gave_ids(old(self).queue(), r->Ok_0@, final(self).queue()),
            r is Err ==> final(self).queue().waiting == old(self).queue().waiting && gave_ids(
                old(self).queue(),
                seq![],
                final(self).queue(),
            ),
            final(self).store() == old(self).store(),
            final(self).prompt() == old(self).prompt(),
            old(self).prompt() ==> r is Ok,
    ;

    /// The waiting writes with their ids, oldest first.
    fn pending(&self) -> (r: Result<Vec<(u64, PendingWrite)>, StorageError>)
        ensures
            r is Ok ==> waiting_views(r->Ok_0@) == self.queue().waiting,
            self.prompt() ==> r is Ok,
    ;

    /// Takes a confirmed write out of the queue. An id that is not there is passed
    /// over.
    fn mark_done(&mut self, id: u64) -> (r: Result<(), StorageError>)
        ensures
            r is Ok ==> final(self).queue() == (QueueState {
                waiting: without_id(old(self).queue().waiting, id),
                ..old(self).queue()
            }),
            r is Err ==> final(self).queue() == old(self).queue(),
            final(self).store() == old(self).store(),
            final(self).prompt() == old(self).prompt(),
            old(self).prompt() ==> r is Ok,
    ;

    /// Counts a refusal of the write and gives the new count. A queue that counts
    /// none gives zero, and the write is tried again for ever.
    fn bump_attempts(&mut self, id: u64) -> (r: Result<u32, StorageError>)
        ensures
            final(self).queue() == old(self).queue(),
            final(self).store() == old(self).store(),
            final(self).prompt() == old(self).prompt(),
            old(self).prompt() ==> r is Ok,
        default_ensures
            r == Ok::<u32, StorageError>(0),
            *final(self) == *old(self),
    {
        Ok(0)
    }

    /// Sets the write aside, so that the queue goes on without it. A queue that sets
    /// none aside keeps it.
    fn mark_dead_letter(&mut self, id: u64) -> (r: Result<(), StorageError>)
        ensures
            final(self).queue() == old(self).queue() || final(self).queue() == (QueueState {
                waiting: without_id(old(self).queue().waiting, id),
                ..old(self).queue()
            }),
            final(self).store() == old(self).store(),
            final(self).prompt() == old(self).prompt(),
            old(self).prompt() ==> r is Ok,
        default_ensures
            r is Ok,
            *final(self) == *old(self),
    {
        Ok(())
    }

    /// Shows the write in the rows at once, without moving the checkpoint. A store that
    /// shows none at once shows it when it comes back from the server.
    fn apply_local(&mut self, write: &PendingWrite) -> (r: Result<(), StorageError>)
        ensures
            final(self).store() == old(self).store() || final(self).store() == (StoreState {
                rows: Self::showing(old(self).store(), write@),
                ..old(self).store()
            }),
            r is Err ==> final(self).store() == old(self).store(),
            final(self).queue() == old(self).queue(),
            final(self).prompt() == old(self).prompt(),
            old(self).prompt() ==> r is Ok,
        default_ensures
            r is Ok,
            *final(self) == *old(self),
    {
        Ok(())
    }

    /// The primary keys of the rows of a table that writes wait on, each once, in
    /// order. A snapshot must not take these rows for deleted ones.
    fn pending_pks_for_table(&self, table: &str) -> (r: Result<Vec<String>, StorageError>)
        ensures
            r is Ok ==> lists_names(
                text_views(r->Ok_0@),
                Set::new(|pk: Seq<char>| waits_on(self.queue().waiting, table@, pk)),
            ),
            self.prompt() ==> r is Ok,
    {
        match self.pending() {
            Err(e) => Err(e),
            Ok(writes) => Ok(pks_on_table(&writes, table)),
        }
    }

    /// Forgets every waiting write.
    fn clear_outbox(&mut self) -> (r: Result<(), StorageError>)
        ensures
            r is Ok ==> final(self).queue().waiting.len() == 0,
            r is Err ==> final(self).queue().waiting.len() == 0 || final(self).queue().waiting
                == old(self).queue().waiting,
            gave_ids(old(self).queue(), seq![], final(self).queue()),
            final(self).store() == old(self).store(),
            final(self).prompt() == old(self).prompt(),
            old(self).prompt() ==> r is Ok,
    ;
}

/// The primary keys of the rows of a table that the writes are on, each once, in
/// order.
pub fn pks_on_table(writes: &Vec<(u64, PendingWrite)>, table: &str) -> (r: Vec<String>)
    ensures
        lists_names(
            text_views(r@),
            Set::new(|pk: Seq<char>| waits_on(waiting_views(writes@), table@, pk)),
        ),
{
    let ghost views = waiting_views(writes@);
    let mut found = NameSet::new();
    let mut i: usize = 0;
    while i < writes.len()
        invariant
            i <= writes@.len(),
            views == waiting_views(writes@),
            forall|pk: Seq<char>| #[trigger]
                found@.contains(pk) <==> waits_on(views.take(i as int), table@, pk),
        decreases writes@.len() - i,
    {
        let ghost before = found@;
        let ghost now = views.take(i + 1);
        let ghost then = views.take(i as int);
        let w = &writes[i].1;
        if same_text(w.table.as_str(), table) {
            found.insert(w.pk.clone());
        }
        proof {
            assert forall|pk: Seq<char>| #[trigger] found@.contains(pk) <==> waits_on(
                now,
                table@,
                pk,
            ) by {
                if before.contains(pk) {
                    assert(waits_on(then, table@, pk));
                    let k = choose|k: int|
                        0 <= k < then.len() && (#[trigger] then[k]).1.table == table@
                            && then[k].1.pk == pk;
                    assert(now[k].1.table == table@);
                }
                if waits_on(now, table@, pk) {
                    let k = choose|k: int|
                        0 <= k < now.len() && (#[trigger] now[k]).1.table == table@
                            && now[k].1.pk == pk;
                    if k < i {
                        assert(then[k].1.table == table@);
                        assert(waits_on(then, table@, pk));
                    }
                }
                if w@.table == table@ && w@.pk == pk {
                    assert(now[i as int].1.table == table@);
                }
            }
        }
        i += 1;
    }
    assert(views.take(i as int) =~= views);
    proof {
        assert(found@ =~= Set::new(|pk: Seq<char>| waits_on(views, table@, pk)));
    }
    found.names()
}

/// No id is given out twice, whatever is done between: over any history of calls, an id
/// that was given out later is larger, also where the earlier write was taken out or the
/// queue was cleared.
pub proof fn law_no_id_is_given_twice(
    queues: Seq<QueueState>,
    given: Seq<Seq<u64>>,
    i: int,
    a: int,
    j: int,
    b: int,
)
    requires
        queues.len() == given.len() + 1,
        forall|k: int|
            0 <= k < given.len() ==> gave_ids(queues[k], #[trigger] given[k], queues[k + 1]),
        0 <= i <= j < given.len(),
        0 <= a < given[i].len(),
        0 <= b < given[j].len(),
        i < j || a < b,
    ensures
        given[i][a] < given[j][b],
{
    assert(gave_ids(queues[i], given[i], queues[i + 1]));
    assert(gave_ids(queues[j], given[j], queues[j + 1]));
    assert(given[i][a] <= given[i].last());
    if i < j {
        lemma_last_id_rises(queues, given, i + 1, j);
    }
}

/// A waiting write keeps its id, and a call that takes writes out or clears the queue
/// gives none out.
pub proof fn law_removal_gives_no_id(q: QueueState, id: u64)
    ensures
        gave_ids(q, seq![], QueueState { waiting: without_id(q.waiting, id), ..q }),
        gave_ids(q, seq![], QueueState { waiting: seq![], ..q }),
{
}

proof fn lemma_last_id_rises(queues: Seq<QueueState>, given: Seq<Seq<u64>>, i: int, j: int)
    requires
        queues.len() == given.len() + 1,
        forall|k: int|
            0 <= k < given.len() ==> gave_ids(queues[k], #[trigger] given[k], queues[k + 1]),
        0 <= i <= j <= given.len(),
    ensures
        queues[i].last_id <= queues[j].last_id,
    decreases j - i,
{
    if i < j {
        lemma_last_id_rises(queues, given, i, j - 1);
        let ids = given[j - 1];
        assert(gave_ids(queues[j - 1], ids, queues[j]));
        assert(ids.len() > 0 ==> ids.last() > queues[j - 1].last_id);
    }
}

/// Taking an id out of the queue leaves every other waiting write where it was.
pub proof fn law_done_takes_one(s: Seq<(u64, WriteView)>, id: u64, e: (u64, WriteView))
    ensures
        without_id(s, id).contains(e) <==> s.contains(e) && e.0 != id,
    decreases s.len(),
{
    if s.len() > 0 {
        let front = s.drop_last();
        law_done_takes_one(front, id, e);
        let r = without_id(s, id);
        if s.contains(e) && e.0 != id {
            let k = choose|k: int| 0 <= k < s.len() && s[k] == e;
            if k < s.len() - 1 {
                assert(front[k] == e);
                assert(without_id(front, id).contains(e));
                let j = choose|j: int|
                    0 <= j < without_id(front, id).len() && without_id(front, id)[j] == e;
                assert(r[j] == e);
            } else {
                assert(r.last() == e);
            }
        }
        if r.contains(e) {
            let k = choose|k: int| 0 <= k < r.len() && r[k] == e;
            if s.last().0 != id && k == r.len() - 1 {
                assert(s[s.len() - 1] == e);
            } else {
                assert(without_id(front, id)[k] == e);
                assert(without_id(front, id).contains(e));
                assert(front.contains(e));
                let j = choose|j: int| 0 <= j < front.len() && front[j] == e;
                assert(s[j] == e);
            }
        }
    }
}

/// Whether the ids of the queue rise, and none was given out after the last one.
pub open spec fn queue_in_order(q: QueueState) -> bool {
    &&& forall|i: int, j: int|
        0 <= i < j < q.waiting.len() ==> (#[trigger] q.waiting[i]).0 < (#[trigger] q.waiting[j]).0
    &&& forall|i: int| 0 <= i < q.waiting.len() ==> (#[trigger] q.waiting[i]).0 <= q.last_id
}

proof fn lemma_without_id_order(s: Seq<(u64, WriteView)>, id: u64, last: u64)
    requires
        queue_in_order(QueueState { waiting: s, last_id: last }),
    ensures
        queue_in_order(QueueState { waiting: without_id(s, id), last_id: last }),
        s.len() > 0 ==> forall|i: int|
            0 <= i < without_id(s, id).len() ==> (#[trigger] without_id(s, id)[i]).0
                <= s.last().0,
    decreases s.len(),
{
    if s.len() > 0 {
        let front = s.drop_last();
        let q = QueueState { waiting: s, last_id: last };
        assert(q.waiting[s.len() - 1].0 <= last);
        assert(queue_in_order(QueueState { waiting: front, last_id: last })) by {
            assert forall|i: int, j: int| 0 <= i < j < front.len() implies (#[trigger] front[i]).0
                < (#[trigger] front[j]).0 by {
                assert(q.waiting[i].0 < q.waiting[j].0);
            }
            assert forall|i: int| 0 <= i < front.len() implies (#[trigger] front[i]).0 <= last by {
                assert(q.waiting[i].0 <= last);
            }
        }
        lemma_without_id_order(front, id, last);
        let r = without_id(s, id);
        let rest = without_id(front, id);
        if front.len() > 0 {
            assert(q.waiting[s.len() - 2].0 < q.waiting[s.len() - 1].0);
        }
        assert forall|i: int| 0 <= i < r.len() implies (#[trigger] r[i]).0 <= s.last().0 by {
            if i < rest.len() {
                assert(r[i] == rest[i]);
            }
        }
        assert forall|i: int| 0 <= i < r.len() implies (#[trigger] r[i]).0 <= last by {
            if i < rest.len() {
                assert(r[i] == rest[i]);
            }
        }
        assert forall|i: int, j: int| 0 <= i < j < r.len() implies (#[trigger] r[i]).0 < (
        #[trigger] r[j]).0 by {
            let qr = QueueState { waiting: rest, last_id: last };
            assert(r[i] == qr.waiting[i]);
            if j < rest.len() {
                assert(r[j] == qr.waiting[j]);
            } else {
                assert(front.len() > 0);
                assert(without_id(front, id)[i].0 <= front.last().0);
            }
        }
    }
}

/// The ids of a queue rise: putting a write in and taking one out keep them in
/// order, so the oldest write stays first and no id is used twice.
pub proof fn law_queue_stays_in_order(q: QueueState, id: u64, w: WriteView, done: u64)
    requires
        queue_in_order(q),
        id > q.last_id,
    ensures
        queue_in_order(QueueState { waiting: q.waiting.push((id, w)), last_id: id }),
        queue_in_order(QueueState { waiting: without_id(q.waiting, done), ..q }),
{
    lemma_without_id_order(q.waiting, done, q.last_id);
}

} // verus!
