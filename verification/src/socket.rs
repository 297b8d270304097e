//! What a connected client does on each event of its socket: what it sends, what it
//! keeps, and when it gives up. Opening the socket and sending are left to the
//! caller.

use vstd::prelude::*;
use crate::apply::{
    batch_after, by_position, committed, emptied, frame_ops, outcome, partly_fed, retained, run,
    BatchState,
};
use crate::engine::{with_write, NostosEngine};
use crate::events::RowOp;
use crate::json::json_text;
use crate::lsn::Lsn;
use crate::names::NameSet;
use crate::numbers::{decimal, decimal_text};
use crate::outbox::{
    waiting_views, without_id, write_op_name, write_op_named, Outbox, PendingWrite, QueueState,
    WriteOp, WriteView,
};
use crate::storage::{op_views, Storage, StorageError, StoreState};
use crate::text::{trim_text, trimmed};
use crate::transport::{
    ack_json, all_arrived, build_ack_frame, build_subscribe_frame, build_write_frame,
    checkpoint_from, last_commit, message_frames, on_message, optional_str, subscribe_json,
    write_json, write_payload, WriteFrameError,
};

verus! {

/// How often a client that is connecting looks whether the socket is open.
pub const MAX_CONNECT_WAITS: u32 = 1000;

/// The code that a client closes with where the store failed.
pub const CLOSE_STORE_FAILED: u16 = 1011;

/// The code that a client closes with when it is done.
pub const CLOSE_NORMAL: u16 = 1000;

/// Where a socket stands that is being opened.
#[derive(Debug, Clone, Copy, PartialEq, Eq, Structural)]
pub enum Handshake {
    Waiting,
    Open,
    Failed,
}

/// Where a socket stands, by its ready state.
pub fn handshake(ready_state: u16) -> (r: Handshake)
    ensures
        r == (if ready_state == 1 {
            Handshake::Open
        } else if ready_state == 3 {
            Handshake::Failed
        } else {
            Handshake::Waiting
        }),
{
    if ready_state == 1 {
        Handshake::Open
    } else if ready_state == 3 {
        Handshake::Failed
    } else {
        Handshake::Waiting
    }
}

/// The text of a message that could not be built.
pub open spec fn frame_error_text(e: WriteFrameError) -> Seq<char> {
    match e {
        WriteFrameError::MalformedPayload => "nostos write: payload is not JSON"@,
        WriteFrameError::NotAnObject => "nostos write: payload is not a JSON object"@,
    }
}

impl WriteFrameError {
    /// The error as text.
    pub fn to_text(&self) -> (r: String)
        ensures
            r@ == frame_error_text(*self),
    {
        match self {
            WriteFrameError::MalformedPayload => "nostos write: payload is not JSON".to_owned(),
            WriteFrameError::NotAnObject => {
                "nostos write: payload is not a JSON object".to_owned()
            },
        }
    }
}

/// A payload without white space around it; one of white space alone is none.
pub open spec fn clean_payload(payload: Option<Seq<char>>) -> Option<Seq<char>> {
    match payload {
        Some(s) => if trimmed(s).len() > 0 {
            Some(trimmed(s))
        } else {
            None
        },
        None => None,
    }
}

/// The message of a write and the write that is queued, or the text of the error.
pub open spec fn prepared(
    table: Seq<char>,
    op: Seq<char>,
    pk: Seq<char>,
    payload: Option<Seq<char>>,
    client_write_id: Seq<char>,
) -> Result<(Seq<char>, WriteView), Seq<char>> {
    match write_payload(payload) {
        Err(e) => Err(frame_error_text(e)),
        Ok(row) => match write_op_named(op) {
            None => Err("nostos write: invalid op (expected upsert|delete|patch)"@),
            Some(o) => Ok(
                (
                    json_text(write_json(table, op, pk, row, client_write_id)),
                    WriteView { table, op: o, pk, payload: clean_payload(payload) },
                ),
            ),
        },
    }
}

/// The message of a write and the write that is queued.
pub fn prepare_write(
    table: &str,
    op: &str,
    pk: &str,
    payload_json: Option<&str>,
    client_write_id: &str,
) -> (r: Result<(String, PendingWrite), String>)
    ensures
        match prepared(table@, op@, pk@, optional_str(payload_json), client_write_id@) {
            Ok(p) => r matches Ok(q) && q.0@ == p.0 && q.1@ == p.1,
            Err(e) => r matches Err(t) && t@ == e,
        },
{
    let frame = match build_write_frame(table, op, pk, payload_json, client_write_id) {
        Ok(f) => f,
        Err(e) => {
            return Err(e.to_text());
        },
    };
    let op_known = match WriteOp::from_wire_str(op) {
        Some(o) => o,
        None => {
            return Err("nostos write: invalid op (expected upsert|delete|patch)".to_owned());
        },
    };
    let payload: Option<String> = match payload_json {
        Some(s) => {
            let text = trim_text(s);
            if text.as_str().is_empty() {
                None
            } else {
                Some(text)
            }
        },
        None => None,
    };
    let write = PendingWrite {
        table: table.to_owned(),
        op: op_known,
        pk: pk.to_owned(),
        payload_json: payload,
    };
    Ok((frame, write))
}

/// The first waiting write with the given id.
pub open spec fn waiting_under(s: Seq<(u64, WriteView)>, id: u64) -> Option<WriteView>
    decreases s.len(),
{
    if s.len() == 0 {
        None
    } else {
        match waiting_under(s.drop_last(), id) {
            Some(w) => Some(w),
            None => if s.last().0 == id {
                Some(s.last().1)
            } else {
                None
            },
        }
    }
}

/// The message of a waiting write, under its id. A payload that is no JSON object has
/// none.
pub open spec fn waiting_frame(id: u64, w: WriteView) -> Option<Seq<char>> {
    match write_payload(w.payload) {
        Ok(row) => Some(
            json_text(write_json(w.table, write_op_name(w.op), w.pk, row, decimal(id as nat))),
        ),
        Err(_) => None,
    }
}

proof fn lemma_waiting_under_prefix(s: Seq<(u64, WriteView)>, i: int, id: u64)
    requires
        0 <= i <= s.len(),
        waiting_under(s.take(i), id) is Some,
    ensures
        waiting_under(s, id) == waiting_under(s.take(i), id),
    decreases s.len() - i,
{
    if i == s.len() {
        assert(s.take(i) =~= s);
    } else {
        assert(s.take(i + 1).drop_last() =~= s.take(i));
        lemma_waiting_under_prefix(s, i + 1, id);
    }
}

/// The message of a waiting write, under its id.
pub fn frame_of_waiting(writes: &Vec<(u64, PendingWrite)>, id: u64) -> (r: Option<String>)
    ensures
        match waiting_under(waiting_views(writes@), id) {
            Some(w) => match waiting_frame(id, w) {
                Some(t) => r matches Some(text) && text@ == t,
                None => r is None,
            },
            None => r is None,
        },
{
    let ghost views = waiting_views(writes@);
    let mut i: usize = 0;
    assert(views.take(0) =~= seq![]);
    while i < writes.len()
        invariant
            i <= writes@.len(),
            views == waiting_views(writes@),
            waiting_under(views.take(i as int), id) is None,
        decreases writes@.len() - i,
    {
        proof {
            assert(views.take(i + 1).drop_last() =~= views.take(i as int));
            assert(views.take(i + 1).last() == views[i as int]);
        }
        if writes[i].0 == id {
            proof {
                lemma_waiting_under_prefix(views, i + 1, id);
            }
            let w = &writes[i].1;
            let client_write_id = decimal_text(id);
            let payload: Option<&str> = match &w.payload_json {
                Some(s) => Some(s.as_str()),
                None => None,
            };
            return match build_write_frame(
                w.table.as_str(),
                w.op.as_wire_str(),
                w.pk.as_str(),
                payload,
                client_write_id.as_str(),
            ) {
                Ok(frame) => Some(frame),
                Err(_) => None,
            };
        }
        i += 1;
    }
    assert(views.take(i as int) =~= views);
    None
}

/// The message that subscribes to a table from a position, or, where that is zero,
/// from the start.
pub open spec fn subscription(table: Seq<char>, condition: Option<Seq<char>>, from: u64) -> Seq<
    char,
> {
    json_text(
        subscribe_json(
            table,
            condition,
            if from > 0 {
                Some(from)
            } else {
                None
            },
        ),
    )
}

/// A write that was queued.
pub struct Written {
    /// Its id.
    pub id: u64,
    /// The message to send, where the socket is open.
    pub frame: String,
    /// Whether the store took it to show, so that watchers are told.
    pub shown: bool,
}

/// What a message asks of the caller.
pub enum SocketReply {
    /// Nothing.
    Quiet,
    /// To keep the position, and to send the message that confirms it.
    Confirm { lsn: u64, frame: String },
    /// To close the socket with the code.
    HangUp(u16),
}

/// Where a client asks to resume: at the checkpoint of a durable store, unless that is
/// zero, and otherwise where a position was kept beside the store.
pub open spec fn resume_position(durable: bool, checkpoint: u64, kept: Option<u64>) -> Option<u64> {
    if !durable {
        kept
    } else if checkpoint > 0 {
        Some(checkpoint)
    } else {
        None
    }
}

/// Where a client asks to resume.
pub fn resume_from(durable: bool, checkpoint: u64, kept: Option<u64>) -> (r: Option<u64>)
    ensures
        r == resume_position(durable, checkpoint, kept),
{
    if !durable {
        kept
    } else if checkpoint > 0 {
        Some(checkpoint)
    } else {
        None
    }
}

impl<S: Storage + Outbox> NostosEngine<S> {
    /// Checks a write, queues it and shows it in the rows. Where the message is then
    /// sent, the write counts as done ([`Self::mark_shipped`]).
    pub fn write(
        &mut self,
        table: &str,
        op: &str,
        pk: &str,
        payload_json: Option<&str>,
        client_write_id: &str,
    ) -> (r: Result<Written, String>)
        requires
            old(self).waiting().last_id < u64::MAX,
        ensures
            match prepared(table@, op@, pk@, optional_str(payload_json), client_write_id@) {
                Err(e) => (r matches Err(t) && t@ == e)
                    && final(self).waiting() == old(self).waiting()
                    && final(self).beside() == old(self).beside(),
                Ok(p) => {
                    &&& r is Ok ==> r->Ok_0.frame@ == p.0 && final(self).recorded(
                        old(self),
                        r->Ok_0.id,
                        p.1,
                    ) && (!r->Ok_0.shown ==> final(self).beside() == old(self).beside())
                    &&& r is Err ==> final(self).waiting().waiting == old(self).waiting().waiting
                        && final(self).beside() == old(self).beside()
                    &&& r is Err ==> exists|
                        h: &mut S,
                        w: PendingWrite,
                        said: Result<u64, StorageError>,
                    | #[trigger]
                        call_ensures(S::enqueue, (h, w), said) && *h == old(self).backing() && w@
                            == p.1 && (said matches Err(e) && r->Err_0@
                            == "nostos write: enqueue: "@ + "storage backend error: "@
                            + e->Backend_0@)
                    &&& old(self).backing().prompt() ==> r is Ok && r->Ok_0.shown
                    &&& r is Ok && old(self).backing().prompt() && (forall|
                            h: &mut S,
                            w: &PendingWrite,
                            said: Result<(), StorageError>,
                        | #[trigger]
                            call_ensures(S::apply_local, (h, w), said) && said is Ok
                                ==> (*final(h)).store() == with_write::<S>((*h).store(), w@))
                ==> final(self).shows_last(old(self))
                },
            },
            final(self).applying().batch() == old(self).applying().batch(),
    {
        let (frame, write) = match prepare_write(table, op, pk, payload_json, client_write_id) {
            Ok(p) => p,
            Err(e) => {
                return Err(e);
            },
        };
        match self.record(write) {
            Ok(done) => Ok(Written { id: done.0, frame, shown: done.1 }),
            Err(e) => {
                let mut out: String = "nostos write: enqueue: ".to_owned();
                let text = e.to_text();
                out.append(text.as_str());
                Err(out)
            },
        }
    }

    /// The message of a waiting write, to be sent where the socket is open: nothing
    /// where no such write waits, or where it has no message.
    pub fn pending_frame(&self, id: u64) -> (r: Option<String>)
        ensures
            r is Some ==> waiting_under(self.waiting().waiting, id) is Some && waiting_frame(
                id,
                waiting_under(self.waiting().waiting, id)->0,
            ) == Some(r->0@),
            self.backing().prompt() && waiting_under(self.waiting().waiting, id) is Some
                && waiting_frame(id, waiting_under(self.waiting().waiting, id)->0) is Some
                ==> r is Some,
    {
        match self.held().pending() {
            Ok(writes) => frame_of_waiting(&writes, id),
            Err(_) => None,
        }
    }

    /// Takes a write that was sent out of the queue. Where that fails the write is
    /// sent again later.
    pub fn mark_shipped(&mut self, id: u64)
        ensures
            final(self).waiting() == (QueueState {
                waiting: without_id(old(self).waiting().waiting, id),
                ..old(self).waiting()
            }) || (!old(self).backing().prompt() && final(self).waiting() == old(self).waiting()),
            exists|h: &mut S, said: Result<(), StorageError>| #[trigger]
                call_ensures(S::mark_done, (h, id), said) && *h == old(self).backing() && *final(h)
                    == final(self).backing(),
            final(self).beside() == old(self).beside(),
            final(self).applying().batch() == old(self).applying().batch(),
    {
        match self.apply_engine().storage_mut().mark_done(id) {
            Ok(_) => {},
            Err(_) => {},
        }
    }

    /// The message that subscribes to a table, from the position that the store has
    /// got to, or from the start.
    pub fn subscribe_frame(&self, table: &str, where_sql: Option<&str>) -> (r: String)
        ensures
            exists|from: u64|
                (from == self.applying().store().checkpoint.0 || (!self.backing().dependable()
                    && from == 0))
                        && r@ == #[trigger] subscription(table@, optional_str(where_sql), from),
    {
        let from: u64 = self.checkpoint();
        let resume: Option<u64> = if from > 0 {
            Some(from)
        } else {
            None
        };
        let frame = build_subscribe_frame(table, where_sql, resume);
        assert(frame@ == subscription(table@, optional_str(where_sql), from));
        frame
    }

    /// The message that subscribes to one more table on a socket, which must be open.
    pub fn subscribe(&self, open: bool, table: &str, where_sql: Option<&str>) -> (r: Result<
        String,
        String,
    >)
        ensures
            r is Ok <==> open,
            r is Err ==> r->Err_0@ == "subscribe: socket not open"@,
            r is Ok ==> exists|from: u64|
                (from == self.applying().store().checkpoint.0 || (!self.backing().dependable()
                    && from == 0))
                        && r->Ok_0@ == #[trigger] subscription(table@, optional_str(where_sql), from),
    {
        if open {
            Ok(self.subscribe_frame(table, where_sql))
        } else {
            Err("subscribe: socket not open".to_owned())
        }
    }

    /// The message that subscribes once more on an open socket, under the condition
    /// of the engine. A closed socket has to be opened again first.
    pub fn resume(&self, open: bool, table: &str) -> (r: Result<String, String>)
        ensures
            r is Ok <==> open,
            r is Err ==> r->Err_0@
                == "resume: socket is closed; call NostosSocket.connect() with the same URL + dbHandle to reconnect; the engine state is preserved in the dbHandle's SQLite/OPFS store"@,
            r is Ok ==> exists|from: u64|
                (from == self.applying().store().checkpoint.0 || (!self.backing().dependable()
                    && from == 0))
                        && r->Ok_0@ == #[trigger] subscription(table@, self.condition(), from),
    {
        if open {
            let condition = self.where_sql();
            let where_sql: Option<&str> = match &condition {
                Some(s) => Some(s.as_str()),
                None => None,
            };
            assert(optional_str(where_sql) == self.condition());
            Ok(self.subscribe_frame(table, where_sql))
        } else {
            Err(
                "resume: socket is closed; call NostosSocket.connect() with the same URL + dbHandle to reconnect; the engine state is preserved in the dbHandle's SQLite/OPFS store".to_owned(),
            )
        }
    }

    /// Takes the frames of a message in. What was committed is confirmed; where the
    /// store fails, the client hangs up.
    pub fn receive(&mut self, bytes: &[u8]) -> (r: SocketReply)
        ensures
            ({
                let frames = all_arrived(message_frames(bytes@));
                match r {
                    SocketReply::HangUp(code) => code == 1011 && !old(self).backing().dependable(),
                    SocketReply::Confirm { lsn, frame } => last_commit(
                        old(self).applying().batch(),
                        frames,
                    ) == Some(lsn) && frame@ == json_text(ack_json(lsn)),
                    SocketReply::Quiet => last_commit(old(self).applying().batch(), frames) is None,
                }
            }),
            !(r is HangUp) ==> ({
                let frames = all_arrived(message_frames(bytes@));
                &&& final(self).applying().batch() == batch_after(
                    old(self).applying().batch(),
                    frames,
                )
                &&& exists|batches: Seq<BatchState>, stores: Seq<StoreState>| #[trigger]
                    run(batches, stores, frames) && batches[0] == old(self).applying().batch()
                        && stores[0] == old(self).applying().store()
                            && stores.last() == final(self).applying().store()
            }),
            r is HangUp ==> partly_fed(
                old(self).applying().batch(),
                old(self).applying().store(),
                all_arrived(message_frames(bytes@)),
                final(self).applying().store(),
            ),
            r is HangUp ==> exists|
                h: &mut S,
                ops: &[(RowOp, u64)],
                at: Lsn,
                tables: &NameSet,
                said: Result<(), StorageError>,
            | #[trigger]
                call_ensures(S::apply_batch, (h, ops, at, tables), said)
                    && at == final(self).applying().batch().mark
                    && *final(h) == final(self).backing()
                    && op_views(ops@) == frame_ops(final(self).applying().batch().pending)
                    && said is Err,
            final(self).applying().store().horizon == old(self).applying().store().horizon,
            final(self).condition() == old(self).condition(),
            final(self).replica() == old(self).replica(),
            final(self).clock() == old(self).clock(),
    {
        match on_message(self.apply_engine(), bytes) {
            Err(_) => SocketReply::HangUp(CLOSE_STORE_FAILED),
            Ok(result) => match checkpoint_from(result) {
                Some(lsn) => SocketReply::Confirm { lsn, frame: build_ack_frame(lsn) },
                None => SocketReply::Quiet,
            },
        }
    }

    /// Commits what waits when the socket closes. What was committed is confirmed.
    pub fn finish(&mut self) -> (r: SocketReply)
        ensures
            !(r is HangUp),
            r is Confirm ==> old(self).applying().batch().pending.len() > 0 && r->lsn == outcome(
                old(self).applying().batch(),
            ).checkpoint.0 && r->frame@ == json_text(ack_json(r->lsn)) && committed(
                old(self).applying().batch(),
                old(self).applying().store(),
                final(self).applying().store(),
            ) && final(self).applying().batch() == emptied(old(self).applying().batch()),
            r is Quiet ==> final(self).applying().store() == old(self).applying().store() && (
            final(self).applying().batch() == old(self).applying().batch()
                || final(self).applying().batch() == retained(old(self).applying().batch())),
            old(self).applying().batch().pending.len() > 0 ==> exists|
                h: &mut S,
                ops: &[(RowOp, u64)],
                at: Lsn,
                tables: &NameSet,
                said: Result<(), StorageError>,
            | #[trigger]
                call_ensures(S::apply_batch, (h, ops, at, tables), said)
                    && at == old(self).applying().batch().mark && *h == old(self).backing()
                    && *final(h) == final(self).backing() && op_views(ops@) == frame_ops(
                    by_position(old(self).applying().batch().pending),
                ) && (said is Ok) == (r is Confirm),
            old(self).backing().dependable() && old(self).applying().batch().pending.len() > 0
                ==> r is Confirm,
    {
        match self.flush() {
            Ok(Some(done)) => {
                let lsn: u64 = done.checkpoint.0;
                SocketReply::Confirm { lsn, frame: build_ack_frame(lsn) }
            },
            _ => SocketReply::Quiet,
        }
    }
}

/// A write that was sent is found in the queue no longer.
pub proof fn law_shipped_is_gone(s: Seq<(u64, WriteView)>, id: u64)
    ensures
        waiting_under(without_id(s, id), id) is None,
    decreases s.len(),
{
    if s.len() > 0 {
        law_shipped_is_gone(s.drop_last(), id);
        if s.last().0 != id {
            assert(without_id(s, id).drop_last() =~= without_id(s.drop_last(), id));
        }
    }
}

/// A write that was just queued under a fresh id is the one that is sent under it.
pub proof fn law_queued_is_sent(s: Seq<(u64, WriteView)>, id: u64, w: WriteView)
    requires
        forall|i: int| 0 <= i < s.len() ==> (#[trigger] s[i]).0 != id,
    ensures
        waiting_under(s.push((id, w)), id) == Some(w),
    decreases s.len(),
{
    assert(s.push((id, w)).drop_last() =~= s);
    lemma_not_waiting(s, id);
}

proof fn lemma_not_waiting(s: Seq<(u64, WriteView)>, id: u64)
    requires
        forall|i: int| 0 <= i < s.len() ==> (#[trigger] s[i]).0 != id,
    ensures
        waiting_under(s, id) is None,
    decreases s.len(),
{
    if s.len() > 0 {
        assert(s[s.len() - 1].0 != id);
        assert forall|i: int| 0 <= i < s.drop_last().len() implies (#[trigger] s.drop_last()[i]).0
            != id by {
            assert(s[i].0 != id);
        }
        lemma_not_waiting(s.drop_last(), id);
    }
}

} // verus!
