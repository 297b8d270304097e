//! What the client puts on the wire, what it takes from it, and how its calls hang
//! together.

use vstd::prelude::*;
use vstd::utf8::encode_utf8;
use crate::apply::{admitted, fresh_batch, ApplyEngine};
use crate::attachments::{retry_after_ms, AttachmentOp, AttachmentState};
use crate::cloud_laws::lemma_hex_reads_back;
use crate::counter::counter_apply_delta;
use crate::crdt::{element_views, serialize_elements, OrSetElement};
use crate::digest::hex_text;
use crate::engine::{
    batch_write_views, batch_writes, counter_write, or_set_write, parse_op, replica_id, write_views,
    BatchOp, NostosEngine,
};
use crate::events::Operation;
use crate::hlc::Hlc;
use crate::in_memory::InMemoryStorage;
use crate::json::{json_read, json_text, member, JsonView};
use crate::json_order::{law_ordering_keeps_the_value, same_json};
use crate::lsn::{law_lsn_round_trip, lsn_text, Lsn, LsnParseError};
use crate::numbers::{decimal, digits_of, lemma_digits_round_trip};
use crate::outbox::{waiting_views, Outbox, PendingWrite, WriteOp};
use crate::socket::{
    frame_of_waiting, handshake, prepare_write, resume_from, waiting_under, Handshake, SocketReply,
};
use crate::sorting::lemma_order_exists;
use crate::storage::{Storage, StorageError};
use crate::text::{lower, trimmed};
use crate::transport::{
    build_ack_frame, build_subscribe_frame, build_write_frame, checkpoint_key, connect_url,
    decode_frames, decode_hex, hex_bytes, message_frames, on_message, parse_checkpoint,
    pump_committed, read_frame, read_frames, wire_views, PumpResult, WireFrame, WriteFrameError,
};

verus! {

// ---- frames from the wire ----

/// The word for an operation.
pub open spec fn op_word(o: Operation) -> Seq<char> {
    match o {
        Operation::Insert => "insert"@,
        Operation::Update => "update"@,
        Operation::Delete => "delete"@,
    }
}

/// Whether a record says, by name, what a frame holds.
pub open spec fn says_frame(f: Seq<(Seq<char>, JsonView)>, w: WireFrame) -> bool {
    &&& member(f, "lsn"@) == Some(JsonView::Unsigned(w.lsn))
    &&& member(f, "op"@) == Some(JsonView::Text(op_word(w.op)))
    &&& member(f, "table"@) == Some(JsonView::Text(w.table@))
    &&& member(f, "pk"@) == Some(JsonView::Text(w.pk@))
    &&& match w.payload {
        Some(s) => member(f, "payload"@) == Some(JsonView::Text(s@)),
        None => member(f, "payload"@) is None || member(f, "payload"@) == Some(JsonView::Null),
    }
    &&& match w.txn_id {
        Some(n) => member(f, "txn_id"@) == Some(JsonView::Unsigned(n)),
        None => member(f, "txn_id"@) is None || member(f, "txn_id"@) == Some(JsonView::Null),
    }
}

proof fn lemma_says_frame(f: Seq<(Seq<char>, JsonView)>, w: WireFrame)
    requires
        says_frame(f, w),
    ensures
        read_frame(JsonView::Record(f)) == Some(w@),
{
    reveal_strlit("insert");
    reveal_strlit("update");
    reveal_strlit("delete");
    assert("insert"@[0] == 'i' && "update"@[0] == 'u' && "delete"@[0] == 'd');
}

/// Whether the first byte of a message that is no blank is `b`.
pub open spec fn opens_with(data: Seq<u8>, b: u8) -> bool {
    exists|k: int| opens_at(data, b, k)
}

/// Whether that byte stands at `k`, behind spaces, tabs and ends of lines.
pub open spec fn opens_at(data: Seq<u8>, b: u8, k: int) -> bool {
    &&& 0 <= k < data.len()
    &&& data[k] == b
    &&& forall|i: int|
        0 <= i < k ==> (#[trigger] data[i] == 32 || data[i] == 9 || data[i] == 10 || data[i] == 12
            || data[i] == 13)
}

proof fn lemma_opens(data: Seq<u8>, b: u8, k: int)
    requires
        opens_at(data, b, k),
        b == 0x5b || b == 0x7b,
    ensures
        crate::transport::first_byte(data) == Some(b),
    decreases k,
{
    if k > 0 {
        assert(data[0] == 32 || data[0] == 9 || data[0] == 10 || data[0] == 12 || data[0] == 13);
        let rest = data.skip(1);
        assert(opens_at(rest, b, k - 1)) by {
            assert forall|i: int| 0 <= i < k - 1 implies (#[trigger] rest[i] == 32 || rest[i] == 9
                || rest[i] == 10 || rest[i] == 12 || rest[i] == 13) by {
                assert(rest[i] == data[i + 1]);
            }
        }
        lemma_opens(rest, b, k - 1);
    }
}

/// A message that is a record is the frame that it says by name.
pub proof fn law_frame_is_read_by_name(
    data: &[u8],
    r: Vec<WireFrame>,
    f: Seq<(Seq<char>, JsonView)>,
    w: WireFrame,
)
    requires
        call_ensures(decode_frames, (data,), r),
        opens_with(data@, 0x7b),
        json_read(data@) == Some(JsonView::Record(f)),
        says_frame(f, w),
    ensures
        r@.len() == 1,
        r@[0]@ == w@,
{
    lemma_opens(data@, 0x7b, choose|k: int| opens_at(data@, 0x7b, k));
    lemma_says_frame(f, w);
    assert(wire_views(r@) == seq![w@]);
    assert(wire_views(r@)[0] == r@[0]@);
}

/// A message that is a list of records is their frames, in its order.
pub proof fn law_frames_are_read_in_order(
    data: &[u8],
    r: Vec<WireFrame>,
    items: Seq<JsonView>,
    frames: Seq<WireFrame>,
)
    requires
        call_ensures(decode_frames, (data,), r),
        opens_with(data@, 0x5b),
        json_read(data@) == Some(JsonView::List(items)),
        items.len() == frames.len(),
        forall|i: int|
            0 <= i < items.len() ==> (#[trigger] items[i]) is Record && says_frame(
                items[i]->Record_0,
                frames[i],
            ),
    ensures
        r@.len() == frames.len(),
        forall|i: int| 0 <= i < frames.len() ==> (#[trigger] r@[i])@ == frames[i]@,
{
    lemma_opens(data@, 0x5b, choose|k: int| opens_at(data@, 0x5b, k));
    lemma_frames(items, frames);
    let v = wire_views(r@);
    assert(v == wire_views(frames));
    assert(v.len() == r@.len());
    assert forall|i: int| 0 <= i < frames.len() implies (#[trigger] r@[i])@ == frames[i]@ by {
        assert(v[i] == r@[i]@);
        assert(wire_views(frames)[i] == frames[i]@);
    }
}

proof fn lemma_frames(items: Seq<JsonView>, frames: Seq<WireFrame>)
    requires
        items.len() == frames.len(),
        forall|i: int|
            0 <= i < items.len() ==> (#[trigger] items[i]) is Record && says_frame(
                items[i]->Record_0,
                frames[i],
            ),
    ensures
        read_frames(items) == Some(wire_views(frames)),
    decreases items.len(),
{
    if items.len() > 0 {
        let a = items.drop_last();
        let b = frames.drop_last();
        assert forall|i: int| 0 <= i < a.len() implies (#[trigger] a[i]) is Record && says_frame(
            a[i]->Record_0,
            b[i],
        ) by {
            assert(a[i] == items[i]);
        }
        lemma_frames(a, b);
        let last = items[items.len() - 1];
        assert(last == items.last());
        lemma_says_frame(last->Record_0, frames.last());
        assert(wire_views(b).push(frames.last()@) =~= wire_views(frames));
    } else {
        assert(wire_views(frames) =~= seq![]);
    }
}

/// What was written in hexadecimal is read again; two digits are a byte, the first the
/// higher.
pub proof fn law_hexadecimal_payload(s: &str, r: Option<Vec<u8>>, b: Seq<u8>, i: int)
    requires
        call_ensures(decode_hex, (s,), r),
    ensures
        s@ == hex_text(b) ==> r is Some && r->0@ == b,
        r is Some ==> s@.len() == 2 * r->0@.len(),
        r is Some && 0 <= i < r->0@.len() ==> {
            &&& crate::numbers::digit_value(s@[2 * i]) is Some
            &&& crate::numbers::digit_value(s@[2 * i + 1]) is Some
            &&& r->0@[i] == crate::numbers::digit_value(s@[2 * i])->0 * 16
                + crate::numbers::digit_value(s@[2 * i + 1])->0
        },
{
    lemma_hex_reads_back(b);
    if r is Some {
        lemma_hex_places(s@, i);
    }
}

proof fn lemma_hex_places(s: Seq<char>, i: int)
    requires
        hex_bytes(s) is Some,
    ensures
        s.len() == 2 * hex_bytes(s)->0.len(),
        0 <= i < hex_bytes(s)->0.len() ==> {
            &&& crate::numbers::digit_value(s[2 * i]) is Some
            &&& crate::numbers::digit_value(s[2 * i + 1]) is Some
            &&& hex_bytes(s)->0[i] == crate::numbers::digit_value(s[2 * i])->0 * 16
                + crate::numbers::digit_value(s[2 * i + 1])->0
        },
    decreases s.len(),
{
    if s.len() > 1 {
        let n = s.len() as int;
        let front = s.take(n - 2);
        lemma_hex_places(front, i);
        if 0 <= i < hex_bytes(front)->0.len() {
            assert(front[2 * i] == s[2 * i]);
            assert(front[2 * i + 1] == s[2 * i + 1]);
        }
    }
}

/// A frame that comes by the wire is taken in with its bytes, and confirmed where that
/// commits it.
pub proof fn law_message_is_taken_in(
    storage: InMemoryStorage,
    cap: usize,
    e0: ApplyEngine<InMemoryStorage>,
    data: &[u8],
    e1: ApplyEngine<InMemoryStorage>,
    r: PumpResult,
    frames: Vec<WireFrame>,
    b: Seq<u8>,
    committed: bool,
)
    requires
        call_ensures(InMemoryStorage::new, (), storage),
        call_ensures(ApplyEngine::<InMemoryStorage>::with_max_batch, (storage, cap), e0),
        exists|h: &mut ApplyEngine<InMemoryStorage>| #[trigger]
            call_ensures(
                on_message::<InMemoryStorage>,
                (h, data),
                Ok::<PumpResult, StorageError>(r),
            ) && *h == e0 && *final(h) == e1,
        call_ensures(decode_frames, (data,), frames),
        frames@.len() == 1,
        call_ensures(pump_committed, (&r, false), committed),
    ensures
        r.applied == 1,
        r.ack is Some <==> frames@[0].txn_id is None && cap <= 1,
        r.ack is Some ==> r.ack->0 == frames@[0].lsn,
        committed <==> r.ack is Some,
        r.ack is None ==> e1.batch().pending.len() == 1 && ({
            let f = e1.batch().pending[0];
            &&& f.lsn == frames@[0].lsn
            &&& f.op == frames@[0].op
            &&& f.table == frames@[0].table@
            &&& f.pk == frames@[0].pk@
            &&& f.txn_id == frames@[0].txn_id
            &&& frames@[0].payload is None ==> f.payload is None
            &&& frames@[0].payload is Some && frames@[0].payload->0@ == hex_text(b)
                ==> f.payload == Some(b)
        }),
{
    let v = message_frames(data@);
    assert(v == wire_views(frames@));
    assert(v.len() == 1 && v[0] == frames@[0]@);
    let s = crate::transport::all_arrived(v);
    let f = crate::transport::arrived(frames@[0]@);
    assert(s.len() == 1 && s[0] == f && s.last() == f);
    let b0 = e0.batch();
    assert(b0 == fresh_batch(Lsn(0), cap));
    assert(s.drop_last() =~= seq![]);
    reveal_with_fuel(crate::transport::last_commit, 2);
    reveal_with_fuel(crate::apply::batch_after, 2);
    lemma_hex_reads_back(b);
}

// ---- frames to the wire ----

/// Whether a text is that of a record.
pub open spec fn is_record_text(t: Seq<char>, f: Seq<(Seq<char>, JsonView)>) -> bool {
    t == json_text(JsonView::Record(f))
}

/// A subscription names the table, the position to resume from where there is one, and
/// the condition where it is not empty.
pub proof fn law_subscription_says(
    table: &str,
    condition: Option<&str>,
    from: Option<u64>,
    r: String,
)
    requires
        call_ensures(build_subscribe_frame, (table, condition, from), r),
    ensures
        exists|f: Seq<(Seq<char>, JsonView)>| #[trigger]
            is_record_text(r@, f) && {
                let n: int = if from is Some {
                    4
                } else {
                    3
                };
                &&& f.len() == n + (if condition is Some && condition->0@.len() > 0 {
                    1int
                } else {
                    0
                })
                &&& f[0] == ("type"@, JsonView::Text("subscribe"@))
                &&& f[1] == ("table"@, JsonView::Text(table@))
                &&& f[2] == ("filters"@, JsonView::List(seq![]))
                &&& from is Some ==> f[3] == ("resume_lsn"@, JsonView::Unsigned(from->0))
                &&& f.len() > n ==> f[n] == ("where_sql"@, JsonView::Text(condition->0@))
            },
{
    let f = crate::transport::subscribe_json(
        table@,
        crate::transport::optional_str(condition),
        from,
    )->Record_0;
    assert(is_record_text(r@, f));
}

/// A confirmation names the position.
pub proof fn law_confirmation_says(lsn: u64, r: String)
    requires
        call_ensures(build_ack_frame, (lsn,), r),
    ensures
        exists|f: Seq<(Seq<char>, JsonView)>| #[trigger]
            is_record_text(r@, f) && f.len() == 2 && f[0] == ("type"@, JsonView::Text("ack"@))
                && f[1] == ("lsn"@, JsonView::Unsigned(lsn)),
{
    let f = crate::transport::ack_json(lsn)->Record_0;
    assert(is_record_text(r@, f));
}

/// A write names the table, the operation, the key, the row where there is one, and its
/// own id. A blank payload is none, one that is no record is refused.
pub proof fn law_write_says(
    table: &str,
    op: &str,
    pk: &str,
    payload: Option<&str>,
    id: &str,
    r: Result<String, WriteFrameError>,
    row: Seq<(Seq<char>, JsonView)>,
)
    requires
        call_ensures(build_write_frame, (table, op, pk, payload, id), r),
    ensures
        payload is None || trimmed(payload->0@).len() == 0 ==> r is Ok && exists|
            f: Seq<(Seq<char>, JsonView)>,
        | #[trigger]
            is_record_text(r->Ok_0@, f) && f.len() == 5 && write_starts(f, table@, op@, pk@)
                && f[4] == ("client_write_id"@, JsonView::Text(id@)),
        payload is Some && trimmed(payload->0@).len() > 0 && json_read(
            encode_utf8(trimmed(payload->0@)),
        ) == Some(JsonView::Record(row)) ==> r is Ok && exists|f: Seq<(Seq<char>, JsonView)>|
            #[trigger] is_record_text(r->Ok_0@, f) && f.len() == 6 && write_starts(
                f,
                table@,
                op@,
                pk@,
            ) && f[4].0 == "payload"@ && same_json(JsonView::Record(row), f[4].1) && f[5] == (
                "client_write_id"@,
                JsonView::Text(id@),
            ),
        payload is Some && trimmed(payload->0@).len() > 0 && json_read(
            encode_utf8(trimmed(payload->0@)),
        ) is None ==> r == Err::<String, WriteFrameError>(WriteFrameError::MalformedPayload),
        payload is Some && trimmed(payload->0@).len() > 0 && json_read(
            encode_utf8(trimmed(payload->0@)),
        ) is Some && !(json_read(encode_utf8(trimmed(payload->0@)))->0 is Record) ==> r
            == Err::<String, WriteFrameError>(WriteFrameError::NotAnObject),
{
    law_ordering_keeps_the_value(JsonView::Record(row));
    if r is Ok {
        let v = crate::transport::write_payload(crate::transport::optional_str(payload))->Ok_0;
        let f = crate::transport::write_json(table@, op@, pk@, v, id@)->Record_0;
        assert(is_record_text(r->Ok_0@, f));
    }
}

/// What every write begins with.
pub open spec fn write_starts(
    f: Seq<(Seq<char>, JsonView)>,
    table: Seq<char>,
    op: Seq<char>,
    pk: Seq<char>,
) -> bool {
    &&& f[0] == ("type"@, JsonView::Text("write"@))
    &&& f[1] == ("table"@, JsonView::Text(table))
    &&& f[2] == ("op"@, JsonView::Text(op))
    &&& f[3] == ("pk"@, JsonView::Text(pk))
}

/// A token is added to the address as a query, behind the one that it has, if any.
pub proof fn law_token_in_the_address(url: &str, token: Option<&str>, r: String)
    requires
        call_ensures(connect_url, (url, token), r),
    ensures
        token is None || token->0@.len() == 0 ==> r@ == url@,
        token is Some && token->0@.len() > 0 && url@.contains('?') ==> r@ == url@ + "&token="@
            + token->0@,
        token is Some && token->0@.len() > 0 && !url@.contains('?') ==> r@ == url@ + "?token="@
            + token->0@,
{
}

/// A position is kept under a key of its table, and read from its digits, with or
/// without space around them.
pub proof fn law_kept_position(table: &str, key: String, text: &str, r: Option<u64>, n: u64)
    requires
        call_ensures(checkpoint_key, (table,), key),
        call_ensures(parse_checkpoint, (Some(text),), r),
    ensures
        key@ == "cairn:checkpoint:"@ + table@,
        trimmed(text@) == decimal(n as nat) ==> r == Some(n),
        trimmed(text@).len() == 0 ==> r is None,
{
    lemma_digits_round_trip(n as nat, 10);
    assert(crate::numbers::without_plus(decimal(n as nat)) == decimal(n as nat));
}

// ---- positions in the log ----

/// A position is written as its upper and its lower half in hexadecimal, with a slash
/// between them, and read so.
pub proof fn law_position_halves(l: Lsn, text: String, s: &str, r: Result<Lsn, LsnParseError>)
    requires
        call_ensures(Lsn::to_text, (l,), text),
        call_ensures(Lsn::parse, (s,), r),
    ensures
        exists|hi: nat, lo: nat| #[trigger]
            halves(text@, hi, lo) && hi * 0x1_0000_0000 + lo == l.0 && lo < 0x1_0000_0000,
        s@ == text@ ==> r == Ok::<Lsn, LsnParseError>(l),
        !s@.contains('/') ==> r == Err::<Lsn, LsnParseError>(LsnParseError::MissingSeparator),
{
    assert(halves(text@, l.0 as nat / 0x1_0000_0000, l.0 as nat % 0x1_0000_0000)) by {
        assert(lsn_text(l.0) =~= digits_of(l.0 as nat / 0x1_0000_0000, 16) + seq!['/'] + digits_of(
            l.0 as nat % 0x1_0000_0000,
            16,
        ));
    }
    law_lsn_round_trip(l.0);
    lemma_no_slash(s@);
}

/// Whether a text is two numbers in hexadecimal with a slash between them.
pub open spec fn halves(t: Seq<char>, hi: nat, lo: nat) -> bool {
    t == digits_of(hi, 16) + seq!['/'] + digits_of(lo, 16)
}

proof fn lemma_no_slash(s: Seq<char>)
    ensures
        !s.contains('/') ==> crate::lsn::first_slash(s) is None,
    decreases s.len(),
{
    if s.len() > 0 && !s.contains('/') {
        assert(s[0] != '/');
        let rest = s.drop_first();
        assert(!rest.contains('/')) by {
            if rest.contains('/') {
                let i = choose|i: int| 0 <= i < rest.len() && rest[i] == '/';
                assert(s[i + 1] == '/');
            }
        }
        lemma_no_slash(rest);
    }
}

// ---- attachments ----

/// What each state of an attachment is called, what it waits for and what it becomes
/// when that is done.
pub proof fn law_attachment_states(
    a: AttachmentState,
    word: &'static str,
    op: Option<AttachmentOp>,
    done: AttachmentState,
    queued: bool,
    s: &str,
    read: Option<AttachmentState>,
)
    requires
        call_ensures(AttachmentState::as_wire_str, (a,), word),
        call_ensures(AttachmentState::pending_op, (a,), op),
        call_ensures(AttachmentState::on_success, (a,), done),
        call_ensures(AttachmentState::is_queued, (a,), queued),
        call_ensures(AttachmentState::from_wire_str, (s,), read),
    ensures
        a == AttachmentState::QueuedUpload ==> word@ == "queued_upload"@ && op == Some(
            AttachmentOp::Upload,
        ) && done == AttachmentState::Synced,
        a == AttachmentState::QueuedDownload ==> word@ == "queued_download"@ && op == Some(
            AttachmentOp::Download,
        ) && done == AttachmentState::Synced,
        a == AttachmentState::QueuedDelete ==> word@ == "queued_delete"@ && op == Some(
            AttachmentOp::Delete,
        ) && done == AttachmentState::Archived,
        a == AttachmentState::Synced ==> word@ == "synced"@ && op is None && done == a,
        a == AttachmentState::Archived ==> word@ == "archived"@ && op is None && done == a,
        queued <==> op is Some,
        s@ == word@ ==> read == Some(a),
        read is Some && read->0 == a ==> s@ == word@,
{
    crate::attachments::law_state_round_trip(a);
}

/// The first wait is a second, each wait is twice the one before, none is longer than a
/// minute, and after the last attempt there is none.
pub proof fn law_waits(
    attempts: u32,
    most: u32,
    r: Option<u64>,
    next: Option<u64>,
)
    requires
        attempts < u32::MAX,
        call_ensures(retry_after_ms, (attempts, most), r),
        call_ensures(retry_after_ms, ((attempts + 1) as u32, most), next),
    ensures
        r is Some <==> attempts < most,
        attempts == 0 && r is Some ==> r->0 == 1000,
        next is Some ==> r is Some && next->0 == (if 2 * r->0 <= 60_000 {
            2 * r->0
        } else {
            60_000
        }),
{
    vstd::arithmetic::power2::lemma_pow2_unfold((attempts + 1) as nat);
    vstd::arithmetic::power2::lemma2_to64();
}

// ---- writes of the engine ----

proof fn lemma_one_element(s: Seq<(Seq<char>, (Hlc, Option<Hlc>))>)
    requires
        s.len() == 1,
    ensures
        crate::crdt::sorted_elements(s) == s,
{
    let names = Seq::new(s.len(), |i: int| s[i].0);
    lemma_order_exists::<String>(names);
    assert(crate::crdt::sorted_elements(s) =~= s);
}

/// An add of an element is the payload of a set with that element, added at the moment
/// and never removed; a remove is one with it removed at the moment. Both upsert the row.
pub proof fn law_set_write(
    table: &str,
    pk: &str,
    element: &str,
    h: Hlc,
    remove: bool,
    r: PendingWrite,
    x: &Vec<OrSetElement>,
    bytes: Vec<u8>,
)
    requires
        call_ensures(or_set_write, (table, pk, element, h, remove), r),
        x@.len() == 1,
        x@[0].v@ == element@,
        !remove ==> x@[0].h == h && x@[0].d is None,
        remove ==> x@[0].h == (Hlc { wall_ms: 0, ctr: 0 }) && x@[0].d == Some(h),
        call_ensures(serialize_elements, (x,), bytes),
    ensures
        r.table@ == table@,
        r.pk@ == pk@,
        r.op == WriteOp::Upsert,
        r.payload_json is Some,
        encode_utf8(r.payload_json->0@) == bytes@,
{
    let s = element_views(x@);
    lemma_one_element(s);
    let stamp = if remove {
        (Hlc { wall_ms: 0, ctr: 0 }, Some(h))
    } else {
        (h, None)
    };
    assert(s =~= seq![(element@, stamp)]);
    assert(r@.payload is Some);
}

/// A change of a counter upserts the row with the payload that the change gives.
pub proof fn law_counter_write(
    table: &str,
    pk: &str,
    existing: &[u8],
    replica: &str,
    delta: i64,
    r: PendingWrite,
    bytes: Vec<u8>,
)
    requires
        call_ensures(counter_write, (table, pk, existing, replica, delta), r),
        call_ensures(counter_apply_delta, (existing, replica, delta), bytes),
    ensures
        r.table@ == table@,
        r.pk@ == pk@,
        r.op == WriteOp::Upsert,
        r.payload_json is Some,
        encode_utf8(r.payload_json->0@) == bytes@,
{
    assert(r@.payload is Some);
}

/// Whether an operation of a batch says all that it has to.
pub open spec fn complete(op: BatchOp) -> bool {
    &&& op.table is Some
    &&& op.pk is Some
    &&& op.op is Some
    &&& op.op->0@ == "upsert"@ || op.op->0@ == "delete"@ || op.op->0@ == "patch"@
}

/// What is wrong with an operation that does not.
pub open spec fn complaint(op: BatchOp) -> Seq<char> {
    if op.table is None {
        "writeBatch: missing table"@
    } else if op.op is None {
        "writeBatch: missing op"@
    } else if op.pk is None {
        "writeBatch: missing pk"@
    } else {
        "writeBatch: invalid op '"@ + op.op->0@ + "' (expected upsert|delete|patch)"@
    }
}

/// A batch is taken whole, each operation as one write in its place, or not at all: the
/// first operation that says too little is what is complained of.
pub proof fn law_batch_is_whole(ops: &Vec<BatchOp>, r: Result<Vec<PendingWrite>, String>)
    requires
        call_ensures(batch_writes, (ops,), r),
    ensures
        r is Ok <==> forall|i: int| 0 <= i < ops@.len() ==> complete(#[trigger] ops@[i]),
        r is Ok ==> r->Ok_0@.len() == ops@.len() && forall|i: int|
            0 <= i < ops@.len() ==> writes_op(#[trigger] ops@[i], r->Ok_0@[i]),
        forall|i: int|
            0 <= i < ops@.len() && !complete(#[trigger] ops@[i]) && (forall|k: int|
                0 <= k < i ==> complete(#[trigger] ops@[k])) ==> r is Err && r->Err_0@ == complaint(
                ops@[i],
            ),
{
    lemma_batch(ops@);
    reveal_strlit("upsert");
    reveal_strlit("delete");
    reveal_strlit("patch");
    assert("upsert"@[0] == 'u' && "delete"@[0] == 'd' && "patch"@[0] == 'p');
    if r is Ok {
        let s = batch_write_views(ops@)->Ok_0;
        assert(write_views(r->Ok_0@).len() == s.len());
        assert forall|i: int| 0 <= i < ops@.len() implies writes_op(
            #[trigger] ops@[i],
            r->Ok_0@[i],
        ) by {
            let w = r->Ok_0@[i];
            assert(write_views(r->Ok_0@)[i] == w@);
            assert(view_of_op(ops@[i], s[i]));
            assert(w@.payload == crate::engine::optional_view(ops@[i].payload_json));
            assert(complete(ops@[i]));
        }
    }
}

/// Whether a write is what an operation of a batch says.
pub open spec fn writes_op(op: BatchOp, w: PendingWrite) -> bool {
    &&& w.table@ == op.table->0@
    &&& w.pk@ == op.pk->0@
    &&& op.op->0@ == "upsert"@ ==> w.op == WriteOp::Upsert
    &&& op.op->0@ == "delete"@ ==> w.op == WriteOp::Delete
    &&& op.op->0@ == "patch"@ ==> w.op == WriteOp::Patch
    &&& w.payload_json is Some <==> op.payload_json is Some
    &&& op.payload_json is Some ==> w.payload_json->0@ == op.payload_json->0@
}

spec fn view_of_op(op: BatchOp, w: crate::outbox::WriteView) -> bool {
    crate::engine::batch_write(op) == Ok::<crate::outbox::WriteView, Seq<char>>(w)
}

proof fn lemma_batch(ops: Seq<BatchOp>)
    ensures
        batch_write_views(ops) is Ok <==> forall|i: int|
            0 <= i < ops.len() ==> complete(#[trigger] ops[i]),
        batch_write_views(ops) is Ok ==> batch_write_views(ops)->Ok_0.len() == ops.len() && forall|
            i: int,
        |
            0 <= i < ops.len() ==> #[trigger] view_of_op(ops[i], batch_write_views(ops)->Ok_0[i]),
        forall|i: int|
            0 <= i < ops.len() && !complete(#[trigger] ops[i]) && (forall|k: int|
                0 <= k < i ==> complete(#[trigger] ops[k])) ==> batch_write_views(ops) == Err::<
                Seq<crate::outbox::WriteView>,
                Seq<char>,
            >(complaint(ops[i])),
    decreases ops.len(),
{
    reveal_strlit("upsert");
    reveal_strlit("delete");
    reveal_strlit("patch");
    assert("upsert"@[0] == 'u' && "delete"@[0] == 'd' && "patch"@[0] == 'p');
    if ops.len() > 0 {
        let front = ops.drop_last();
        let n = ops.len() - 1;
        lemma_batch(front);
        assert(ops.last() == ops[n]);
        assert forall|i: int| 0 <= i < n implies #[trigger] front[i] == ops[i] by {}
        if batch_write_views(ops) is Ok {
            assert forall|i: int| 0 <= i < ops.len() implies complete(#[trigger] ops[i]) by {
                if i < n {
                    assert(complete(front[i]));
                }
            }
            assert forall|i: int| 0 <= i < ops.len() implies #[trigger] view_of_op(
                ops[i],
                batch_write_views(ops)->Ok_0[i],
            ) by {
                if i < n {
                    assert(view_of_op(front[i], batch_write_views(front)->Ok_0[i]));
                }
            }
        }
        if forall|i: int| 0 <= i < ops.len() ==> complete(#[trigger] ops[i]) {
            assert forall|i: int| 0 <= i < n implies complete(#[trigger] front[i]) by {
                assert(complete(ops[i]));
            }
            assert(complete(ops[n]));
        }
        assert forall|i: int|
            0 <= i < ops.len() && !complete(#[trigger] ops[i]) && (forall|k: int|
                0 <= k < i ==> complete(#[trigger] ops[k])) implies batch_write_views(ops) == Err::<
            Seq<crate::outbox::WriteView>,
            Seq<char>,
        >(complaint(ops[i])) by {
            assert forall|k: int| 0 <= k < i implies complete(#[trigger] front[k]) by {
                assert(complete(ops[k]));
            }
            if i < n {
                assert(!complete(front[i]));
            }
        }
    }
}

/// The word of a script for an operation, in any case; any other word inserts.
pub proof fn law_script_words(s: &str, r: Operation)
    requires
        call_ensures(parse_op, (s,), r),
    ensures
        lower(s@) == "update"@ ==> r == Operation::Update,
        lower(s@) == "delete"@ ==> r == Operation::Delete,
        lower(s@) != "update"@ && lower(s@) != "delete"@ ==> r == Operation::Insert,
{
    reveal_strlit("update");
    reveal_strlit("delete");
    assert("update"@[0] == 'u' && "delete"@[0] == 'd');
}

/// A replica is named by the time and a number.
pub proof fn law_replica_name(now: u64, n: u64, r: String)
    requires
        call_ensures(replica_id, (now, n), r),
    ensures
        r@ == "wasm-"@ + decimal(now as nat) + "-"@ + decimal(n as nat),
{
}

// ---- the socket ----

/// A write is sent as the frame of what was asked for, and queued as the same with the
/// space around its payload left out; a word that is no operation is refused, and so is
/// what no frame can be made of.
pub proof fn law_prepared_write(
    table: &str,
    op: &str,
    pk: &str,
    payload: Option<&str>,
    id: &str,
    r: Result<(String, PendingWrite), String>,
    frame: Result<String, WriteFrameError>,
    kind: Option<WriteOp>,
)
    requires
        call_ensures(prepare_write, (table, op, pk, payload, id), r),
        call_ensures(build_write_frame, (table, op, pk, payload, id), frame),
        call_ensures(WriteOp::from_wire_str, (op,), kind),
    ensures
        r is Ok <==> frame is Ok && kind is Some,
        r is Ok ==> {
            &&& (r->Ok_0).0@ == frame->Ok_0@
            &&& (r->Ok_0).1.table@ == table@
            &&& (r->Ok_0).1.pk@ == pk@
            &&& (r->Ok_0).1.op == kind->0
            &&& (r->Ok_0).1.payload_json is Some <==> payload is Some && trimmed(
                payload->0@,
            ).len() > 0
            &&& (r->Ok_0).1.payload_json is Some ==> (r->Ok_0).1.payload_json->0@ == trimmed(
                payload->0@,
            )
        },
        frame == Err::<String, WriteFrameError>(WriteFrameError::MalformedPayload) ==> r->Err_0@
            == "nostos write: payload is not JSON"@,
        frame == Err::<String, WriteFrameError>(WriteFrameError::NotAnObject) ==> r->Err_0@
            == "nostos write: payload is not a JSON object"@,
        frame is Ok && kind is None ==> r->Err_0@
            == "nostos write: invalid op (expected upsert|delete|patch)"@,
{
}

/// The frame of a write that waits is that of the first write under its id, which it
/// names in digits.
pub proof fn law_waiting_write_is_sent(
    writes: &Vec<(u64, PendingWrite)>,
    id: u64,
    r: Option<String>,
    i: int,
    word: &'static str,
    op: &str,
    table: &str,
    pk: &str,
    payload: Option<&str>,
    digits: &str,
    frame: Result<String, WriteFrameError>,
)
    requires
        call_ensures(frame_of_waiting, (writes, id), r),
        0 <= i < writes@.len(),
        writes@[i].0 == id,
        forall|k: int| 0 <= k < i ==> (#[trigger] writes@[k]).0 != id,
        call_ensures(WriteOp::as_wire_str, (writes@[i].1.op,), word),
        op@ == word@,
        table@ == writes@[i].1.table@,
        pk@ == writes@[i].1.pk@,
        payload is Some <==> writes@[i].1.payload_json is Some,
        payload is Some ==> payload->0@ == writes@[i].1.payload_json->0@,
        digits@ == decimal(id as nat),
        call_ensures(build_write_frame, (table, op, pk, payload, digits), frame),
    ensures
        r is Some <==> frame is Ok,
        r is Some ==> r->0@ == frame->Ok_0@,
{
    let s = waiting_views(writes@);
    assert(s[i] == (writes@[i].0, writes@[i].1@));
    assert forall|k: int| 0 <= k < i implies (#[trigger] s[k]).0 != id by {
        assert(s[k] == (writes@[k].0, writes@[k].1@));
    }
    lemma_first_under(s, id, i);
    assert(crate::transport::optional_str(payload) == writes@[i].1@.payload);
}

proof fn lemma_first_under(s: Seq<(u64, crate::outbox::WriteView)>, id: u64, i: int)
    requires
        0 <= i < s.len(),
        s[i].0 == id,
        forall|k: int| 0 <= k < i ==> (#[trigger] s[k]).0 != id,
    ensures
        waiting_under(s, id) == Some(s[i].1),
    decreases s.len(),
{
    let front = s.drop_last();
    if i < s.len() - 1 {
        assert(front[i] == s[i]);
        lemma_first_under(front, id, i);
    } else {
        lemma_none_under(front, id);
    }
}

proof fn lemma_none_under(s: Seq<(u64, crate::outbox::WriteView)>, id: u64)
    requires
        forall|k: int| 0 <= k < s.len() ==> (#[trigger] s[k]).0 != id,
    ensures
        waiting_under(s, id) is None,
    decreases s.len(),
{
    if s.len() > 0 {
        assert(s.last() == s[s.len() - 1]);
        lemma_none_under(s.drop_last(), id);
    }
}

/// A subscription resumes from the checkpoint of the store, and from the start where
/// that is zero; it can only be sent while the socket is open.
pub proof fn law_subscription_resumes(
    e: &NostosEngine<InMemoryStorage>,
    table: &str,
    condition: Option<&str>,
    at: u64,
    r: String,
    open: bool,
    sent: Result<String, String>,
    frame: String,
)
    requires
        call_ensures(NostosEngine::<InMemoryStorage>::checkpoint, (e,), at),
        call_ensures(
            NostosEngine::<InMemoryStorage>::subscribe_frame,
            (e, table, condition),
            r,
        ),
        call_ensures(
            NostosEngine::<InMemoryStorage>::subscribe,
            (e, open, table, condition),
            sent,
        ),
        call_ensures(
            build_subscribe_frame,
            (
                table,
                condition,
                if at > 0 {
                    Some(at)
                } else {
                    None::<u64>
                },
            ),
            frame,
        ),
    ensures
        r@ == frame@,
        sent is Ok <==> open,
        sent is Ok ==> sent->Ok_0@ == frame@,
        sent is Err ==> sent->Err_0@ == "subscribe: socket not open"@,
{
}

/// A socket that reconnects asks with the condition that was set last; an empty one is
/// none.
pub proof fn law_resume_keeps_the_condition(
    e0: NostosEngine<InMemoryStorage>,
    sql: Option<String>,
    e1: NostosEngine<InMemoryStorage>,
    table: &str,
    condition: Option<&str>,
    r: Result<String, String>,
    frame: String,
)
    requires
        exists|h: &mut NostosEngine<InMemoryStorage>| #[trigger]
            call_ensures(NostosEngine::<InMemoryStorage>::set_where_sql, (h, sql), ()) && *h == e0
                && *final(h) == e1,
        condition is Some <==> sql is Some && sql->0@.len() > 0,
        condition is Some ==> condition->0@ == sql->0@,
        call_ensures(NostosEngine::<InMemoryStorage>::resume, (&e1, true, table), r),
        call_ensures(
            NostosEngine::<InMemoryStorage>::subscribe_frame,
            (&e1, table, condition),
            frame,
        ),
    ensures
        r is Ok && r->Ok_0@ == frame@,
{
    assert(crate::transport::optional_str(condition) == e1.condition());
}

/// What is taken in waits for more; when the stream ends it is committed, and the
/// position is confirmed.
pub proof fn law_end_of_stream_confirms(
    name: String,
    e0: NostosEngine<InMemoryStorage>,
    data: &[u8],
    e1: NostosEngine<InMemoryStorage>,
    first: SocketReply,
    e2: NostosEngine<InMemoryStorage>,
    last: SocketReply,
    frames: Vec<WireFrame>,
    ack: String,
    at: u64,
)
    requires
        call_ensures(NostosEngine::<InMemoryStorage>::new, (name,), e0),
        exists|h: &mut NostosEngine<InMemoryStorage>| #[trigger]
            call_ensures(NostosEngine::<InMemoryStorage>::receive, (h, data), first) && *h == e0
                && *final(h) == e1,
        exists|h: &mut NostosEngine<InMemoryStorage>| #[trigger]
            call_ensures(NostosEngine::<InMemoryStorage>::finish, (h,), last) && *h == e1
                && *final(h) == e2,
        call_ensures(decode_frames, (data,), frames),
        frames@.len() == 1,
        call_ensures(build_ack_frame, (frames@[0].lsn,), ack),
        call_ensures(NostosEngine::<InMemoryStorage>::checkpoint, (&e2,), at),
    ensures
        first is Quiet,
        last is Confirm,
        last->lsn == frames@[0].lsn,
        last->frame@ == ack@,
        at == frames@[0].lsn,
{
    let v = message_frames(data@);
    assert(v == wire_views(frames@));
    assert(v.len() == 1 && v[0] == frames@[0]@);
    let s = crate::transport::all_arrived(v);
    let f = crate::transport::arrived(frames@[0]@);
    assert(s.len() == 1 && s[0] == f && s.last() == f);
    assert(s.drop_last() =~= seq![]);
    reveal_with_fuel(crate::transport::last_commit, 2);
    reveal_with_fuel(crate::apply::batch_after, 2);
    let b0 = e0.applying().batch();
    assert(b0 == fresh_batch(Lsn(0), crate::apply::DEFAULT_MAX_BATCH));
    assert(!crate::apply::fills(b0, f));
    assert(e1.applying().batch() == admitted(b0, f));
    let (batches, stores) = choose|
        batches: Seq<crate::apply::BatchState>,
        stores: Seq<crate::storage::StoreState>,
    | #[trigger]
        crate::apply::run(batches, stores, s) && batches[0] == e0.applying().batch() && stores[0]
            == e0.applying().store() && stores.last() == e1.applying().store();
    assert(crate::apply::fed(batches[0], stores[0], s[0], batches[1], stores[1]));
    assert(stores.last() == stores[1]);
    assert(e1.applying().store() == e0.applying().store());
}

/// A socket is open, failed or waiting by the number of its state.
pub proof fn law_handshake(state: u16, r: Handshake)
    requires
        call_ensures(handshake, (state,), r),
    ensures
        r is Open <==> state == 1,
        r is Failed <==> state == 3,
{
}

/// A store that lasts resumes from its own checkpoint, one that does not from the
/// position that was kept beside it.
pub proof fn law_resumes_from(durable: bool, at: u64, kept: Option<u64>, r: Option<u64>)
    requires
        call_ensures(resume_from, (durable, at, kept), r),
    ensures
        !durable ==> r == kept,
        durable && at > 0 ==> r == Some(at),
        durable && at == 0 ==> r is None,
{
}

// ---- the engine ----

/// Whether two writes are the same.
pub open spec fn same_write(a: PendingWrite, b: PendingWrite) -> bool {
    &&& a.table@ == b.table@
    &&& a.op == b.op
    &&& a.pk@ == b.pk@
    &&& a.payload_json is Some <==> b.payload_json is Some
    &&& a.payload_json is Some ==> a.payload_json->0@ == b.payload_json->0@
}

proof fn lemma_same_write(a: PendingWrite, b: PendingWrite)
    requires
        a@ == b@,
    ensures
        same_write(a, b),
{
}

proof fn lemma_only_waiting(
    e: NostosEngine<InMemoryStorage>,
    store: &InMemoryStorage,
    y: Vec<(u64, PendingWrite)>,
    id: u64,
    w: PendingWrite,
)
    requires
        call_ensures(NostosEngine::<InMemoryStorage>::held, (&e,), store),
        call_ensures(
            InMemoryStorage::pending,
            (store,),
            Ok::<Vec<(u64, PendingWrite)>, StorageError>(y),
        ),
        e.waiting().waiting == seq![(id, w@)],
    ensures
        y@.len() == 1,
        y@[0].0 == id,
        same_write(y@[0].1, w),
{
    let v = waiting_views(y@);
    assert(v.len() == y@.len());
    assert(v[0] == (y@[0].0, y@[0].1@));
    lemma_same_write(y@[0].1, w);
}

/// An add to a set queues the add of the element at the next moment, and a remove its
/// remove.
pub proof fn law_set_changes_are_queued(
    name: String,
    e0: NostosEngine<InMemoryStorage>,
    table: &str,
    pk: &str,
    element: &str,
    now: u64,
    remove: bool,
    e1: NostosEngine<InMemoryStorage>,
    id: u64,
    store: &InMemoryStorage,
    y: Vec<(u64, PendingWrite)>,
    h: Hlc,
    w: PendingWrite,
    count: u64,
)
    requires
        call_ensures(NostosEngine::<InMemoryStorage>::new, (name,), e0),
        !remove ==> exists|g: &mut NostosEngine<InMemoryStorage>| #[trigger]
            call_ensures(
                NostosEngine::<InMemoryStorage>::or_set_add,
                (g, table, pk, element, now),
                Ok::<u64, String>(id),
            ) && *g == e0 && *final(g) == e1,
        remove ==> exists|g: &mut NostosEngine<InMemoryStorage>| #[trigger]
            call_ensures(
                NostosEngine::<InMemoryStorage>::or_set_remove,
                (g, table, pk, element, now),
                Ok::<u64, String>(id),
            ) && *g == e0 && *final(g) == e1,
        call_ensures(NostosEngine::<InMemoryStorage>::held, (&e1,), store),
        call_ensures(
            InMemoryStorage::pending,
            (store,),
            Ok::<Vec<(u64, PendingWrite)>, StorageError>(y),
        ),
        call_ensures(Hlc::mint, (None::<Hlc>, now), h),
        call_ensures(or_set_write, (table, pk, element, h, remove), w),
        call_ensures(NostosEngine::<InMemoryStorage>::pending_count, (&e1,), count),
    ensures
        y@.len() == 1,
        y@[0].0 == id,
        same_write(y@[0].1, w),
        count == 1,
{
    assert(e1.waiting().waiting =~= seq![(id, w@)]);
    lemma_only_waiting(e1, store, y, id, w);
}

/// An increment of a counter queues the change by as much, and a decrement the change by
/// as much less, on behalf of the replica.
pub proof fn law_counter_changes_are_queued(
    name: String,
    e0: NostosEngine<InMemoryStorage>,
    table: &str,
    pk: &str,
    delta: i64,
    less: bool,
    e1: NostosEngine<InMemoryStorage>,
    id: u64,
    store: &InMemoryStorage,
    y: Vec<(u64, PendingWrite)>,
    existing: &[u8],
    replica: &str,
    w: PendingWrite,
)
    requires
        call_ensures(NostosEngine::<InMemoryStorage>::new, (name,), e0),
        call_ensures(NostosEngine::<InMemoryStorage>::replica_name, (&e0,), replica),
        delta > i64::MIN,
        !less ==> exists|g: &mut NostosEngine<InMemoryStorage>| #[trigger]
            call_ensures(
                NostosEngine::<InMemoryStorage>::counter_increment,
                (g, table, pk, delta),
                Ok::<u64, String>(id),
            ) && *g == e0 && *final(g) == e1,
        less ==> exists|g: &mut NostosEngine<InMemoryStorage>| #[trigger]
            call_ensures(
                NostosEngine::<InMemoryStorage>::counter_decrement,
                (g, table, pk, delta),
                Ok::<u64, String>(id),
            ) && *g == e0 && *final(g) == e1,
        call_ensures(NostosEngine::<InMemoryStorage>::held, (&e1,), store),
        call_ensures(
            InMemoryStorage::pending,
            (store,),
            Ok::<Vec<(u64, PendingWrite)>, StorageError>(y),
        ),
        existing@.len() == 0,
        call_ensures(
            counter_write,
            (
                table,
                pk,
                existing,
                replica,
                if less {
                    (-delta) as i64
                } else {
                    delta
                },
            ),
            w,
        ),
    ensures
        replica@ == name@,
        y@.len() == 1,
        y@[0].0 == id,
        same_write(y@[0].1, w),
{
    let none: Seq<u8> = seq![];
    assert(existing@ =~= none);
    let d = if less {
        (-delta) as i64
    } else {
        delta
    };
    let read = choose|read: Option<Vec<u8>>| #[trigger]
        call_ensures(
            InMemoryStorage::read_payload,
            (&e0.backing(), table, pk),
            Ok::<Option<Vec<u8>>, StorageError>(read),
        ) && e1.recorded(
            &e0,
            id,
            crate::engine::counter_change(
                table@,
                pk@,
                crate::engine::changed_from(read),
                e0.replica(),
                d,
            ),
        );
    assert(read is None);
    assert(e1.waiting().waiting =~= seq![(id, w@)]);
    lemma_only_waiting(e1, store, y, id, w);
}

/// A write is queued as it was prepared, and sent as that frame; what could not be
/// prepared is refused for the same reason, and nothing is queued.
pub proof fn law_written_as_prepared(
    name: String,
    e0: NostosEngine<InMemoryStorage>,
    table: &str,
    op: &str,
    pk: &str,
    payload: Option<&str>,
    client: &str,
    e1: NostosEngine<InMemoryStorage>,
    r: Result<crate::socket::Written, String>,
    p: Result<(String, PendingWrite), String>,
    store: &InMemoryStorage,
    y: Vec<(u64, PendingWrite)>,
    id: u64,
    e2: NostosEngine<InMemoryStorage>,
    rest: &InMemoryStorage,
    z: Vec<(u64, PendingWrite)>,
)
    requires
        call_ensures(NostosEngine::<InMemoryStorage>::new, (name,), e0),
        exists|g: &mut NostosEngine<InMemoryStorage>| #[trigger]
            call_ensures(
                NostosEngine::<InMemoryStorage>::write,
                (g, table, op, pk, payload, client),
                r,
            ) && *g == e0 && *final(g) == e1,
        call_ensures(prepare_write, (table, op, pk, payload, client), p),
        call_ensures(NostosEngine::<InMemoryStorage>::held, (&e1,), store),
        call_ensures(
            InMemoryStorage::pending,
            (store,),
            Ok::<Vec<(u64, PendingWrite)>, StorageError>(y),
        ),
        exists|g: &mut NostosEngine<InMemoryStorage>| #[trigger]
            call_ensures(NostosEngine::<InMemoryStorage>::mark_shipped, (g, id), ()) && *g == e1
                && *final(g) == e2,
        call_ensures(NostosEngine::<InMemoryStorage>::held, (&e2,), rest),
        call_ensures(
            InMemoryStorage::pending,
            (rest,),
            Ok::<Vec<(u64, PendingWrite)>, StorageError>(z),
        ),
    ensures
        r is Ok <==> p is Ok,
        r is Err ==> r->Err_0@ == p->Err_0@ && y@.len() == 0,
        r is Ok ==> r->Ok_0.frame@ == (p->Ok_0).0@ && r->Ok_0.shown && y@.len() == 1 && y@[0].0
            == r->Ok_0.id && same_write(y@[0].1, (p->Ok_0).1),
        r is Ok && r->Ok_0.id == id ==> z@.len() == 0,
        r is Ok && r->Ok_0.id != id ==> z@.len() == 1,
{
    let v = waiting_views(y@);
    let u = waiting_views(z@);
    assert(v.len() == y@.len() && u.len() == z@.len());
    if r is Ok {
        let w = (p->Ok_0).1;
        assert(e1.waiting().waiting =~= seq![(r->Ok_0.id, w@)]);
        lemma_only_waiting(e1, store, y, r->Ok_0.id, w);
        let s = e1.waiting().waiting;
        assert(s.last() == (r->Ok_0.id, w@));
        assert(s.drop_last() =~= seq![]);
        reveal_with_fuel(crate::outbox::without_id, 2);
    }
}

/// A batch is queued in its order, each write under its own id, a later write under a
/// larger one.
pub proof fn law_batch_is_queued_in_order(
    name: String,
    e0: NostosEngine<InMemoryStorage>,
    ops: Vec<BatchOp>,
    e1: NostosEngine<InMemoryStorage>,
    ids: Vec<u64>,
    writes: Vec<PendingWrite>,
    store: &InMemoryStorage,
    y: Vec<(u64, PendingWrite)>,
    i: int,
)
    requires
        call_ensures(NostosEngine::<InMemoryStorage>::new, (name,), e0),
        exists|g: &mut NostosEngine<InMemoryStorage>| #[trigger]
            call_ensures(
                NostosEngine::<InMemoryStorage>::write_batch,
                (g, ops),
                Ok::<Vec<u64>, String>(ids),
            ) && *g == e0 && *final(g) == e1,
        call_ensures(batch_writes, (&ops,), Ok::<Vec<PendingWrite>, String>(writes)),
        call_ensures(NostosEngine::<InMemoryStorage>::held, (&e1,), store),
        call_ensures(
            InMemoryStorage::pending,
            (store,),
            Ok::<Vec<(u64, PendingWrite)>, StorageError>(y),
        ),
        0 <= i < ids@.len(),
    ensures
        ids@.len() == writes@.len(),
        y@.len() == ids@.len(),
        y@[i].0 == ids@[i],
        same_write(y@[i].1, writes@[i]),
        i > 0 ==> ids@[i - 1] < ids@[i],
{
    let v = waiting_views(y@);
    let s = write_views(writes@);
    assert(v.len() == y@.len() && s.len() == writes@.len());
    assert(v == Seq::new(s.len(), |k: int| (ids@[k], s[k]))) by {
        assert(e0.waiting().waiting.len() == 0);
        assert(v =~= Seq::new(s.len(), |k: int| (ids@[k], s[k])));
    }
    assert(v[i] == (y@[i].0, y@[i].1@));
    assert(s[i] == writes@[i]@);
    lemma_same_write(y@[i].1, writes@[i]);
}

/// The tables of sets are those that were given as such, and so are those of counters;
/// a store that was cleared holds no row and nothing waits.
pub proof fn law_tables_that_merge(
    e0: NostosEngine<InMemoryStorage>,
    sets: Vec<String>,
    counters: Vec<String>,
    e1: NostosEngine<InMemoryStorage>,
    i: int,
    k: int,
    e2: NostosEngine<InMemoryStorage>,
    rows: usize,
    count: u64,
)
    requires
        exists|g: &mut NostosEngine<InMemoryStorage>| #[trigger]
            call_ensures(
                NostosEngine::<InMemoryStorage>::set_crdt_tables,
                (g, sets, counters),
                (),
            ) && *g == e0 && *final(g) == e1,
        0 <= i < sets@.len(),
        0 <= k < counters@.len(),
        exists|g: &mut NostosEngine<InMemoryStorage>| #[trigger]
            call_ensures(NostosEngine::<InMemoryStorage>::clear, (g,), ()) && *g == e1 && *final(g)
                == e2,
        call_ensures(NostosEngine::<InMemoryStorage>::row_count, (&e2,), rows),
        call_ensures(NostosEngine::<InMemoryStorage>::pending_count, (&e2,), count),
    ensures
        e1.backing().store_view().merging.or_sets.contains(sets@[i]@),
        e1.backing().store_view().merging.counters.contains(counters@[k]@),
        !(exists|j: int| 0 <= j < counters@.len() && (#[trigger] counters@[j])@ == sets@[i]@)
            ==> !e1.backing().store_view().merging.counters.contains(sets@[i]@),
        rows == 0,
        count == 0,
{
    let a = crate::text::text_views(sets@);
    let b = crate::text::text_views(counters@);
    assert(a[i] == sets@[i]@);
    assert(b[k] == counters@[k]@);
    assert(a.contains(sets@[i]@) && b.contains(counters@[k]@));
    if b.contains(sets@[i]@) {
        let j = choose|j: int| 0 <= j < b.len() && b[j] == sets@[i]@;
        assert(counters@[j]@ == sets@[i]@);
    }
    assert(e2.applying().store().rows =~= Map::empty());
    assert(e2.applying().store().rows.dom() =~= Set::empty());
}

} // verus!
