//! The messages between a client and the server: decoding what arrives, building
//! what is sent, and the step from an arriving message to what is confirmed.

use vstd::prelude::*;
use crate::apply::{
    batch_after, fed_through, feed_outcome, frame_ops, lemma_run_is_batch_after, lemma_run_on,
    partly_fed, run, ApplyEngine, BatchState, Frame, FrameView,
};
use crate::events::{Operation, RowOp};
use crate::json::{
    json_read, json_text, json_view, lemma_list_view, lemma_record_view, list_view, parse_json,
    part, record_view, render_json, shaped, Json, JsonView,
};
use crate::json_order::{in_name_order, ordered_json};
use crate::numbers::{
    char_to_digit, decimal, decimal_text, digit_value, parse_unsigned, read_unsigned,
};
use crate::pull::{operation_named, parse_operation, text_of, text_part};
use crate::lsn::Lsn;
use crate::names::NameSet;
use crate::storage::{op_views, Storage, StorageError, StoreState};
use crate::text::{chars_of, trim_chars, trim_text, trimmed};
use vstd::utf8::encode_utf8;

verus! {

// ---- what arrives ----

/// A frame as it arrives: the payload is written in hexadecimal digits.
#[derive(Debug, Clone, PartialEq, Eq)]
pub struct WireFrame {
    pub lsn: u64,
    pub op: Operation,
    pub table: String,
    pub pk: String,
    pub payload: Option<String>,
    pub txn_id: Option<u64>,
}

/// A frame as it arrives, by its values.
pub struct WireFrameView {
    pub lsn: u64,
    pub op: Operation,
    pub table: Seq<char>,
    pub pk: Seq<char>,
    pub payload: Option<Seq<char>>,
    pub txn_id: Option<u64>,
}

impl View for WireFrame {
    type V = WireFrameView;

    open spec fn view(&self) -> WireFrameView {
        WireFrameView {
            lsn: self.lsn,
            op: self.op,
            table: self.table@,
            pk: self.pk@,
            payload: match self.payload {
                Some(s) => Some(s@),
                None => None,
            },
            txn_id: self.txn_id,
        }
    }
}

/// The frames by their values.
pub open spec fn wire_views(s: Seq<WireFrame>) -> Seq<WireFrameView> {
    Seq::new(s.len(), |i: int| s[i]@)
}

/// Reads an operation: its name, or a record of that name alone with null.
pub open spec fn read_op(v: Option<JsonView>) -> Option<Operation> {
    match v {
        Some(JsonView::Text(s)) => operation_named(s),
        Some(JsonView::Record(fields)) => if fields.len() == 1 && fields[0].1 is Null {
            operation_named(fields[0].0)
        } else {
            None
        },
        _ => None,
    }
}

/// Reads a part that may be missing or null, and is text otherwise.
pub open spec fn read_optional_text(v: Option<JsonView>) -> Option<Option<Seq<char>>> {
    match v {
        None => Some(None),
        Some(JsonView::Null) => Some(None),
        Some(JsonView::Text(s)) => Some(Some(s)),
        Some(_) => None,
    }
}

/// Reads a part that may be missing or null, and is an unsigned number otherwise.
pub open spec fn read_optional_number(v: Option<JsonView>) -> Option<Option<u64>> {
    match v {
        None => Some(None),
        Some(JsonView::Null) => Some(None),
        Some(JsonView::Unsigned(n)) => Some(Some(n)),
        Some(_) => None,
    }
}

/// Reads a frame.
pub open spec fn read_frame(v: JsonView) -> Option<WireFrameView> {
    match (
        part(v, 0, "lsn"@),
        read_op(part(v, 1, "op"@)),
        text_part(part(v, 2, "table"@)),
        text_part(part(v, 3, "pk"@)),
        read_optional_text(part(v, 4, "payload"@)),
        read_optional_number(part(v, 5, "txn_id"@)),
    ) {
        (
            Some(JsonView::Unsigned(lsn)),
            Some(op),
            Some(table),
            Some(pk),
            Some(payload),
            Some(txn_id),
        ) => if shaped(v, 6) {
            Some(WireFrameView { lsn, op, table, pk, payload, txn_id })
        } else {
            None
        },
        _ => None,
    }
}

/// Reads a list of frames.
pub open spec fn read_frames(items: Seq<JsonView>) -> Option<Seq<WireFrameView>>
    decreases items.len(),
{
    if items.len() == 0 {
        Some(seq![])
    } else {
        match (read_frames(items.drop_last()), read_frame(items.last())) {
            (Some(s), Some(f)) => Some(s.push(f)),
            _ => None,
        }
    }
}

/// Whether a byte is white space of ASCII.
pub open spec fn blank_byte(b: u8) -> bool {
    b == 0x20 || b == 0x09 || b == 0x0a || b == 0x0c || b == 0x0d
}

/// The first byte that is no white space.
pub open spec fn first_byte(data: Seq<u8>) -> Option<u8>
    decreases data.len(),
{
    if data.len() == 0 {
        None
    } else if blank_byte(data[0]) {
        first_byte(data.skip(1))
    } else {
        Some(data[0])
    }
}

/// The frames of a message: those of a list, or the one of a record. A message that
/// is neither, or that holds anything but frames, has none.
pub open spec fn message_frames(data: Seq<u8>) -> Seq<WireFrameView> {
    match (first_byte(data), json_read(data)) {
        (Some(0x5bu8), Some(JsonView::List(items))) => match read_frames(items) {
            Some(frames) => frames,
            None => seq![],
        },
        (Some(0x7bu8), Some(v)) => match read_frame(v) {
            Some(f) => seq![f],
            None => seq![],
        },
        _ => seq![],
    }
}

/// Reads an operation.
fn op_of(v: Option<&Json>) -> (r: Option<Operation>)
    ensures
        r == read_op(match v {
            Some(j) => Some(j@),
            None => None,
        }),
{
    match v {
        Some(Json::Text(s)) => parse_operation(s.as_str()),
        Some(Json::Record(fields)) => {
            proof {
                lemma_record_view(fields@);
            }
            if fields.len() == 1 {
                assert(record_view(fields@)[0] == (fields@[0].0@, json_view(fields@[0].1)));
                match &fields[0].1 {
                    Json::Null => parse_operation(fields[0].0.as_str()),
                    _ => None,
                }
            } else {
                None
            }
        },
        _ => None,
    }
}

/// Reads a frame.
fn frame_of(v: &Json) -> (r: Option<WireFrame>)
    ensures
        r is Some <==> read_frame(v@) is Some,
        r is Some ==> r->0@ == read_frame(v@)->0,
{
    if !v.shaped(6) {
        return None;
    }
    let payload: Option<String> = match v.part(4, "payload") {
        None => None,
        Some(Json::Null) => None,
        Some(Json::Text(s)) => Some(s.clone()),
        Some(_) => {
            return None;
        },
    };
    let txn_id: Option<u64> = match v.part(5, "txn_id") {
        None => None,
        Some(Json::Null) => None,
        Some(Json::Unsigned(n)) => Some(*n),
        Some(_) => {
            return None;
        },
    };
    let op = op_of(v.part(1, "op"));
    let table = text_of(v.part(2, "table"));
    let pk = text_of(v.part(3, "pk"));
    match (v.part(0, "lsn"), op, table, pk) {
        (Some(Json::Unsigned(lsn)), Some(op), Some(table), Some(pk)) => Some(
            WireFrame { lsn: *lsn, op, table, pk, payload, txn_id },
        ),
        _ => None,
    }
}

proof fn lemma_read_frames_prefix(items: Seq<JsonView>, i: int)
    requires
        0 <= i <= items.len(),
        read_frames(items.take(i)) is None,
    ensures
        read_frames(items) is None,
    decreases items.len() - i,
{
    if i == items.len() {
        assert(items.take(i) =~= items);
    } else {
        assert(items.take(i + 1).drop_last() =~= items.take(i));
        lemma_read_frames_prefix(items, i + 1);
    }
}

/// Reads a list of frames.
fn frames_of(items: &Vec<Json>) -> (r: Option<Vec<WireFrame>>)
    ensures
        r is Some <==> read_frames(list_view(items@)) is Some,
        r is Some ==> wire_views(r->0@) == read_frames(list_view(items@))->0,
{
    let ghost views = list_view(items@);
    proof {
        lemma_list_view(items@);
    }
    let mut frames: Vec<WireFrame> = Vec::new();
    let mut i: usize = 0;
    assert(views.take(0) =~= seq![]);
    assert(wire_views(frames@) =~= seq![]);
    while i < items.len()
        invariant
            i <= items@.len(),
            views == list_view(items@),
            views.len() == items@.len(),
            forall|k: int| 0 <= k < items@.len() ==> #[trigger] views[k] == json_view(items@[k]),
            read_frames(views.take(i as int)) == Some(wire_views(frames@)),
        decreases items@.len() - i,
    {
        proof {
            assert(views.take(i + 1).drop_last() =~= views.take(i as int));
            assert(views.take(i + 1).last() == views[i as int]);
        }
        let ghost before = wire_views(frames@);
        match frame_of(&items[i]) {
            None => {
                proof {
                    lemma_read_frames_prefix(views, i + 1);
                }
                return None;
            },
            Some(f) => {
                let ghost v = f@;
                frames.push(f);
                assert(wire_views(frames@) =~= before.push(v));
            },
        }
        i += 1;
    }
    assert(views.take(i as int) =~= views);
    Some(frames)
}

/// The first byte that is no white space.
fn first_significant(data: &[u8]) -> (r: Option<u8>)
    ensures
        r == first_byte(data@),
{
    let mut i: usize = 0;
    assert(data@.skip(0) =~= data@);
    while i < data.len()
        invariant
            i <= data@.len(),
            first_byte(data@) == first_byte(data@.skip(i as int)),
        decreases data@.len() - i,
    {
        let b: u8 = data[i];
        assert(data@.skip(i as int)[0] == b);
        assert(data@.skip(i as int).skip(1) =~= data@.skip(i + 1));
        if !(b == 0x20 || b == 0x09 || b == 0x0a || b == 0x0c || b == 0x0d) {
            return Some(b);
        }
        i += 1;
    }
    None
}

/// The frames of a message.
pub fn decode_frames(data: &[u8]) -> (r: Vec<WireFrame>)
    ensures
        wire_views(r@) == message_frames(data@),
{
    let empty: Vec<WireFrame> = Vec::new();
    assert(wire_views(empty@) =~= seq![]);
    match first_significant(data) {
        Some(b) => {
            if b == 0x5b {
                match parse_json(data) {
                    Some(Json::List(items)) => match frames_of(&items) {
                        Some(frames) => frames,
                        None => empty,
                    },
                    _ => empty,
                }
            } else if b == 0x7b {
                match parse_json(data) {
                    Some(v) => match frame_of(&v) {
                        Some(f) => {
                            let ghost view = f@;
                            let mut one: Vec<WireFrame> = Vec::new();
                            one.push(f);
                            assert(wire_views(one@) =~= seq![view]);
                            one
                        },
                        None => empty,
                    },
                    None => empty,
                }
            } else {
                empty
            }
        },
        None => empty,
    }
}

// ---- hexadecimal digits ----

/// The bytes that hexadecimal digits write, two digits for each. Nothing where their
/// number is odd or one is no digit.
pub open spec fn hex_bytes(s: Seq<char>) -> Option<Seq<u8>>
    decreases s.len(),
{
    if s.len() == 0 {
        Some(seq![])
    } else if s.len() == 1 {
        None
    } else {
        match (
            digit_value(s[s.len() - 2]),
            digit_value(s[s.len() - 1]),
            hex_bytes(s.take(s.len() - 2)),
        ) {
            (Some(high), Some(low), Some(front)) => Some(front.push((high * 16 + low) as u8)),
            _ => None,
        }
    }
}

proof fn lemma_hex_prefix(s: Seq<char>, i: int)
    requires
        0 <= i,
        2 * i <= s.len(),
        hex_bytes(s.take(2 * i)) is None,
    ensures
        hex_bytes(s) is None,
    decreases s.len() - 2 * i,
{
    if 2 * i == s.len() {
        assert(s.take(2 * i) =~= s);
    } else if 2 * i + 1 == s.len() {
        lemma_odd_hex(s);
    } else {
        let t = s.take(2 * i + 2);
        assert(t.take(t.len() - 2) =~= s.take(2 * i));
        lemma_hex_prefix(s, i + 1);
    }
}

proof fn lemma_odd_hex(s: Seq<char>)
    requires
        s.len() % 2 == 1,
    ensures
        hex_bytes(s) is None,
    decreases s.len(),
{
    if s.len() > 1 {
        lemma_odd_hex(s.take(s.len() - 2));
    }
}

/// The bytes that hexadecimal digits write.
pub fn decode_hex(s: &str) -> (r: Option<Vec<u8>>)
    ensures
        match hex_bytes(s@) {
            Some(bytes) => r is Some && r->0@ == bytes,
            None => r is None,
        },
{
    let chars = chars_of(s);
    let total: usize = chars.len();
    if total % 2 != 0 {
        proof {
            lemma_odd_hex(s@);
        }
        return None;
    }
    let mut out: Vec<u8> = Vec::new();
    let mut i: usize = 0;
    assert(chars@.take(0) =~= seq![]);
    while i < total
        invariant
            total == chars@.len(),
            total % 2 == 0,
            i % 2 == 0,
            i <= total,
            chars@ == s@,
            hex_bytes(chars@.take(i as int)) == Some(out@),
        decreases total - i,
    {
        let ghost t = chars@.take(i + 2);
        proof {
            assert(t.take(t.len() - 2) =~= chars@.take(i as int));
            assert(t[t.len() - 2] == chars@[i as int] && t[t.len() - 1] == chars@[i + 1]);
            if hex_bytes(t) is None {
                assert(i == 2 * (i / 2));
                lemma_hex_prefix(chars@, (i / 2 + 1) as int);
            }
        }
        match (char_to_digit(chars[i]), char_to_digit(chars[i + 1])) {
            (Some(high), Some(low)) => {
                out.push((high * 16 + low) as u8);
            },
            _ => {
                return None;
            },
        }
        i += 2;
    }
    assert(chars@.take(i as int) =~= chars@);
    Some(out)
}

// ---- what is sent ----

/// A subscription to a table: with the condition that rows must meet, where there is
/// one that says something, and the position to go on from, where there is one.
pub open spec fn subscribe_json(
    table: Seq<char>,
    where_sql: Option<Seq<char>>,
    resume_lsn: Option<u64>,
) -> JsonView {
    let start = seq![
        ("type"@, JsonView::Text("subscribe"@)),
        ("table"@, JsonView::Text(table)),
        ("filters"@, JsonView::List(seq![])),
    ];
    let resumed = match resume_lsn {
        Some(lsn) => start.push(("resume_lsn"@, JsonView::Unsigned(lsn))),
        None => start,
    };
    JsonView::Record(
        match where_sql {
            Some(w) => if w.len() > 0 {
                resumed.push(("where_sql"@, JsonView::Text(w)))
            } else {
                resumed
            },
            None => resumed,
        },
    )
}

/// A confirmation of a position.
pub open spec fn ack_json(lsn: u64) -> JsonView {
    JsonView::Record(seq![("type"@, JsonView::Text("ack"@)), ("lsn"@, JsonView::Unsigned(lsn))])
}

/// A write, with the row where there is one.
pub open spec fn write_json(
    table: Seq<char>,
    op: Seq<char>,
    pk: Seq<char>,
    payload: Option<JsonView>,
    client_write_id: Seq<char>,
) -> JsonView {
    let start = seq![
        ("type"@, JsonView::Text("write"@)),
        ("table"@, JsonView::Text(table)),
        ("op"@, JsonView::Text(op)),
        ("pk"@, JsonView::Text(pk)),
    ];
    let filled = match payload {
        Some(v) => start.push(("payload"@, v)),
        None => start,
    };
    JsonView::Record(filled.push(("client_write_id"@, JsonView::Text(client_write_id))))
}

/// Why a write cannot be sent.
#[derive(Debug, Clone, Copy, PartialEq, Eq, Structural)]
pub enum WriteFrameError {
    /// The payload is no JSON document.
    MalformedPayload,
    /// The payload is no JSON object.
    NotAnObject,
}

/// The row of a write: that of a payload, with its members in order. A payload of
/// white space alone is none.
pub open spec fn write_payload(payload: Option<Seq<char>>) -> Result<
    Option<JsonView>,
    WriteFrameError,
> {
    match payload {
        None => Ok(None),
        Some(s) => if trimmed(s).len() == 0 {
            Ok(None)
        } else {
            match json_read(encode_utf8(trimmed(s))) {
                None => Err(WriteFrameError::MalformedPayload),
                Some(v) => if v is Record {
                    Ok(Some(ordered_json(v)))
                } else {
                    Err(WriteFrameError::NotAnObject)
                },
            }
        },
    }
}

/// The text of a text that may be missing.
pub open spec fn optional_str(s: Option<&str>) -> Option<Seq<char>> {
    match s {
        Some(s) => Some(s@),
        None => None,
    }
}

/// The message of a subscription.
pub fn build_subscribe_frame(table: &str, where_sql: Option<&str>, resume_lsn: Option<u64>) -> (r:
    String)
    ensures
        r@ == json_text(subscribe_json(table@, optional_str(where_sql), resume_lsn)),
{
    let none: Vec<Json> = Vec::new();
    let mut fields: Vec<(String, Json)> = Vec::new();
    proof {
        lemma_list_view(none@);
        assert(list_view(none@) =~= seq![]);
    }
    fields.push(("type".to_owned(), Json::Text("subscribe".to_owned())));
    fields.push(("table".to_owned(), Json::Text(table.to_owned())));
    fields.push(("filters".to_owned(), Json::List(none)));
    match resume_lsn {
        Some(lsn) => {
            fields.push(("resume_lsn".to_owned(), Json::Unsigned(lsn)));
        },
        None => {},
    }
    match where_sql {
        Some(w) => {
            if !w.is_empty() {
                fields.push(("where_sql".to_owned(), Json::Text(w.to_owned())));
            }
        },
        None => {},
    }
    proof {
        lemma_record_view(fields@);
        assert(record_view(fields@) =~= subscribe_json(
            table@,
            optional_str(where_sql),
            resume_lsn,
        )->Record_0);
    }
    render_json(&Json::Record(fields))
}

/// The message that confirms a position.
pub fn build_ack_frame(lsn: u64) -> (r: String)
    ensures
        r@ == json_text(ack_json(lsn)),
{
    let mut fields: Vec<(String, Json)> = Vec::new();
    fields.push(("type".to_owned(), Json::Text("ack".to_owned())));
    fields.push(("lsn".to_owned(), Json::Unsigned(lsn)));
    proof {
        lemma_record_view(fields@);
        assert(record_view(fields@) =~= ack_json(lsn)->Record_0);
    }
    render_json(&Json::Record(fields))
}

/// The row of a write.
fn payload_of_write(payload_json: Option<&str>) -> (r: Result<Option<Json>, WriteFrameError>)
    ensures
        match write_payload(optional_str(payload_json)) {
            Ok(v) => r is Ok && (v is Some <==> r->Ok_0 is Some) && (v is Some
                ==> r->Ok_0->0@ == v->0),
            Err(e) => r is Err && r->Err_0 == e,
        },
{
    match payload_json {
        None => Ok(None),
        Some(s) => {
            let text = trim_text(s);
            if text.as_str().is_empty() {
                return Ok(None);
            }
            let bytes = text.as_str().as_bytes_vec();
            match parse_json(bytes.as_slice()) {
                None => Err(WriteFrameError::MalformedPayload),
                Some(v) => {
                    let is_record = match &v {
                        Json::Record(_) => true,
                        _ => false,
                    };
                    if is_record {
                        Ok(Some(in_name_order(&v)))
                    } else {
                        Err(WriteFrameError::NotAnObject)
                    }
                },
            }
        },
    }
}

/// The message of a write. A payload must be a JSON object.
pub fn build_write_frame(
    table: &str,
    op: &str,
    pk: &str,
    payload_json: Option<&str>,
    client_write_id: &str,
) -> (r: Result<String, WriteFrameError>)
    ensures
        match write_payload(optional_str(payload_json)) {
            Ok(payload) => r is Ok && r->Ok_0@ == json_text(
                write_json(table@, op@, pk@, payload, client_write_id@),
            ),
            Err(e) => r is Err && r->Err_0 == e,
        },
{
    let payload = match payload_of_write(payload_json) {
        Ok(p) => p,
        Err(e) => {
            return Err(e);
        },
    };
    let ghost view = write_payload(optional_str(payload_json))->Ok_0;
    let mut fields: Vec<(String, Json)> = Vec::new();
    fields.push(("type".to_owned(), Json::Text("write".to_owned())));
    fields.push(("table".to_owned(), Json::Text(table.to_owned())));
    fields.push(("op".to_owned(), Json::Text(op.to_owned())));
    fields.push(("pk".to_owned(), Json::Text(pk.to_owned())));
    match payload {
        Some(v) => {
            fields.push(("payload".to_owned(), v));
        },
        None => {},
    }
    fields.push(("client_write_id".to_owned(), Json::Text(client_write_id.to_owned())));
    proof {
        lemma_record_view(fields@);
        assert(record_view(fields@) =~= write_json(
            table@,
            op@,
            pk@,
            view,
            client_write_id@,
        )->Record_0);
    }
    Ok(render_json(&Json::Record(fields)))
}

/// The address to connect to: with the token as a parameter, where there is one.
pub open spec fn connect_address(url: Seq<char>, token: Option<Seq<char>>) -> Seq<char> {
    match token {
        Some(t) => if t.len() > 0 {
            url + (if url.contains('?') {
                "&token="@
            } else {
                "?token="@
            }) + t
        } else {
            url
        },
        None => url,
    }
}

/// Whether a text holds a question mark.
fn has_query(url: &str) -> (r: bool)
    ensures
        r == url@.contains('?'),
{
    let chars = chars_of(url);
    let mut i: usize = 0;
    while i < chars.len()
        invariant
            i <= chars@.len(),
            chars@ == url@,
            forall|k: int| 0 <= k < i ==> #[trigger] chars@[k] != '?',
        decreases chars@.len() - i,
    {
        if chars[i] == '?' {
            return true;
        }
        i += 1;
    }
    false
}

/// The address to connect to.
pub fn connect_url(url: &str, token: Option<&str>) -> (r: String)
    ensures
        r@ == connect_address(url@, optional_str(token)),
{
    let mut out: String = url.to_owned();
    match token {
        Some(t) => {
            if !t.is_empty() {
                if has_query(url) {
                    out.append("&token=");
                } else {
                    out.append("?token=");
                }
                out.append(t);
            }
        },
        None => {},
    }
    out
}

// ---- from a message to what is confirmed ----

/// What a message did.
#[derive(Debug, Clone, Copy, PartialEq, Eq, Structural)]
pub struct PumpResult {
    /// The number of frames that were taken in.
    pub applied: usize,
    /// The position to confirm, where something was committed.
    pub ack: Option<u64>,
}

impl Default for PumpResult {
    fn default() -> (r: Self)
        ensures
            r == (PumpResult { applied: 0, ack: None }),
    {
        PumpResult { applied: 0, ack: None }
    }
}

/// The frame that is applied for one that arrived. A payload that is not written in
/// hexadecimal digits counts as none.
pub open spec fn arrived(f: WireFrameView) -> FrameView {
    FrameView {
        lsn: f.lsn,
        op: f.op,
        table: f.table,
        pk: f.pk,
        payload: match f.payload {
            Some(s) => hex_bytes(s),
            None => None,
        },
        txn_id: f.txn_id,
    }
}

/// The frames that are applied for those that arrived.
pub open spec fn all_arrived(s: Seq<WireFrameView>) -> Seq<FrameView> {
    Seq::new(s.len(), |i: int| arrived(s[i]))
}

/// The position of the last commit that the frames have made.
pub open spec fn last_commit(b: BatchState, frames: Seq<FrameView>) -> Option<u64>
    decreases frames.len(),
{
    if frames.len() == 0 {
        None
    } else {
        match feed_outcome(batch_after(b, frames.drop_last()), frames.last()) {
            Some(o) => Some(o.checkpoint.0),
            None => last_commit(b, frames.drop_last()),
        }
    }
}

/// Takes the frames of a message in, and says what to confirm. A message without
/// frames does nothing.
pub fn on_message<S: Storage>(engine: &mut ApplyEngine<S>, bytes: &[u8]) -> (r: Result<
    PumpResult,
    StorageError,
>)
    ensures
        r is Ok ==> ({
            let frames = all_arrived(message_frames(bytes@));
            &&& r->Ok_0.applied as nat == frames.len()
            &&& r->Ok_0.ack == last_commit(old(engine).batch(), frames)
            &&& final(engine).batch() == batch_after(old(engine).batch(), frames)
            &&& exists|batches: Seq<BatchState>, stores: Seq<StoreState>| #[trigger]
                run(batches, stores, frames) && batches[0] == old(engine).batch() && stores[0]
                    == old(engine).store() && stores.last() == final(engine).store()
        }),
        r is Err ==> partly_fed(
            old(engine).batch(),
            old(engine).store(),
            all_arrived(message_frames(bytes@)),
            final(engine).store(),
        ),
        r is Err ==> exists|
            h: &mut S,
            ops: &[(RowOp, u64)],
            at: Lsn,
            tables: &NameSet,
            said: Result<(), StorageError>,
        | #[trigger]
            call_ensures(S::apply_batch, (h, ops, at, tables), said)
                && at == final(engine).batch().mark && *final(h) == final(engine).backing()
                && op_views(ops@) == frame_ops(final(engine).batch().pending)
                && said == Err::<(), StorageError>(r->Err_0),
        final(engine).store().horizon == old(engine).store().horizon,
        final(engine).backing().dependable() == old(engine).backing().dependable(),
        old(engine).backing().dependable() ==> r is Ok,
{
    let wire = decode_frames(bytes);
    let ghost frames = all_arrived(wire_views(wire@));
    let ghost b0 = engine.batch();
    let ghost s0 = engine.store();
    let ghost mut batches: Seq<BatchState> = seq![b0];
    let ghost mut stores: Seq<StoreState> = seq![s0];
    let mut ack: Option<u64> = None;
    let mut i: usize = 0;
    assert(run(batches, stores, frames.take(0)));
    while i < wire.len()
        invariant
            i <= wire@.len(),
            frames == all_arrived(wire_views(wire@)),
            frames == all_arrived(message_frames(bytes@)),
            b0 == old(engine).batch(),
            s0 == old(engine).store(),
            run(batches, stores, frames.take(i as int)),
            batches[0] == b0,
            stores[0] == s0,
            batches.last() == engine.batch(),
            stores.last() == engine.store(),
            engine.store().horizon == old(engine).store().horizon,
            engine.backing().dependable() == old(engine).backing().dependable(),
            ack == last_commit(b0, frames.take(i as int)),
        decreases wire@.len() - i,
    {
        let w = &wire[i];
        let payload: Option<Vec<u8>> = match &w.payload {
            Some(s) => decode_hex(s.as_str()),
            None => None,
        };
        let frame = Frame {
            lsn: w.lsn,
            op: w.op,
            table: w.table.clone(),
            pk: w.pk.clone(),
            payload,
            txn_id: w.txn_id,
        };
        let ghost f = frame@;
        let ghost b = engine.batch();
        proof {
            assert(f == frames[i as int]);
            lemma_run_is_batch_after(batches, stores, frames.take(i as int));
            assert(frames.take(i + 1).drop_last() =~= frames.take(i as int));
            assert(frames.take(i + 1).last() == f);
        }
        match engine.feed(frame) {
            Ok(out) => {
                match out {
                    Some(o) => {
                        ack = Some(o.checkpoint.0);
                    },
                    None => {},
                }
            },
            Err(e) => {
                proof {
                    assert(fed_through(b0, s0, frames.take(i as int), b, engine.store()));
                }
                return Err(e);
            },
        }
        proof {
            lemma_run_on(
                batches,
                stores,
                frames.take(i as int),
                f,
                engine.batch(),
                engine.store(),
            );
            batches = batches.push(engine.batch());
            stores = stores.push(engine.store());
            assert(frames.take(i as int).push(f) =~= frames.take(i + 1));
        }
        i += 1;
    }
    proof {
        assert(frames.take(i as int) =~= frames);
        lemma_run_is_batch_after(batches, stores, frames);
    }
    Ok(PumpResult { applied: wire.len(), ack })
}

/// The position to keep after a message.
pub fn checkpoint_from(result: PumpResult) -> (r: Option<u64>)
    ensures
        r == result.ack,
{
    result.ack
}

/// Whether a message, or the flush after it, has changed rows, so that watchers are
/// told.
pub fn pump_committed(pump: &PumpResult, flush_committed: bool) -> (r: bool)
    ensures
        r == (pump.ack is Some || flush_committed),
{
    pump.ack.is_some() || flush_committed
}

// ---- the position that a browser keeps ----

/// The key under which the position in a table's log is kept.
pub open spec fn key_of_table(table: Seq<char>) -> Seq<char> {
    "cairn:checkpoint:"@ + table
}

/// The position that a kept text says.
pub open spec fn kept_position(raw: Option<Seq<char>>) -> Option<u64> {
    match raw {
        Some(s) => match read_unsigned(trimmed(s), 10, u64::MAX as nat) {
            Some(n) => Some(n as u64),
            None => None,
        },
        None => None,
    }
}

/// The key under which the position in a table's log is kept.
pub fn checkpoint_key(table: &str) -> (r: String)
    ensures
        r@ == key_of_table(table@),
{
    let mut out: String = "cairn:checkpoint:".to_owned();
    out.append(table);
    out
}

/// The position that a kept text says.
pub fn parse_checkpoint(raw: Option<&str>) -> (r: Option<u64>)
    ensures
        r == kept_position(optional_str(raw)),
{
    match raw {
        Some(s) => {
            let chars = chars_of(s);
            let inner = trim_chars(&chars);
            parse_unsigned(&inner, 10, u64::MAX)
        },
        None => None,
    }
}

/// Where a browser keeps texts under keys.
pub trait KvStore {
    /// The text under a key.
    fn get(&self, key: &str) -> Option<String>;

    /// Puts a text under a key.
    fn set(&self, key: &str, value: &str);
}

/// The position that is kept for a table.
pub fn read_checkpoint<K: KvStore>(table: &str, kv: &K) -> (r: Option<u64>)
    ensures
        exists|key: &str, raw: Option<String>| #[trigger]
            call_ensures(K::get, (kv, key), raw) && key@ == key_of_table(table@) && r
                == kept_position(
                match raw {
                    Some(s) => Some(s@),
                    None => None,
                },
            ),
{
    let key = checkpoint_key(table);
    let raw = kv.get(key.as_str());
    match &raw {
        Some(s) => parse_checkpoint(Some(s.as_str())),
        None => None,
    }
}

/// Keeps a position for a table.
pub fn write_checkpoint<K: KvStore>(table: &str, lsn: u64, kv: &K)
    ensures
        exists|key: &str, value: &str| #[trigger]
            call_ensures(K::set, (kv, key, value), ()) && key@ == key_of_table(table@) && value@
                == decimal(lsn as nat),
{
    let key = checkpoint_key(table);
    let value = decimal_text(lsn);
    kv.set(key.as_str(), value.as_str());
}

/// What is written of a position reads back as that position.
pub proof fn law_kept_position_round_trip(lsn: u64)
    ensures
        kept_position(Some(decimal(lsn as nat))) == Some(lsn),
{
    let s = decimal(lsn as nat);
    crate::numbers::lemma_decimal_round_trip(lsn as nat, u64::MAX as nat);
    crate::numbers::lemma_digits_round_trip(lsn as nat, 10);
    assert(!crate::text::white_space(s[0]) && !crate::text::white_space(s[s.len() - 1]));
    crate::text::lemma_trimmed(s);
}

} // verus!
