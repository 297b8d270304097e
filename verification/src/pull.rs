//! Pulling a change log page by page: the request, the decoding of a page, the
//! grouping of its rows into transactions, and how far the client has got.
//!
//! How far is the horizon, an opaque text that the server gives. It is saved after
//! the rows that it covers are committed, never before.

use vstd::prelude::*;
use vstd::utf8::encode_utf8;
use crate::apply::{
    drained, fed_through, frame_ops, lemma_run_on, page_applied, partly_fed, run, ApplyEngine,
    BatchState, Frame, FrameView,
};
use crate::events::{Operation, RowOp};
use crate::json::{
    json_fault, json_read, json_text, json_view, lemma_list_view, lemma_plain_fields,
    lemma_record_nesting, lemma_record_view, list_view, nesting, parse_or_fault, part, plain,
    record_view, render_json, shaped, Json, JsonView,
};
use crate::json_order::{in_name_order, law_ordering_keeps_the_value, ordered_json, same_json};
use crate::lsn::Lsn;
use crate::names::NameSet;
use crate::numbers::{decimal, decimal_text, parse_unsigned, read_unsigned};
use crate::storage::{op_views, Storage, StorageError, StoreState};
use crate::text::{chars_of, same_text};

verus! {

/// How many rows a page holds where nothing else is asked for.
pub const DEFAULT_MAX_ROWS: usize = 2000;

/// How far a log was pulled, as the text that the server gave.
#[derive(Debug, PartialEq, Eq, PartialOrd, Ord, Hash)]
pub struct Horizon(String);

impl View for Horizon {
    type V = Seq<char>;

    closed spec fn view(&self) -> Seq<char> {
        self.0@
    }
}

impl Horizon {
    /// Before everything: the whole log is pulled.
    pub fn fresh() -> (r: Self)
        ensures
            r@ == "0"@,
    {
        Horizon("0".to_owned())
    }

    /// The horizon with the given text.
    pub fn new(raw: &str) -> (r: Self)
        ensures
            r@ == raw@,
    {
        Horizon(raw.to_owned())
    }

    /// The text of the horizon.
    pub fn as_str(&self) -> (r: &str)
        ensures
            r@ == self@,
    {
        self.0.as_str()
    }
}

impl Clone for Horizon {
    fn clone(&self) -> (r: Self)
        ensures
            r@ == self@,
    {
        Horizon(self.0.clone())
    }
}

impl Default for Horizon {
    fn default() -> (r: Self)
        ensures
            r@ == "0"@,
    {
        Horizon::fresh()
    }
}

/// Why a page was not applied.
#[derive(Debug, PartialEq, Eq)]
pub enum PullError {
    /// The response is no list of log rows.
    Decode(String),
    /// The operation of a row is none of insert, update and delete.
    UnknownOp { op: String, table: String, pk: String },
    /// The transaction of a row is no number, so its rows cannot be grouped.
    BadXid(String),
    /// One transaction fills the whole page, and more of it may follow.
    PageTooSmall { xid: String, max_rows: usize },
    /// The store refused. Earlier transactions may be committed; the horizon did not
    /// move.
    Storage(StorageError),
}

/// Why a page was not applied, by its values.
pub enum PullErrorView {
    Decode(Seq<char>),
    UnknownOp { op: Seq<char>, table: Seq<char>, pk: Seq<char> },
    BadXid(Seq<char>),
    PageTooSmall { xid: Seq<char>, max_rows: usize },
    Storage(StorageError),
}

impl View for PullError {
    type V = PullErrorView;

    open spec fn view(&self) -> PullErrorView {
        match *self {
            PullError::Decode(s) => PullErrorView::Decode(s@),
            PullError::UnknownOp { op, table, pk } => PullErrorView::UnknownOp {
                op: op@,
                table: table@,
                pk: pk@,
            },
            PullError::BadXid(s) => PullErrorView::BadXid(s@),
            PullError::PageTooSmall { xid, max_rows } => PullErrorView::PageTooSmall {
                xid: xid@,
                max_rows,
            },
            PullError::Storage(e) => PullErrorView::Storage(e),
        }
    }
}

// ---- rows of a page ----

/// One row of a page.
#[derive(Debug)]
pub struct PullRow {
    pub horizon: String,
    pub seq: u64,
    pub xid: String,
    pub table_name: String,
    pub pk: String,
    pub op: String,
    /// The row; nothing for a delete.
    pub row: Option<Json>,
}

/// One row of a page by its values.
pub struct PullRowView {
    pub horizon: Seq<char>,
    pub seq: u64,
    pub xid: Seq<char>,
    pub table: Seq<char>,
    pub pk: Seq<char>,
    pub op: Seq<char>,
    pub row: Option<JsonView>,
}

impl View for PullRow {
    type V = PullRowView;

    open spec fn view(&self) -> PullRowView {
        PullRowView {
            horizon: self.horizon@,
            seq: self.seq,
            xid: self.xid@,
            table: self.table_name@,
            pk: self.pk@,
            op: self.op@,
            row: match self.row {
                Some(j) => Some(j@),
                None => None,
            },
        }
    }
}

/// The rows by their values.
pub open spec fn row_views(s: Seq<PullRow>) -> Seq<PullRowView> {
    Seq::new(s.len(), |i: int| s[i]@)
}

/// An id that is written as text or as an unsigned number.
pub open spec fn opaque_id(v: Option<JsonView>) -> Option<Seq<char>> {
    match v {
        Some(JsonView::Text(s)) => Some(s),
        Some(JsonView::Unsigned(n)) => Some(decimal(n as nat)),
        _ => None,
    }
}

/// The text of a text value.
pub open spec fn text_part(v: Option<JsonView>) -> Option<Seq<char>> {
    match v {
        Some(JsonView::Text(s)) => Some(s),
        _ => None,
    }
}

/// A value that may be missing; null stands for a missing one.
pub open spec fn optional(v: Option<JsonView>) -> Option<JsonView> {
    match v {
        Some(JsonView::Null) => None,
        other => other,
    }
}

/// Reads a row of a page.
pub open spec fn read_row(v: JsonView) -> Option<PullRowView> {
    match (
        opaque_id(part(v, 0, "horizon"@)),
        part(v, 1, "seq"@),
        opaque_id(part(v, 2, "xid"@)),
        text_part(part(v, 3, "table_name"@)),
        text_part(part(v, 4, "pk"@)),
        text_part(part(v, 5, "op"@)),
    ) {
        (
            Some(horizon),
            Some(JsonView::Unsigned(seq)),
            Some(xid),
            Some(table),
            Some(pk),
            Some(op),
        ) => if shaped(v, 7) {
            Some(
                PullRowView {
                    horizon,
                    seq,
                    xid,
                    table,
                    pk,
                    op,
                    row: optional(part(v, 6, "row"@)),
                },
            )
        } else {
            None
        },
        _ => None,
    }
}

/// Reads the rows of a page.
pub open spec fn read_rows(items: Seq<JsonView>) -> Option<Seq<PullRowView>>
    decreases items.len(),
{
    if items.len() == 0 {
        Some(seq![])
    } else {
        match (read_rows(items.drop_last()), read_row(items.last())) {
            (Some(s), Some(row)) => Some(s.push(row)),
            _ => None,
        }
    }
}

/// The rows of a response.
pub open spec fn decoded(body: Seq<char>) -> Result<Seq<PullRowView>, PullErrorView> {
    match json_read(encode_utf8(body)) {
        Some(JsonView::List(items)) => match read_rows(items) {
            Some(rows) => Ok(rows),
            None => Err(PullErrorView::Decode("not a log row"@)),
        },
        Some(_) => Err(PullErrorView::Decode("not a list"@)),
        None => Err(PullErrorView::Decode(json_fault(encode_utf8(body)))),
    }
}

/// The number of rows before the first one of the transaction `xid`.
pub open spec fn before_xid(rows: Seq<PullRowView>, xid: Seq<char>) -> nat
    decreases rows.len(),
{
    if rows.len() == 0 || rows[0].xid == xid {
        0
    } else {
        1 + before_xid(rows.skip(1), xid)
    }
}

/// The rows of a page that can be applied: all of them, or, where the page is full
/// and may be cut inside its last transaction, those before that transaction.
pub open spec fn applicable(rows: Seq<PullRowView>, max_rows: usize) -> Result<
    Seq<PullRowView>,
    PullErrorView,
> {
    if rows.len() >= max_rows && rows.len() > 0 {
        let tail = rows.last().xid;
        let keep = before_xid(rows, tail);
        if keep == 0 {
            Err(PullErrorView::PageTooSmall { xid: tail, max_rows })
        } else {
            Ok(rows.take(keep as int))
        }
    } else {
        Ok(rows)
    }
}

/// The operation with the given spelling.
pub open spec fn operation_named(s: Seq<char>) -> Option<Operation> {
    if s == "insert"@ {
        Some(Operation::Insert)
    } else if s == "update"@ {
        Some(Operation::Update)
    } else if s == "delete"@ {
        Some(Operation::Delete)
    } else {
        None
    }
}

/// The bytes of a row: its JSON text with the members in order, or that of null.
pub open spec fn row_bytes(row: Option<JsonView>) -> Seq<u8> {
    match row {
        Some(v) => encode_utf8(json_text(ordered_json(v))),
        None => encode_utf8(json_text(JsonView::Null)),
    }
}

/// The frame of a row.
pub open spec fn frame_of(row: PullRowView) -> Result<FrameView, PullErrorView> {
    match operation_named(row.op) {
        None => Err(PullErrorView::UnknownOp { op: row.op, table: row.table, pk: row.pk }),
        Some(op) => match read_unsigned(row.xid, 10, u64::MAX as nat) {
            None => Err(PullErrorView::BadXid(row.xid)),
            Some(xid) => Ok(
                FrameView {
                    lsn: row.seq,
                    op,
                    table: row.table,
                    pk: row.pk,
                    payload: if op == Operation::Delete {
                        None
                    } else {
                        Some(row_bytes(row.row))
                    },
                    txn_id: Some(xid as u64),
                },
            ),
        },
    }
}

/// The frames of the rows, or what is wrong with the first row that has none.
pub open spec fn frames_of(rows: Seq<PullRowView>) -> Result<Seq<FrameView>, PullErrorView>
    decreases rows.len(),
{
    if rows.len() == 0 {
        Ok(seq![])
    } else {
        match frames_of(rows.drop_last()) {
            Err(e) => Err(e),
            Ok(frames) => match frame_of(rows.last()) {
                Err(e) => Err(e),
                Ok(f) => Ok(frames.push(f)),
            },
        }
    }
}

/// The frames of the rows before the first row that has none.
pub open spec fn frames_until(rows: Seq<PullRowView>) -> Seq<FrameView>
    decreases rows.len(),
{
    match frames_of(rows) {
        Ok(frames) => frames,
        Err(_) => if rows.len() == 0 {
            seq![]
        } else {
            frames_until(rows.drop_last())
        },
    }
}

/// The horizon after a page was applied: that of the page, or, where the page was
/// full, the last transaction that was applied.
pub open spec fn next_horizon(
    rows: Seq<PullRowView>,
    kept: Seq<PullRowView>,
    max_rows: usize,
) -> Option<Seq<char>> {
    if rows.len() == 0 {
        None
    } else if rows.len() >= max_rows {
        Some(kept.last().xid)
    } else {
        Some(rows[0].horizon)
    }
}

/// A horizon that is not where the cursor already stands.
pub open spec fn moved(next: Option<Seq<char>>, since: Seq<char>) -> Option<Seq<char>> {
    if next == Some(since) {
        None
    } else {
        next
    }
}

/// The number of frames, as far as a `usize` counts.
pub open spec fn counted(n: nat) -> usize {
    if n <= usize::MAX {
        n as usize
    } else {
        usize::MAX
    }
}

/// Adds to a count.
pub(crate) fn count_on(n: usize, more: usize) -> (r: usize)
    ensures
        r == counted((n + more) as nat),
{
    if n <= usize::MAX - more {
        n + more
    } else {
        usize::MAX
    }
}

/// The operation with the given spelling.
pub(crate) fn parse_operation(s: &str) -> (r: Option<Operation>)
    ensures
        r == operation_named(s@),
{
    if same_text(s, "insert") {
        Some(Operation::Insert)
    } else if same_text(s, "update") {
        Some(Operation::Update)
    } else if same_text(s, "delete") {
        Some(Operation::Delete)
    } else {
        None
    }
}

/// The bytes of a row.
pub(crate) fn bytes_of_row(row: &Option<Json>) -> (r: Vec<u8>)
    ensures
        r@ == row_bytes(match *row {
            Some(j) => Some(j@),
            None => None,
        }),
        *row is Some && plain(ordered_json(row->0@)) && nesting(ordered_json(row->0@)) <= 127
            ==> json_read(r@) is Some && same_json(row->0@, json_read(r@)->0),
{
    let text = match row {
        Some(j) => {
            let ordered = in_name_order(j);
            proof {
                law_ordering_keeps_the_value(j@);
            }
            render_json(&ordered)
        },
        None => render_json(&Json::Null),
    };
    text.as_str().as_bytes_vec()
}

/// An id that is written as text or as an unsigned number.
pub(crate) fn id_of(v: Option<&Json>) -> (r: Option<String>)
    ensures
        ({
            let id = opaque_id(match v {
                Some(j) => Some(j@),
                None => None,
            });
            &&& r is Some <==> id is Some
            &&& r is Some ==> r->0@ == id->0
        }),
{
    match v {
        Some(Json::Text(s)) => Some(s.clone()),
        Some(Json::Unsigned(n)) => Some(decimal_text(*n)),
        _ => None,
    }
}

/// The text of a text value.
pub(crate) fn text_of(v: Option<&Json>) -> (r: Option<String>)
    ensures
        ({
            let t = text_part(match v {
                Some(j) => Some(j@),
                None => None,
            });
            &&& r is Some <==> t is Some
            &&& r is Some ==> r->0@ == t->0
        }),
{
    match v {
        Some(Json::Text(s)) => Some(s.clone()),
        _ => None,
    }
}

/// Reads a row of a page.
fn row_of(v: &Json) -> (r: Option<PullRow>)
    ensures
        r is Some <==> read_row(v@) is Some,
        r is Some ==> r->0@ == read_row(v@)->0,
{
    if !v.shaped(7) {
        return None;
    }
    let horizon = id_of(v.part(0, "horizon"));
    let xid = id_of(v.part(2, "xid"));
    let table_name = text_of(v.part(3, "table_name"));
    let pk = text_of(v.part(4, "pk"));
    let op = text_of(v.part(5, "op"));
    let row = match v.part(6, "row") {
        None => None,
        Some(Json::Null) => None,
        Some(j) => Some(j.clone()),
    };
    match (horizon, v.part(1, "seq"), xid, table_name, pk, op) {
        (
            Some(horizon),
            Some(Json::Unsigned(seq)),
            Some(xid),
            Some(table_name),
            Some(pk),
            Some(op),
        ) => Some(PullRow { horizon, seq: *seq, xid, table_name, pk, op, row }),
        _ => None,
    }
}

proof fn lemma_read_rows_prefix(items: Seq<JsonView>, i: int)
    requires
        0 <= i <= items.len(),
        read_rows(items.take(i)) is None,
    ensures
        read_rows(items) is None,
    decreases items.len() - i,
{
    if i == items.len() {
        assert(items.take(i) =~= items);
    } else {
        assert(items.take(i + 1).drop_last() =~= items.take(i));
        lemma_read_rows_prefix(items, i + 1);
    }
}

/// Reads the rows of a response.
pub fn decode_rows(body: &str) -> (r: Result<Vec<PullRow>, PullError>)
    ensures
        match decoded(body@) {
            Ok(rows) => r is Ok && row_views(r->Ok_0@) == rows,
            Err(e) => r is Err && r->Err_0@ == e,
        },
{
    let bytes = body.as_bytes_vec();
    match parse_or_fault(bytes.as_slice()) {
        Err(fault) => Err(PullError::Decode(fault)),
        Ok(Json::List(items)) => {
            let ghost views = list_view(items@);
            proof {
                lemma_list_view(items@);
            }
            let mut rows: Vec<PullRow> = Vec::new();
            let mut i: usize = 0;
            assert(views.take(0) =~= seq![]);
            assert(row_views(rows@) =~= seq![]);
            while i < items.len()
                invariant
                    i <= items@.len(),
                    views.len() == items@.len(),
                    json_read(encode_utf8(body@)) == Some(JsonView::List(views)),
                    forall|k: int|
                        0 <= k < items@.len() ==> #[trigger] views[k] == json_view(items@[k]),
                    read_rows(views.take(i as int)) == Some(row_views(rows@)),
                decreases items@.len() - i,
            {
                proof {
                    assert(views.take(i + 1).drop_last() =~= views.take(i as int));
                    assert(views.take(i + 1).last() == views[i as int]);
                }
                let ghost before = row_views(rows@);
                match row_of(&items[i]) {
                    None => {
                        proof {
                            lemma_read_rows_prefix(views, i + 1);
                        }
                        return Err(PullError::Decode("not a log row".to_owned()));
                    },
                    Some(row) => {
                        let ghost v = row@;
                        rows.push(row);
                        assert(row_views(rows@) =~= before.push(v));
                    },
                }
                i += 1;
            }
            assert(views.take(i as int) =~= views);
            Ok(rows)
        },
        Ok(_) => Err(PullError::Decode("not a list".to_owned())),
    }
}

impl PullRow {
    /// The frame of this row.
    pub fn to_frame(&self) -> (r: Result<Frame, PullError>)
        ensures
            match frame_of(self@) {
                Ok(f) => r is Ok && r->Ok_0@ == f,
                Err(e) => r is Err && r->Err_0@ == e,
            },
            r is Ok && r->Ok_0.payload is Some && self.row is Some && plain(
                ordered_json(self.row->0@),
            ) && nesting(ordered_json(self.row->0@)) <= 127 ==> json_read(
                r->Ok_0.payload->0@,
            ) is Some && same_json(self.row->0@, json_read(r->Ok_0.payload->0@)->0),
    {
        let op = match parse_operation(self.op.as_str()) {
            Some(op) => op,
            None => {
                return Err(
                    PullError::UnknownOp {
                        op: self.op.clone(),
                        table: self.table_name.clone(),
                        pk: self.pk.clone(),
                    },
                );
            },
        };
        let xid = chars_of(self.xid.as_str());
        let txn_id: u64 = match parse_unsigned(&xid, 10, u64::MAX) {
            Some(n) => n,
            None => {
                return Err(PullError::BadXid(self.xid.clone()));
            },
        };
        let payload = match op {
            Operation::Delete => None,
            _ => Some(bytes_of_row(&self.row)),
        };
        Ok(
            Frame {
                lsn: self.seq,
                op,
                table: self.table_name.clone(),
                pk: self.pk.clone(),
                payload,
                txn_id: Some(txn_id),
            },
        )
    }
}

// ---- the cursor ----

/// Where a client stands in a log, and how many rows it asks for at once. The
/// request and the page that answers it go by the same number: it says whether a
/// page may be cut inside a transaction.
#[derive(Debug)]
pub struct PullCursor {
    since: Horizon,
    max_rows: usize,
}

/// What applying a page did.
#[derive(Debug, Clone, PartialEq, Eq)]
pub struct PullOutcome {
    /// The number of rows committed.
    pub rows_applied: usize,
    /// The position after the last commit.
    pub checkpoint: Lsn,
    /// Where the cursor went, if it moved.
    pub horizon: Option<Horizon>,
    /// Whether the page was full, so that there is more to pull at once.
    pub more: bool,
}

/// The body of a request.
pub open spec fn request_json(since: Seq<char>, max_rows: usize) -> JsonView {
    JsonView::Record(
        seq![
            ("max_rows"@, JsonView::Unsigned(max_rows as u64)),
            ("since"@, JsonView::Text(since)),
        ],
    )
}

/// The rows of a response, and those of them that can be applied.
pub open spec fn planned(body: Seq<char>, max_rows: usize) -> Result<
    (Seq<PullRowView>, Seq<PullRowView>),
    PullErrorView,
> {
    match decoded(body) {
        Err(e) => Err(e),
        Ok(rows) => match applicable(rows, max_rows) {
            Err(e) => Err(e),
            Ok(kept) => Ok((rows, kept)),
        },
    }
}

/// The text of a horizon that may be missing.
pub open spec fn horizon_view(h: Option<Horizon>) -> Option<Seq<char>> {
    match h {
        Some(h) => Some(h@),
        None => None,
    }
}

proof fn lemma_frames_prefix(rows: Seq<PullRowView>, i: int)
    requires
        0 <= i <= rows.len(),
        frames_of(rows.take(i)) is Err,
    ensures
        frames_of(rows) == frames_of(rows.take(i)),
    decreases rows.len() - i,
{
    if i == rows.len() {
        assert(rows.take(i) =~= rows);
    } else {
        assert(rows.take(i + 1).drop_last() =~= rows.take(i));
        lemma_frames_prefix(rows, i + 1);
    }
}

proof fn lemma_frames_until(rows: Seq<PullRowView>, i: int)
    requires
        0 <= i <= rows.len(),
        frames_of(rows.take(i)) is Ok,
    ensures
        frames_of(rows.take(i))->Ok_0.len() == i,
        frames_until(rows).len() >= i,
        frames_until(rows).take(i) == frames_of(rows.take(i))->Ok_0,
        i < rows.len() && frames_of(rows.take(i + 1)) is Err ==> frames_until(rows) == frames_of(
            rows.take(i),
        )->Ok_0,
    decreases rows.len(),
{
    lemma_frames_len(rows.take(i));
    if i == rows.len() {
        assert(rows.take(i) =~= rows);
        assert(frames_until(rows).take(i) =~= frames_until(rows));
    } else {
        let front = rows.drop_last();
        assert(front.take(i) =~= rows.take(i));
        lemma_frames_until(front, i);
        if i + 1 < rows.len() {
            assert(front.take(i + 1) =~= rows.take(i + 1));
        } else {
            assert(rows.take(i + 1) =~= rows);
            assert(front.take(i) =~= front);
        }
        if frames_of(rows) is Ok {
            if frames_of(rows.take(i + 1)) is Err {
                lemma_frames_prefix(rows, i + 1);
            }
            lemma_frames_len(front);
            assert(frames_until(rows) == frames_until(front).push(frame_of(rows.last())->Ok_0));
            assert(frames_until(rows).take(i) =~= frames_until(front).take(i));
        }
    }
}

proof fn lemma_nothing_fed(rows: Seq<PullRowView>, b: BatchState, s: StoreState)
    ensures
        partly_fed(b, s, frames_until(rows), s),
{
    let none = frames_until(rows).take(0);
    assert(none =~= seq![]);
    assert(run(seq![b], seq![s], none));
    assert(fed_through(b, s, none, b, s));
}

proof fn lemma_some_fed(
    rows: Seq<PullRowView>,
    i: int,
    batches: Seq<BatchState>,
    stores: Seq<StoreState>,
)
    requires
        0 <= i <= rows.len(),
        frames_of(rows.take(i)) is Ok,
        run(batches, stores, frames_of(rows.take(i))->Ok_0),
    ensures
        partly_fed(batches[0], stores[0], frames_until(rows), stores.last()),
        fed_through(
            batches[0],
            stores[0],
            frames_of(rows.take(i))->Ok_0,
            batches.last(),
            stores.last(),
        ),
{
    lemma_frames_until(rows, i);
    assert(fed_through(
        batches[0],
        stores[0],
        frames_until(rows).take(i),
        batches.last(),
        stores.last(),
    ));
}

proof fn lemma_frames_len(rows: Seq<PullRowView>)
    ensures
        frames_of(rows) is Ok ==> frames_of(rows)->Ok_0.len() == rows.len(),
    decreases rows.len(),
{
    if rows.len() > 0 {
        lemma_frames_len(rows.drop_last());
    }
}

proof fn lemma_before_xid(rows: Seq<PullRowView>, i: int, xid: Seq<char>)
    requires
        0 <= i <= rows.len(),
        forall|k: int| 0 <= k < i ==> (#[trigger] rows[k]).xid != xid,
        i < rows.len() ==> rows[i].xid == xid,
    ensures
        before_xid(rows, xid) == i,
    decreases i,
{
    if i > 0 {
        assert(rows[0].xid != xid);
        let rest = rows.skip(1);
        assert forall|k: int| 0 <= k < i - 1 implies (#[trigger] rest[k]).xid != xid by {
            assert(rest[k] == rows[k + 1]);
        }
        if i < rows.len() {
            assert(rest[i - 1] == rows[i]);
        }
        lemma_before_xid(rest, i - 1, xid);
    }
}

impl PullCursor {
    #[verifier::type_invariant]
    closed spec fn inv(&self) -> bool {
        self.max_rows > 0
    }

    /// Where the next pull starts.
    pub closed spec fn position(&self) -> Seq<char> {
        self.since@
    }

    /// How many rows a page holds.
    pub closed spec fn limit(&self) -> usize {
        self.max_rows
    }

    /// A cursor at the start of the log.
    pub fn fresh() -> (r: Self)
        ensures
            r.position() == "0"@,
            r.limit() == DEFAULT_MAX_ROWS,
    {
        Self::resume(Horizon::fresh(), DEFAULT_MAX_ROWS)
    }

    /// A cursor at a horizon that was saved. A page of no rows never gets anywhere:
    /// zero stands for the default.
    pub fn resume(since: Horizon, max_rows: usize) -> (r: Self)
        ensures
            r.position() == since@,
            r.limit() == (if max_rows == 0 {
                DEFAULT_MAX_ROWS
            } else {
                max_rows
            }),
            r.limit() > 0,
    {
        PullCursor {
            since,
            max_rows: if max_rows == 0 {
                DEFAULT_MAX_ROWS
            } else {
                max_rows
            },
        }
    }

    /// Where the next pull starts.
    pub fn since(&self) -> (r: &Horizon)
        ensures
            r@ == self.position(),
    {
        &self.since
    }

    /// How many rows a page holds.
    pub fn max_rows(&self) -> (r: usize)
        ensures
            r == self.limit(),
            r > 0,
    {
        proof {
            use_type_invariant(self);
        }
        self.max_rows
    }

    /// The body of the next request. The horizon goes out as text, never as a number.
    pub fn request_body(&self) -> (r: String)
        ensures
            r@ == json_text(request_json(self.position(), self.limit())),
            json_read(encode_utf8(r@)) == Some(request_json(self.position(), self.limit())),
    {
        let mut fields: Vec<(String, Json)> = Vec::new();
        fields.push(("max_rows".to_owned(), Json::Unsigned(self.max_rows as u64)));
        fields.push(("since".to_owned(), Json::Text(self.since.0.clone())));
        proof {
            lemma_record_view(fields@);
            assert(record_view(fields@) =~= request_json(
                self.position(),
                self.limit(),
            )->Record_0);
            let f = record_view(fields@);
            reveal_strlit("max_rows");
            reveal_strlit("since");
            assert("max_rows"@.len() != "since"@.len());
            lemma_plain_fields(f);
            lemma_record_nesting(f, 0);
        }
        let value = Json::Record(fields);
        render_json(&value)
    }

    /// Moves the cursor.
    pub(crate) fn go_to(&mut self, since: Horizon)
        ensures
            final(self).position() == since@,
            final(self).limit() == old(self).limit(),
    {
        proof {
            use_type_invariant(&*self);
        }
        self.since = since;
    }

    /// How many of the rows can be applied.
    fn applicable_rows(rows: &Vec<PullRow>, max_rows: usize) -> (r: Result<usize, PullError>)
        ensures
            match applicable(row_views(rows@), max_rows) {
                Ok(kept) => r is Ok && r->Ok_0 <= rows@.len() && kept == row_views(rows@).take(
                    r->Ok_0 as int,
                ),
                Err(e) => r is Err && r->Err_0@ == e,
            },
            r is Ok && rows@.len() > 0 ==> r->Ok_0 > 0,
    {
        let ghost views = row_views(rows@);
        let total: usize = rows.len();
        if total >= max_rows && total > 0 {
            let tail = &rows[total - 1].xid;
            let mut keep: usize = 0;
            while keep < total && !same_text(rows[keep].xid.as_str(), tail.as_str())
                invariant
                    keep <= total,
                    total == rows@.len(),
                    forall|k: int| 0 <= k < keep ==> (#[trigger] rows@[k]).xid@ != tail@,
                ensures
                    keep <= total,
                    forall|k: int| 0 <= k < keep ==> (#[trigger] rows@[k]).xid@ != tail@,
                    keep < total ==> rows@[keep as int].xid@ == tail@,
                decreases total - keep,
            {
                keep += 1;
            }
            proof {
                assert forall|k: int| 0 <= k < keep implies (#[trigger] views[k]).xid
                    != tail@ by {
                    assert(rows@[k].xid@ != tail@);
                }
                lemma_before_xid(views, keep as int, tail@);
            }
            if keep == 0 {
                return Err(PullError::PageTooSmall { xid: tail.clone(), max_rows });
            }
            Ok(keep)
        } else {
            assert(views.take(total as int) =~= views);
            Ok(total)
        }
    }

    /// Applies a page. Rows of one transaction are committed together, and a
    /// transaction that a full page may have cut is left for the next pull. The
    /// cursor, and the horizon in the store, move after everything is committed;
    /// where the page fails, neither moves.
    #[verifier::spinoff_prover]
    pub fn apply<S: Storage>(&mut self, engine: &mut ApplyEngine<S>, body: &str) -> (r: Result<
        PullOutcome,
        PullError,
    >)
        ensures
            final(self).limit() == old(self).limit(),
            match planned(body@, old(self).limit()) {
                Err(e) => r is Err && r->Err_0@ == e && final(engine).batch() == old(engine).batch()
                    && final(engine).store() == old(engine).store(),
                Ok((rows, kept)) => match frames_of(kept) {
                    Err(e) => {
                        &&& r is Err
                        &&& r->Err_0@ == e || r->Err_0 is Storage
                        &&& !(r->Err_0 is Storage) ==> fed_through(
                            old(engine).batch(),
                            old(engine).store(),
                            frames_until(kept),
                            final(engine).batch(),
                            final(engine).store(),
                        )
                        &&& partly_fed(
                            old(engine).batch(),
                            old(engine).store(),
                            frames_until(kept),
                            final(engine).store(),
                        )
                    },
                    Ok(frames) => {
                        let next = moved(
                            next_horizon(rows, kept, old(self).limit()),
                            old(self).position(),
                        );
                        &&& r is Err ==> r->Err_0 is Storage && partly_fed(
                            old(engine).batch(),
                            old(engine).store(),
                            frames,
                            final(engine).store(),
                        )
                        &&& r is Ok ==> {
                            &&& r->Ok_0.rows_applied == counted(
                                old(engine).batch().pending.len() + frames.len(),
                            )
                            &&& r->Ok_0.checkpoint == (if old(engine).batch().pending.len()
                                + frames.len() > 0 {
                                final(engine).batch().mark
                            } else {
                                old(engine).store().checkpoint
                            })
                            &&& horizon_view(r->Ok_0.horizon) == next
                            &&& r->Ok_0.more == (rows.len() >= old(self).limit())
                            &&& final(self).position() == (match next {
                                Some(h) => h,
                                None => old(self).position(),
                            })
                            &&& exists|s: StoreState| #[trigger]
                                page_applied(
                                    old(engine).batch(),
                                    old(engine).store(),
                                    frames,
                                    final(engine).batch(),
                                    s,
                                ) && match next {
                                    None => final(engine).store() == s,
                                    Some(t) => exists|
                                        h: &mut S,
                                        text: &str,
                                        said: Result<(), StorageError>,
                                    | #[trigger]
                                        call_ensures(S::save_horizon, (h, text), said) && text@ == t
                                            && (*h).state() == s
                                                && *final(h) == final(engine).backing(),
                                }
                        }
                    },
                },
            },
            r is Err ==> final(self).position() == old(self).position()
                && final(engine).store().horizon == old(engine).store().horizon,
            r is Err && r->Err_0 is Storage ==> call_ensures(
                S::checkpoint,
                (&old(engine).backing(),),
                Err::<Lsn, StorageError>(r->Err_0->Storage_0),
            ) || exists|
                h: &mut S,
                ops: &[(RowOp, u64)],
                at: Lsn,
                tables: &NameSet,
                said: Result<(), StorageError>,
            | #[trigger]
                call_ensures(S::apply_batch, (h, ops, at, tables), said)
                    && at == final(engine).batch().mark && *final(h) == final(engine).backing()
                    && op_views(ops@) == frame_ops(final(engine).batch().pending)
                    && said == Err::<(), StorageError>(r->Err_0->Storage_0),
            old(engine).backing().dependable() && r is Err ==> !(r->Err_0 is Storage),
            final(engine).backing().dependable() == old(engine).backing().dependable(),
    {
        proof {
            use_type_invariant(&*self);
        }
        let rows = match decode_rows(body) {
            Ok(rows) => rows,
            Err(e) => {
                return Err(e);
            },
        };
        let ghost views = row_views(rows@);
        let more = rows.len() >= self.max_rows;
        let keep: usize = match Self::applicable_rows(&rows, self.max_rows) {
            Ok(keep) => keep,
            Err(e) => {
                return Err(e);
            },
        };
        let ghost kept = views.take(keep as int);
        let mut rows_applied: usize = 0;
        let mut checkpoint: Lsn = match engine.checkpoint() {
            Ok(lsn) => lsn,
            Err(e) => {
                proof {
                    lemma_nothing_fed(kept, engine.batch(), engine.store());
                }
                return Err(PullError::Storage(e));
            },
        };
        let ghost b0 = engine.batch();
        let ghost s0 = engine.store();
        let ghost n0 = b0.pending.len();
        let ghost mut batches: Seq<BatchState> = seq![b0];
        let ghost mut stores: Seq<StoreState> = seq![s0];
        let ghost mut frames: Seq<FrameView> = seq![];
        let mut i: usize = 0;
        proof {
            engine.lemma_pending_fits();
            assert(kept.take(0) =~= seq![]);
            assert(counted(0) == 0);
        }
        while i < keep
            invariant
                i <= keep <= rows@.len(),
                views == row_views(rows@),
                kept == views.take(keep as int),
                frames_of(kept.take(i as int)) == Ok::<Seq<FrameView>, PullErrorView>(frames),
                frames.len() == i,
                run(batches, stores, frames),
                batches[0] == b0,
                stores[0] == s0,
                batches.last() == engine.batch(),
                stores.last() == engine.store(),
                engine.store().horizon == s0.horizon,
                engine.backing().dependable() == old(engine).backing().dependable(),
                engine.batch().pending.len() <= n0 + i,
                i > 0 ==> engine.batch().pending.len() > 0,
                i == 0 ==> engine.batch() == b0 && engine.store() == s0,
                rows_applied == counted((n0 + i - engine.batch().pending.len()) as nat),
                i == 0 ==> checkpoint == s0.checkpoint,
                planned(body@, self.limit()) == Ok::<
                    (Seq<PullRowView>, Seq<PullRowView>),
                    PullErrorView,
                >((views, kept)),
                *self == *old(self),
                b0 == old(engine).batch(),
                s0 == old(engine).store(),
            decreases keep - i,
        {
            proof {
                assert(kept.take(i + 1).drop_last() =~= kept.take(i as int));
                assert(kept.take(i + 1).last() == rows@[i as int]@);
                if frames_of(kept.take(i + 1)) is Err {
                    lemma_frames_prefix(kept, i + 1);
                }
                engine.lemma_pending_fits();
            }
            let frame = match rows[i].to_frame() {
                Ok(frame) => frame,
                Err(e) => {
                    proof {
                        lemma_frames_until(kept, i as int);
                        lemma_some_fed(kept, i as int, batches, stores);
                    }
                    return Err(e);
                },
            };
            let ghost f = frame@;
            let ghost b = engine.batch();
            match engine.feed(frame) {
                Ok(Some(out)) => {
                    rows_applied = count_on(rows_applied, out.rows_applied);
                    checkpoint = out.checkpoint;
                },
                Ok(None) => {},
                Err(e) => {
                    proof {
                        assert(kept.take(keep as int) =~= kept);
                        lemma_some_fed(kept, i as int, batches, stores);
                    }
                    return Err(PullError::Storage(e));
                },
            }
            proof {
                lemma_run_on(batches, stores, frames, f, engine.batch(), engine.store());
                batches = batches.push(engine.batch());
                stores = stores.push(engine.store());
                frames = frames.push(f);
            }
            i += 1;
        }
        assert(kept.take(i as int) =~= kept);
        let ghost b1 = engine.batch();
        let ghost s1 = engine.store();
        proof {
            engine.lemma_pending_fits();
        }
        match engine.flush() {
            Ok(Some(out)) => {
                rows_applied = count_on(rows_applied, out.rows_applied);
                checkpoint = out.checkpoint;
            },
            Ok(None) => {},
            Err(e) => {
                proof {
                    lemma_some_fed(kept, i as int, batches, stores);
                }
                return Err(PullError::Storage(e));
            },
        }
        proof {
            assert(drained(b1, s1, engine.batch(), engine.store()));
            assert(page_applied(b0, s0, frames, engine.batch(), engine.store()));
        }
        let ghost s2 = engine.store();
        let next: Option<Horizon> = if rows.len() == 0 {
            None
        } else if more {
            assert(kept.last() == rows@[keep - 1]@);
            Some(Horizon(rows[keep - 1].xid.clone()))
        } else {
            Some(Horizon(rows[0].horizon.clone()))
        };
        let ghost expected = next_horizon(views, kept, self.limit());
        assert(horizon_view(next) == expected);
        assert(frames_of(kept) == Ok::<Seq<FrameView>, PullErrorView>(frames));
        let mut advanced: Option<Horizon> = None;
        match next {
            Some(h) => {
                if !same_text(h.as_str(), self.since.as_str()) {
                    let text = h.clone();
                    match engine.storage_mut().save_horizon(text.as_str()) {
                        Ok(_) => {},
                        Err(_) => {},
                    }
                    self.since = h.clone();
                    advanced = Some(h);
                }
            },
            None => {},
        }
        assert(horizon_view(advanced) == moved(expected, old(self).position()));
        Ok(PullOutcome { rows_applied, checkpoint, horizon: advanced, more })
    }
}

impl Clone for PullCursor {
    fn clone(&self) -> (r: Self)
        ensures
            r.position() == self.position(),
            r.limit() == self.limit(),
    {
        proof {
            use_type_invariant(self);
        }
        PullCursor { since: self.since.clone(), max_rows: self.max_rows }
    }
}

impl Default for PullCursor {
    fn default() -> (r: Self)
        ensures
            r.position() == "0"@,
            r.limit() == DEFAULT_MAX_ROWS,
    {
        PullCursor::fresh()
    }
}

// ---- laws ----

proof fn lemma_before_xid_misses(rows: Seq<PullRowView>, xid: Seq<char>, i: int)
    requires
        0 <= i < before_xid(rows, xid),
    ensures
        before_xid(rows, xid) <= rows.len(),
        rows[i].xid != xid,
    decreases rows.len(),
{
    if i > 0 {
        lemma_before_xid_misses(rows.skip(1), xid, i - 1);
        assert(rows.skip(1)[i - 1] == rows[i]);
    } else if before_xid(rows.skip(1), xid) > 0 {
        lemma_before_xid_misses(rows.skip(1), xid, 0);
    }
}

/// Of a full page the last transaction is left whole for the next pull: no row of it
/// is applied.
pub proof fn law_full_page_holds_its_last_transaction_back(
    rows: Seq<PullRowView>,
    max_rows: usize,
    i: int,
)
    requires
        rows.len() >= max_rows,
        rows.len() > 0,
        applicable(rows, max_rows) is Ok,
        0 <= i < applicable(rows, max_rows)->Ok_0.len(),
    ensures
        applicable(rows, max_rows)->Ok_0[i] == rows[i],
        rows[i].xid != rows.last().xid,
{
    let keep = before_xid(rows, rows.last().xid);
    lemma_before_xid_misses(rows, rows.last().xid, 0);
    lemma_before_xid_misses(rows, rows.last().xid, i);
}

/// A page that is not full is applied whole, and the cursor goes to its horizon.
pub proof fn law_short_page_is_applied_whole(rows: Seq<PullRowView>, max_rows: usize)
    requires
        0 < rows.len() < max_rows,
    ensures
        applicable(rows, max_rows) == Ok::<Seq<PullRowView>, PullErrorView>(rows),
        next_horizon(rows, rows, max_rows) == Some(rows[0].horizon),
{
}

} // verus!
