//! Pulling from a feed that numbers its commits. A page may hold no row that this
//! client may see, while the number up to which it was searched goes on: the page
//! says that number itself.

use vstd::prelude::*;
use vstd::utf8::encode_utf8;
use crate::apply::{
    drained, fed_through, frame_ops, lemma_run_on, page_applied, partly_fed, run, ApplyEngine,
    BatchState, Frame, FrameView,
};
use crate::events::{Operation, RowOp};
use crate::json::{
    json_fault, json_read, json_view, lemma_list_view, list_view, parse_or_fault, part, shaped,
    Json, JsonView,
};
use crate::lsn::Lsn;
use crate::names::NameSet;
use crate::numbers::{decimal, decimal_text, parse_unsigned, read_unsigned};
use crate::pull::{
    bytes_of_row, count_on, counted, operation_named, optional, parse_operation, row_bytes, text_of,
    text_part,
};
use crate::storage::{op_views, Storage, StorageError, StoreState};
use crate::text::{chars_of, debug_quoted, quoted};

verus! {

/// Why a page was not applied.
#[derive(Debug, PartialEq, Eq)]
pub enum AppwritePullError {
    /// The response is no feed page.
    Decode(String),
    /// The page contradicts itself or the cursor.
    Protocol(String),
    /// The store refused.
    Storage(StorageError),
}

/// Why a page was not applied, by its values.
pub enum FeedErrorView {
    Decode(Seq<char>),
    Protocol(Seq<char>),
    Storage(StorageError),
}

impl View for AppwritePullError {
    type V = FeedErrorView;

    open spec fn view(&self) -> FeedErrorView {
        match *self {
            AppwritePullError::Decode(s) => FeedErrorView::Decode(s@),
            AppwritePullError::Protocol(s) => FeedErrorView::Protocol(s@),
            AppwritePullError::Storage(e) => FeedErrorView::Storage(e),
        }
    }
}

/// The number up to which a feed was searched and applied.
#[derive(Debug, Clone, Copy, PartialEq, Eq, Structural)]
pub struct AppwriteCursor {
    after: u64,
}

/// What applying a page did.
#[derive(Debug, Clone, Copy, PartialEq, Eq, Structural)]
pub struct AppwritePullOutcome {
    /// The number of rows committed.
    pub rows_applied: usize,
    /// The number up to which the feed was searched.
    pub scanned_through: u64,
    /// The last number of the feed when the page was made.
    pub head: u64,
    /// Whether another page is needed to get there.
    pub has_more: bool,
}

/// A change of a page.
struct Change {
    seq: String,
    table: String,
    pk: String,
    op: String,
    row: Option<Json>,
}

/// A page.
struct Page {
    head: String,
    scanned_through: String,
    has_more: bool,
    changes: Vec<Change>,
}

/// A change of a page by its values.
pub struct ChangeView {
    pub seq: Seq<char>,
    pub table: Seq<char>,
    pub pk: Seq<char>,
    pub op: Seq<char>,
    pub row: Option<JsonView>,
}

/// A page by its values.
pub struct PageView {
    pub head: Seq<char>,
    pub scanned_through: Seq<char>,
    pub has_more: bool,
    pub changes: Seq<ChangeView>,
}

spec fn change_view(c: Change) -> ChangeView {
    ChangeView {
        seq: c.seq@,
        table: c.table@,
        pk: c.pk@,
        op: c.op@,
        row: match c.row {
            Some(j) => Some(j@),
            None => None,
        },
    }
}

spec fn change_views(s: Seq<Change>) -> Seq<ChangeView> {
    Seq::new(s.len(), |i: int| change_view(s[i]))
}

spec fn page_view(p: Page) -> PageView {
    PageView {
        head: p.head@,
        scanned_through: p.scanned_through@,
        has_more: p.has_more,
        changes: change_views(p.changes@),
    }
}

// ---- reading a page ----

/// Reads a change. In a record the row may be missing; a list has all five parts.
pub open spec fn read_change(v: JsonView) -> Option<ChangeView> {
    match (
        text_part(part(v, 0, "seq"@)),
        text_part(part(v, 1, "table"@)),
        text_part(part(v, 2, "pk"@)),
        text_part(part(v, 3, "op"@)),
    ) {
        (Some(seq), Some(table), Some(pk), Some(op)) => if shaped(v, 5) && (v is Record || part(
            v,
            4,
            "row"@,
        ) is Some) {
            Some(ChangeView { seq, table, pk, op, row: optional(part(v, 4, "row"@)) })
        } else {
            None
        },
        _ => None,
    }
}

/// Reads the changes of a page.
pub open spec fn read_changes(items: Seq<JsonView>) -> Option<Seq<ChangeView>>
    decreases items.len(),
{
    if items.len() == 0 {
        Some(seq![])
    } else {
        match (read_changes(items.drop_last()), read_change(items.last())) {
            (Some(s), Some(c)) => Some(s.push(c)),
            _ => None,
        }
    }
}

/// Reads a page.
pub open spec fn read_page(v: JsonView) -> Option<PageView> {
    match (
        text_part(part(v, 0, "head"@)),
        text_part(part(v, 1, "scanned_through"@)),
        part(v, 2, "has_more"@),
        part(v, 3, "changes"@),
    ) {
        (
            Some(head),
            Some(scanned_through),
            Some(JsonView::Bool(has_more)),
            Some(JsonView::List(items)),
        ) => match read_changes(items) {
            Some(changes) => if shaped(v, 4) {
                Some(PageView { head, scanned_through, has_more, changes })
            } else {
                None
            },
            None => None,
        },
        _ => None,
    }
}

/// The page of a response.
pub open spec fn decoded_page(body: Seq<char>) -> Result<PageView, FeedErrorView> {
    match json_read(encode_utf8(body)) {
        None => Err(FeedErrorView::Decode(json_fault(encode_utf8(body)))),
        Some(v) => match read_page(v) {
            Some(p) => Ok(p),
            None => Err(FeedErrorView::Decode("not a feed page"@)),
        },
    }
}

// ---- what a page says ----

/// A number of the feed.
pub open spec fn read_seq(s: Seq<char>) -> Result<u64, FeedErrorView> {
    match read_unsigned(s, 10, u64::MAX as nat) {
        Some(n) => Ok(n as u64),
        None => Err(
            FeedErrorView::Protocol("invalid decimal sequence "@ + debug_quoted(s)),
        ),
    }
}

/// The frame of a change that follows the number `previous` on a page that was
/// searched up to `scanned`.
pub open spec fn change_frame(c: ChangeView, previous: u64, scanned: u64) -> Result<
    FrameView,
    FeedErrorView,
> {
    match read_seq(c.seq) {
        Err(e) => Err(e),
        Ok(seq) => if seq <= previous || seq > scanned {
            Err(
                FeedErrorView::Protocol(
                    "visible sequence "@ + decimal(seq as nat) + " outside ("@ + decimal(
                        previous as nat,
                    ) + ", "@ + decimal(scanned as nat) + "]"@,
                ),
            )
        } else {
            match operation_named(c.op) {
                None => Err(FeedErrorView::Protocol("unknown op "@ + c.op)),
                Some(op) => if c.table.len() == 0 || c.pk.len() == 0 {
                    Err(FeedErrorView::Protocol("empty table or primary key"@))
                } else if op != Operation::Delete && c.row is None {
                    Err(FeedErrorView::Protocol("row image missing"@))
                } else {
                    Ok(
                        FrameView {
                            lsn: seq,
                            op,
                            table: c.table,
                            pk: c.pk,
                            payload: if op == Operation::Delete {
                                None
                            } else {
                                Some(row_bytes(c.row))
                            },
                            txn_id: Some(seq),
                        },
                    )
                },
            }
        },
    }
}

/// The frames of the changes of a page, each a transaction of its own.
pub open spec fn change_frames(changes: Seq<ChangeView>, after: u64, scanned: u64) -> Result<
    Seq<FrameView>,
    FeedErrorView,
>
    decreases changes.len(),
{
    if changes.len() == 0 {
        Ok(seq![])
    } else {
        match change_frames(changes.drop_last(), after, scanned) {
            Err(e) => Err(e),
            Ok(frames) => {
                let previous = if frames.len() == 0 {
                    after
                } else {
                    frames.last().lsn
                };
                match change_frame(changes.last(), previous, scanned) {
                    Err(e) => Err(e),
                    Ok(f) => Ok(frames.push(f)),
                }
            },
        }
    }
}

/// What a valid page comes to.
#[verifier::ext_equal]
pub struct FeedPlan {
    pub frames: Seq<FrameView>,
    pub scanned: u64,
    pub head: u64,
    pub has_more: bool,
}

/// What a page comes to for a cursor at `after`, or what is wrong with it: the page
/// must go on from the cursor, not past the head, and say rightly whether there is
/// more; its changes must have rising numbers in what it searched.
pub open spec fn page_plan(p: PageView, after: u64) -> Result<FeedPlan, FeedErrorView> {
    match read_seq(p.head) {
        Err(e) => Err(e),
        Ok(head) => match read_seq(p.scanned_through) {
            Err(e) => Err(e),
            Ok(scanned) => if scanned < after || scanned > head || after > head {
                Err(
                    FeedErrorView::Protocol(
                        "after "@ + decimal(after as nat) + ", scanned "@ + decimal(scanned as nat)
                            + ", head "@ + decimal(head as nat),
                    ),
                )
            } else if p.has_more != (scanned < head) || (p.has_more && scanned == after) {
                Err(FeedErrorView::Protocol("inconsistent has_more or no progress"@))
            } else {
                match change_frames(p.changes, after, scanned) {
                    Err(e) => Err(e),
                    Ok(frames) => Ok(FeedPlan { frames, scanned, head, has_more: p.has_more }),
                }
            },
        },
    }
}

/// What a response comes to for a cursor at `after`.
pub open spec fn response_plan(body: Seq<char>, after: u64) -> Result<FeedPlan, FeedErrorView> {
    match decoded_page(body) {
        Err(e) => Err(e),
        Ok(p) => page_plan(p, after),
    }
}

/// The horizon to save after a page, where the cursor moved.
pub open spec fn scanned_horizon(scanned: u64, after: u64) -> Option<Seq<char>> {
    if scanned == after {
        None
    } else {
        Some(decimal(scanned as nat))
    }
}

/// Reads a change.
fn change_of(v: &Json) -> (r: Option<Change>)
    ensures
        r is Some <==> read_change(v@) is Some,
        r is Some ==> change_view(r->0) == read_change(v@)->0,
{
    if !v.shaped(5) {
        return None;
    }
    let seq = text_of(v.part(0, "seq"));
    let table = text_of(v.part(1, "table"));
    let pk = text_of(v.part(2, "pk"));
    let op = text_of(v.part(3, "op"));
    let is_record = match v {
        Json::Record(_) => true,
        _ => false,
    };
    let row = match v.part(4, "row") {
        None => {
            if !is_record {
                return None;
            }
            None
        },
        Some(Json::Null) => None,
        Some(j) => Some(j.clone()),
    };
    match (seq, table, pk, op) {
        (Some(seq), Some(table), Some(pk), Some(op)) => Some(Change { seq, table, pk, op, row }),
        _ => None,
    }
}

proof fn lemma_read_changes_prefix(items: Seq<JsonView>, i: int)
    requires
        0 <= i <= items.len(),
        read_changes(items.take(i)) is None,
    ensures
        read_changes(items) is None,
    decreases items.len() - i,
{
    if i == items.len() {
        assert(items.take(i) =~= items);
    } else {
        assert(items.take(i + 1).drop_last() =~= items.take(i));
        lemma_read_changes_prefix(items, i + 1);
    }
}

/// Reads the changes of a page.
fn changes_of(items: &Vec<Json>) -> (r: Option<Vec<Change>>)
    ensures
        r is Some <==> read_changes(list_view(items@)) is Some,
        r is Some ==> change_views(r->0@) == read_changes(list_view(items@))->0,
{
    let ghost views = list_view(items@);
    proof {
        lemma_list_view(items@);
    }
    let mut changes: Vec<Change> = Vec::new();
    let mut i: usize = 0;
    assert(views.take(0) =~= seq![]);
    assert(change_views(changes@) =~= seq![]);
    while i < items.len()
        invariant
            i <= items@.len(),
            views == list_view(items@),
            views.len() == items@.len(),
            forall|k: int| 0 <= k < items@.len() ==> #[trigger] views[k] == json_view(items@[k]),
            read_changes(views.take(i as int)) == Some(change_views(changes@)),
        decreases items@.len() - i,
    {
        proof {
            assert(views.take(i + 1).drop_last() =~= views.take(i as int));
            assert(views.take(i + 1).last() == views[i as int]);
        }
        let ghost before = change_views(changes@);
        match change_of(&items[i]) {
            None => {
                proof {
                    lemma_read_changes_prefix(views, i + 1);
                }
                return None;
            },
            Some(c) => {
                let ghost v = change_view(c);
                changes.push(c);
                assert(change_views(changes@) =~= before.push(v));
            },
        }
        i += 1;
    }
    assert(views.take(i as int) =~= views);
    Some(changes)
}

/// Reads the page of a response.
fn page_of(body: &str) -> (r: Result<Page, AppwritePullError>)
    ensures
        match decoded_page(body@) {
            Ok(p) => r is Ok && page_view(r->Ok_0) == p,
            Err(e) => r is Err && r->Err_0@ == e,
        },
        r is Err ==> !(r->Err_0 is Storage),
{
    let bytes = body.as_bytes_vec();
    let value = match parse_or_fault(bytes.as_slice()) {
        Ok(v) => v,
        Err(fault) => {
            return Err(AppwritePullError::Decode(fault));
        },
    };
    let head = text_of(value.part(0, "head"));
    let scanned = text_of(value.part(1, "scanned_through"));
    if value.shaped(4) {
        match (head, scanned, value.part(2, "has_more"), value.part(3, "changes")) {
            (
                Some(head),
                Some(scanned_through),
                Some(Json::Bool(has_more)),
                Some(Json::List(items)),
            ) => {
                match changes_of(items) {
                    Some(changes) => {
                        return Ok(Page { head, scanned_through, has_more: *has_more, changes });
                    },
                    None => {},
                }
            },
            _ => {},
        }
    }
    Err(AppwritePullError::Decode("not a feed page".to_owned()))
}

/// A number of the feed.
fn parse_seq(value: &str) -> (r: Result<u64, AppwritePullError>)
    ensures
        match read_seq(value@) {
            Ok(n) => r is Ok && r->Ok_0 == n,
            Err(e) => r is Err && r->Err_0@ == e,
        },
        r is Err ==> !(r->Err_0 is Storage),
{
    let chars = chars_of(value);
    match parse_unsigned(&chars, 10, u64::MAX) {
        Some(n) => Ok(n),
        None => {
            let mut out: String = "invalid decimal sequence ".to_owned();
            let q = quoted(value);
            out.append(q.as_str());
            Err(AppwritePullError::Protocol(out))
        },
    }
}

/// The frame of a change.
fn frame_of_change(c: &Change, previous: u64, scanned: u64) -> (r: Result<
    Frame,
    AppwritePullError,
>)
    ensures
        match change_frame(change_view(*c), previous, scanned) {
            Ok(f) => r is Ok && r->Ok_0@ == f,
            Err(e) => r is Err && r->Err_0@ == e,
        },
        r is Err ==> !(r->Err_0 is Storage),
{
    let seq: u64 = match parse_seq(c.seq.as_str()) {
        Ok(n) => n,
        Err(e) => {
            return Err(e);
        },
    };
    if seq <= previous || seq > scanned {
        let mut out: String = "visible sequence ".to_owned();
        let a = decimal_text(seq);
        out.append(a.as_str());
        out.append(" outside (");
        let b = decimal_text(previous);
        out.append(b.as_str());
        out.append(", ");
        let d = decimal_text(scanned);
        out.append(d.as_str());
        out.append("]");
        return Err(AppwritePullError::Protocol(out));
    }
    let op = match parse_operation(c.op.as_str()) {
        Some(op) => op,
        None => {
            let mut out: String = "unknown op ".to_owned();
            out.append(c.op.as_str());
            return Err(AppwritePullError::Protocol(out));
        },
    };
    if c.table.as_str().is_empty() || c.pk.as_str().is_empty() {
        return Err(AppwritePullError::Protocol("empty table or primary key".to_owned()));
    }
    let payload: Option<Vec<u8>> = match op {
        Operation::Delete => None,
        _ => match &c.row {
            Some(_) => Some(bytes_of_row(&c.row)),
            None => {
                return Err(AppwritePullError::Protocol("row image missing".to_owned()));
            },
        },
    };
    Ok(
        Frame {
            lsn: seq,
            op,
            table: c.table.clone(),
            pk: c.pk.clone(),
            payload,
            txn_id: Some(seq),
        },
    )
}

proof fn lemma_change_frames_prefix(
    changes: Seq<ChangeView>,
    after: u64,
    scanned: u64,
    i: int,
)
    requires
        0 <= i <= changes.len(),
        change_frames(changes.take(i), after, scanned) is Err,
    ensures
        change_frames(changes, after, scanned) == change_frames(changes.take(i), after, scanned),
    decreases changes.len() - i,
{
    if i == changes.len() {
        assert(changes.take(i) =~= changes);
    } else {
        assert(changes.take(i + 1).drop_last() =~= changes.take(i));
        lemma_change_frames_prefix(changes, after, scanned, i + 1);
    }
}

/// The frames of the changes of a page.
fn frames_of_changes(changes: &Vec<Change>, after: u64, scanned: u64) -> (r: Result<
    Vec<Frame>,
    AppwritePullError,
>)
    ensures
        match change_frames(change_views(changes@), after, scanned) {
            Ok(frames) => r is Ok && crate::apply::frame_views(r->Ok_0@) == frames,
            Err(e) => r is Err && r->Err_0@ == e,
        },
        r is Err ==> !(r->Err_0 is Storage),
{
    let ghost views = change_views(changes@);
    let mut frames: Vec<Frame> = Vec::new();
    let mut previous: u64 = after;
    let mut i: usize = 0;
    assert(views.take(0) =~= seq![]);
    assert(crate::apply::frame_views(frames@) =~= seq![]);
    while i < changes.len()
        invariant
            i <= changes@.len(),
            views == change_views(changes@),
            change_frames(views.take(i as int), after, scanned) == Ok::<
                Seq<FrameView>,
                FeedErrorView,
            >(crate::apply::frame_views(frames@)),
            previous == (if frames@.len() == 0 {
                after
            } else {
                frames@.last().lsn
            }),
        decreases changes@.len() - i,
    {
        let ghost before = crate::apply::frame_views(frames@);
        proof {
            assert(views.take(i + 1).drop_last() =~= views.take(i as int));
            assert(views.take(i + 1).last() == views[i as int]);
            if frames@.len() > 0 {
                assert(before.last() == frames@.last()@);
            }
            if change_frames(views.take(i + 1), after, scanned) is Err {
                lemma_change_frames_prefix(views, after, scanned, i + 1);
            }
        }
        let f = match frame_of_change(&changes[i], previous, scanned) {
            Ok(f) => f,
            Err(e) => {
                return Err(e);
            },
        };
        previous = f.lsn;
        let ghost v = f@;
        frames.push(f);
        assert(crate::apply::frame_views(frames@) =~= before.push(v));
        i += 1;
    }
    assert(views.take(i as int) =~= views);
    Ok(frames)
}

impl AppwriteCursor {
    /// The number up to which the feed was searched and applied.
    pub closed spec fn position(&self) -> u64 {
        self.after
    }

    /// Before everything.
    pub fn fresh() -> (r: Self)
        ensures
            r.position() == 0,
    {
        AppwriteCursor { after: 0 }
    }

    /// At a number that was saved.
    pub fn resume(after: u64) -> (r: Self)
        ensures
            r.position() == after,
    {
        AppwriteCursor { after }
    }

    /// The number up to which the feed was searched and applied.
    pub fn after(&self) -> (r: u64)
        ensures
            r == self.position(),
    {
        self.after
    }

    /// Checks a page and says what it comes to.
    fn plan(&self, body: &str) -> (r: Result<(Vec<Frame>, AppwritePullOutcome), AppwritePullError>)
        ensures
            match response_plan(body@, self.position()) {
                Ok(plan) => r is Ok && crate::apply::frame_views(r->Ok_0.0@) == plan.frames
                    && r->Ok_0.1.scanned_through == plan.scanned && r->Ok_0.1.head == plan.head
                    && r->Ok_0.1.has_more == plan.has_more,
                Err(e) => r is Err && r->Err_0@ == e,
            },
            r is Err ==> !(r->Err_0 is Storage),
    {
        let page = match page_of(body) {
            Ok(page) => page,
            Err(e) => {
                return Err(e);
            },
        };
        let head: u64 = match parse_seq(page.head.as_str()) {
            Ok(n) => n,
            Err(e) => {
                return Err(e);
            },
        };
        let scanned: u64 = match parse_seq(page.scanned_through.as_str()) {
            Ok(n) => n,
            Err(e) => {
                return Err(e);
            },
        };
        if scanned < self.after || scanned > head || self.after > head {
            let mut out: String = "after ".to_owned();
            let a = decimal_text(self.after);
            out.append(a.as_str());
            out.append(", scanned ");
            let b = decimal_text(scanned);
            out.append(b.as_str());
            out.append(", head ");
            let c = decimal_text(head);
            out.append(c.as_str());
            return Err(AppwritePullError::Protocol(out));
        }
        if page.has_more != (scanned < head) || (page.has_more && scanned == self.after) {
            return Err(
                AppwritePullError::Protocol("inconsistent has_more or no progress".to_owned()),
            );
        }
        match frames_of_changes(&page.changes, self.after, scanned) {
            Ok(frames) => Ok(
                (
                    frames,
                    AppwritePullOutcome {
                        rows_applied: 0,
                        scanned_through: scanned,
                        head,
                        has_more: page.has_more,
                    },
                ),
            ),
            Err(e) => Err(e),
        }
    }

    /// Applies a page. The cursor moves after every row is committed and the number
    /// is saved in the store; where the page fails, it does not move.
    pub fn apply<S: Storage>(&mut self, engine: &mut ApplyEngine<S>, body: &str) -> (r: Result<
        AppwritePullOutcome,
        AppwritePullError,
    >)
        ensures
            match response_plan(body@, old(self).position()) {
                Err(e) => r is Err && r->Err_0@ == e && final(engine).batch() == old(engine).batch()
                    && final(engine).store() == old(engine).store(),
                Ok(plan) => {
                    &&& r is Err ==> r->Err_0 is Storage
                    &&& r is Err ==> partly_fed(
                        old(engine).batch(),
                        old(engine).store(),
                        plan.frames,
                        final(engine).store(),
                    ) || page_applied(
                        old(engine).batch(),
                        old(engine).store(),
                        plan.frames,
                        final(engine).batch(),
                        final(engine).store(),
                    )
                    &&& r is Ok ==> {
                        &&& r->Ok_0 == (AppwritePullOutcome {
                            rows_applied: counted(
                                old(engine).batch().pending.len() + plan.frames.len(),
                            ),
                            scanned_through: plan.scanned,
                            head: plan.head,
                            has_more: plan.has_more,
                        })
                        &&& final(self).position() == plan.scanned
                        &&& exists|s: StoreState| #[trigger]
                            page_applied(
                                old(engine).batch(),
                                old(engine).store(),
                                plan.frames,
                                final(engine).batch(),
                                s,
                            ) && match scanned_horizon(plan.scanned, old(self).position()) {
                                    None => final(engine).store() == s,
                                    Some(t) => exists|
                                        h: &mut S,
                                        text: &str,
                                        said: Result<(), StorageError>,
                                    | #[trigger]
                                        call_ensures(S::save_horizon, (h, text), said) && said is Ok
                                            && text@ == t
                                            && (*h).state() == s
                                                && *final(h) == final(engine).backing(),
                                }
                    }
                },
            },
            r is Err ==> *final(self) == *old(self)
                && final(engine).store().horizon == old(engine).store().horizon,
            r is Err && r->Err_0 is Storage ==> (exists|
                h: &mut S,
                ops: &[(RowOp, u64)],
                at: Lsn,
                tables: &NameSet,
                said: Result<(), StorageError>,
            | #[trigger]
                call_ensures(S::apply_batch, (h, ops, at, tables), said)
                    && at == final(engine).batch().mark && *final(h) == final(engine).backing()
                    && op_views(ops@) == frame_ops(final(engine).batch().pending)
                    && said == Err::<(), StorageError>(r->Err_0->Storage_0)) || (exists|
                h: &mut S,
                text: &str,
                said: Result<(), StorageError>,
            | #[trigger]
                call_ensures(S::save_horizon, (h, text), said) && scanned_horizon(
                    response_plan(body@, old(self).position())->Ok_0.scanned,
                    old(self).position(),
                ) == Some(text@) && *final(h) == final(engine).backing()
                    && said == Err::<(), StorageError>(r->Err_0->Storage_0)),
            old(engine).backing().dependable() && r is Err ==> !(r->Err_0 is Storage),
            final(engine).backing().dependable() == old(engine).backing().dependable(),
    {
        let planned = match self.plan(body) {
            Ok(p) => p,
            Err(e) => {
                return Err(e);
            },
        };
        let frames = planned.0;
        let mut report = planned.1;
        let ghost views = crate::apply::frame_views(frames@);
        let ghost b0 = engine.batch();
        let ghost s0 = engine.store();
        let ghost n0 = b0.pending.len();
        let ghost mut batches: Seq<BatchState> = seq![b0];
        let ghost mut stores: Seq<StoreState> = seq![s0];
        let mut rows_applied: usize = 0;
        let mut i: usize = 0;
        proof {
            assert(counted(0) == 0);
            assert(run(batches, stores, views.take(0)));
        }
        while i < frames.len()
            invariant
                i <= frames@.len(),
                views == crate::apply::frame_views(frames@),
                response_plan(body@, self.position()) is Ok,
                response_plan(body@, self.position())->Ok_0.frames == views,
                *self == *old(self),
                b0 == old(engine).batch(),
                s0 == old(engine).store(),
                n0 == b0.pending.len(),
                run(batches, stores, views.take(i as int)),
                batches[0] == b0,
                stores[0] == s0,
                batches.last() == engine.batch(),
                stores.last() == engine.store(),
                engine.store().horizon == s0.horizon,
                engine.backing().dependable() == old(engine).backing().dependable(),
                engine.batch().pending.len() <= n0 + i,
                rows_applied == counted((n0 + i - engine.batch().pending.len()) as nat),
            decreases frames@.len() - i,
        {
            let frame = frames[i].clone();
            let ghost f = frame@;
            match engine.feed(frame) {
                Ok(out) => {
                    match out {
                        Some(o) => {
                            rows_applied = count_on(rows_applied, o.rows_applied);
                        },
                        None => {},
                    }
                },
                Err(e) => {
                    proof {
                        assert(fed_through(
                            b0,
                            s0,
                            views.take(i as int),
                            batches.last(),
                            engine.store(),
                        ));
                    }
                    return Err(AppwritePullError::Storage(e));
                },
            }
            proof {
                lemma_run_on(
                    batches,
                    stores,
                    views.take(i as int),
                    f,
                    engine.batch(),
                    engine.store(),
                );
                batches = batches.push(engine.batch());
                stores = stores.push(engine.store());
                assert(views.take(i as int).push(f) =~= views.take(i + 1));
            }
            i += 1;
        }
        assert(views.take(i as int) =~= views);
        let ghost b1 = engine.batch();
        let ghost s1 = engine.store();
        proof {
            engine.lemma_pending_fits();
        }
        match engine.flush() {
            Ok(out) => {
                match out {
                    Some(o) => {
                        rows_applied = count_on(rows_applied, o.rows_applied);
                    },
                    None => {},
                }
            },
            Err(e) => {
                proof {
                    assert(fed_through(b0, s0, views.take(i as int), b1, engine.store()));
                }
                return Err(AppwritePullError::Storage(e));
            },
        }
        proof {
            assert(drained(b1, s1, engine.batch(), engine.store()));
            assert(page_applied(b0, s0, views, engine.batch(), engine.store()));
        }
        if report.scanned_through != self.after {
            let text = decimal_text(report.scanned_through);
            match engine.storage_mut().save_horizon(text.as_str()) {
                Ok(_) => {},
                Err(e) => {
                    return Err(AppwritePullError::Storage(e));
                },
            }
            self.after = report.scanned_through;
        }
        report.rows_applied = rows_applied;
        Ok(report)
    }
}

impl Default for AppwriteCursor {
    fn default() -> (r: Self)
        ensures
            r.position() == 0,
    {
        AppwriteCursor::fresh()
    }
}

// ---- laws ----

/// The cursor never goes back, and never past the head of the feed.
pub proof fn law_cursor_goes_forward(p: PageView, after: u64)
    requires
        page_plan(p, after) is Ok,
    ensures
        after <= page_plan(p, after)->Ok_0.scanned <= page_plan(p, after)->Ok_0.head,
        page_plan(p, after)->Ok_0.has_more ==> after < page_plan(p, after)->Ok_0.scanned,
{
}

/// The changes of a page have rising numbers, after the cursor and within what was
/// searched.
pub proof fn law_changes_rise(changes: Seq<ChangeView>, after: u64, scanned: u64, i: int)
    requires
        change_frames(changes, after, scanned) is Ok,
        0 <= i < change_frames(changes, after, scanned)->Ok_0.len(),
    ensures
        ({
            let frames = change_frames(changes, after, scanned)->Ok_0;
            &&& frames[i].lsn > (if i == 0 {
                after
            } else {
                frames[i - 1].lsn
            })
            &&& frames[i].lsn <= scanned
            &&& frames[i].txn_id == Some(frames[i].lsn)
        }),
    decreases changes.len(),
{
    let frames = change_frames(changes, after, scanned)->Ok_0;
    let front = change_frames(changes.drop_last(), after, scanned)->Ok_0;
    if i < frames.len() - 1 {
        law_changes_rise(changes.drop_last(), after, scanned, i);
    }
}

} // verus!
