//! Applying a whole snapshot: what the server holds now takes the place of what the
//! client holds, table by table.

use vstd::prelude::*;
use vstd::utf8::encode_utf8;
use crate::apply::{drained, fed, frame_ops, ApplyEngine, BatchState, Frame, FrameView};
use crate::events::{Operation, RowOp};
use crate::json::{
    json_fault, json_read, json_view, lemma_list_view, list_view, parse_or_fault, part, shaped,
    Json, JsonView,
};
use crate::lsn::Lsn;
use crate::names::NameSet;
use crate::pull::{
    bytes_of_row, counted, horizon_view, id_of, moved, opaque_id, optional, row_bytes, text_part,
    Horizon, PullCursor, PullError, PullErrorView, PullOutcome,
};
use crate::storage::{
    name_set, op_views, rows_without, table_pks, Storage, StorageError, StoreState,
};
use crate::text::{same_text, text_views};

verus! {

/// One row of a snapshot. The first row has a horizon alone, and the first row of
/// every table has no key, so that a table without rows is seen too.
#[derive(Debug)]
pub struct SnapshotRow {
    pub horizon: String,
    pub table_name: Option<String>,
    pub pk: Option<String>,
    pub row: Option<Json>,
}

/// One row of a snapshot by its values.
pub struct SnapshotRowView {
    pub horizon: Seq<char>,
    pub table: Option<Seq<char>>,
    pub pk: Option<Seq<char>>,
    pub row: Option<JsonView>,
}

/// The text of an optional string.
pub open spec fn optional_text(s: Option<String>) -> Option<Seq<char>> {
    match s {
        Some(s) => Some(s@),
        None => None,
    }
}

impl View for SnapshotRow {
    type V = SnapshotRowView;

    open spec fn view(&self) -> SnapshotRowView {
        SnapshotRowView {
            horizon: self.horizon@,
            table: optional_text(self.table_name),
            pk: optional_text(self.pk),
            row: match self.row {
                Some(j) => Some(j@),
                None => None,
            },
        }
    }
}

/// The rows by their values.
pub open spec fn snapshot_views(s: Seq<SnapshotRow>) -> Seq<SnapshotRowView> {
    Seq::new(s.len(), |i: int| s[i]@)
}

/// Whether an optional part is missing, null or text.
pub open spec fn text_or_nothing(v: Option<JsonView>) -> bool {
    optional(v) is None || v->0 is Text
}

/// Reads a row of a snapshot.
pub open spec fn read_snapshot_row(v: JsonView) -> Option<SnapshotRowView> {
    let table = part(v, 1, "table_name"@);
    let pk = part(v, 2, "pk"@);
    match opaque_id(part(v, 0, "horizon"@)) {
        Some(horizon) => if shaped(v, 4) && text_or_nothing(table) && text_or_nothing(pk) {
            Some(
                SnapshotRowView {
                    horizon,
                    table: text_part(table),
                    pk: text_part(pk),
                    row: optional(part(v, 3, "row"@)),
                },
            )
        } else {
            None
        },
        None => None,
    }
}

/// Reads the rows of a snapshot.
pub open spec fn read_snapshot_rows(items: Seq<JsonView>) -> Option<Seq<SnapshotRowView>>
    decreases items.len(),
{
    if items.len() == 0 {
        Some(seq![])
    } else {
        match (read_snapshot_rows(items.drop_last()), read_snapshot_row(items.last())) {
            (Some(s), Some(row)) => Some(s.push(row)),
            _ => None,
        }
    }
}

/// The rows of a snapshot response.
pub open spec fn decoded_snapshot(body: Seq<char>) -> Result<
    Seq<SnapshotRowView>,
    PullErrorView,
> {
    match json_read(encode_utf8(body)) {
        Some(JsonView::List(items)) => match read_snapshot_rows(items) {
            Some(rows) => Ok(rows),
            None => Err(PullErrorView::Decode("not a snapshot row"@)),
        },
        Some(_) => Err(PullErrorView::Decode("not a list"@)),
        None => Err(PullErrorView::Decode(json_fault(encode_utf8(body)))),
    }
}

/// What applying a snapshot does, step by step.
pub enum SnapshotStep {
    /// A table begins: the rows of it that are here are candidates for removal.
    Begin(Seq<char>),
    /// A row arrives.
    Row(FrameView),
    /// What has arrived is committed.
    Commit,
    /// A table ends: the candidates that did not arrive are removed.
    End(Seq<char>),
}

/// The frame of a row of a snapshot. It stands at position zero, so that every later
/// change of the log counts as newer.
pub open spec fn snapshot_frame(
    table: Seq<char>,
    pk: Seq<char>,
    row: Option<JsonView>,
) -> FrameView {
    FrameView {
        lsn: 0,
        op: Operation::Insert,
        table,
        pk,
        payload: Some(row_bytes(row)),
        txn_id: None,
    }
}

/// The steps that end a table.
pub open spec fn ending(open: Option<Seq<char>>) -> Seq<SnapshotStep> {
    match open {
        Some(t) => seq![SnapshotStep::Commit, SnapshotStep::End(t)],
        None => seq![],
    }
}

/// The steps of one row, where `open` is the table that has begun.
pub open spec fn row_steps(open: Option<Seq<char>>, row: SnapshotRowView) -> Seq<SnapshotStep> {
    match row.table {
        None => seq![],
        Some(t) => {
            let turn = if open == Some(t) {
                seq![]
            } else {
                ending(open) + seq![SnapshotStep::Begin(t)]
            };
            match row.pk {
                Some(pk) => turn + seq![SnapshotStep::Row(snapshot_frame(t, pk, row.row))],
                None => turn,
            }
        },
    }
}

/// The table that has begun after the rows.
pub open spec fn open_table(rows: Seq<SnapshotRowView>) -> Option<Seq<char>>
    decreases rows.len(),
{
    if rows.len() == 0 {
        None
    } else if rows.last().table is Some {
        rows.last().table
    } else {
        open_table(rows.drop_last())
    }
}

/// The steps of the rows, up to the end of the last table.
pub open spec fn steps_up_to(rows: Seq<SnapshotRowView>) -> Seq<SnapshotStep>
    decreases rows.len(),
{
    if rows.len() == 0 {
        seq![]
    } else {
        steps_up_to(rows.drop_last()) + row_steps(open_table(rows.drop_last()), rows.last())
    }
}

/// The steps of a snapshot.
pub open spec fn snapshot_steps(rows: Seq<SnapshotRowView>) -> Seq<SnapshotStep> {
    steps_up_to(rows) + ending(open_table(rows))
}

/// The number of rows that arrive.
pub open spec fn arriving(rows: Seq<SnapshotRowView>) -> nat
    decreases rows.len(),
{
    if rows.len() == 0 {
        0
    } else if rows.last().table is Some && rows.last().pk is Some {
        arriving(rows.drop_last()) + 1
    } else {
        arriving(rows.drop_last())
    }
}

/// The keys of a table that are exempt from removal.
pub open spec fn exempt_in(exempt: Seq<(String, String)>, table: Seq<char>) -> Set<Seq<char>> {
    Set::new(
        |pk: Seq<char>|
            exists|i: int|
                0 <= i < exempt.len() && (#[trigger] exempt[i]).0@ == table && exempt[i].1@ == pk,
    )
}

/// Whether a step brings the batch `b` and the store `s` to `b2` and `s2`.
pub open spec fn stepped(
    exempt: Seq<(String, String)>,
    step: SnapshotStep,
    b: BatchState,
    s: StoreState,
    b2: BatchState,
    s2: StoreState,
) -> bool {
    match step {
        SnapshotStep::Begin(t) => s2 == s && b2 == (BatchState {
            windows: b.windows.insert(t, table_pks(s.rows, t).difference(exempt_in(exempt, t))),
            ..b
        }),
        SnapshotStep::Row(f) => fed(b, s, f, b2, s2),
        SnapshotStep::Commit => drained(b, s, b2, s2),
        SnapshotStep::End(t) => b2 == (BatchState { windows: b.windows.remove(t), ..b }) && s2
            == (if b.windows.contains_key(t) {
            StoreState { rows: rows_without(s.rows, t, b.windows[t]), ..s }
        } else {
            s
        }),
    }
}

/// Whether the steps lead through the given states.
pub open spec fn stepped_through(
    exempt: Seq<(String, String)>,
    steps: Seq<SnapshotStep>,
    batches: Seq<BatchState>,
    stores: Seq<StoreState>,
) -> bool {
    &&& batches.len() == steps.len() + 1
    &&& stores.len() == steps.len() + 1
    &&& forall|i: int|
        0 <= i < steps.len() ==> stepped(
            exempt,
            #[trigger] steps[i],
            batches[i],
            stores[i],
            batches[i + 1],
            stores[i + 1],
        )
}

/// Whether the steps bring the batch `b` and the store `s` to `b2` and `s2`.
pub open spec fn steps_taken(
    exempt: Seq<(String, String)>,
    steps: Seq<SnapshotStep>,
    b: BatchState,
    s: StoreState,
    b2: BatchState,
    s2: StoreState,
) -> bool {
    exists|batches: Seq<BatchState>, stores: Seq<StoreState>| #[trigger]
        stepped_through(exempt, steps, batches, stores) && batches[0] == b && stores[0] == s
            && batches.last() == b2 && stores.last() == s2
}

/// Whether `s2` is the store after a step that failed: as it was, or, at the end of a
/// table, without some of the rows that were to go.
pub open spec fn step_failed(
    step: SnapshotStep,
    b: BatchState,
    s: StoreState,
    s2: StoreState,
) -> bool {
    s2 == s || (step matches SnapshotStep::End(t) && b.windows.contains_key(t) && exists|
        gone: Set<Seq<char>>,
    | #[trigger]
        gone.subset_of(b.windows[t]) && s2 == (StoreState {
            rows: rows_without(s.rows, t, gone),
            ..s
        }))
}

/// Whether some of the steps, from the first on, were taken, the next one, if any,
/// failed, and this left the store `s2`.
pub open spec fn steps_broken_off(
    exempt: Seq<(String, String)>,
    steps: Seq<SnapshotStep>,
    b: BatchState,
    s: StoreState,
    s2: StoreState,
) -> bool {
    exists|k: int, b1: BatchState, s1: StoreState|
        #![trigger steps_taken(exempt, steps.take(k), b, s, b1, s1)]
        0 <= k <= steps.len() && steps_taken(exempt, steps.take(k), b, s, b1, s1) && (if k
            < steps.len() {
            step_failed(steps[k], b1, s1, s2)
        } else {
            s2 == s1
        })
}

/// A step that fails breaks the snapshot off, where it is the next one of the rows up
/// to `n`, or of all.
proof fn lemma_broken_off(
    exempt: Seq<(String, String)>,
    rows: Seq<SnapshotRowView>,
    n: int,
    steps: Seq<SnapshotStep>,
    step: SnapshotStep,
    b: BatchState,
    s: StoreState,
    b1: BatchState,
    s1: StoreState,
    s2: StoreState,
)
    requires
        0 <= n <= rows.len(),
        steps.push(step).is_prefix_of(steps_up_to(rows.take(n))) || steps.push(step).is_prefix_of(
            snapshot_steps(rows),
        ),
        steps_taken(exempt, steps, b, s, b1, s1),
        step_failed(step, b1, s1, s2),
    ensures
        steps_broken_off(exempt, snapshot_steps(rows), b, s, s2),
{
    let all = snapshot_steps(rows);
    lemma_steps_prefix(rows, n);
    let k = steps.len() as int;
    let with = steps.push(step);
    assert(with.is_prefix_of(all)) by {
        let part = steps_up_to(rows.take(n));
        if with.is_prefix_of(part) {
            assert(with =~= part.take(with.len() as int));
            assert(part =~= all.take(part.len() as int));
            assert(with =~= all.take(with.len() as int));
        }
    }
    assert(all.take(k) =~= steps);
    assert(all[k] == with[k]);
    assert(steps_taken(exempt, all.take(k), b, s, b1, s1));
}

/// The steps of the first rows come first.
proof fn lemma_steps_prefix(rows: Seq<SnapshotRowView>, n: int)
    requires
        0 <= n <= rows.len(),
    ensures
        steps_up_to(rows.take(n)).is_prefix_of(snapshot_steps(rows)),
    decreases rows.len() - n,
{
    if n == rows.len() {
        assert(rows.take(n) =~= rows);
        assert(steps_up_to(rows) =~= snapshot_steps(rows).take(steps_up_to(rows).len() as int));
    } else {
        lemma_steps_prefix(rows, n + 1);
        let some = steps_up_to(rows.take(n));
        let more = steps_up_to(rows.take(n + 1));
        assert(rows.take(n + 1).drop_last() =~= rows.take(n));
        assert(some =~= more.take(some.len() as int));
        assert(more =~= snapshot_steps(rows).take(more.len() as int));
        assert(some =~= snapshot_steps(rows).take(some.len() as int));
    }
}

proof fn lemma_no_steps(exempt: Seq<(String, String)>, b: BatchState, s: StoreState)
    ensures
        steps_taken(exempt, seq![], b, s, b, s),
{
    assert(stepped_through(exempt, seq![], seq![b], seq![s]));
}

proof fn lemma_step_on(
    exempt: Seq<(String, String)>,
    steps: Seq<SnapshotStep>,
    b: BatchState,
    s: StoreState,
    b2: BatchState,
    s2: StoreState,
    step: SnapshotStep,
    b3: BatchState,
    s3: StoreState,
)
    requires
        steps_taken(exempt, steps, b, s, b2, s2),
        stepped(exempt, step, b2, s2, b3, s3),
    ensures
        steps_taken(exempt, steps.push(step), b, s, b3, s3),
{
    let (batches, stores) = choose|batches: Seq<BatchState>, stores: Seq<StoreState>| #[trigger]
        stepped_through(exempt, steps, batches, stores) && batches[0] == b && stores[0] == s
            && batches.last() == b2 && stores.last() == s2;
    let bs = batches.push(b3);
    let ss = stores.push(s3);
    let all = steps.push(step);
    assert forall|i: int| 0 <= i < all.len() implies stepped(
        exempt,
        #[trigger] all[i],
        bs[i],
        ss[i],
        bs[i + 1],
        ss[i + 1],
    ) by {
        if i < steps.len() {
            assert(all[i] == steps[i]);
            assert(stepped(exempt, steps[i], batches[i], stores[i], batches[i + 1], stores[i + 1]));
        }
    }
    assert(stepped_through(exempt, all, bs, ss));
}

/// The text of an optional part; the second is whether it is missing, null or text.
fn optional_text_of(v: Option<&Json>) -> (r: (Option<String>, bool))
    ensures
        ({
            let j = match v {
                Some(j) => Some(j@),
                None => None,
            };
            optional_text(r.0) == text_part(j) && r.1 == text_or_nothing(j)
        }),
{
    match v {
        None => (None, true),
        Some(Json::Null) => (None, true),
        Some(Json::Text(s)) => (Some(s.clone()), true),
        Some(_) => (None, false),
    }
}

/// Reads a row of a snapshot.
fn snapshot_row_of(v: &Json) -> (r: Option<SnapshotRow>)
    ensures
        r is Some <==> read_snapshot_row(v@) is Some,
        r is Some ==> r->0@ == read_snapshot_row(v@)->0,
{
    if !v.shaped(4) {
        return None;
    }
    let table = optional_text_of(v.part(1, "table_name"));
    let pk = optional_text_of(v.part(2, "pk"));
    let row = match v.part(3, "row") {
        None => None,
        Some(Json::Null) => None,
        Some(j) => Some(j.clone()),
    };
    match id_of(v.part(0, "horizon")) {
        Some(horizon) => if table.1 && pk.1 {
            Some(SnapshotRow { horizon, table_name: table.0, pk: pk.0, row })
        } else {
            None
        },
        None => None,
    }
}

proof fn lemma_read_snapshot_prefix(items: Seq<JsonView>, i: int)
    requires
        0 <= i <= items.len(),
        read_snapshot_rows(items.take(i)) is None,
    ensures
        read_snapshot_rows(items) is None,
    decreases items.len() - i,
{
    if i == items.len() {
        assert(items.take(i) =~= items);
    } else {
        assert(items.take(i + 1).drop_last() =~= items.take(i));
        lemma_read_snapshot_prefix(items, i + 1);
    }
}

/// Reads the rows of a snapshot response.
pub fn decode_snapshot(body: &str) -> (r: Result<Vec<SnapshotRow>, PullError>)
    ensures
        match decoded_snapshot(body@) {
            Ok(rows) => r is Ok && snapshot_views(r->Ok_0@) == rows,
            Err(e) => r is Err && r->Err_0@ == e,
        },
{
    let bytes = body.as_bytes_vec();
    match parse_or_fault(bytes.as_slice()) {
        Err(fault) => Err(PullError::Decode(fault)),
        Ok(Json::List(items)) => {
            let ghost views = list_view(items@);
            proof {
                lemma_list_view(items@);
            }
            let mut rows: Vec<SnapshotRow> = Vec::new();
            let mut i: usize = 0;
            assert(views.take(0) =~= seq![]);
            assert(snapshot_views(rows@) =~= seq![]);
            while i < items.len()
                invariant
                    i <= items@.len(),
                    views.len() == items@.len(),
                    json_read(encode_utf8(body@)) == Some(JsonView::List(views)),
                    forall|k: int|
                        0 <= k < items@.len() ==> #[trigger] views[k] == json_view(items@[k]),
                    read_snapshot_rows(views.take(i as int)) == Some(snapshot_views(rows@)),
                decreases items@.len() - i,
            {
                proof {
                    assert(views.take(i + 1).drop_last() =~= views.take(i as int));
                    assert(views.take(i + 1).last() == views[i as int]);
                }
                let ghost before = snapshot_views(rows@);
                match snapshot_row_of(&items[i]) {
                    None => {
                        proof {
                            lemma_read_snapshot_prefix(views, i + 1);
                        }
                        return Err(PullError::Decode("not a snapshot row".to_owned()));
                    },
                    Some(row) => {
                        let ghost v = row@;
                        rows.push(row);
                        assert(snapshot_views(rows@) =~= before.push(v));
                    },
                }
                i += 1;
            }
            assert(views.take(i as int) =~= views);
            Ok(rows)
        },
        Ok(_) => Err(PullError::Decode("not a list".to_owned())),
    }
}

/// The keys of a table that are exempt from removal.
fn exempt_pks(exempt: &[(String, String)], table: &str) -> (r: Vec<String>)
    ensures
        name_set(text_views(r@)) == exempt_in(exempt@, table@),
{
    let mut out: Vec<String> = Vec::new();
    let mut i: usize = 0;
    while i < exempt.len()
        invariant
            i <= exempt@.len(),
            forall|k: int|
                0 <= k < i && (#[trigger] exempt@[k]).0@ == table@ ==> text_views(out@).contains(
                    exempt@[k].1@,
                ),
            forall|pk: Seq<char>| #[trigger]
                text_views(out@).contains(pk) ==> exempt_in(exempt@, table@).contains(pk),
        decreases exempt@.len() - i,
    {
        let ghost before = text_views(out@);
        if same_text(exempt[i].0.as_str(), table) {
            let ghost pk = exempt@[i as int].1@;
            out.push(exempt[i].1.clone());
            proof {
                let now = text_views(out@);
                assert(now =~= before.push(pk));
                assert(now[before.len() as int] == pk);
                assert forall|k: int|
                    0 <= k < i && (#[trigger] exempt@[k]).0@ == table@ implies now.contains(
                    exempt@[k].1@,
                ) by {
                    let j = choose|j: int| 0 <= j < before.len() && before[j] == exempt@[k].1@;
                    assert(now[j] == exempt@[k].1@);
                }
                assert forall|n: Seq<char>| #[trigger] now.contains(n) implies exempt_in(
                    exempt@,
                    table@,
                ).contains(n) by {
                    let j = choose|j: int| 0 <= j < now.len() && now[j] == n;
                    if j < before.len() {
                        assert(before[j] == n);
                        assert(before.contains(n));
                    } else {
                        assert(exempt@[i as int].0@ == table@);
                    }
                }
            }
        }
        i += 1;
    }
    assert(name_set(text_views(out@)) =~= exempt_in(exempt@, table@));
    out
}

/// Begins a table.
fn begin_table<S: Storage>(
    engine: &mut ApplyEngine<S>,
    table: &str,
    exempt: &[(String, String)],
) -> (r: Result<(), StorageError>)
    ensures
        r is Ok ==> stepped(
            exempt@,
            SnapshotStep::Begin(table@),
            old(engine).batch(),
            old(engine).store(),
            final(engine).batch(),
            final(engine).store(),
        ),
        r is Err ==> final(engine).store() == old(engine).store(),
        r is Err ==> exists|t: &str, said: Result<Vec<String>, StorageError>| #[trigger]
            call_ensures(S::pks_for_table, (&final(engine).backing(), t), said) && t@ == table@
                && said == Err::<Vec<String>, StorageError>(r->Err_0),
        final(engine).store().horizon == old(engine).store().horizon,
        final(engine).backing().dependable() == old(engine).backing().dependable(),
        old(engine).backing().dependable() ==> r is Ok,
{
    let pks = exempt_pks(exempt, table);
    engine.snapshot_boundary(table, true, pks.as_slice())
}

/// Ends a table.
fn end_table<S: Storage>(engine: &mut ApplyEngine<S>, table: &str) -> (r: Result<(), StorageError>)
    ensures
        r is Ok ==> stepped(
            seq![],
            SnapshotStep::End(table@),
            old(engine).batch(),
            old(engine).store(),
            final(engine).batch(),
            final(engine).store(),
        ),
        r is Err ==> step_failed(
            SnapshotStep::End(table@),
            old(engine).batch(),
            old(engine).store(),
            final(engine).store(),
        ),
        r is Err ==> exists|h: &mut S, t: &str, pks: &[String], said: Result<(), StorageError>|
            #[trigger] call_ensures(S::delete_pks, (h, t, pks), said) && *final(h)
                == final(engine).backing() && t@ == table@ && name_set(text_views(pks@))
                == old(engine).batch().windows[table@] && said == Err::<(), StorageError>(r->Err_0),
        final(engine).store().horizon == old(engine).store().horizon,
        final(engine).backing().dependable() == old(engine).backing().dependable(),
        old(engine).backing().dependable() ==> r is Ok,
{
    let none: Vec<String> = Vec::new();
    engine.snapshot_boundary(table, false, none.as_slice())
}

impl PullCursor {
    /// Applies a snapshot: what it holds of a table takes the place of what is here,
    /// but for the rows in `exempt`, which are the client's own writes that the
    /// server does not know yet. The cursor, and the horizon in the store, move to
    /// the horizon of the snapshot after everything is committed; where the snapshot
    /// fails, neither moves.
    pub fn apply_snapshot<S: Storage>(
        &mut self,
        engine: &mut ApplyEngine<S>,
        body: &str,
        exempt: &[(String, String)],
    ) -> (r: Result<PullOutcome, PullError>)
        ensures
            final(self).limit() == old(self).limit(),
            match decoded_snapshot(body@) {
                Err(e) => r is Err && r->Err_0@ == e && final(engine).batch() == old(engine).batch()
                    && final(engine).store() == old(engine).store(),
                Ok(rows) => {
                    let next = moved(
                        if rows.len() > 0 {
                            Some(rows[0].horizon)
                        } else {
                            None
                        },
                        old(self).position(),
                    );
                    &&& r is Err ==> r->Err_0 is Storage && steps_broken_off(
                        exempt@,
                        snapshot_steps(rows),
                        old(engine).batch(),
                        old(engine).store(),
                        final(engine).store(),
                    )
                    &&& r is Ok ==> {
                        &&& horizon_view(r->Ok_0.horizon) == next
                        &&& !r->Ok_0.more
                        &&& r->Ok_0.rows_applied == counted(
                            (old(engine).batch().pending.len() + arriving(rows) - final(engine).batch().pending.len()) as nat,
                        )
                        &&& final(self).position() == (match next {
                            Some(h) => h,
                            None => old(self).position(),
                        })
                        &&& exists|s: StoreState| #[trigger]
                            steps_taken(
                                exempt@,
                                snapshot_steps(rows),
                                old(engine).batch(),
                                old(engine).store(),
                                final(engine).batch(),
                                s,
                            ) && r->Ok_0.checkpoint == s.checkpoint && match next {
                                    None => final(engine).store() == s,
                                    Some(t) => exists|
                                        h: &mut S,
                                        text: &str,
                                        said: Result<(), StorageError>,
                                    | #[trigger]
                                        call_ensures(S::save_horizon, (h, text), said) && text@ == t
                                            && (*h).state() == s
                                                && *final(h) == final(engine).backing(),
                                }
                    }
                },
            },
            r is Err ==> final(self).position() == old(self).position()
                && final(engine).store().horizon == old(engine).store().horizon,
            r is Err && r->Err_0 is Storage ==> (exists|
                h: &mut S,
                ops: &[(RowOp, u64)],
                at: Lsn,
                tables: &NameSet,
                said: Result<(), StorageError>,
            | #[trigger]
                call_ensures(S::apply_batch, (h, ops, at, tables), said)
                    && at == final(engine).batch().mark && *final(h) == final(engine).backing()
                    && op_views(ops@) == frame_ops(final(engine).batch().pending)
                    && said == Err::<(), StorageError>(r->Err_0->Storage_0)) || (exists|
                t: &str,
                said: Result<Vec<String>, StorageError>,
            | #[trigger]
                call_ensures(S::pks_for_table, (&final(engine).backing(), t), said)
                    && said == Err::<Vec<String>, StorageError>(r->Err_0->Storage_0)) || (exists|
                h: &mut S,
                t: &str,
                pks: &[String],
                said: Result<(), StorageError>,
            | #[trigger]
                call_ensures(S::delete_pks, (h, t, pks), said) && *final(h)
                    == final(engine).backing() && said == Err::<(), StorageError>(r->Err_0->Storage_0))
                || call_ensures(
                S::checkpoint,
                (&final(engine).backing(),),
                Err::<Lsn, StorageError>(r->Err_0->Storage_0),
            ),
            old(engine).backing().dependable() && r is Err ==> !(r->Err_0 is Storage),
            final(engine).backing().dependable() == old(engine).backing().dependable(),
    {
        let rows = match decode_snapshot(body) {
            Ok(rows) => rows,
            Err(e) => {
                return Err(e);
            },
        };
        let ghost views = snapshot_views(rows@);
        let ghost b0 = engine.batch();
        let ghost s0 = engine.store();
        let mut open: Option<String> = None;
        let mut rows_applied: usize = 0;
        let mut i: usize = 0;
        proof {
            lemma_no_steps(exempt@, b0, s0);
            assert(views.take(0) =~= seq![]);
            assert(counted(0) == 0);
        }
        while i < rows.len()
            invariant
                i <= rows@.len(),
                views == snapshot_views(rows@),
                *self == *old(self),
                b0 == old(engine).batch(),
                s0 == old(engine).store(),
                decoded_snapshot(body@) == Ok::<Seq<SnapshotRowView>, PullErrorView>(views),
                optional_text(open) == open_table(views.take(i as int)),
                steps_taken(
                    exempt@,
                    steps_up_to(views.take(i as int)),
                    b0,
                    s0,
                    engine.batch(),
                    engine.store(),
                ),
                engine.store().horizon == s0.horizon,
                engine.backing().dependable() == old(engine).backing().dependable(),
                engine.batch().pending.len() <= b0.pending.len() + arriving(
                    views.take(i as int),
                ),
                rows_applied == counted(
                    (b0.pending.len() + arriving(views.take(i as int))
                        - engine.batch().pending.len()) as nat,
                ),
            decreases rows@.len() - i,
        {
            let ghost front = views.take(i as int);
            let ghost now = views.take(i + 1);
            let ghost mut steps = steps_up_to(front);
            let ghost row_view = views[i as int];
            proof {
                engine.lemma_pending_fits();
                assert(now.drop_last() =~= front);
                assert(now.last() == row_view);
                assert(steps_up_to(now) == steps + row_steps(open_table(front), row_view));
            }
            let row = &rows[i];
            match &row.table_name {
                None => {
                    assert(steps_up_to(now) =~= steps);
                },
                Some(table) => {
                    let same = match &open {
                        Some(t) => same_text(t.as_str(), table.as_str()),
                        None => false,
                    };
                    if !same {
                        match &open {
                            Some(t) => {
                                let ghost b = engine.batch();
                                let ghost s = engine.store();
                                match engine.flush() {
                                    Ok(out) => {
                                        match out {
                                            Some(o) => {
                                                rows_applied =
                                                crate::pull::count_on(
                                                    rows_applied,
                                                    o.rows_applied,
                                                );
                                            },
                                            None => {},
                                        }
                                    },
                                    Err(e) => {
                                        proof {
                                            lemma_broken_off(
                                                exempt@,
                                                views,
                                                i + 1,
                                                steps,
                                                SnapshotStep::Commit,
                                                b0,
                                                s0,
                                                b,
                                                s,
                                                engine.store(),
                                            );
                                        }
                                        return Err(PullError::Storage(e));
                                    },
                                }
                                proof {
                                    lemma_step_on(
                                        exempt@,
                                        steps,
                                        b0,
                                        s0,
                                        b,
                                        s,
                                        SnapshotStep::Commit,
                                        engine.batch(),
                                        engine.store(),
                                    );
                                    steps = steps.push(SnapshotStep::Commit);
                                }
                                let ghost b = engine.batch();
                                let ghost s = engine.store();
                                match end_table(engine, t.as_str()) {
                                    Ok(_) => {},
                                    Err(e) => {
                                        proof {
                                            lemma_broken_off(
                                                exempt@,
                                                views,
                                                i + 1,
                                                steps,
                                                SnapshotStep::End(t@),
                                                b0,
                                                s0,
                                                b,
                                                s,
                                                engine.store(),
                                            );
                                        }
                                        return Err(PullError::Storage(e));
                                    },
                                }
                                proof {
                                    lemma_step_on(
                                        exempt@,
                                        steps,
                                        b0,
                                        s0,
                                        b,
                                        s,
                                        SnapshotStep::End(t@),
                                        engine.batch(),
                                        engine.store(),
                                    );
                                    steps = steps.push(SnapshotStep::End(t@));
                                }
                            },
                            None => {},
                        }
                        let ghost b = engine.batch();
                        let ghost s = engine.store();
                        match begin_table(engine, table.as_str(), exempt) {
                            Ok(_) => {},
                            Err(e) => {
                                proof {
                                    lemma_broken_off(
                                        exempt@,
                                        views,
                                        i + 1,
                                        steps,
                                        SnapshotStep::Begin(table@),
                                        b0,
                                        s0,
                                        b,
                                        s,
                                        engine.store(),
                                    );
                                }
                                return Err(PullError::Storage(e));
                            },
                        }
                        proof {
                            lemma_step_on(
                                exempt@,
                                steps,
                                b0,
                                s0,
                                b,
                                s,
                                SnapshotStep::Begin(table@),
                                engine.batch(),
                                engine.store(),
                            );
                            steps = steps.push(SnapshotStep::Begin(table@));
                        }
                    }
                    match &row.pk {
                        Some(pk) => {
                            let frame = Frame {
                                lsn: 0,
                                op: Operation::Insert,
                                table: table.clone(),
                                pk: pk.clone(),
                                payload: Some(bytes_of_row(&row.row)),
                                txn_id: None,
                            };
                            let ghost f = frame@;
                            assert(f == snapshot_frame(table@, pk@, row_view.row));
                            let ghost b = engine.batch();
                            let ghost s = engine.store();
                            match engine.feed(frame) {
                                Ok(out) => {
                                    match out {
                                        Some(o) => {
                                            rows_applied =
                                            crate::pull::count_on(rows_applied, o.rows_applied);
                                        },
                                        None => {},
                                    }
                                },
                                Err(e) => {
                                    proof {
                                        lemma_broken_off(
                                            exempt@,
                                            views,
                                            i + 1,
                                            steps,
                                            SnapshotStep::Row(f),
                                            b0,
                                            s0,
                                            b,
                                            s,
                                            engine.store(),
                                        );
                                    }
                                    return Err(PullError::Storage(e));
                                },
                            }
                            proof {
                                lemma_step_on(
                                    exempt@,
                                    steps,
                                    b0,
                                    s0,
                                    b,
                                    s,
                                    SnapshotStep::Row(f),
                                    engine.batch(),
                                    engine.store(),
                                );
                                steps = steps.push(SnapshotStep::Row(f));
                            }
                        },
                        None => {},
                    }
                    proof {
                        assert(steps =~= steps_up_to(now));
                    }
                    open = Some(table.clone());
                },
            }
            i += 1;
        }
        assert(views.take(i as int) =~= views);
        proof {
            engine.lemma_pending_fits();
        }
        let ghost mut steps = steps_up_to(views);
        match &open {
            Some(t) => {
                let ghost b = engine.batch();
                let ghost s = engine.store();
                match engine.flush() {
                    Ok(out) => {
                        match out {
                            Some(o) => {
                                rows_applied =
                                crate::pull::count_on(rows_applied, o.rows_applied);
                            },
                            None => {},
                        }
                    },
                    Err(e) => {
                        proof {
                            lemma_broken_off(
                                exempt@,
                                views,
                                i as int,
                                steps,
                                SnapshotStep::Commit,
                                b0,
                                s0,
                                b,
                                s,
                                engine.store(),
                            );
                        }
                        return Err(PullError::Storage(e));
                    },
                }
                proof {
                    lemma_step_on(
                        exempt@,
                        steps,
                        b0,
                        s0,
                        b,
                        s,
                        SnapshotStep::Commit,
                        engine.batch(),
                        engine.store(),
                    );
                    steps = steps.push(SnapshotStep::Commit);
                }
                let ghost b = engine.batch();
                let ghost s = engine.store();
                match end_table(engine, t.as_str()) {
                    Ok(_) => {},
                    Err(e) => {
                        proof {
                            lemma_broken_off(
                                exempt@,
                                views,
                                i as int,
                                steps,
                                SnapshotStep::End(t@),
                                b0,
                                s0,
                                b,
                                s,
                                engine.store(),
                            );
                        }
                        return Err(PullError::Storage(e));
                    },
                }
                proof {
                    lemma_step_on(
                        exempt@,
                        steps,
                        b0,
                        s0,
                        b,
                        s,
                        SnapshotStep::End(t@),
                        engine.batch(),
                        engine.store(),
                    );
                    steps = steps.push(SnapshotStep::End(t@));
                }
            },
            None => {},
        }
        proof {
            assert(steps =~= snapshot_steps(views));
        }
        let checkpoint: Lsn = match engine.checkpoint() {
            Ok(lsn) => lsn,
            Err(e) => {
                proof {
                    let all = snapshot_steps(views);
                    assert(all.take(all.len() as int) =~= all);
                }
                return Err(PullError::Storage(e));
            },
        };
        let ghost s2 = engine.store();
        let mut advanced: Option<Horizon> = None;
        if rows.len() > 0 {
            let h = Horizon::new(rows[0].horizon.as_str());
            if !same_text(h.as_str(), self.since().as_str()) {
                match engine.storage_mut().save_horizon(h.as_str()) {
                    Ok(_) => {},
                    Err(_) => {},
                }
                self.go_to(h.clone());
                advanced = Some(h);
            }
        }
        Ok(PullOutcome { rows_applied, checkpoint, horizon: advanced, more: false })
    }
}

} // verus!
