//! What the store in SQLite is asked and what its answers mean, and how the cases of the
//! conformance run are judged.

use vstd::prelude::*;
use vstd::utf8::encode_utf8;
use crate::counter::merge_counter_or_lww;
use crate::crdt::merge_or_set_or_lww;
use crate::events::RowOp;
use crate::lsn::Lsn;
use crate::names::NameSet;
use crate::numbers::{decimal, lemma_digits_round_trip};
use crate::outbox::{waiting_views, PendingWrite, WriteOp};
use crate::patch::patch_payload;
use crate::sqlite_store::{
    batch_entries, cells, checkpoint_text, dead_letter_statements, decode_payload, decode_pending,
    decode_rows, delete_statements, doubled_quotes, enqueue_statement, epoch_statement,
    horizon_statement, inserted_id, local_statement, migration, needs_existing, number_of_value,
    principal_statement, row_cells, view_parts, view_statements, waiting_row, waiting_rows,
    BatchAction, BatchEnqueue, BatchReply, OpEntry, SqlCell, SqlValue, Statement, ViewTable,
    SQL_DELETE_GATED, SQL_DELETE_UNCOND, SQL_ENQUEUE, SQL_PATCH_ROW, SQL_SAVE_EPOCH,
    SQL_SAVE_HORIZON, SQL_SAVE_PRINCIPAL, SQL_SET_ASIDE, SQL_SET_ASIDE_WITH_ERROR, SQL_SHOW_ROW,
    SQL_UPSERT_GATED, SQL_UPSERT_UNCOND,
};
use crate::storage::StorageError;
use crate::verdicts::{
    judge_echo, judge_horizon, judge_reaping, judge_resnapshot, judge_transaction, Failure,
};

verus! {

// ---- statements ----

/// Whether a value is a text.
pub open spec fn is_text(v: SqlValue, s: Seq<char>) -> bool {
    v matches SqlValue::Text(t) && t@ == s
}

/// Whether a statement writes some bytes to a row.
pub open spec fn puts(
    s: Statement,
    sql: Seq<char>,
    table: Seq<char>,
    pk: Seq<char>,
    bytes: Seq<u8>,
) -> bool {
    &&& s.sql@ == sql
    &&& s.bind@.len() == 3
    &&& is_text(s.bind@[0], table)
    &&& is_text(s.bind@[1], pk)
    &&& (s.bind@[2] matches SqlValue::Blob(b) && b@ == bytes)
}

/// A write shows as what it leaves of the row: an upsert as its payload, merged where the
/// table merges, a delete as no row, a patch as the row with the columns changed, and an
/// increment as what was sent. A patch of no row, or of no record, shows nothing. Only
/// what merges or patches needs to know what the row holds.
pub proof fn law_local_write_is_shown(
    write: &PendingWrite,
    sets: &NameSet,
    counters: &NameSet,
    held: Option<&[u8]>,
    r: Option<Statement>,
    needs: bool,
    existing: &[u8],
    incoming: &[u8],
    change: &[u8],
    of_sets: Vec<u8>,
    of_counters: Vec<u8>,
    patched: Option<Vec<u8>>,
)
    requires
        call_ensures(local_statement, (write, sets, counters, held), r),
        call_ensures(needs_existing, (write, sets, counters), needs),
        held is Some ==> existing@ == held->0@,
        held is None ==> existing@.len() == 0,
        incoming@ == encode_utf8(
            match write.payload_json {
                Some(s) => s@,
                None => "null"@,
            },
        ),
        change@ == encode_utf8(
            match write.payload_json {
                Some(s) => s@,
                None => "{}"@,
            },
        ),
        call_ensures(merge_or_set_or_lww, (existing, incoming), of_sets),
        call_ensures(merge_counter_or_lww, (existing, incoming), of_counters),
        call_ensures(patch_payload, (existing, change), patched),
    ensures
        needs <==> write.op == WriteOp::Patch || (write.op == WriteOp::Upsert && (sets@.contains(
            write.table@,
        ) || counters@.contains(write.table@))),
        write.op == WriteOp::Upsert ==> r is Some && puts(
            r->0,
            SQL_SHOW_ROW@,
            write.table@,
            write.pk@,
            if counters@.contains(write.table@) {
                of_counters@
            } else if sets@.contains(write.table@) {
                of_sets@
            } else {
                incoming@
            },
        ),
        write.op == WriteOp::Delete ==> r is Some && r->0.sql@ == SQL_DELETE_UNCOND@
            && r->0.bind@.len() == 2 && is_text(r->0.bind@[0], write.table@) && is_text(
            r->0.bind@[1],
            write.pk@,
        ),
        write.op == WriteOp::Patch ==> (r is Some <==> held is Some && patched is Some),
        write.op == WriteOp::Patch && r is Some ==> puts(
            r->0,
            SQL_PATCH_ROW@,
            write.table@,
            write.pk@,
            patched->0@,
        ),
        write.op == WriteOp::Increment ==> (r is Some <==> write.payload_json is Some),
        write.op == WriteOp::Increment && r is Some ==> puts(
            r->0,
            SQL_SHOW_ROW@,
            write.table@,
            write.pk@,
            incoming@,
        ),
{
    assert(existing@ =~= (if held is Some {
        held->0@
    } else {
        seq![]
    }));
    if r is Some {
        let c = cells(r->0.bind@);
        assert(c.len() == r->0.bind@.len());
        assert forall|i: int| 0 <= i < c.len() implies #[trigger] c[i] == r->0.bind@[i]@ by {}
        assert(c[0] == r->0.bind@[0]@ && c[1] == r->0.bind@[1]@);
        if c.len() == 3 {
            assert(c[2] == r->0.bind@[2]@);
        }
    }
}

/// A statement that minds the position is the one that does not, with the condition that
/// what is stored is no later.
pub proof fn law_gates_mind_the_position()
    ensures
        SQL_UPSERT_GATED@ == SQL_UPSERT_UNCOND@ + " WHERE nostos_data.applied_lsn <= ?4"@,
        SQL_DELETE_GATED@ == SQL_DELETE_UNCOND@ + " AND applied_lsn <= ?3"@,
{
    reveal_strlit(
        "INSERT INTO nostos_data (table_name, pk, payload, applied_lsn) VALUES (?1, ?2, ?3, ?4) ON CONFLICT(table_name, pk) DO UPDATE SET payload = excluded.payload, applied_lsn = excluded.applied_lsn WHERE nostos_data.applied_lsn <= ?4",
    );
    reveal_strlit(
        "INSERT INTO nostos_data (table_name, pk, payload, applied_lsn) VALUES (?1, ?2, ?3, ?4) ON CONFLICT(table_name, pk) DO UPDATE SET payload = excluded.payload, applied_lsn = excluded.applied_lsn",
    );
    reveal_strlit(" WHERE nostos_data.applied_lsn <= ?4");
    reveal_strlit(
        "DELETE FROM nostos_data WHERE table_name = ?1 AND pk = ?2 AND applied_lsn <= ?3",
    );
    reveal_strlit("DELETE FROM nostos_data WHERE table_name = ?1 AND pk = ?2");
    reveal_strlit(" AND applied_lsn <= ?3");
    assert(SQL_UPSERT_GATED@ =~= SQL_UPSERT_UNCOND@ + " WHERE nostos_data.applied_lsn <= ?4"@);
    assert(SQL_DELETE_GATED@ =~= SQL_DELETE_UNCOND@ + " AND applied_lsn <= ?3"@);
}

/// What is queued of a write is read back as that write, under the id that it was given.
/// An increment is read as an upsert.
pub proof fn law_queued_row_reads_back(
    write: &PendingWrite,
    s: Statement,
    id: u64,
    rows: &Vec<Vec<SqlValue>>,
    r: Result<Vec<(u64, PendingWrite)>, StorageError>,
)
    requires
        call_ensures(enqueue_statement, (write,), s),
        s.bind@.len() == 4,
        rows@.len() == 1,
        rows@[0]@ == seq![SqlValue::Integer(id)] + s.bind@,
        call_ensures(decode_pending, (rows,), r),
    ensures
        s.sql@ == SQL_ENQUEUE@,
        id == 0 ==> r is Err,
        id > 0 ==> r is Ok && r->Ok_0@.len() == 1 && ({
            let e = r->Ok_0@[0];
            &&& e.0 == id
            &&& e.1.table@ == write.table@
            &&& e.1.pk@ == write.pk@
            &&& e.1.op == (if write.op == WriteOp::Increment {
                WriteOp::Upsert
            } else {
                write.op
            })
            &&& e.1.payload_json is Some <==> write.payload_json is Some
            &&& write.payload_json is Some ==> e.1.payload_json->0@ == write.payload_json->0@
        }),
        is_text(s.bind@[0], write.table@),
        write.op == WriteOp::Upsert ==> is_text(s.bind@[1], "upsert"@),
        write.op == WriteOp::Delete ==> is_text(s.bind@[1], "delete"@),
        write.op == WriteOp::Patch ==> is_text(s.bind@[1], "patch"@),
        write.op == WriteOp::Increment ==> is_text(s.bind@[1], "increment"@),
        is_text(s.bind@[2], write.pk@),
        write.payload_json is None ==> s.bind@[3] is Null,
        write.payload_json is Some ==> is_text(s.bind@[3], write.payload_json->0@),
{
    let c = cells(s.bind@);
    assert(c.len() == 4);
    assert(c[0] == s.bind@[0]@ && c[1] == s.bind@[1]@ && c[2] == s.bind@[2]@ && c[3]
        == s.bind@[3]@);
    let row = cells(rows@[0]@);
    assert(row.len() == 5);
    assert(row[0] == rows@[0]@[0]@);
    assert(row[0] == SqlValue::Integer(id)@);
    assert forall|i: int| 0 <= i < 4 implies row[i + 1] == #[trigger] c[i] by {
        assert(rows@[0]@[i + 1] == s.bind@[i]);
    }
    assert(row[1] == c[0] && row[2] == c[1] && row[3] == c[2] && row[4] == c[3]);
    lemma_stored(id);
    if write.op != WriteOp::Increment {
        crate::outbox::law_write_op_round_trip(write.op);
    }
    reveal_strlit("upsert");
    reveal_strlit("delete");
    reveal_strlit("patch");
    reveal_strlit("increment");
    assert("increment"@.len() == 9 && "upsert"@.len() == 6 && "delete"@.len() == 6
        && "patch"@.len() == 5);
    let all = row_cells(rows@);
    assert(all.len() == 1 && all.last() == row);
    reveal_with_fuel(waiting_rows, 2);
    if id > 0 {
        assert(waiting_row(row) is Some);
        let v = waiting_views(r->Ok_0@);
        assert(v == seq![waiting_row(row)->0]);
        assert(v[0] == (r->Ok_0@[0].0, r->Ok_0@[0].1@));
    } else {
        assert(waiting_row(row) is None);
    }
}

proof fn lemma_stored(n: u64)
    ensures
        crate::sqlite_store::stored_number(Some(decimal(n as nat)), u64::MAX) == Some(n),
{
    crate::sqlite_store::law_stored_number_reads_back(n);
}

/// A number is read from the store whether it comes as one or as its digits; one beyond
/// the limit, or that is none, is not read. An id is a number above zero.
pub proof fn law_numbers_are_read(
    n: u64,
    a: &SqlValue,
    max: u64,
    x: Option<u64>,
    id: Result<u64, StorageError>,
)
    requires
        (*a matches SqlValue::Integer(m) && m == n) || is_text(*a, decimal(n as nat)),
        call_ensures(number_of_value, (a, max), x),
        call_ensures(inserted_id, (a,), id),
    ensures
        n <= max ==> x == Some(n),
        n > max ==> x is None,
        id is Ok <==> n > 0,
        id is Ok ==> id->Ok_0 == n,
{
    lemma_stored(n);
    lemma_digits_round_trip(n as nat, 10);
    let d = decimal(n as nat);
    assert(crate::numbers::without_plus(d) == d);
    assert(crate::text::trimmed(d) == d) by {
        lemma_plain_ends(n);
        crate::text::lemma_trimmed(d);
    }
}

pub(crate) proof fn lemma_plain_ends(n: u64)
    ensures
        decimal(n as nat).len() > 0,
        !crate::text::white_space(decimal(n as nat)[0]),
        !crate::text::white_space(decimal(n as nat).last()),
{
    let d = decimal(n as nat);
    lemma_digits_round_trip(n as nat, 10);
    assert(crate::numbers::is_digit(d[0], 10));
    assert(crate::numbers::is_digit(d[d.len() - 1], 10));
}

/// A row is read as its key and its bytes, a payload as its bytes; a text stands for its
/// bytes.
pub proof fn law_rows_are_decoded(
    rows: &Vec<Vec<SqlValue>>,
    r: Vec<(String, Vec<u8>)>,
    p: Option<Vec<u8>>,
    i: int,
    pk: Seq<char>,
    b: Seq<u8>,
    s: Seq<char>,
)
    requires
        call_ensures(decode_rows, (rows,), r),
        call_ensures(decode_payload, (rows,), p),
        0 <= i < rows@.len(),
    ensures
        r@.len() == rows@.len(),
        rows@[i]@.len() == 2 && is_text(rows@[i]@[0], pk) ==> r@[i].0@ == pk,
        rows@[i]@.len() == 2 && (rows@[i]@[1] matches SqlValue::Blob(x) && x@ == b) ==> r@[i].1@
            == b,
        rows@[i]@.len() == 2 && is_text(rows@[i]@[1], s) ==> r@[i].1@ == encode_utf8(s),
        p is Some,
        rows@[0]@.len() == 1 && (rows@[0]@[0] matches SqlValue::Blob(x) && x@ == b) ==> p->0@ == b,
        rows@[0]@.len() == 1 && is_text(rows@[0]@[0], s) ==> p->0@ == encode_utf8(s),
{
    let c = cells(rows@[i]@);
    assert(c.len() == rows@[i]@.len());
    if c.len() == 2 {
        assert(c[0] == rows@[i]@[0]@ && c[1] == rows@[i]@[1]@);
    }
    let d = cells(rows@[0]@);
    if d.len() == 1 {
        assert(d[0] == rows@[0]@[0]@);
    }
}

/// An operation of a batch goes to the store by the word for it, with its row, at its
/// position or at the largest that the store can hold.
pub proof fn law_entries_of_a_batch(ops: &[(RowOp, u64)], r: Vec<OpEntry>, i: int)
    requires
        call_ensures(batch_entries, (ops,), r),
        0 <= i < ops@.len(),
    ensures
        r@.len() == ops@.len(),
        r@[i].lsn == (if ops@[i].1 <= 0x7fff_ffff_ffff_ffff {
            ops@[i].1 as int
        } else {
            0x7fff_ffff_ffff_ffff
        }),
        ops@[i].0 matches RowOp::Insert { table, pk, payload } ==> r@[i].kind@ == "insert"@
            && r@[i].table@ == table@ && r@[i].pk@ == pk@ && r@[i].payload is Some
            && r@[i].payload->0@ == payload@,
        ops@[i].0 matches RowOp::Update { table, pk, payload } ==> r@[i].kind@ == "update"@
            && r@[i].table@ == table@ && r@[i].pk@ == pk@ && r@[i].payload is Some
            && r@[i].payload->0@ == payload@,
        ops@[i].0 matches RowOp::Delete { table, pk } ==> r@[i].kind@ == "delete"@ && r@[i].table@
            == table@ && r@[i].pk@ == pk@ && r@[i].payload is None,
{
    assert(crate::sqlite_store::entry_is(r@[i], ops@[i].0@, ops@[i].1));
}

/// What the other statements bind: a write that is set aside is named with its error and
/// the time, a deletion with its table and each key, and what is kept beside the rows with
/// its text.
pub proof fn law_statements_bind(
    id: u64,
    error: Option<&str>,
    now: u64,
    aside: (Statement, Statement),
    epoch: u64,
    keeps_epoch: Statement,
    text: &str,
    keeps_horizon: Statement,
    keeps_principal: Statement,
    pks: &Vec<String>,
    deletes: Vec<Statement>,
    i: int,
    at: Lsn,
    digits: String,
)
    requires
        call_ensures(dead_letter_statements, (id, error, now), aside),
        call_ensures(epoch_statement, (epoch,), keeps_epoch),
        call_ensures(horizon_statement, (text,), keeps_horizon),
        call_ensures(principal_statement, (text,), keeps_principal),
        call_ensures(delete_statements, (text, pks), deletes),
        call_ensures(checkpoint_text, (at,), digits),
        0 <= i < pks@.len(),
    ensures
        aside.0.sql@ == SQL_SET_ASIDE_WITH_ERROR@ && aside.0.bind@.len() == 3,
        aside.0.bind@[0] == SqlValue::Integer(id) && aside.0.bind@[2] == SqlValue::Integer(now),
        error is None ==> aside.0.bind@[1] is Null,
        error is Some ==> is_text(aside.0.bind@[1], error->0@),
        aside.1.sql@ == SQL_SET_ASIDE@ && aside.1.bind@.len() == 1 && aside.1.bind@[0]
            == SqlValue::Integer(id),
        keeps_epoch.sql@ == SQL_SAVE_EPOCH@ && keeps_epoch.bind@.len() == 1 && is_text(
            keeps_epoch.bind@[0],
            decimal(epoch as nat),
        ),
        keeps_horizon.sql@ == SQL_SAVE_HORIZON@ && keeps_horizon.bind@.len() == 2 && is_text(
            keeps_horizon.bind@[0],
            text@,
        ) && is_text(keeps_horizon.bind@[1], text@),
        keeps_principal.sql@ == SQL_SAVE_PRINCIPAL@ && keeps_principal.bind@.len() == 1 && is_text(
            keeps_principal.bind@[0],
            text@,
        ),
        deletes@.len() == pks@.len() && deletes@[i].sql@ == SQL_DELETE_UNCOND@
            && deletes@[i].bind@.len() == 2 && is_text(deletes@[i].bind@[0], text@) && is_text(
            deletes@[i].bind@[1],
            pks@[i]@,
        ),
        digits@ == decimal(at.0 as nat),
{
    lemma_bound(aside.0);
    lemma_bound(aside.1);
    lemma_bound(keeps_epoch);
    lemma_bound(keeps_horizon);
    lemma_bound(keeps_principal);
    lemma_bound(deletes@[i]);
    assert(crate::sqlite_store::asks(
        deletes@[i],
        SQL_DELETE_UNCOND@,
        seq![SqlCell::Text(text@), SqlCell::Text(pks@[i]@)],
    ));
    let a = cells(aside.0.bind@);
    assert(a[0] == SqlCell::Integer(id) && a[2] == SqlCell::Integer(now));
    let b = cells(aside.1.bind@);
    assert(b[0] == SqlCell::Integer(id));
    let c = cells(keeps_epoch.bind@);
    assert(c[0] == SqlCell::Text(decimal(epoch as nat)));
    let d = cells(keeps_horizon.bind@);
    assert(d[0] == SqlCell::Text(text@) && d[1] == SqlCell::Text(text@));
    let e = cells(keeps_principal.bind@);
    assert(e[0] == SqlCell::Text(text@));
    let f = cells(deletes@[i].bind@);
    assert(f[0] == SqlCell::Text(text@) && f[1] == SqlCell::Text(pks@[i]@));
}

proof fn lemma_bound(s: Statement)
    ensures
        cells(s.bind@).len() == s.bind@.len(),
        forall|i: int| 0 <= i < s.bind@.len() ==> #[trigger] cells(s.bind@)[i] == s.bind@[i]@,
{
}

/// A store of an earlier make gets the columns that it lacks, and no others.
pub proof fn law_migration(columns: &Vec<String>, r: Vec<&'static str>)
    requires
        call_ensures(migration, (columns,), r),
    ensures
        ({
            let error = crate::text::text_views(columns@).contains("last_error"@);
            let time = crate::text::text_views(columns@).contains("dead_lettered_at"@);
            &&& error && time <==> r@.len() == 0
            &&& !error && !time ==> r@.len() == 2 && r@[0]@
                == "ALTER TABLE nostos_outbox ADD COLUMN last_error TEXT"@ && r@[1]@
                == "ALTER TABLE nostos_outbox ADD COLUMN dead_lettered_at INTEGER"@
            &&& !error && time ==> r@.len() == 1 && r@[0]@
                == "ALTER TABLE nostos_outbox ADD COLUMN last_error TEXT"@
            &&& error && !time ==> r@.len() == 1 && r@[0]@
                == "ALTER TABLE nostos_outbox ADD COLUMN dead_lettered_at INTEGER"@
        }),
{
}

// ---- views ----

/// A view shows the key and each column of the table, taken from the JSON of the row. It
/// is dropped before it is made.
pub proof fn law_view_of_a_table(
    tables: &Vec<ViewTable>,
    r: Vec<String>,
    i: int,
    more: &Vec<ViewTable>,
    m: Vec<String>,
    column: Seq<char>,
)
    requires
        call_ensures(view_statements, (tables,), r),
        call_ensures(view_statements, (more,), m),
        0 <= i < tables@.len(),
        more@.len() == tables@.len(),
        more@[i].name@ == tables@[i].name@,
        crate::text::text_views(more@[i].columns@) == crate::text::text_views(
            tables@[i].columns@,
        ).push(column),
    ensures
        r@.len() == 2 * tables@.len(),
        r@[2 * i]@ == "DROP VIEW IF EXISTS "@ + tables@[i].name@,
        tables@[i].columns@.len() == 0 ==> r@[2 * i + 1]@ == "CREATE VIEW "@ + tables@[i].name@
            + " AS SELECT "@ + "pk AS _pk"@ + " FROM nostos_data WHERE table_name = '"@
            + doubled_quotes(tables@[i].name@) + "'"@,
        exists|start: Seq<char>|
            {
                let end = " FROM nostos_data WHERE table_name = '"@ + doubled_quotes(
                    tables@[i].name@,
                ) + "'"@;
                &&& r@[2 * i + 1]@ == #[trigger] begun(start) + end
                &&& m@[2 * i + 1]@ == begun(start) + (", json_extract(payload, '$."@ + column
                    + "') AS "@ + column) + end
            },
{
    let name = tables@[i].name@;
    let columns = crate::text::text_views(tables@[i].columns@);
    let wider = crate::text::text_views(more@[i].columns@);
    let start = "CREATE VIEW "@ + name + " AS SELECT "@ + view_parts(columns);
    let end = " FROM nostos_data WHERE table_name = '"@ + doubled_quotes(name) + "'"@;
    assert(r@[2 * i]@ == crate::sqlite_store::drop_view(name));
    assert(r@[2 * i + 1]@ =~= begun(start) + end);
    assert(wider.drop_last() =~= columns);
    assert(wider.last() == column);
    reveal_strlit(", ");
    reveal_strlit("json_extract(payload, '$.");
    reveal_strlit(", json_extract(payload, '$.");
    assert(", json_extract(payload, '$."@ =~= ", "@ + "json_extract(payload, '$."@);
    assert(m@[2 * i + 1]@ == crate::sqlite_store::create_view(name, wider));
    assert(m@[2 * i + 1]@ =~= begun(start) + (", json_extract(payload, '$."@ + column + "') AS "@
        + column) + end);
}

/// How a statement begins.
pub open spec fn begun(s: Seq<char>) -> Seq<char> {
    s
}

/// In the text of a name each quote is doubled, and nothing else is changed.
pub proof fn law_quotes_are_doubled(a: Seq<char>, b: Seq<char>)
    ensures
        !a.contains('\'') ==> doubled_quotes(a) == a,
        doubled_quotes(a + seq!['\''] + b) == doubled_quotes(a) + seq!['\'', '\''] + doubled_quotes(
            b,
        ),
    decreases a.len() + b.len(),
{
    if a.len() > 0 && !a.contains('\'') {
        let front = a.drop_last();
        assert(a.last() == a[a.len() - 1]);
        assert(a.last() != '\'');
        assert(!front.contains('\'')) by {
            if front.contains('\'') {
                let i = choose|i: int| 0 <= i < front.len() && front[i] == '\'';
                assert(a[i] == '\'');
            }
        }
        law_quotes_are_doubled(front, seq![]);
        assert(front.push(a.last()) =~= a);
    } else if a.len() == 0 {
        assert(doubled_quotes(a) =~= a);
    }
    lemma_quote_between(a, b);
}

proof fn lemma_quote_between(a: Seq<char>, b: Seq<char>)
    ensures
        doubled_quotes(a + seq!['\''] + b) == doubled_quotes(a) + seq!['\'', '\''] + doubled_quotes(
            b,
        ),
    decreases b.len(),
{
    let s = a + seq!['\''] + b;
    if b.len() > 0 {
        lemma_quote_between(a, b.drop_last());
        assert(s.drop_last() =~= a + seq!['\''] + b.drop_last());
        assert(s.last() == b.last());
        assert(doubled_quotes(s) =~= doubled_quotes(a) + seq!['\'', '\''] + doubled_quotes(b));
    } else {
        assert(s.drop_last() =~= a);
        assert(s.last() == '\'');
        assert(doubled_quotes(s) =~= doubled_quotes(a) + seq!['\'', '\''] + doubled_quotes(b));
    }
}

// ---- queueing a batch ----

/// A batch of one write is queued in a transaction under the id that the store gave. A
/// write that fails takes the transaction back, and the batch is refused for its reason.
pub proof fn law_batch_of_one(
    writes: Vec<PendingWrite>,
    b0: BatchEnqueue,
    open: BatchAction,
    b1: BatchEnqueue,
    insert: BatchAction,
    queued: Statement,
    write: &PendingWrite,
    e: StorageError,
    f1: BatchEnqueue,
    back: BatchAction,
    f2: BatchEnqueue,
    refused: BatchAction,
    b2: BatchEnqueue,
    read: BatchAction,
    id: u64,
    b3: BatchEnqueue,
    commit: BatchAction,
    b4: BatchEnqueue,
    done: BatchAction,
)
    requires
        writes@.len() == 1,
        *write == writes@[0],
        call_ensures(BatchEnqueue::start, (writes,), (b0, open)),
        call_ensures(enqueue_statement, (write,), queued),
        exists|h: &mut BatchEnqueue| #[trigger]
            call_ensures(BatchEnqueue::step, (h, BatchReply::Ran), insert) && *h == b0 && *final(h)
                == b1,
        exists|h: &mut BatchEnqueue| #[trigger]
            call_ensures(BatchEnqueue::step, (h, BatchReply::Failed(e)), back) && *h == b1
                && *final(h) == f1,
        exists|h: &mut BatchEnqueue| #[trigger]
            call_ensures(BatchEnqueue::step, (h, BatchReply::Ran), refused) && *h == f1
                && *final(h) == f2,
        exists|h: &mut BatchEnqueue| #[trigger]
            call_ensures(BatchEnqueue::step, (h, BatchReply::Ran), read) && *h == b1 && *final(h)
                == b2,
        id > 0,
        exists|h: &mut BatchEnqueue| #[trigger]
            call_ensures(
                BatchEnqueue::step,
                (h, BatchReply::Read(SqlValue::Integer(id))),
                commit,
            ) && *h == b2 && *final(h) == b3,
        exists|h: &mut BatchEnqueue| #[trigger]
            call_ensures(BatchEnqueue::step, (h, BatchReply::Ran), done) && *h == b3 && *final(h)
                == b4,
    ensures
        open is Run && open->Run_0.sql@ == "BEGIN"@,
        insert is Run && insert->Run_0.sql@ == SQL_ENQUEUE@ && cells(insert->Run_0.bind@) == cells(
            queued.bind@,
        ),
        back is Run && back->Run_0.sql@ == "ROLLBACK"@,
        refused is Refused && refused->Refused_0->Backend_0@ == e->Backend_0@,
        read is ReadId,
        commit is Run && commit->Run_0.sql@ == "COMMIT"@,
        done is Queued && done->Queued_0@ == seq![id],
{
    lemma_stored(id);
    let v = SqlValue::Integer(id);
    assert(crate::sqlite_store::queued_id(v@) == Some(id));
    assert(b3.given() =~= seq![id]);
}

// ---- judging ----

/// Whether a list that was read holds a text.
pub open spec fn lists(pks: Option<Vec<String>>, s: Seq<char>) -> bool {
    pks is Some && exists|i: int| 0 <= i < pks->0@.len() && (#[trigger] pks->0@[i])@ == s
}

proof fn lemma_lists(pks: Option<Vec<String>>, s: Seq<char>)
    ensures
        pks is Some ==> (lists(pks, s) <==> crate::text::text_views(pks->0@).contains(s)),
{
    if pks is Some {
        let v = crate::text::text_views(pks->0@);
        if v.contains(s) {
            let i = choose|i: int| 0 <= i < v.len() && v[i] == s;
            assert(pks->0@[i]@ == s);
        }
        if lists(pks, s) {
            let i = choose|i: int| 0 <= i < pks->0@.len() && (#[trigger] pks->0@[i])@ == s;
            assert(v[i] == s);
        }
    }
}

/// A page that was applied twice passes where both gave the same keys and the same bytes.
pub proof fn law_echo_verdict(
    first: bool,
    a: &Option<Vec<String>>,
    p: &Option<Option<Vec<u8>>>,
    second: bool,
    b: &Option<Vec<String>>,
    q: &Option<Option<Vec<u8>>>,
    r: Result<(), Failure>,
)
    requires
        call_ensures(judge_echo, (first, a, p, second, b, q), r),
    ensures
        r is Ok <==> first && second && a is Some && b is Some && p is Some && q is Some
            && crate::text::text_views(a->0@) == crate::text::text_views(b->0@) && (p->0 is Some
            <==> q->0 is Some) && (p->0 is Some ==> p->0->0@ == q->0->0@),
        !first ==> r->Err_0.said@ == "first apply"@,
        first && a is Some && p is Some && !second ==> r->Err_0.said@ == "second apply"@,
        r is Err ==> r->Err_0.case@ == "an_echoed_page_applies_twice_with_the_same_result"@,
{
}

/// A horizon passes where it was saved after its rows, as the text of the snapshot, and
/// the next request carries it.
pub proof fn law_horizon_verdict(
    applied: bool,
    saved: &Option<Option<String>>,
    pks: &Option<Vec<String>>,
    carried: &Option<String>,
    r: Result<(), Failure>,
)
    requires
        call_ensures(judge_horizon, (applied, saved, pks, carried), r),
    ensures
        r is Ok <==> applied && saved is Some && saved->0 is Some && saved->0->0@ == "105"@ && lists(
            *pks,
            "o1"@,
        ) && lists(*pks, "o2"@) && carried is Some && carried->0@ == "105"@,
        r is Err ==> r->Err_0.case@ == "the_horizon_never_runs_ahead_of_the_rows"@,
{
    lemma_lists(*pks, "o1"@);
    lemma_lists(*pks, "o2"@);
}

/// A store that was cleared passes where it had a horizon and has neither one nor rows.
pub proof fn law_resnapshot_verdict(
    applied: bool,
    kept: &Option<Option<String>>,
    cleared: bool,
    left: &Option<Option<String>>,
    pks: &Option<Vec<String>>,
    r: Result<(), Failure>,
)
    requires
        call_ensures(judge_resnapshot, (applied, kept, cleared, left, pks), r),
    ensures
        r is Ok <==> applied && kept is Some && kept->0 is Some && cleared && left is Some
            && left->0 is None && pks is Some && pks->0@.len() == 0,
        r is Err ==> r->Err_0.case@ == "a_resnapshot_leaves_no_stale_horizon"@,
{
}

/// A snapshot passes where what it confirmed is there, what it did not is gone, and its
/// horizon is the one to resume from.
pub proof fn law_reaping_verdict(
    seeded: bool,
    moved: &Option<Option<String>>,
    pks: &Option<Vec<String>>,
    kept: &Option<Option<String>>,
    r: Result<(), Failure>,
)
    requires
        call_ensures(judge_reaping, (seeded, moved, pks, kept), r),
    ensures
        r is Ok <==> seeded && moved is Some && moved->0 is Some && moved->0->0@ == "400"@ && lists(
            *pks,
            "stays"@,
        ) && !lists(*pks, "goes"@) && kept is Some && kept->0 is Some && kept->0->0@ == "400"@,
        r is Err ==> r->Err_0.case@ == "a_snapshot_reaps_rows_deleted_while_away"@,
{
    lemma_lists(*pks, "stays"@);
    lemma_lists(*pks, "goes"@);
}

/// Whether a list that was read holds a key of the transaction.
pub open spec fn lists_some(pks: Option<Vec<String>>) -> bool {
    pks is Some && exists|i: int|
        0 <= i < pks->0@.len() && (#[trigger] pks->0@[i])@.len() > 0 && (pks->0@[i]@[0] == 'o'
            || pks->0@[i]@[0] == 'l' || pks->0@[i]@[0] == 's')
}

/// A transaction passes where its four rows were applied, each of its tables holds some
/// of them, and the second one in the page is there too.
pub proof fn law_transaction_verdict(
    applied: Option<usize>,
    orders: &Option<Vec<String>>,
    lines: &Option<Vec<String>>,
    shipments: &Option<Vec<String>>,
    r: Result<(), Failure>,
)
    requires
        call_ensures(judge_transaction, (applied, orders, lines, shipments), r),
    ensures
        r is Ok <==> applied == Some(4usize) && lists_some(*orders) && lists_some(*lines)
            && lists_some(*shipments) && lists(*orders, "o2"@),
        r is Err ==> r->Err_0.case@ == "a_multi_table_transaction_is_never_seen_in_pieces"@,
{
    lemma_lists(*orders, "o2"@);
    lemma_some(*orders);
    lemma_some(*lines);
    lemma_some(*shipments);
}

proof fn lemma_some(pks: Option<Vec<String>>)
    ensures
        pks is Some ==> (lists_some(pks) <==> crate::verdicts::some_of_transaction(
            crate::text::text_views(pks->0@),
        )),
{
    if pks is Some {
        let v = crate::text::text_views(pks->0@);
        if crate::verdicts::some_of_transaction(v) {
            let i = choose|i: int|
                0 <= i < v.len() && crate::verdicts::of_transaction(#[trigger] v[i]);
            assert(pks->0@[i]@ == v[i]);
        }
        if lists_some(pks) {
            let i = choose|i: int|
                0 <= i < pks->0@.len() && (#[trigger] pks->0@[i])@.len() > 0 && (pks->0@[i]@[0]
                    == 'o' || pks->0@[i]@[0] == 'l' || pks->0@[i]@[0] == 's');
            assert(crate::verdicts::of_transaction(v[i]));
        }
    }
}

} // verus!
