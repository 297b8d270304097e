//! What a store in SQLite is asked: the statements with their parameters, what its
//! answers mean, and the order of the calls where one depends on another. Running
//! a statement is left to the caller.

use vstd::prelude::*;
use vstd::utf8::encode_utf8;
use crate::counter::merge_counter_or_lww;
use crate::crdt::merge_or_set_or_lww;
use crate::events::{copy_bytes, Operation, RowOp, RowOpView};
use crate::json::{json_read, json_text, member, JsonView};
use crate::lsn::Lsn;
use crate::names::NameSet;
use crate::numbers::{
    decimal, decimal_text, lemma_decimal_round_trip, lemma_digits_round_trip, parse_unsigned,
    read_unsigned,
};
use crate::outbox::{
    law_write_op_round_trip, write_op_name, write_op_named, PendingWrite, WriteOp, WriteView,
};
use crate::patch::{law_patch_sets_its_columns_only, patch_payload, patched, with_columns};
use crate::storage::StorageError;
use crate::text::{chars_of, same_text, text_views, trim_chars, trimmed, trimmed_start, white_space};

verus! {

// ---- statements ----

/// The tables of the store.
pub const SCHEMA_SQL: &'static str = "CREATE TABLE IF NOT EXISTS nostos_data (table_name TEXT NOT NULL,pk TEXT NOT NULL,payload BLOB NOT NULL,applied_lsn INTEGER NOT NULL DEFAULT 0,PRIMARY KEY (table_name, pk));CREATE TABLE IF NOT EXISTS nostos_meta (key TEXT PRIMARY KEY,value TEXT NOT NULL);INSERT OR IGNORE INTO nostos_meta (key, value) VALUES ('checkpoint', '0');CREATE TABLE IF NOT EXISTS nostos_outbox (id INTEGER PRIMARY KEY AUTOINCREMENT,table_name TEXT NOT NULL,op TEXT NOT NULL,pk TEXT NOT NULL,payload TEXT,attempts INTEGER NOT NULL DEFAULT 0,dlq INTEGER NOT NULL DEFAULT 0,last_error TEXT,dead_lettered_at INTEGER);";

/// Writes a row, unless what is there is from a later position.
pub const SQL_UPSERT_GATED: &'static str = "INSERT INTO nostos_data (table_name, pk, payload, applied_lsn) VALUES (?1, ?2, ?3, ?4) ON CONFLICT(table_name, pk) DO UPDATE SET payload = excluded.payload, applied_lsn = excluded.applied_lsn WHERE nostos_data.applied_lsn <= ?4";

/// Writes a row, whatever is there.
pub const SQL_UPSERT_UNCOND: &'static str = "INSERT INTO nostos_data (table_name, pk, payload, applied_lsn) VALUES (?1, ?2, ?3, ?4) ON CONFLICT(table_name, pk) DO UPDATE SET payload = excluded.payload, applied_lsn = excluded.applied_lsn";

/// Deletes a row, unless it is from a later position.
pub const SQL_DELETE_GATED: &'static str = "DELETE FROM nostos_data WHERE table_name = ?1 AND pk = ?2 AND applied_lsn <= ?3";

/// Deletes a row.
pub const SQL_DELETE_UNCOND: &'static str = "DELETE FROM nostos_data WHERE table_name = ?1 AND pk = ?2";

/// Shows a local write in the rows.
pub const SQL_SHOW_ROW: &'static str = "INSERT INTO nostos_data (table_name, pk, payload, applied_lsn) VALUES (?1, ?2, ?3, 0) ON CONFLICT(table_name, pk) DO UPDATE SET payload = excluded.payload";

/// Shows a local change of a row that is there.
pub const SQL_PATCH_ROW: &'static str = "UPDATE nostos_data SET payload = ?3 WHERE table_name = ?1 AND pk = ?2";

/// The payload of a row.
pub const SQL_READ_ROW: &'static str = "SELECT payload FROM nostos_data WHERE table_name = ?1 AND pk = ?2";

/// The rows of a table.
pub const SQL_ROWS: &'static str = "SELECT pk, payload FROM nostos_data WHERE table_name = ?1 ORDER BY pk ASC";

/// The primary keys of a table.
pub const SQL_PKS: &'static str = "SELECT pk FROM nostos_data WHERE table_name = ?1 ORDER BY pk ASC";

/// The number of rows.
pub const SQL_ROW_COUNT: &'static str = "SELECT COUNT(*) FROM nostos_data";

/// The checkpoint.
pub const SQL_CHECKPOINT: &'static str = "SELECT value FROM nostos_meta WHERE key = 'checkpoint'";

/// The epoch.
pub const SQL_EPOCH: &'static str = "SELECT value FROM nostos_meta WHERE key = 'epoch'";

/// Saves the epoch.
pub const SQL_SAVE_EPOCH: &'static str = "INSERT INTO nostos_meta (key, value) VALUES ('epoch', ?1) ON CONFLICT(key) DO UPDATE SET value = ?1";

/// The horizon.
pub const SQL_HORIZON: &'static str = "SELECT value FROM nostos_meta WHERE key = 'horizon'";

/// Saves the horizon.
pub const SQL_SAVE_HORIZON: &'static str = "INSERT INTO nostos_meta (key, value) VALUES ('horizon', ?1) ON CONFLICT(key) DO UPDATE SET value = ?2";

/// The account.
pub const SQL_PRINCIPAL: &'static str = "SELECT value FROM nostos_meta WHERE key = 'principal'";

/// Saves the account.
pub const SQL_SAVE_PRINCIPAL: &'static str = "INSERT INTO nostos_meta (key, value) VALUES ('principal', ?1) ON CONFLICT(key) DO UPDATE SET value = excluded.value";

/// Forgets the horizon and the account.
pub const SQL_FORGET_PLACE: &'static str = "DELETE FROM nostos_meta WHERE key IN ('horizon', 'principal')";

/// Queues a write.
pub const SQL_ENQUEUE: &'static str = "INSERT INTO nostos_outbox (table_name, op, pk, payload) VALUES (?1, ?2, ?3, ?4)";

/// The id of the write that was queued last.
pub const SQL_LAST_ID: &'static str = "SELECT last_insert_rowid()";

/// The waiting writes.
pub const SQL_PENDING: &'static str = "SELECT id, table_name, op, pk, payload FROM nostos_outbox WHERE dlq = 0 ORDER BY id ASC";

/// The number of waiting writes.
pub const SQL_PENDING_COUNT: &'static str = "SELECT COUNT(*) FROM nostos_outbox WHERE dlq = 0";

/// The number of writes that were set aside.
pub const SQL_DEAD_COUNT: &'static str = "SELECT COUNT(*) FROM nostos_outbox WHERE dlq = 1";

/// The error of the write that was set aside last.
pub const SQL_LAST_ERROR: &'static str = "SELECT last_error FROM nostos_outbox WHERE dlq = 1 ORDER BY dead_lettered_at DESC LIMIT 1";

/// Takes a write out of the queue.
pub const SQL_MARK_DONE: &'static str = "DELETE FROM nostos_outbox WHERE id = ?1";

/// Counts a refusal.
pub const SQL_BUMP: &'static str = "UPDATE nostos_outbox SET attempts = attempts + 1 WHERE id = ?1 AND dlq = 0";

/// The number of refusals.
pub const SQL_ATTEMPTS: &'static str = "SELECT attempts FROM nostos_outbox WHERE id = ?1";

/// Sets a write aside.
pub const SQL_SET_ASIDE: &'static str = "UPDATE nostos_outbox SET dlq = 1 WHERE id = ?1";

/// Sets a write aside with the error and the time.
pub const SQL_SET_ASIDE_WITH_ERROR: &'static str = "UPDATE nostos_outbox SET dlq = 1, last_error = ?2, dead_lettered_at = ?3 WHERE id = ?1";

/// Forgets every queued write.
pub const SQL_CLEAR_OUTBOX: &'static str = "DELETE FROM nostos_outbox";

/// The columns of the queue.
pub const SQL_OUTBOX_COLUMNS: &'static str = "PRAGMA table_info(nostos_outbox)";

/// Adds the column for errors.
pub const SQL_ADD_LAST_ERROR: &'static str = "ALTER TABLE nostos_outbox ADD COLUMN last_error TEXT";

/// Adds the column for the time.
pub const SQL_ADD_DEAD_LETTERED_AT: &'static str = "ALTER TABLE nostos_outbox ADD COLUMN dead_lettered_at INTEGER";

/// A value in a statement or in an answer.
#[derive(Debug, PartialEq, Eq)]
pub enum SqlValue {
    Null,
    Text(String),
    /// A whole number that a script can hold exactly.
    Integer(u64),
    Blob(Vec<u8>),
    /// Anything else.
    Other,
}

/// A value by its content.
pub enum SqlCell {
    Null,
    Text(Seq<char>),
    Integer(u64),
    Blob(Seq<u8>),
    Other,
}

impl View for SqlValue {
    type V = SqlCell;

    open spec fn view(&self) -> SqlCell {
        match *self {
            SqlValue::Null => SqlCell::Null,
            SqlValue::Text(s) => SqlCell::Text(s@),
            SqlValue::Integer(n) => SqlCell::Integer(n),
            SqlValue::Blob(b) => SqlCell::Blob(b@),
            SqlValue::Other => SqlCell::Other,
        }
    }
}

/// The values by their contents.
pub open spec fn cells(s: Seq<SqlValue>) -> Seq<SqlCell> {
    Seq::new(s.len(), |i: int| s[i]@)
}

/// A statement with its parameters.
#[derive(Debug, PartialEq, Eq)]
pub struct Statement {
    pub sql: &'static str,
    pub bind: Vec<SqlValue>,
}

/// Whether a statement is the given text with the given parameters.
pub open spec fn asks(s: Statement, sql: Seq<char>, bind: Seq<SqlCell>) -> bool {
    s.sql@ == sql && cells(s.bind@) == bind
}

// ---- showing a local write ----

/// The payload of a write, or the given text.
pub open spec fn payload_or(w: WriteView, otherwise: Seq<char>) -> Seq<char> {
    match w.payload {
        Some(s) => s,
        None => otherwise,
    }
}

/// Whether showing the write needs what the row holds: where the row is merged or
/// changed in part, and not replaced.
pub open spec fn merges(w: WriteView, or_sets: Set<Seq<char>>, counters: Set<Seq<char>>) -> bool {
    w.op == WriteOp::Patch || (w.op == WriteOp::Upsert && (or_sets.contains(w.table)
        || counters.contains(w.table)))
}

/// The bytes that the row gets, where the write puts some and `held` is the payload of
/// the row, if there is one. A table that is listed as both is taken for one of
/// counters. A patch sets its columns in a row that is there, and never inserts one.
pub open spec fn shown_bytes(
    w: WriteView,
    or_sets: Set<Seq<char>>,
    counters: Set<Seq<char>>,
    held: Option<Seq<u8>>,
) -> Option<Seq<u8>> {
    match w.op {
        WriteOp::Upsert => {
            let incoming = encode_utf8(payload_or(w, "null"@));
            let existing = match held {
                Some(bytes) => bytes,
                None => seq![],
            };
            Some(
                if counters.contains(w.table) {
                    crate::counter::merged_or_incoming(existing, incoming)
                } else if or_sets.contains(w.table) {
                    crate::crdt::merged_or_incoming(existing, incoming)
                } else {
                    incoming
                },
            )
        },
        WriteOp::Delete => None,
        WriteOp::Patch => match held {
            Some(bytes) => patched(bytes, encode_utf8(payload_or(w, "{}"@))),
            None => None,
        },
        WriteOp::Increment => match w.payload {
            Some(s) => Some(encode_utf8(s)),
            None => None,
        },
    }
}

/// Whether showing the write needs what the row holds.
pub fn needs_existing(write: &PendingWrite, or_sets: &NameSet, counters: &NameSet) -> (r: bool)
    ensures
        r == merges(write@, or_sets@, counters@),
{
    match write.op {
        WriteOp::Upsert => or_sets.contains(&write.table) || counters.contains(&write.table),
        WriteOp::Patch => true,
        _ => false,
    }
}

/// The parameters of a row.
fn row_bind(table: &str, pk: &str, bytes: Vec<u8>) -> (r: Vec<SqlValue>)
    ensures
        cells(r@) == seq![
            SqlCell::Text(table@),
            SqlCell::Text(pk@),
            SqlCell::Blob(bytes@),
        ],
{
    let ghost b = bytes@;
    let mut bind: Vec<SqlValue> = Vec::new();
    bind.push(SqlValue::Text(table.to_owned()));
    bind.push(SqlValue::Text(pk.to_owned()));
    bind.push(SqlValue::Blob(bytes));
    assert(cells(bind@) =~= seq![
        SqlCell::Text(table@),
        SqlCell::Text(pk@),
        SqlCell::Blob(b),
    ]);
    bind
}

/// The parameters that name a row.
pub fn key_bind(table: &str, pk: &str) -> (r: Vec<SqlValue>)
    ensures
        cells(r@) == seq![SqlCell::Text(table@), SqlCell::Text(pk@)],
{
    let mut bind: Vec<SqlValue> = Vec::new();
    bind.push(SqlValue::Text(table.to_owned()));
    bind.push(SqlValue::Text(pk.to_owned()));
    assert(cells(bind@) =~= seq![SqlCell::Text(table@), SqlCell::Text(pk@)]);
    bind
}

/// The bytes of an optional payload.
pub open spec fn held_bytes(existing: Option<&[u8]>) -> Option<Seq<u8>> {
    match existing {
        Some(bytes) => Some(bytes@),
        None => None,
    }
}

/// The statement that shows a local write in the rows, where `existing` is the payload
/// of the row, if there is one. A delete deletes the row. A patch changes a row that is
/// there, and shows nothing where there is none or where no columns can be read. An
/// increment puts the payload that it carries; one without a payload shows nothing.
pub fn local_statement(
    write: &PendingWrite,
    or_sets: &NameSet,
    counters: &NameSet,
    existing: Option<&[u8]>,
) -> (r: Option<Statement>)
    ensures
        match shown_bytes(write@, or_sets@, counters@, held_bytes(existing)) {
            Some(bytes) => r is Some && asks(
                r->0,
                if write.op == WriteOp::Patch {
                    SQL_PATCH_ROW@
                } else {
                    SQL_SHOW_ROW@
                },
                seq![
                    SqlCell::Text(write.table@),
                    SqlCell::Text(write.pk@),
                    SqlCell::Blob(bytes),
                ],
            ),
            None => if write.op == WriteOp::Delete {
                r is Some && asks(
                    r->0,
                    SQL_DELETE_UNCOND@,
                    seq![SqlCell::Text(write.table@), SqlCell::Text(write.pk@)],
                )
            } else {
                r is None
            },
        },
{
    let bytes: Vec<u8> = match write.op {
        WriteOp::Upsert => {
            let incoming: Vec<u8> = match &write.payload_json {
                Some(s) => s.as_str().as_bytes_vec(),
                None => "null".as_bytes_vec(),
            };
            let none: Vec<u8> = Vec::new();
            let held: &[u8] = match existing {
                Some(bytes) => bytes,
                None => none.as_slice(),
            };
            assert(existing is None ==> held@ =~= seq![]);
            if counters.contains(&write.table) {
                merge_counter_or_lww(held, incoming.as_slice())
            } else if or_sets.contains(&write.table) {
                merge_or_set_or_lww(held, incoming.as_slice())
            } else {
                incoming
            }
        },
        WriteOp::Delete => {
            let bind = key_bind(write.table.as_str(), write.pk.as_str());
            return Some(Statement { sql: SQL_DELETE_UNCOND, bind });
        },
        WriteOp::Patch => {
            let change: Vec<u8> = match &write.payload_json {
                Some(s) => s.as_str().as_bytes_vec(),
                None => "{}".as_bytes_vec(),
            };
            let bytes = match existing {
                Some(held) => patch_payload(held, change.as_slice()),
                None => None,
            };
            match bytes {
                Some(bytes) => {
                    let bind = row_bind(write.table.as_str(), write.pk.as_str(), bytes);
                    return Some(Statement { sql: SQL_PATCH_ROW, bind });
                },
                None => {
                    return None;
                },
            }
        },
        WriteOp::Increment => match &write.payload_json {
            Some(s) => s.as_str().as_bytes_vec(),
            None => {
                return None;
            },
        },
    };
    let bind = row_bind(write.table.as_str(), write.pk.as_str(), bytes);
    Some(Statement { sql: SQL_SHOW_ROW, bind })
}

// ---- answers ----

/// The text that a value is read as: a text, or a whole number in decimal digits.
pub open spec fn value_text(v: SqlCell) -> Option<Seq<char>> {
    match v {
        SqlCell::Text(s) => Some(s),
        SqlCell::Integer(n) => Some(decimal(n as nat)),
        _ => None,
    }
}

/// The number that a text says, if it is one.
pub open spec fn stored_number(s: Option<Seq<char>>, max: u64) -> Option<u64> {
    match s {
        Some(t) => match read_unsigned(trimmed(t), 10, max as nat) {
            Some(n) => Some(n as u64),
            None => None,
        },
        None => None,
    }
}

/// The text that a value is read as.
pub fn text_of_value(v: &SqlValue) -> (r: Option<String>)
    ensures
        r is Some <==> value_text(v@) is Some,
        r is Some ==> r->0@ == value_text(v@)->0,
{
    match v {
        SqlValue::Text(s) => Some(s.clone()),
        SqlValue::Integer(n) => Some(decimal_text(*n)),
        _ => None,
    }
}

/// The number that a value is read as, up to `max`.
pub fn number_of_value(v: &SqlValue, max: u64) -> (r: Option<u64>)
    ensures
        r == stored_number(value_text(v@), max),
{
    match text_of_value(v) {
        Some(s) => {
            let chars = chars_of(s.as_str());
            let inner = trim_chars(&chars);
            parse_unsigned(&inner, 10, max)
        },
        None => None,
    }
}

/// The number that a value is read as, or zero.
pub fn number_or_zero(v: &SqlValue) -> (r: u64)
    ensures
        r == (match stored_number(value_text(v@), u64::MAX) {
            Some(n) => n,
            None => 0,
        }),
{
    match number_of_value(v, u64::MAX) {
        Some(n) => n,
        None => 0,
    }
}

/// The id of the write that was just queued: a number above zero.
pub open spec fn queued_id(v: SqlCell) -> Option<u64> {
    match stored_number(value_text(v), u64::MAX) {
        Some(n) => if n > 0 {
            Some(n)
        } else {
            None
        },
        None => None,
    }
}

/// The id of the write that was just queued.
pub fn inserted_id(v: &SqlValue) -> (r: Result<u64, StorageError>)
    ensures
        match queued_id(v@) {
            Some(n) => r is Ok && r->Ok_0 == n,
            None => r is Err && r->Err_0->Backend_0@ == "SQLite-WASM returned no outbox ID"@,
        },
{
    match number_of_value(v, u64::MAX) {
        Some(n) => {
            if n > 0 {
                return Ok(n);
            }
        },
        None => {},
    }
    Err(StorageError::Backend("SQLite-WASM returned no outbox ID".to_owned()))
}

/// A text column: nothing but text counts.
pub open spec fn text_column(row: Seq<SqlCell>, i: int) -> Seq<char> {
    if 0 <= i < row.len() {
        match row[i] {
            SqlCell::Text(s) => s,
            _ => seq![],
        }
    } else {
        seq![]
    }
}

/// A column that may hold text.
pub open spec fn optional_column(row: Seq<SqlCell>, i: int) -> Option<Seq<char>> {
    if 0 <= i < row.len() {
        match row[i] {
            SqlCell::Text(s) => Some(s),
            _ => None,
        }
    } else {
        None
    }
}

/// The id of a waiting write.
pub open spec fn id_column(row: Seq<SqlCell>) -> Option<u64> {
    if row.len() > 0 {
        queued_id(row[0])
    } else {
        None
    }
}

/// The waiting write of a row: an operation that is not known counts as an upsert.
/// Nothing where the id is no number above zero.
pub open spec fn waiting_row(row: Seq<SqlCell>) -> Option<(u64, WriteView)> {
    match id_column(row) {
        Some(id) => Some(
            (
                id,
                WriteView {
                    table: text_column(row, 1),
                    op: match write_op_named(text_column(row, 2)) {
                        Some(op) => op,
                        None => WriteOp::Upsert,
                    },
                    pk: text_column(row, 3),
                    payload: optional_column(row, 4),
                },
            ),
        ),
        None => None,
    }
}

/// The rows by their contents.
pub open spec fn row_cells(rows: Seq<Vec<SqlValue>>) -> Seq<Seq<SqlCell>> {
    Seq::new(rows.len(), |i: int| cells(rows[i]@))
}

/// The waiting writes of the rows, where every one of them is one.
pub open spec fn waiting_rows(rows: Seq<Seq<SqlCell>>) -> Option<Seq<(u64, WriteView)>>
    decreases rows.len(),
{
    if rows.len() == 0 {
        Some(seq![])
    } else {
        match (waiting_rows(rows.drop_last()), waiting_row(rows.last())) {
            (Some(s), Some(w)) => Some(s.push(w)),
            _ => None,
        }
    }
}

/// A column that may hold text.
fn column(row: &Vec<SqlValue>, i: usize) -> (r: Option<String>)
    ensures
        r is Some <==> optional_column(cells(row@), i as int) is Some,
        r is Some ==> r->0@ == optional_column(cells(row@), i as int)->0,
{
    if i < row.len() {
        assert(cells(row@)[i as int] == row@[i as int]@);
        match &row[i] {
            SqlValue::Text(s) => Some(s.clone()),
            _ => None,
        }
    } else {
        None
    }
}

/// A text column.
fn column_text(row: &Vec<SqlValue>, i: usize) -> (r: String)
    ensures
        r@ == text_column(cells(row@), i as int),
{
    match column(row, i) {
        Some(s) => s,
        None => String::new(),
    }
}

/// The waiting write of a row.
fn write_of_row(row: &Vec<SqlValue>) -> (r: Option<(u64, PendingWrite)>)
    ensures
        match waiting_row(cells(row@)) {
            Some(w) => r matches Some(p) && (p.0, p.1@) == w,
            None => r is None,
        },
{
    if row.len() == 0 {
        return None;
    }
    assert(cells(row@)[0] == row@[0]@);
    let id: u64 = match inserted_id(&row[0]) {
        Ok(id) => id,
        Err(_) => {
            return None;
        },
    };
    let name = column_text(row, 2);
    let op = match WriteOp::from_wire_str(name.as_str()) {
        Some(op) => op,
        None => WriteOp::Upsert,
    };
    let write = PendingWrite {
        table: column_text(row, 1),
        op,
        pk: column_text(row, 3),
        payload_json: column(row, 4),
    };
    Some((id, write))
}

proof fn lemma_waiting_prefix(rows: Seq<Seq<SqlCell>>, i: int)
    requires
        0 <= i <= rows.len(),
        waiting_rows(rows.take(i)) is None,
    ensures
        waiting_rows(rows) is None,
    decreases rows.len() - i,
{
    if i == rows.len() {
        assert(rows.take(i) =~= rows);
    } else {
        assert(rows.take(i + 1).drop_last() =~= rows.take(i));
        lemma_waiting_prefix(rows, i + 1);
    }
}

/// The waiting writes of the rows.
pub fn decode_pending(rows: &Vec<Vec<SqlValue>>) -> (r: Result<
    Vec<(u64, PendingWrite)>,
    StorageError,
>)
    ensures
        match waiting_rows(row_cells(rows@)) {
            Some(s) => r is Ok && crate::outbox::waiting_views(r->Ok_0@) == s,
            None => r is Err && r->Err_0->Backend_0@ == "invalid SQLite-WASM outbox ID"@,
        },
{
    let ghost views = row_cells(rows@);
    let mut out: Vec<(u64, PendingWrite)> = Vec::new();
    let mut i: usize = 0;
    assert(views.take(0) =~= seq![]);
    assert(crate::outbox::waiting_views(out@) =~= seq![]);
    while i < rows.len()
        invariant
            i <= rows@.len(),
            views == row_cells(rows@),
            waiting_rows(views.take(i as int)) == Some(crate::outbox::waiting_views(out@)),
        decreases rows@.len() - i,
    {
        proof {
            assert(views.take(i + 1).drop_last() =~= views.take(i as int));
            assert(views.take(i + 1).last() == cells(rows@[i as int]@));
        }
        let ghost before = crate::outbox::waiting_views(out@);
        match write_of_row(&rows[i]) {
            Some(w) => {
                let ghost v = (w.0, w.1@);
                out.push(w);
                assert(crate::outbox::waiting_views(out@) =~= before.push(v));
            },
            None => {
                proof {
                    lemma_waiting_prefix(views, i + 1);
                }
                return Err(StorageError::Backend("invalid SQLite-WASM outbox ID".to_owned()));
            },
        }
        i += 1;
    }
    assert(views.take(i as int) =~= views);
    Ok(out)
}

/// The bytes of a payload column: a blob, or the bytes of a text.
pub open spec fn payload_bytes(v: SqlCell) -> Seq<u8> {
    match v {
        SqlCell::Blob(b) => b,
        SqlCell::Text(s) => encode_utf8(s),
        _ => seq![],
    }
}

/// The bytes of a payload column.
pub fn bytes_of_value(v: &SqlValue) -> (r: Vec<u8>)
    ensures
        r@ == payload_bytes(v@),
{
    match v {
        SqlValue::Blob(b) => copy_bytes(b),
        SqlValue::Text(s) => s.as_str().as_bytes_vec(),
        _ => Vec::new(),
    }
}

// ---- queueing ----

/// The parameters of a write that is queued.
pub open spec fn write_cells(w: WriteView) -> Seq<SqlCell> {
    seq![
        SqlCell::Text(w.table),
        SqlCell::Text(write_op_name(w.op)),
        SqlCell::Text(w.pk),
        match w.payload {
            Some(s) => SqlCell::Text(s),
            None => SqlCell::Null,
        },
    ]
}

/// The statement that queues a write.
pub fn enqueue_statement(write: &PendingWrite) -> (r: Statement)
    ensures
        asks(r, SQL_ENQUEUE@, write_cells(write@)),
{
    let mut bind: Vec<SqlValue> = Vec::new();
    bind.push(SqlValue::Text(write.table.clone()));
    bind.push(SqlValue::Text(write.op.as_wire_str().to_owned()));
    bind.push(SqlValue::Text(write.pk.clone()));
    match &write.payload_json {
        Some(s) => {
            bind.push(SqlValue::Text(s.clone()));
        },
        None => {
            bind.push(SqlValue::Null);
        },
    }
    assert(cells(bind@) =~= write_cells(write@));
    Statement { sql: SQL_ENQUEUE, bind }
}

/// Where a batch that is being queued stands.
#[derive(Debug, Clone, Copy, PartialEq, Eq, Structural)]
pub enum BatchPhase {
    /// The transaction is being opened.
    Opening,
    /// The write after those with ids is being queued.
    Inserting,
    /// The id of that write is being read.
    Numbering,
    /// The transaction is being committed.
    Committing,
    /// The transaction is being rolled back.
    RollingBack,
    /// Nothing is left to do.
    Finished,
}

/// What to do next for a batch.
pub enum BatchAction {
    /// Run a statement.
    Run(Statement),
    /// Read the id of the write that was queued last.
    ReadId,
    /// The batch is queued, under these ids.
    Queued(Vec<u64>),
    /// The batch is not queued, and nothing of it is.
    Refused(StorageError),
}

/// What came of the last action.
pub enum BatchReply {
    /// The statement ran.
    Ran,
    /// The statement failed.
    Failed(StorageError),
    /// The value that was read.
    Read(SqlValue),
}

/// A batch that is being queued: all of its writes or none.
pub struct BatchEnqueue {
    writes: Vec<PendingWrite>,
    ids: Vec<u64>,
    phase: BatchPhase,
    error: Option<StorageError>,
}

/// A statement without parameters.
fn plain(sql: &'static str) -> (r: Statement)
    ensures
        asks(r, sql@, seq![]),
{
    let bind: Vec<SqlValue> = Vec::new();
    assert(cells(bind@) =~= seq![]);
    Statement { sql, bind }
}

impl BatchEnqueue {
    /// The writes.
    pub closed spec fn batch(&self) -> Seq<PendingWrite> {
        self.writes@
    }

    /// The ids that were given out.
    pub closed spec fn given(&self) -> Seq<u64> {
        self.ids@
    }

    /// Where the batch stands.
    pub closed spec fn stage(&self) -> BatchPhase {
        self.phase
    }

    /// Why the batch is rolled back.
    pub closed spec fn cause(&self) -> Option<StorageError> {
        self.error
    }

    /// Whether the state is one that a batch comes through.
    pub open spec fn wf(&self) -> bool {
        &&& self.given().len() <= self.batch().len()
        &&& self.stage() == BatchPhase::Inserting || self.stage() == BatchPhase::Numbering
            ==> self.given().len() < self.batch().len()
        &&& self.stage() == BatchPhase::Committing ==> self.given().len() == self.batch().len()
        &&& self.stage() == BatchPhase::RollingBack ==> self.cause() is Some
    }

    /// Begins to queue a batch. An empty batch is queued at once, without a
    /// transaction.
    pub fn start(writes: Vec<PendingWrite>) -> (r: (Self, BatchAction))
        ensures
            r.0.wf(),
            r.0.batch() == writes@,
            r.0.given() == Seq::<u64>::empty(),
            writes@.len() == 0 ==> r.0.stage() == BatchPhase::Finished && r.1 is Queued
                && r.1->Queued_0@.len() == 0,
            writes@.len() > 0 ==> r.0.stage() == BatchPhase::Opening && r.1 is Run && asks(
                r.1->Run_0,
                "BEGIN"@,
                seq![],
            ),
    {
        if writes.len() == 0 {
            let none: Vec<u64> = Vec::new();
            (
                BatchEnqueue { writes, ids: Vec::new(), phase: BatchPhase::Finished, error: None },
                BatchAction::Queued(none),
            )
        } else {
            (
                BatchEnqueue { writes, ids: Vec::new(), phase: BatchPhase::Opening, error: None },
                BatchAction::Run(plain("BEGIN")),
            )
        }
    }

    /// The next action, given what came of the last one. A failure to open or to
    /// commit the transaction is the failure of the batch; any other failure rolls
    /// the transaction back first, and whether that succeeds does not matter.
    pub fn step(&mut self, reply: BatchReply) -> (r: BatchAction)
        requires
            old(self).wf(),
            old(self).stage() != BatchPhase::Finished,
        ensures
            final(self).wf(),
            final(self).batch() == old(self).batch(),
            r is Queued ==> r->Queued_0@.len() == old(self).batch().len(),
            match old(self).stage() {
                BatchPhase::Opening => match reply {
                    BatchReply::Failed(e) => final(self).stage() == BatchPhase::Finished
                        && r == BatchAction::Refused(e) && final(self).given() == old(self).given(),
                    _ => {
                        if old(self).given().len() < old(self).batch().len() {
                            final(self).stage() == BatchPhase::Inserting && final(self).given()
                                == old(self).given() && r is Run && asks(
                                r->Run_0,
                                SQL_ENQUEUE@,
                                write_cells(old(self).batch()[old(self).given().len() as int]@),
                            )
                        } else {
                            final(self).stage() == BatchPhase::Committing && final(self).given()
                                == old(self).given() && r is Run && asks(
                                r->Run_0,
                                "COMMIT"@,
                                seq![],
                            )
                        }
                    },
                },
                BatchPhase::Inserting => final(self).given() == old(self).given() && match reply {
                    BatchReply::Failed(e) => final(self).stage() == BatchPhase::RollingBack
                        && final(self).cause() == Some(e) && r is Run && asks(
                        r->Run_0,
                        "ROLLBACK"@,
                        seq![],
                    ),
                    _ => final(self).stage() == BatchPhase::Numbering && r is ReadId,
                },
                BatchPhase::Numbering => {
                    let id = match reply {
                        BatchReply::Read(v) => queued_id(v@),
                        _ => None,
                    };
                    match id {
                        Some(n) => {
                            let given = old(self).given().push(n);
                            &&& final(self).given() == given
                            &&& if given.len() < old(self).batch().len() {
                                final(self).stage() == BatchPhase::Inserting && r is Run && asks(
                                    r->Run_0,
                                    SQL_ENQUEUE@,
                                    write_cells(old(self).batch()[given.len() as int]@),
                                )
                            } else {
                                final(self).stage() == BatchPhase::Committing && r is Run && asks(
                                    r->Run_0,
                                    "COMMIT"@,
                                    seq![],
                                )
                            }
                        },
                        None => final(self).given() == old(self).given() && final(self).stage()
                            == BatchPhase::RollingBack && final(self).cause() is Some && final(self).cause()->0->Backend_0@ == "SQLite-WASM returned no outbox ID"@ && r is Run
                            && asks(r->Run_0, "ROLLBACK"@, seq![]),
                    }
                },
                BatchPhase::Committing => final(self).stage() == BatchPhase::Finished
                    && final(self).given() == old(self).given() && match reply {
                    BatchReply::Failed(e) => r == BatchAction::Refused(e),
                    _ => r is Queued && r->Queued_0@ == old(self).given(),
                },
                BatchPhase::RollingBack => final(self).stage() == BatchPhase::Finished
                    && final(self).given() == old(self).given() && r is Refused
                    && r->Refused_0->Backend_0@ == old(self).cause()->0->Backend_0@,
                BatchPhase::Finished => true,
            },
    {
        match self.phase {
            BatchPhase::Opening => match reply {
                BatchReply::Failed(e) => {
                    self.phase = BatchPhase::Finished;
                    BatchAction::Refused(e)
                },
                _ => self.next_write(),
            },
            BatchPhase::Inserting => match reply {
                BatchReply::Failed(e) => self.roll_back(e),
                _ => {
                    self.phase = BatchPhase::Numbering;
                    BatchAction::ReadId
                },
            },
            BatchPhase::Numbering => {
                let id = match reply {
                    BatchReply::Read(v) => inserted_id(&v),
                    _ => Err(
                        StorageError::Backend("SQLite-WASM returned no outbox ID".to_owned()),
                    ),
                };
                match id {
                    Ok(n) => {
                        self.ids.push(n);
                        self.next_write()
                    },
                    Err(e) => self.roll_back(e),
                }
            },
            BatchPhase::Committing => {
                self.phase = BatchPhase::Finished;
                match reply {
                    BatchReply::Failed(e) => BatchAction::Refused(e),
                    _ => {
                        let mut ids: Vec<u64> = Vec::new();
                        let mut i: usize = 0;
                        while i < self.ids.len()
                            invariant
                                i <= self.ids@.len(),
                                ids@ == self.ids@.take(i as int),
                            decreases self.ids@.len() - i,
                        {
                            ids.push(self.ids[i]);
                            assert(self.ids@.take(i as int).push(self.ids@[i as int])
                                =~= self.ids@.take(i + 1));
                            i += 1;
                        }
                        assert(self.ids@.take(i as int) =~= self.ids@);
                        BatchAction::Queued(ids)
                    },
                }
            },
            BatchPhase::RollingBack => {
                self.phase = BatchPhase::Finished;
                let text = match &self.error {
                    Some(StorageError::Backend(s)) => s.clone(),
                    None => String::new(),
                };
                BatchAction::Refused(StorageError::Backend(text))
            },
            BatchPhase::Finished => BatchAction::ReadId,
        }
    }

    /// Queues the next write, or commits where there is none.
    fn next_write(&mut self) -> (r: BatchAction)
        requires
            old(self).given().len() <= old(self).batch().len(),
        ensures
            final(self).wf(),
            final(self).batch() == old(self).batch(),
            final(self).given() == old(self).given(),
            if old(self).given().len() < old(self).batch().len() {
                final(self).stage() == BatchPhase::Inserting && r is Run && asks(
                    r->Run_0,
                    SQL_ENQUEUE@,
                    write_cells(old(self).batch()[old(self).given().len() as int]@),
                )
            } else {
                final(self).stage() == BatchPhase::Committing && r is Run && asks(
                    r->Run_0,
                    "COMMIT"@,
                    seq![],
                )
            },
    {
        let at: usize = self.ids.len();
        if at < self.writes.len() {
            self.phase = BatchPhase::Inserting;
            BatchAction::Run(enqueue_statement(&self.writes[at]))
        } else {
            self.phase = BatchPhase::Committing;
            BatchAction::Run(plain("COMMIT"))
        }
    }

    /// Rolls the transaction back.
    fn roll_back(&mut self, e: StorageError) -> (r: BatchAction)
        requires
            old(self).given().len() <= old(self).batch().len(),
        ensures
            final(self).wf(),
            final(self).batch() == old(self).batch(),
            final(self).given() == old(self).given(),
            final(self).stage() == BatchPhase::RollingBack,
            final(self).cause() == Some(e),
            r is Run && asks(r->Run_0, "ROLLBACK"@, seq![]),
    {
        self.phase = BatchPhase::RollingBack;
        self.error = Some(e);
        BatchAction::Run(plain("ROLLBACK"))
    }
}

// ---- applying a batch ----

/// One operation of a batch as it is handed to the store.
#[derive(Debug, PartialEq, Eq)]
pub struct OpEntry {
    pub kind: &'static str,
    pub table: String,
    pub pk: String,
    pub payload: Option<Vec<u8>>,
    /// The position, as far as the store counts.
    pub lsn: i64,
}

/// The spelling of an operation.
pub open spec fn kind_name(op: Operation) -> Seq<char> {
    match op {
        Operation::Insert => "insert"@,
        Operation::Update => "update"@,
        Operation::Delete => "delete"@,
    }
}

/// A position, as far as an `i64` counts.
pub open spec fn stored_position(lsn: u64) -> i64 {
    if lsn <= i64::MAX {
        lsn as i64
    } else {
        i64::MAX
    }
}

/// Whether an entry is the given operation at the given position.
pub open spec fn entry_is(e: OpEntry, op: RowOpView, lsn: u64) -> bool {
    &&& e.kind@ == kind_name(op.op)
    &&& e.table@ == op.table
    &&& e.pk@ == op.pk
    &&& e.payload is Some <==> op.payload is Some
    &&& e.payload is Some ==> e.payload->0@ == op.payload->0
    &&& e.lsn == stored_position(lsn)
}

/// The operations of a batch as they are handed to the store.
pub fn batch_entries(ops: &[(RowOp, u64)]) -> (r: Vec<OpEntry>)
    ensures
        r@.len() == ops@.len(),
        forall|i: int| 0 <= i < ops@.len() ==> entry_is(#[trigger] r@[i], ops@[i].0@, ops@[i].1),
{
    let mut out: Vec<OpEntry> = Vec::new();
    let mut i: usize = 0;
    while i < ops.len()
        invariant
            i <= ops@.len(),
            out@.len() == i,
            forall|k: int| 0 <= k < i ==> entry_is(#[trigger] out@[k], ops@[k].0@, ops@[k].1),
        decreases ops@.len() - i,
    {
        let lsn: i64 = if ops[i].1 <= 0x7fff_ffff_ffff_ffff {
            ops[i].1 as i64
        } else {
            0x7fff_ffff_ffff_ffff
        };
        let entry = match &ops[i].0 {
            RowOp::Insert { table, pk, payload } => OpEntry {
                kind: "insert",
                table: table.clone(),
                pk: pk.clone(),
                payload: Some(copy_bytes(payload)),
                lsn,
            },
            RowOp::Update { table, pk, payload } => OpEntry {
                kind: "update",
                table: table.clone(),
                pk: pk.clone(),
                payload: Some(copy_bytes(payload)),
                lsn,
            },
            RowOp::Delete { table, pk } => OpEntry {
                kind: "delete",
                table: table.clone(),
                pk: pk.clone(),
                payload: None,
                lsn,
            },
        };
        out.push(entry);
        i += 1;
    }
    out
}

/// The checkpoint as it is handed to the store.
pub fn checkpoint_text(checkpoint: Lsn) -> (r: String)
    ensures
        r@ == decimal(checkpoint.0 as nat),
{
    decimal_text(checkpoint.0)
}

// ---- the schema ----

/// The statements that bring the queue up to date, given the columns that it has.
pub fn migration(columns: &Vec<String>) -> (r: Vec<&'static str>)
    ensures
        ({
            let error = text_views(columns@).contains("last_error"@);
            let time = text_views(columns@).contains("dead_lettered_at"@);
            &&& r@.len() == (if error { 0int } else { 1 }) + (if time { 0int } else { 1 })
            &&& !error ==> r@[0]@ == SQL_ADD_LAST_ERROR@
            &&& !time ==> r@.last()@ == SQL_ADD_DEAD_LETTERED_AT@
        }),
{
    let mut out: Vec<&'static str> = Vec::new();
    if !has_column(columns, "last_error") {
        out.push(SQL_ADD_LAST_ERROR);
    }
    if !has_column(columns, "dead_lettered_at") {
        out.push(SQL_ADD_DEAD_LETTERED_AT);
    }
    out
}

/// Whether a column is there.
fn has_column(columns: &Vec<String>, name: &str) -> (r: bool)
    ensures
        r == text_views(columns@).contains(name@),
{
    let mut i: usize = 0;
    while i < columns.len()
        invariant
            i <= columns@.len(),
            forall|k: int| 0 <= k < i ==> #[trigger] columns@[k]@ != name@,
        decreases columns@.len() - i,
    {
        if same_text(columns[i].as_str(), name) {
            assert(text_views(columns@)[i as int] == name@);
            return true;
        }
        i += 1;
    }
    proof {
        if text_views(columns@).contains(name@) {
            let k = choose|k: int|
                0 <= k < text_views(columns@).len() && text_views(columns@)[k] == name@;
            assert(columns@[k]@ != name@);
        }
    }
    false
}

/// A table and its columns, for which a view is made.
#[derive(Debug)]
pub struct ViewTable {
    pub name: String,
    pub columns: Vec<String>,
}

/// The part of a view for a column.
pub open spec fn column_part(c: Seq<char>) -> Seq<char> {
    "json_extract(payload, '$."@ + c + "') AS "@ + c
}

/// The parts of a view: the key, then every column.
pub open spec fn view_parts(columns: Seq<Seq<char>>) -> Seq<char>
    decreases columns.len(),
{
    if columns.len() == 0 {
        "pk AS _pk"@
    } else {
        view_parts(columns.drop_last()) + ", "@ + column_part(columns.last())
    }
}

/// A text with every quote doubled.
pub open spec fn doubled_quotes(s: Seq<char>) -> Seq<char>
    decreases s.len(),
{
    if s.len() == 0 {
        seq![]
    } else if s.last() == '\'' {
        doubled_quotes(s.drop_last()).push('\'').push('\'')
    } else {
        doubled_quotes(s.drop_last()).push(s.last())
    }
}

/// The statement that drops a view.
pub open spec fn drop_view(name: Seq<char>) -> Seq<char> {
    "DROP VIEW IF EXISTS "@ + name
}

/// The statement that makes a view.
pub open spec fn create_view(name: Seq<char>, columns: Seq<Seq<char>>) -> Seq<char> {
    "CREATE VIEW "@ + name + " AS SELECT "@ + view_parts(columns)
        + " FROM nostos_data WHERE table_name = '"@ + doubled_quotes(name) + "'"@
}

/// A text with every quote doubled.
fn double_quotes(s: &str) -> (r: String)
    ensures
        r@ == doubled_quotes(s@),
{
    let chars = chars_of(s);
    let mut out: String = String::new();
    let mut i: usize = 0;
    assert(chars@.take(0) =~= seq![]);
    while i < chars.len()
        invariant
            i <= chars@.len(),
            chars@ == s@,
            out@ == doubled_quotes(chars@.take(i as int)),
        decreases chars@.len() - i,
    {
        proof {
            assert(chars@.take(i + 1).drop_last() =~= chars@.take(i as int));
            assert(chars@.take(i + 1).last() == chars@[i as int]);
        }
        if chars[i] == '\'' {
            out.push('\'');
            out.push('\'');
        } else {
            out.push(chars[i]);
        }
        i += 1;
    }
    assert(chars@.take(i as int) =~= chars@);
    out
}

/// The statement that makes a view.
fn create_view_sql(table: &ViewTable) -> (r: String)
    ensures
        r@ == create_view(table.name@, text_views(table.columns@)),
{
    let ghost views = text_views(table.columns@);
    let mut parts: String = "pk AS _pk".to_owned();
    let mut i: usize = 0;
    assert(views.take(0) =~= seq![]);
    while i < table.columns.len()
        invariant
            i <= table.columns@.len(),
            views == text_views(table.columns@),
            parts@ == view_parts(views.take(i as int)),
        decreases table.columns@.len() - i,
    {
        let ghost before = parts@;
        let c = &table.columns[i];
        proof {
            assert(views.take(i + 1).drop_last() =~= views.take(i as int));
            assert(views.take(i + 1).last() == c@);
        }
        parts.append(", ");
        parts.append("json_extract(payload, '$.");
        parts.append(c.as_str());
        parts.append("') AS ");
        parts.append(c.as_str());
        assert(parts@ =~= before + ", "@ + column_part(c@));
        i += 1;
    }
    assert(views.take(i as int) =~= views);
    let mut out: String = "CREATE VIEW ".to_owned();
    out.append(table.name.as_str());
    out.append(" AS SELECT ");
    out.append(parts.as_str());
    out.append(" FROM nostos_data WHERE table_name = '");
    let quoted_name = double_quotes(table.name.as_str());
    out.append(quoted_name.as_str());
    out.append("'");
    out
}

/// The statements that make a view for every table, each after the one that drops
/// an earlier view of the same name.
pub fn view_statements(tables: &Vec<ViewTable>) -> (r: Vec<String>)
    ensures
        r@.len() == 2 * tables@.len(),
        forall|i: int|
            0 <= i < tables@.len() ==> #[trigger] r@[2 * i]@ == drop_view(tables@[i].name@),
        forall|i: int|
            0 <= i < tables@.len() ==> #[trigger] r@[2 * i + 1]@ == create_view(
                tables@[i].name@,
                text_views(tables@[i].columns@),
            ),
{
    let mut out: Vec<String> = Vec::new();
    let mut i: usize = 0;
    while i < tables.len()
        invariant
            i <= tables@.len(),
            out@.len() == 2 * i,
            forall|k: int| 0 <= k < i ==> #[trigger] out@[2 * k]@ == drop_view(tables@[k].name@),
            forall|k: int|
                0 <= k < i ==> #[trigger] out@[2 * k + 1]@ == create_view(
                    tables@[k].name@,
                    text_views(tables@[k].columns@),
                ),
        decreases tables@.len() - i,
    {
        let mut first: String = "DROP VIEW IF EXISTS ".to_owned();
        first.append(tables[i].name.as_str());
        out.push(first);
        out.push(create_view_sql(&tables[i]));
        i += 1;
    }
    out
}

/// The statements that set a write aside: with the error and the time, and, where
/// the store has no columns for these, without.
pub fn dead_letter_statements(id: u64, error: Option<&str>, now_ms: u64) -> (r: (
    Statement,
    Statement,
))
    ensures
        asks(
            r.0,
            SQL_SET_ASIDE_WITH_ERROR@,
            seq![
                SqlCell::Integer(id),
                match error {
                    Some(e) => SqlCell::Text(e@),
                    None => SqlCell::Null,
                },
                SqlCell::Integer(now_ms),
            ],
        ),
        asks(r.1, SQL_SET_ASIDE@, seq![SqlCell::Integer(id)]),
{
    let mut bind: Vec<SqlValue> = Vec::new();
    bind.push(SqlValue::Integer(id));
    match error {
        Some(e) => {
            bind.push(SqlValue::Text(e.to_owned()));
        },
        None => {
            bind.push(SqlValue::Null);
        },
    }
    bind.push(SqlValue::Integer(now_ms));
    proof {
        assert(cells(bind@) =~= seq![
            SqlCell::Integer(id),
            match error {
                Some(e) => SqlCell::Text(e@),
                None => SqlCell::Null,
            },
            SqlCell::Integer(now_ms),
        ]);
    }
    let mut short: Vec<SqlValue> = Vec::new();
    short.push(SqlValue::Integer(id));
    assert(cells(short@) =~= seq![SqlCell::Integer(id)]);
    (
        Statement { sql: SQL_SET_ASIDE_WITH_ERROR, bind },
        Statement { sql: SQL_SET_ASIDE, bind: short },
    )
}

// ---- reading rows back ----

/// The bytes of a column.
pub open spec fn bytes_column(row: Seq<SqlCell>, i: int) -> Seq<u8> {
    if 0 <= i < row.len() {
        payload_bytes(row[i])
    } else {
        seq![]
    }
}

/// The bytes of a column.
fn column_bytes(row: &Vec<SqlValue>, i: usize) -> (r: Vec<u8>)
    ensures
        r@ == bytes_column(cells(row@), i as int),
{
    if i < row.len() {
        assert(cells(row@)[i as int] == row@[i as int]@);
        bytes_of_value(&row[i])
    } else {
        Vec::new()
    }
}

/// The keys and payloads of the rows that [`SQL_ROWS`] gives.
pub fn decode_rows(rows: &Vec<Vec<SqlValue>>) -> (r: Vec<(String, Vec<u8>)>)
    ensures
        r@.len() == rows@.len(),
        forall|i: int|
            0 <= i < rows@.len() ==> (#[trigger] r@[i]).0@ == text_column(cells(rows@[i]@), 0)
                && r@[i].1@ == bytes_column(cells(rows@[i]@), 1),
{
    let mut out: Vec<(String, Vec<u8>)> = Vec::new();
    let mut i: usize = 0;
    while i < rows.len()
        invariant
            i <= rows@.len(),
            out@.len() == i,
            forall|k: int|
                0 <= k < i ==> (#[trigger] out@[k]).0@ == text_column(cells(rows@[k]@), 0)
                    && out@[k].1@ == bytes_column(cells(rows@[k]@), 1),
        decreases rows@.len() - i,
    {
        let pk = column_text(&rows[i], 0);
        let payload = column_bytes(&rows[i], 1);
        out.push((pk, payload));
        i += 1;
    }
    out
}

/// The payload of the row that [`SQL_READ_ROW`] gives, if it gives one.
pub fn decode_payload(rows: &Vec<Vec<SqlValue>>) -> (r: Option<Vec<u8>>)
    ensures
        r is Some <==> rows@.len() > 0,
        r is Some ==> r->0@ == bytes_column(cells(rows@[0]@), 0),
{
    if rows.len() > 0 {
        Some(column_bytes(&rows[0], 0))
    } else {
        None
    }
}

/// The texts of one column, of every row.
pub fn decode_texts(rows: &Vec<Vec<SqlValue>>, i: usize) -> (r: Vec<String>)
    ensures
        r@.len() == rows@.len(),
        forall|k: int|
            0 <= k < rows@.len() ==> (#[trigger] r@[k])@ == text_column(
                cells(rows@[k]@),
                i as int,
            ),
{
    let mut out: Vec<String> = Vec::new();
    let mut k: usize = 0;
    while k < rows.len()
        invariant
            k <= rows@.len(),
            out@.len() == k,
            forall|j: int|
                0 <= j < k ==> (#[trigger] out@[j])@ == text_column(cells(rows@[j]@), i as int),
        decreases rows@.len() - k,
    {
        out.push(column_text(&rows[k], i));
        k += 1;
    }
    out
}

/// The keys of the rows that [`SQL_PKS`] gives.
pub fn decode_pks(rows: &Vec<Vec<SqlValue>>) -> (r: Vec<String>)
    ensures
        r@.len() == rows@.len(),
        forall|k: int|
            0 <= k < rows@.len() ==> (#[trigger] r@[k])@ == text_column(cells(rows@[k]@), 0),
{
    decode_texts(rows, 0)
}

/// The names of the columns that [`SQL_OUTBOX_COLUMNS`] gives.
pub fn decode_columns(rows: &Vec<Vec<SqlValue>>) -> (r: Vec<String>)
    ensures
        r@.len() == rows@.len(),
        forall|k: int|
            0 <= k < rows@.len() ==> (#[trigger] r@[k])@ == text_column(cells(rows@[k]@), 1),
{
    decode_texts(rows, 1)
}

/// The number of refusals that [`SQL_ATTEMPTS`] gives, or zero.
pub fn attempts_of(v: &SqlValue) -> (r: u32)
    ensures
        r == (match stored_number(value_text(v@), u32::MAX as u64) {
            Some(n) => n,
            None => 0,
        }),
{
    match number_of_value(v, 0xffff_ffff) {
        Some(n) => {
            assert(n <= 0xffff_ffff);
            n as u32
        },
        None => 0,
    }
}

/// The error that [`SQL_LAST_ERROR`] gives, unless it is empty.
pub fn error_of(v: &SqlValue) -> (r: Option<String>)
    ensures
        match value_text(v@) {
            Some(s) => (r is Some <==> s.len() > 0) && (r is Some ==> r->0@ == s),
            None => r is None,
        },
{
    match text_of_value(v) {
        Some(s) => {
            let n: usize = s.as_str().unicode_len();
            if n > 0 {
                Some(s)
            } else {
                None
            }
        },
        None => None,
    }
}

// ---- the account and the place ----

/// A statement with one text.
fn with_text(sql: &'static str, text: &str) -> (r: Statement)
    ensures
        asks(r, sql@, seq![SqlCell::Text(text@)]),
{
    let mut bind: Vec<SqlValue> = Vec::new();
    bind.push(SqlValue::Text(text.to_owned()));
    assert(cells(bind@) =~= seq![SqlCell::Text(text@)]);
    Statement { sql, bind }
}

/// The statement that saves the epoch.
pub fn epoch_statement(epoch: u64) -> (r: Statement)
    ensures
        asks(r, SQL_SAVE_EPOCH@, seq![SqlCell::Text(decimal(epoch as nat))]),
{
    let text = decimal_text(epoch);
    with_text(SQL_SAVE_EPOCH, text.as_str())
}

/// The statement that saves the horizon.
pub fn horizon_statement(horizon: &str) -> (r: Statement)
    ensures
        asks(r, SQL_SAVE_HORIZON@, seq![SqlCell::Text(horizon@), SqlCell::Text(horizon@)]),
{
    let mut bind: Vec<SqlValue> = Vec::new();
    bind.push(SqlValue::Text(horizon.to_owned()));
    bind.push(SqlValue::Text(horizon.to_owned()));
    assert(cells(bind@) =~= seq![SqlCell::Text(horizon@), SqlCell::Text(horizon@)]);
    Statement { sql: SQL_SAVE_HORIZON, bind }
}

/// The statement that saves the account.
pub fn principal_statement(principal: &str) -> (r: Statement)
    ensures
        asks(r, SQL_SAVE_PRINCIPAL@, seq![SqlCell::Text(principal@)]),
{
    with_text(SQL_SAVE_PRINCIPAL, principal)
}

/// The statements that delete the given rows of a table, one for each.
pub fn delete_statements(table: &str, pks: &Vec<String>) -> (r: Vec<Statement>)
    ensures
        r@.len() == pks@.len(),
        forall|i: int|
            0 <= i < pks@.len() ==> asks(
                #[trigger] r@[i],
                SQL_DELETE_UNCOND@,
                seq![SqlCell::Text(table@), SqlCell::Text(pks@[i]@)],
            ),
{
    let mut out: Vec<Statement> = Vec::new();
    let mut i: usize = 0;
    while i < pks.len()
        invariant
            i <= pks@.len(),
            out@.len() == i,
            forall|k: int|
                0 <= k < i ==> asks(
                    #[trigger] out@[k],
                    SQL_DELETE_UNCOND@,
                    seq![SqlCell::Text(table@), SqlCell::Text(pks@[k]@)],
                ),
        decreases pks@.len() - i,
    {
        let bind = key_bind(table, pks[i].as_str());
        out.push(Statement { sql: SQL_DELETE_UNCOND, bind });
        i += 1;
    }
    out
}

// ---- laws ----

proof fn lemma_digits_not_blank(s: Seq<char>)
    requires
        crate::numbers::all_digits(s, 10),
    ensures
        trimmed(s) == s,
{
    if s.len() > 0 {
        assert(crate::numbers::is_digit(s[0], 10));
        assert(crate::numbers::is_digit(s.last(), 10));
        assert(!white_space(s[0]));
        assert(!white_space(s.last()));
        assert(trimmed_start(s) == s);
    }
}

/// A number that is stored as decimal digits is read back as itself.
pub proof fn law_stored_number_reads_back(n: u64)
    ensures
        stored_number(Some(decimal(n as nat)), u64::MAX) == Some(n),
        stored_number(value_text(SqlCell::Integer(n)), u64::MAX) == Some(n),
{
    lemma_decimal_round_trip(n as nat, u64::MAX as nat);
    lemma_digits_round_trip(n as nat, 10);
    lemma_digits_not_blank(decimal(n as nat));
}

/// A write that was queued under an id comes back from the queue as it went in.
pub proof fn law_queued_write_reads_back(id: u64, w: WriteView)
    requires
        id > 0,
        w.op != WriteOp::Increment,
    ensures
        waiting_row(seq![SqlCell::Integer(id)] + write_cells(w)) == Some((id, w)),
{
    let row = seq![SqlCell::Integer(id)] + write_cells(w);
    law_stored_number_reads_back(id);
    law_write_op_round_trip(w.op);
    assert(row[0] == SqlCell::Integer(id));
    assert(row[1] == SqlCell::Text(w.table));
    assert(row[2] == SqlCell::Text(write_op_name(w.op)));
    assert(row[3] == SqlCell::Text(w.pk));
}

/// A patch of a row that is not there shows nothing, and one of a row that is there
/// leaves the columns that it does not name as they are.
pub proof fn law_patch_never_inserts(
    w: WriteView,
    or_sets: Set<Seq<char>>,
    counters: Set<Seq<char>>,
    held: Seq<u8>,
    name: Seq<char>,
)
    requires
        w.op == WriteOp::Patch,
    ensures
        shown_bytes(w, or_sets, counters, None) is None,
        match (json_read(held), json_read(encode_utf8(payload_or(w, "{}"@)))) {
            (Some(JsonView::Record(fields)), Some(JsonView::Record(set))) => exists|after: Seq<
                (Seq<char>, JsonView),
            >|
                {
                    &&& shown_bytes(w, or_sets, counters, Some(held)) == Some(
                        encode_utf8(#[trigger] json_text(JsonView::Record(after))),
                    )
                    &&& (forall|i: int| 0 <= i < set.len() ==> (#[trigger] set[i]).0 != name)
                        ==> member(after, name) == member(fields, name)
                },
            _ => shown_bytes(w, or_sets, counters, Some(held)) is None,
        },
{
    match (json_read(held), json_read(encode_utf8(payload_or(w, "{}"@)))) {
        (Some(JsonView::Record(fields)), Some(JsonView::Record(set))) => {
            law_patch_sets_its_columns_only(fields, set, name);
            let after = with_columns(fields, set);
            assert(shown_bytes(w, or_sets, counters, Some(held)) == Some(
                encode_utf8(json_text(JsonView::Record(after))),
            ));
        },
        _ => {},
    }
}

/// A later position is never stored as an earlier one.
pub proof fn law_stored_positions_keep_order(a: u64, b: u64)
    requires
        a <= b,
    ensures
        stored_position(a) <= stored_position(b),
{
}

} // verus!
