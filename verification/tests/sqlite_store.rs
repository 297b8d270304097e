//! What a store in SQLite is asked.

use nostos::counter::counter_value;
use nostos::crdt::present_elements;
use nostos::events::RowOp;
use nostos::lsn::Lsn;
use nostos::names::NameSet;
use nostos::outbox::{PendingWrite, WriteOp};
use nostos::sqlite_store::{
    attempts_of, batch_entries, bytes_of_value, checkpoint_text, dead_letter_statements,
    decode_columns, decode_payload, decode_pending, decode_pks, decode_rows, delete_statements,
    enqueue_statement, epoch_statement, error_of, horizon_statement, inserted_id,
    local_statement, migration, needs_existing, number_or_zero, principal_statement,
    view_statements, BatchAction, BatchEnqueue, BatchReply, SqlValue, ViewTable,
    SQL_ADD_DEAD_LETTERED_AT, SQL_ADD_LAST_ERROR, SQL_DELETE_UNCOND, SQL_ENQUEUE,
    SQL_SAVE_EPOCH, SQL_SAVE_HORIZON, SQL_SAVE_PRINCIPAL, SQL_SET_ASIDE,
    SQL_SET_ASIDE_WITH_ERROR, SQL_PATCH_ROW, SQL_SHOW_ROW,
};
use nostos::storage::StorageError;

fn text(s: &str) -> SqlValue {
    SqlValue::Text(s.to_string())
}

fn write(op: WriteOp, payload: Option<&str>) -> PendingWrite {
    PendingWrite {
        table: "t".to_string(),
        op,
        pk: "1".to_string(),
        payload_json: payload.map(str::to_string),
    }
}

fn names(list: &[&str]) -> NameSet {
    let owned: Vec<String> = list.iter().map(|s| (*s).to_string()).collect();
    NameSet::of(&owned)
}

#[test]
fn a_local_upsert_replaces_the_row() {
    let none = names(&[]);
    let w = write(WriteOp::Upsert, Some(r#"{"a":1}"#));
    assert!(!needs_existing(&w, &none, &none));
    let s = local_statement(&w, &none, &none, Some(b"old")).unwrap();
    assert_eq!(s.sql, SQL_SHOW_ROW);
    assert_eq!(
        s.bind,
        vec![text("t"), text("1"), SqlValue::Blob(br#"{"a":1}"#.to_vec())]
    );
    let s = local_statement(&write(WriteOp::Upsert, None), &none, &none, None).unwrap();
    assert_eq!(s.bind[2], SqlValue::Blob(b"null".to_vec()));
}

#[test]
fn a_local_upsert_merges_where_the_table_does() {
    let tagged = names(&["t"]);
    let none = names(&[]);
    let held = br#"{"entries":[{"r":"a","p":3,"n":0}]}"#;
    let w = write(WriteOp::Upsert, Some(r#"{"entries":[{"r":"b","p":4,"n":0}]}"#));
    assert!(needs_existing(&w, &none, &tagged));
    let s = local_statement(&w, &none, &tagged, Some(held.as_slice())).unwrap();
    assert_eq!(counter_value(&bytes_of_value(&s.bind[2])).unwrap(), 7);

    let held = br#"{"elements":[{"v":"x","h":{"wall_ms":1,"ctr":0}}]}"#;
    let w = write(
        WriteOp::Upsert,
        Some(r#"{"elements":[{"v":"y","h":{"wall_ms":2,"ctr":0}}]}"#),
    );
    assert!(needs_existing(&w, &tagged, &none));
    let s = local_statement(&w, &tagged, &none, Some(held.as_slice())).unwrap();
    assert_eq!(
        present_elements(&bytes_of_value(&s.bind[2])).unwrap(),
        vec!["x".to_string(), "y".to_string()]
    );
}

#[test]
fn other_local_writes() {
    let none = names(&[]);
    let s = local_statement(&write(WriteOp::Delete, None), &none, &none, None).unwrap();
    assert_eq!(s.sql, SQL_DELETE_UNCOND);
    assert_eq!(s.bind, vec![text("t"), text("1")]);
    assert!(local_statement(&write(WriteOp::Increment, None), &none, &none, None).is_none());
    let s = local_statement(&write(WriteOp::Increment, Some("{}")), &none, &none, None).unwrap();
    assert_eq!(s.sql, SQL_SHOW_ROW);
}

#[test]
fn a_local_patch_changes_its_columns_and_never_inserts() {
    let none = names(&[]);
    let w = write(WriteOp::Patch, Some(r#"{"b":3,"c":"x"}"#));
    assert!(needs_existing(&w, &none, &none));
    assert!(local_statement(&w, &none, &none, None).is_none());
    let s = local_statement(&w, &none, &none, Some(br#"{"a":1,"b":2}"#)).unwrap();
    assert_eq!(s.sql, SQL_PATCH_ROW);
    assert_eq!(
        s.bind,
        vec![
            text("t"),
            text("1"),
            SqlValue::Blob(br#"{"a":1,"b":3,"c":"x"}"#.to_vec())
        ]
    );
    assert!(local_statement(&w, &none, &none, Some(b"5")).is_none());
    let empty = write(WriteOp::Patch, None);
    let s = local_statement(&empty, &none, &none, Some(br#"{"a":1}"#)).unwrap();
    assert_eq!(s.bind[2], SqlValue::Blob(br#"{"a":1}"#.to_vec()));
}

#[test]
fn ids_and_numbers_in_answers() {
    assert_eq!(inserted_id(&SqlValue::Integer(7)).unwrap(), 7);
    assert_eq!(inserted_id(&text(" 8 ")).unwrap(), 8);
    for bad in [SqlValue::Integer(0), SqlValue::Null, SqlValue::Other, text("x")] {
        assert_eq!(
            inserted_id(&bad),
            Err(StorageError::Backend(
                "SQLite-WASM returned no outbox ID".to_string()
            ))
        );
    }
    assert_eq!(number_or_zero(&text("42")), 42);
    assert_eq!(number_or_zero(&SqlValue::Null), 0);
    assert_eq!(attempts_of(&SqlValue::Integer(3)), 3);
    assert_eq!(attempts_of(&SqlValue::Integer(4_294_967_296)), 0);
    assert_eq!(error_of(&text("refused")), Some("refused".to_string()));
    assert_eq!(error_of(&text("")), None);
    assert_eq!(error_of(&SqlValue::Null), None);
}

#[test]
fn a_queued_write_comes_back() {
    let w = write(WriteOp::Delete, None);
    let s = enqueue_statement(&w);
    assert_eq!(s.sql, SQL_ENQUEUE);
    assert_eq!(
        s.bind,
        vec![text("t"), text("delete"), text("1"), SqlValue::Null]
    );
    let mut row = vec![SqlValue::Integer(9)];
    row.extend(s.bind);
    assert_eq!(decode_pending(&vec![row]).unwrap(), vec![(9, w)]);
}

#[test]
fn waiting_rows_are_read_leniently_but_for_the_id() {
    let row = vec![text("5"), text("t"), text("merge"), SqlValue::Other, text("{}")];
    let got = decode_pending(&vec![row]).unwrap();
    assert_eq!(got[0].0, 5);
    assert_eq!(got[0].1.op, WriteOp::Upsert);
    assert_eq!(got[0].1.pk, "");
    assert_eq!(got[0].1.payload_json.as_deref(), Some("{}"));
    assert_eq!(
        decode_pending(&vec![vec![SqlValue::Null]]),
        Err(StorageError::Backend(
            "invalid SQLite-WASM outbox ID".to_string()
        ))
    );
}

fn run_statement(action: BatchAction) -> &'static str {
    match action {
        BatchAction::Run(s) => s.sql,
        BatchAction::ReadId => "id",
        BatchAction::Queued(_) => "queued",
        BatchAction::Refused(_) => "refused",
    }
}

#[test]
fn a_batch_is_queued_in_one_transaction() {
    let writes = vec![write(WriteOp::Upsert, None), write(WriteOp::Delete, None)];
    let (mut batch, first) = BatchEnqueue::start(writes);
    assert_eq!(run_statement(first), "BEGIN");
    assert_eq!(run_statement(batch.step(BatchReply::Ran)), SQL_ENQUEUE);
    assert_eq!(run_statement(batch.step(BatchReply::Ran)), "id");
    let next = batch.step(BatchReply::Read(SqlValue::Integer(1)));
    assert_eq!(run_statement(next), SQL_ENQUEUE);
    assert_eq!(run_statement(batch.step(BatchReply::Ran)), "id");
    let next = batch.step(BatchReply::Read(SqlValue::Integer(2)));
    assert_eq!(run_statement(next), "COMMIT");
    assert!(matches!(
        batch.step(BatchReply::Ran),
        BatchAction::Queued(ids) if ids == vec![1, 2]
    ));
}

#[test]
fn a_batch_that_fails_is_rolled_back() {
    let (mut batch, _) = BatchEnqueue::start(vec![write(WriteOp::Upsert, None)]);
    let _ = batch.step(BatchReply::Ran);
    let failed = StorageError::Backend("full".to_string());
    assert_eq!(
        run_statement(batch.step(BatchReply::Failed(failed))),
        "ROLLBACK"
    );
    let other = StorageError::Backend("gone".to_string());
    assert!(matches!(
        batch.step(BatchReply::Failed(other)),
        BatchAction::Refused(StorageError::Backend(e)) if e == "full"
    ));

    let (mut batch, _) = BatchEnqueue::start(vec![write(WriteOp::Upsert, None)]);
    let _ = batch.step(BatchReply::Ran);
    let _ = batch.step(BatchReply::Ran);
    assert_eq!(
        run_statement(batch.step(BatchReply::Read(SqlValue::Null))),
        "ROLLBACK"
    );
    assert!(matches!(
        batch.step(BatchReply::Ran),
        BatchAction::Refused(StorageError::Backend(e)) if e == "SQLite-WASM returned no outbox ID"
    ));

    let (_, first) = BatchEnqueue::start(Vec::new());
    assert!(matches!(first, BatchAction::Queued(ids) if ids.is_empty()));
}

#[test]
fn a_batch_of_operations_is_handed_over() {
    let ops = vec![
        (
            RowOp::Insert {
                table: "t".to_string(),
                pk: "1".to_string(),
                payload: b"x".to_vec(),
            },
            5,
        ),
        (
            RowOp::Delete {
                table: "t".to_string(),
                pk: "2".to_string(),
            },
            u64::MAX,
        ),
    ];
    let entries = batch_entries(&ops);
    assert_eq!(entries[0].kind, "insert");
    assert_eq!(entries[0].payload.as_deref(), Some(b"x".as_slice()));
    assert_eq!(entries[0].lsn, 5);
    assert_eq!(entries[1].kind, "delete");
    assert_eq!(entries[1].payload, None);
    assert_eq!(entries[1].lsn, i64::MAX);
    assert_eq!(checkpoint_text(Lsn::new(12)), "12");
}

#[test]
fn the_queue_is_migrated_once() {
    let rows = vec![
        vec![SqlValue::Integer(0), text("id")],
        vec![SqlValue::Integer(1), text("last_error")],
    ];
    assert_eq!(
        migration(&decode_columns(&rows)),
        vec![SQL_ADD_DEAD_LETTERED_AT]
    );
    assert_eq!(
        migration(&Vec::new()),
        vec![SQL_ADD_LAST_ERROR, SQL_ADD_DEAD_LETTERED_AT]
    );
    let all = vec!["last_error".to_string(), "dead_lettered_at".to_string()];
    assert!(migration(&all).is_empty());
}

#[test]
fn views_of_tables() {
    let tables = vec![ViewTable {
        name: "o'k".to_string(),
        columns: vec!["a".to_string(), "b".to_string()],
    }];
    assert_eq!(
        view_statements(&tables),
        vec![
            "DROP VIEW IF EXISTS o'k".to_string(),
            "CREATE VIEW o'k AS SELECT pk AS _pk, json_extract(payload, '$.a') AS a, \
             json_extract(payload, '$.b') AS b FROM nostos_data WHERE table_name = 'o''k'"
                .to_string(),
        ]
    );
}

#[test]
fn rows_and_keys_are_read_back() {
    let rows = vec![
        vec![text("1"), SqlValue::Blob(vec![1, 2])],
        vec![text("2"), text("hi")],
    ];
    assert_eq!(
        decode_rows(&rows),
        vec![
            ("1".to_string(), vec![1, 2]),
            ("2".to_string(), b"hi".to_vec())
        ]
    );
    assert_eq!(decode_pks(&rows), vec!["1".to_string(), "2".to_string()]);
    assert_eq!(
        decode_payload(&vec![vec![SqlValue::Blob(vec![7])]]),
        Some(vec![7])
    );
    assert_eq!(decode_payload(&Vec::new()), None);
}

#[test]
fn statements_about_the_place_and_the_queue() {
    let s = epoch_statement(3);
    assert_eq!((s.sql, s.bind), (SQL_SAVE_EPOCH, vec![text("3")]));
    let s = horizon_statement("105");
    assert_eq!(
        (s.sql, s.bind),
        (SQL_SAVE_HORIZON, vec![text("105"), text("105")])
    );
    let s = principal_statement("u1");
    assert_eq!((s.sql, s.bind), (SQL_SAVE_PRINCIPAL, vec![text("u1")]));
    let s = delete_statements("t", &vec!["1".to_string(), "2".to_string()]);
    assert_eq!(s.len(), 2);
    assert_eq!(s[1].sql, SQL_DELETE_UNCOND);
    assert_eq!(s[1].bind, vec![text("t"), text("2")]);
    let (full, short) = dead_letter_statements(4, Some("no"), 1_000);
    assert_eq!(full.sql, SQL_SET_ASIDE_WITH_ERROR);
    assert_eq!(
        full.bind,
        vec![SqlValue::Integer(4), text("no"), SqlValue::Integer(1_000)]
    );
    assert_eq!(short.sql, SQL_SET_ASIDE);
    assert_eq!(short.bind, vec![SqlValue::Integer(4)]);
}
