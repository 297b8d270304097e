//! The client engine.

use std::sync::atomic::{AtomicU64, Ordering};
use std::time::{SystemTime, UNIX_EPOCH};

use nostos::apply::Frame;
use nostos::counter::{counter_value, merge_counter_or_lww};
use nostos::crdt::present_elements;
use nostos::engine::{parse_op, replica_id, NostosEngine};
use nostos::in_memory::InMemoryStorage;
use nostos::outbox::{Outbox, PendingWrite, WriteOp};
use nostos::storage::Storage;

type Engine = NostosEngine<InMemoryStorage>;

fn engine() -> Engine {
    static MADE: AtomicU64 = AtomicU64::new(0);
    NostosEngine::new(replica_id(now_ms(), MADE.fetch_add(1, Ordering::Relaxed)))
}

fn now_ms() -> u64 {
    SystemTime::now()
        .duration_since(UNIX_EPOCH)
        .map_or(0, |d| d.as_millis() as u64)
}

fn frame(
    lsn: u64,
    op: &str,
    table: &str,
    pk: &str,
    payload: Option<Vec<u8>>,
    txn_id: Option<u64>,
) -> Frame {
    Frame {
        lsn,
        op: parse_op(op),
        table: table.to_string(),
        pk: pk.to_string(),
        payload,
        txn_id,
    }
}

#[test]
fn fresh_engine_has_no_where_sql() {
    let eng = engine();
    assert!(eng.where_sql().is_none());
}

#[test]
fn set_where_sql_round_trips() {
    let mut eng = engine();
    eng.set_where_sql(Some("priority > 5".into()));
    assert_eq!(eng.where_sql(), Some("priority > 5".to_string()));
}

#[test]
fn set_where_sql_none_clears() {
    let mut eng = engine();
    eng.set_where_sql(Some("priority > 5".into()));
    eng.set_where_sql(None);
    assert!(eng.where_sql().is_none());
}

#[test]
fn set_where_sql_empty_string_is_treated_as_none() {
    let mut eng = engine();
    eng.set_where_sql(Some(String::new()));
    assert!(eng.where_sql().is_none());
}

fn feed_ins(eng: &mut Engine, lsn: u64, table: &str, pk: &str, payload: &[u8]) {
    let frame = frame(lsn, "insert", table, pk, Some(payload.to_vec()), None);
    assert!(eng.feed(frame).unwrap().is_none());
}

#[test]
fn rows_for_returns_flushed_rows_in_pk_order() {
    let mut eng = engine();
    feed_ins(&mut eng, 10, "tasks", "2", b"bob");
    feed_ins(&mut eng, 20, "tasks", "1", b"alice");
    feed_ins(&mut eng, 30, "users", "9", b"carol");
    eng.flush().unwrap();

    let rows = eng.rows_for("tasks");
    assert_eq!(rows.len(), 2);
    assert_eq!(rows[0].0, "1");
    assert_eq!(rows[0].1, b"alice");
    assert_eq!(rows[1].0, "2");
    assert_eq!(rows[1].1, b"bob");

    assert!(eng.rows_for("absent").is_empty());
}

#[test]
fn clear_wipes_in_memory_rows() {
    let mut eng = engine();
    feed_ins(&mut eng, 10, "tasks", "1", b"alice");
    feed_ins(&mut eng, 20, "tasks", "2", b"bob");
    eng.flush().unwrap();
    assert_eq!(eng.row_count(), 2, "seeded");
    eng.clear();
    assert_eq!(eng.row_count(), 0, "clear wiped rows");
    assert!(eng.rows_for("tasks").is_empty());
}

#[test]
fn rows_for_empty_before_any_flush() {
    let mut eng = engine();
    feed_ins(&mut eng, 10, "tasks", "1", b"x");
    assert!(
        eng.rows_for("tasks").is_empty(),
        "buffered, not yet applied"
    );
    eng.flush().unwrap();
    assert_eq!(eng.rows_for("tasks").len(), 1);
}

#[test]
fn lib_rows_for_excludes_deleted_rows() {
    let mut eng = engine();
    feed_ins(&mut eng, 10, "tasks", "1", b"keep");
    feed_ins(&mut eng, 20, "tasks", "2", b"drop");
    eng.flush().unwrap();

    let del = frame(30, "delete", "tasks", "2", None, None);
    eng.feed(del).unwrap();
    eng.flush().unwrap();

    let rows = eng.rows_for("tasks");
    assert_eq!(rows.len(), 1);
    assert_eq!(rows[0].0, "1");
    assert_eq!(rows[0].1, b"keep");
}

#[test]
fn set_crdt_tables_enables_counter_merge() {
    let mut eng = engine();
    let s = eng.apply_engine().storage_mut();
    let _ = s.enqueue(PendingWrite {
        table: "counters".into(),
        op: WriteOp::Upsert,
        pk: "c1".into(),
        payload_json: Some(r#"{"entries":[{"r":"a","p":5,"n":0}]}"#.into()),
    });
    let _ = s.apply_local(&PendingWrite {
        table: "counters".into(),
        op: WriteOp::Upsert,
        pk: "c1".into(),
        payload_json: Some(r#"{"entries":[{"r":"b","p":3,"n":0}]}"#.into()),
    });
    let payload = eng.held().read_payload("counters", "c1").unwrap();
    let value = counter_value(&payload.unwrap()).unwrap();
    assert_eq!(value, 3, "untagged: last-writer-wins (clobber)");

    eng.set_crdt_tables(vec![], vec!["counters".into()]);
    let s = eng.apply_engine().storage_mut();
    let _ = s.apply_local(&PendingWrite {
        table: "counters".into(),
        op: WriteOp::Upsert,
        pk: "c1".into(),
        payload_json: Some(r#"{"entries":[{"r":"a","p":10,"n":0}]}"#.into()),
    });
    let payload = eng.held().read_payload("counters", "c1").unwrap();
    let value = counter_value(&payload.unwrap()).unwrap();
    assert_eq!(value, 13, "tagged: merged per-replica max (3 + 10 = 13)");
}

#[test]
fn or_set_add_renders_element_locally() {
    let mut eng = engine();
    eng.set_crdt_tables(vec!["tags".into()], vec![]);
    let id = eng.or_set_add("tags", "row1", "alice", now_ms()).unwrap();
    assert!(id > 0, "orSetAdd returned a positive outbox id");

    let payload = eng.read_payload("tags", "row1").unwrap().unwrap();
    let present = present_elements(&payload).unwrap();
    assert!(
        present.contains(&"alice".to_string()),
        "element 'alice' is present after orSetAdd"
    );
}

#[test]
fn or_set_remove_tombstones_element() {
    let mut eng = engine();
    eng.set_crdt_tables(vec!["tags".into()], vec![]);
    eng.or_set_add("tags", "row1", "bob", now_ms()).unwrap();
    let payload = eng.read_payload("tags", "row1").unwrap().unwrap();
    assert!(
        present_elements(&payload)
            .unwrap()
            .contains(&"bob".to_string()),
        "element 'bob' present after add"
    );
    eng.or_set_remove("tags", "row1", "bob", now_ms()).unwrap();
    let payload = eng.read_payload("tags", "row1").unwrap().unwrap();
    let present = present_elements(&payload).unwrap();
    assert!(
        !present.contains(&"bob".to_string()),
        "element 'bob' absent after remove"
    );
}

#[test]
fn counter_increment_accumulates_same_replica() {
    let mut eng = engine();
    eng.set_crdt_tables(vec![], vec!["likes".into()]);

    eng.counter_increment("likes", "post1", 5).unwrap();
    let payload = eng.read_payload("likes", "post1").unwrap().unwrap();
    let v1 = counter_value(&payload).unwrap();
    assert_eq!(v1, 5, "first increment: value = 5");

    eng.counter_increment("likes", "post1", 3).unwrap();
    let payload = eng.read_payload("likes", "post1").unwrap().unwrap();
    let v2 = counter_value(&payload).unwrap();
    assert_eq!(v2, 8, "second increment: RMW accumulates (5 + 3 = 8)");
}

#[test]
fn counter_decrement_subtracts_value() {
    let mut eng = engine();
    eng.set_crdt_tables(vec![], vec!["score".into()]);
    eng.counter_increment("score", "g1", 10).unwrap();
    eng.counter_decrement("score", "g1", 4).unwrap();
    let payload = eng.read_payload("score", "g1").unwrap().unwrap();
    let v = counter_value(&payload).unwrap();
    assert_eq!(v, 6, "increment 10 - decrement 4 = 6");
}

#[test]
fn counter_increment_multiple_replicas_merge() {
    let mut eng1 = engine();
    eng1.set_crdt_tables(vec![], vec!["views".into()]);
    eng1.counter_increment("views", "page", 7).unwrap();

    let payload1 = eng1.read_payload("views", "page").unwrap().unwrap();

    let mut eng2 = engine();
    eng2.set_crdt_tables(vec![], vec!["views".into()]);
    eng2.counter_increment("views", "page", 3).unwrap();

    let payload2 = eng2.read_payload("views", "page").unwrap().unwrap();
    let merged = merge_counter_or_lww(&payload1, &payload2);
    let total = counter_value(&merged).unwrap();
    assert_eq!(total, 10, "merged counter = 7 + 3 = 10");
}

#[test]
fn enqueue_batch_returns_ids_in_order() {
    let mut eng = engine();
    let writes = vec![
        PendingWrite {
            table: "t".into(),
            op: WriteOp::Upsert,
            pk: "1".into(),
            payload_json: Some(r#"{"v":1}"#.into()),
        },
        PendingWrite {
            table: "t".into(),
            op: WriteOp::Upsert,
            pk: "2".into(),
            payload_json: Some(r#"{"v":2}"#.into()),
        },
        PendingWrite {
            table: "t".into(),
            op: WriteOp::Upsert,
            pk: "3".into(),
            payload_json: Some(r#"{"v":3}"#.into()),
        },
    ];
    let ids = eng.apply_engine().storage_mut().enqueue_batch(writes).unwrap();
    assert_eq!(ids.len(), 3, "batch returned 3 ids");
    assert!(ids[0] < ids[1] && ids[1] < ids[2], "ids are ascending");
    let pending = eng.held().pending().unwrap();
    assert_eq!(pending.len(), 3, "all 3 writes pending");
}

#[test]
fn read_payload_returns_none_for_absent_row() {
    let eng = engine();
    let result = eng.read_payload("absent", "x").unwrap();
    assert!(result.is_none(), "absent row → None");
}

#[test]
fn read_payload_returns_bytes_after_apply() {
    let mut eng = engine();
    let s = eng.apply_engine().storage_mut();
    let _ = s.enqueue(PendingWrite {
        table: "t".into(),
        op: WriteOp::Upsert,
        pk: "k".into(),
        payload_json: Some(r#"{"hello":"world"}"#.into()),
    });
    let _ = s.apply_local(&PendingWrite {
        table: "t".into(),
        op: WriteOp::Upsert,
        pk: "k".into(),
        payload_json: Some(r#"{"hello":"world"}"#.into()),
    });
    let bytes = eng.read_payload("t", "k").unwrap().unwrap();
    let json: serde_json::Value = serde_json::from_slice(&bytes).unwrap();
    assert_eq!(json["hello"], "world");
}

#[test]
fn query_on_memory_returns_empty_array() {
    let eng = engine();
    let result = eng.query("SELECT * FROM tasks");
    assert_eq!(result, "[]", "Memory backend has no SQL → empty array");
}

#[test]
fn pending_count_reflects_enqueued_writes() {
    let mut eng = engine();
    assert_eq!(eng.pending_count(), 0, "fresh engine: 0 pending");
    let s = eng.apply_engine().storage_mut();
    let _ = s.enqueue(PendingWrite {
        table: "t".into(),
        op: WriteOp::Upsert,
        pk: "1".into(),
        payload_json: Some(r"{}".into()),
    });
    let _ = s.enqueue(PendingWrite {
        table: "t".into(),
        op: WriteOp::Upsert,
        pk: "2".into(),
        payload_json: Some(r"{}".into()),
    });
    assert_eq!(eng.pending_count(), 2, "2 writes enqueued");
}

#[test]
fn replica_id_is_unique_per_engine() {
    let eng1 = engine();
    let eng2 = engine();
    assert_ne!(
        eng1.replica_name(),
        eng2.replica_name(),
        "two engines have distinct replica ids"
    );
}

#[test]
fn hlc_state_advances_monotonically() {
    let mut eng = engine();
    let h1 = eng.mint_hlc(now_ms());
    let h2 = eng.mint_hlc(now_ms());
    assert!(h2 > h1, "second mint > first (monotonic HLC)");
}
