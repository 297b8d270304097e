//! The store in memory.

use nostos::counter::counter_value;
use nostos::crdt::present_elements;
use nostos::events::RowOp;
use nostos::in_memory::InMemoryStorage;
use nostos::lsn::Lsn;
use nostos::names::NameSet;
use nostos::outbox::{Outbox, PendingWrite, WriteOp};
use nostos::storage::Storage;

fn ins(table: &str, pk: &str, payload: &[u8]) -> RowOp {
    RowOp::Insert {
        table: table.into(),
        pk: pk.into(),
        payload: payload.to_vec(),
    }
}

fn empty_snap() -> NameSet {
    NameSet::new()
}

#[test]
fn fresh_checkpoint_is_zero() {
    let s = InMemoryStorage::new();
    assert_eq!(s.checkpoint().unwrap(), Lsn::zero());
    assert_eq!(s.row_count(), 0);
}

#[test]
fn apply_inserts_rows_and_advances_checkpoint() {
    let mut s = InMemoryStorage::new();
    let ops = [
        (ins("tasks", "1", b"alice"), 100),
        (ins("tasks", "2", b"bob"), 100),
    ];
    s.apply_batch(&ops, Lsn::new(100), &empty_snap()).unwrap();

    assert_eq!(s.checkpoint().unwrap(), Lsn::new(100));
    assert_eq!(s.row_count(), 2);
    assert_eq!(s.payload("tasks", "1"), Some(b"alice" as &[u8]));
    assert_eq!(s.payload("tasks", "2"), Some(b"bob" as &[u8]));
}

#[test]
fn apply_is_idempotent_reapply_is_noop_equivalent() {
    let mut s = InMemoryStorage::new();

    s.apply_batch(
        &[(ins("tasks", "1", b"v1"), 10)],
        Lsn::new(10),
        &empty_snap(),
    )
    .unwrap();
    s.apply_batch(
        &[(ins("tasks", "1", b"v1"), 10)],
        Lsn::new(10),
        &empty_snap(),
    )
    .unwrap();

    assert_eq!(s.row_count(), 1, "no duplicate row");
    assert_eq!(s.payload("tasks", "1"), Some(b"v1" as &[u8]));
}

#[test]
fn update_overwrites_payload_by_pk() {
    let mut s = InMemoryStorage::new();
    s.apply_batch(
        &[(ins("tasks", "1", b"v1"), 10)],
        Lsn::new(10),
        &empty_snap(),
    )
    .unwrap();
    s.apply_batch(
        &[(
            RowOp::Update {
                table: "tasks".into(),
                pk: "1".into(),
                payload: b"v2".to_vec(),
            },
            20,
        )],
        Lsn::new(20),
        &empty_snap(),
    )
    .unwrap();

    assert_eq!(s.row_count(), 1);
    assert_eq!(s.payload("tasks", "1"), Some(b"v2" as &[u8]));
    assert_eq!(s.checkpoint().unwrap(), Lsn::new(20));
}

#[test]
fn delete_removes_row() {
    let mut s = InMemoryStorage::new();
    s.apply_batch(
        &[(ins("tasks", "1", b"x"), 10)],
        Lsn::new(10),
        &empty_snap(),
    )
    .unwrap();
    s.apply_batch(
        &[(
            RowOp::Delete {
                table: "tasks".into(),
                pk: "1".into()
            },
            20,
        )],
        Lsn::new(20),
        &empty_snap(),
    )
    .unwrap();

    assert_eq!(s.row_count(), 0);
    assert!(s.payload("tasks", "1").is_none());
    assert_eq!(s.checkpoint().unwrap(), Lsn::new(20));
}

#[test]
fn checkpoint_is_monotonic_lower_lsn_does_not_regress() {
    let mut s = InMemoryStorage::new();
    s.apply_batch(
        &[(ins("tasks", "1", b"x"), 100)],
        Lsn::new(100),
        &empty_snap(),
    )
    .unwrap();
    s.apply_batch(
        &[(ins("tasks", "2", b"y"), 50)],
        Lsn::new(50),
        &empty_snap(),
    )
    .unwrap();

    assert_eq!(
        s.checkpoint().unwrap(),
        Lsn::new(100),
        "checkpoint never regresses"
    );
    assert_eq!(s.row_count(), 2);
}

#[test]
fn empty_batch_advances_checkpoint_only() {
    let mut s = InMemoryStorage::new();
    s.apply_batch(&[], Lsn::new(42), &empty_snap()).unwrap();
    assert_eq!(s.checkpoint().unwrap(), Lsn::new(42));
    assert_eq!(s.row_count(), 0);
}

#[test]
fn delete_of_missing_row_is_a_noop() {
    let mut s = InMemoryStorage::new();
    s.apply_batch(
        &[(
            RowOp::Delete {
                table: "tasks".into(),
                pk: "never-existed".into()
            },
            5,
        )],
        Lsn::new(5),
        &empty_snap(),
    )
    .unwrap();
    assert_eq!(s.row_count(), 0);
    assert_eq!(s.checkpoint().unwrap(), Lsn::new(5));
}

#[test]
fn rows_for_returns_inserted_rows_in_pk_order() {
    let mut s = InMemoryStorage::new();
    let ops = [
        (ins("tasks", "2", b"bob"), 10),
        (ins("tasks", "1", b"alice"), 10),
        (ins("users", "9", b"carol"), 10),
    ];
    s.apply_batch(&ops, Lsn::new(10), &empty_snap()).unwrap();

    let rows = s.rows_for("tasks");
    assert_eq!(
        rows,
        vec![
            ("1".to_string(), b"alice".to_vec()),
            ("2".to_string(), b"bob".to_vec()),
        ],
        "sorted by pk, excludes other tables"
    );

    assert!(s.rows_for("absent").is_empty());
}

#[test]
fn in_memory_rows_for_excludes_deleted_rows() {
    let mut s = InMemoryStorage::new();
    s.apply_batch(
        &[
            (ins("tasks", "1", b"keep"), 10),
            (ins("tasks", "2", b"drop"), 10),
        ],
        Lsn::new(10),
        &empty_snap(),
    )
    .unwrap();
    s.apply_batch(
        &[(
            RowOp::Delete {
                table: "tasks".into(),
                pk: "2".into()
            },
            20,
        )],
        Lsn::new(20),
        &empty_snap(),
    )
    .unwrap();

    let rows = s.rows_for("tasks");
    assert_eq!(rows, vec![("1".to_string(), b"keep".to_vec())]);
}

#[test]
fn rows_for_reflects_update_in_place() {
    let mut s = InMemoryStorage::new();
    s.apply_batch(
        &[(ins("tasks", "1", b"v1"), 10)],
        Lsn::new(10),
        &empty_snap(),
    )
    .unwrap();
    s.apply_batch(
        &[(
            RowOp::Update {
                table: "tasks".into(),
                pk: "1".into(),
                payload: b"v2".to_vec(),
            },
            20,
        )],
        Lsn::new(20),
        &empty_snap(),
    )
    .unwrap();

    let rows = s.rows_for("tasks");
    assert_eq!(rows, vec![("1".to_string(), b"v2".to_vec())]);
}

#[test]
fn stale_delete_is_gated_out_and_row_survives() {
    let mut s = InMemoryStorage::new();
    s.apply_batch(
        &[(ins("tasks", "1", b"new"), 160)],
        Lsn::new(160),
        &empty_snap(),
    )
    .unwrap();
    s.apply_batch(
        &[(
            RowOp::Delete {
                table: "tasks".into(),
                pk: "1".into()
            },
            140,
        )],
        Lsn::new(160),
        &empty_snap(),
    )
    .unwrap();
    assert_eq!(
        s.payload("tasks", "1"),
        Some(b"new" as &[u8]),
        "stale delete gated out — newer row survives"
    );
    assert_eq!(s.row_count(), 1);
}

#[test]
fn snapshot_table_overwrites_despite_lower_lsn() {
    let mut s = InMemoryStorage::new();
    s.apply_batch(
        &[(ins("tasks", "1", b"real"), 9_000)],
        Lsn::new(9_000),
        &empty_snap(),
    )
    .unwrap();
    let snap = NameSet::of(&["tasks".to_string()]);
    s.apply_batch(&[(ins("tasks", "1", b"snap"), 5)], Lsn::new(9_000), &snap)
        .unwrap();
    assert_eq!(
        s.payload("tasks", "1"),
        Some(b"snap" as &[u8]),
        "snapshot row applies unconditionally despite lower lsn"
    );
}

#[test]
fn clear_resets_to_fresh_client_state() {
    let mut s = InMemoryStorage::new();
    s.apply_batch(
        &[(ins("tasks", "1", b"alice"), 100)],
        Lsn::new(100),
        &empty_snap(),
    )
    .unwrap();
    s.enqueue(PendingWrite {
        table: "tasks".into(),
        op: WriteOp::Upsert,
        pk: "2".into(),
        payload_json: Some(r#"{"title":"b"}"#.into()),
    })
    .unwrap();
    assert_eq!(s.row_count(), 1);
    assert_eq!(s.checkpoint().unwrap(), Lsn::new(100));
    assert_eq!(s.outbox_len(), 1);

    Storage::clear(&mut s).unwrap();

    assert_eq!(s.row_count(), 0, "rows cleared");
    assert_eq!(
        s.checkpoint().unwrap(),
        Lsn::zero(),
        "checkpoint reset to 0 — the resume-without-snapshot guard",
    );
    assert_eq!(s.outbox_len(), 0, "outbox cleared");
}

fn or_set_store() -> InMemoryStorage {
    let tables: NameSet = NameSet::of(&["tags".to_string()]);
    InMemoryStorage::new().with_or_set_tables(tables)
}

fn counter_store() -> InMemoryStorage {
    let tables: NameSet = NameSet::of(&["counts".to_string()]);
    InMemoryStorage::new().with_counter_tables(tables)
}

#[test]
fn or_set_table_merges_concurrent_adds() {
    let mut s = or_set_store();
    let x = br#"{"elements":[{"v":"x","h":{"wall_ms":10,"ctr":0}}]}"#;
    let y = br#"{"elements":[{"v":"y","h":{"wall_ms":10,"ctr":1}}]}"#;
    s.apply_batch(&[(ins("tags", "s1", x), 1)], Lsn::new(1), &empty_snap())
        .unwrap();
    s.apply_batch(&[(ins("tags", "s1", y), 2)], Lsn::new(2), &empty_snap())
        .unwrap();
    let mut present =
        present_elements(s.payload("tags", "s1").unwrap()).unwrap();
    present.sort();
    assert_eq!(present, vec!["x".to_string(), "y".to_string()]);
}

#[test]
fn or_set_apply_local_merges_optimistic_add() {
    let mut s = or_set_store();
    let x = br#"{"elements":[{"v":"x","h":{"wall_ms":10,"ctr":0}}]}"#;
    s.apply_batch(&[(ins("tags", "s1", x), 1)], Lsn::new(1), &empty_snap())
        .unwrap();
    s.apply_local(&PendingWrite {
        table: "tags".into(),
        op: WriteOp::Upsert,
        pk: "s1".into(),
        payload_json: Some(r#"{"elements":[{"v":"y","h":{"wall_ms":10,"ctr":1}}]}"#.into()),
    })
    .unwrap();
    let mut present =
        present_elements(s.payload("tags", "s1").unwrap()).unwrap();
    present.sort();
    assert_eq!(present, vec!["x".to_string(), "y".to_string()]);
}

#[test]
fn ordinary_table_still_clobbers_last_wins() {
    let mut s = InMemoryStorage::new();
    s.apply_batch(&[(ins("tasks", "1", b"v1"), 1)], Lsn::new(1), &empty_snap())
        .unwrap();
    s.apply_batch(&[(ins("tasks", "1", b"v2"), 2)], Lsn::new(2), &empty_snap())
        .unwrap();
    assert_eq!(s.payload("tasks", "1"), Some(b"v2" as &[u8]));
}

#[test]
fn counter_table_merges_concurrent_increments_from_two_replicas() {
    let mut s = counter_store();
    let a = br#"{"entries":[{"r":"A","p":3,"n":0}]}"#;
    let b = br#"{"entries":[{"r":"B","p":5,"n":2}]}"#;
    let a2 = br#"{"entries":[{"r":"A","p":4,"n":0}]}"#;
    s.apply_batch(&[(ins("counts", "c1", a), 1)], Lsn::new(1), &empty_snap())
        .unwrap();
    s.apply_batch(&[(ins("counts", "c1", b), 2)], Lsn::new(2), &empty_snap())
        .unwrap();
    s.apply_batch(&[(ins("counts", "c1", a2), 3)], Lsn::new(3), &empty_snap())
        .unwrap();
    let merged = s.payload("counts", "c1").unwrap();
    let value = counter_value(merged).unwrap();
    assert_eq!(value, 7, "3 (A) + 1 (A bump) + 5 (B) − 2 (B) = 7");
}

#[test]
fn counter_apply_local_merges_optimistic_increment() {
    let mut s = counter_store();
    let a = br#"{"entries":[{"r":"A","p":3,"n":0}]}"#;
    s.apply_batch(&[(ins("counts", "c1", a), 1)], Lsn::new(1), &empty_snap())
        .unwrap();
    s.apply_local(&PendingWrite {
        table: "counts".into(),
        op: WriteOp::Upsert,
        pk: "c1".into(),
        payload_json: Some(r#"{"entries":[{"r":"B","p":5,"n":0}]}"#.into()),
    })
    .unwrap();
    let merged = s.payload("counts", "c1").unwrap();
    let value = counter_value(merged).unwrap();
    assert_eq!(value, 8, "3 (A server) + 5 (B optimistic) = 8");
}
