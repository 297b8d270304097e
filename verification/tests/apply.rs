//! From frames to commits.

use nostos::apply::{ApplyEngine, Frame};
use nostos::events::{Operation, RowOp};
use nostos::in_memory::InMemoryStorage;
use nostos::lsn::Lsn;
use nostos::names::NameSet;
use nostos::outbox::{Outbox, PendingWrite, WriteOp};
use nostos::storage::Storage;

fn frame(lsn: u64, pk: &str, txn: Option<u64>) -> Frame {
    Frame {
        lsn,
        op: Operation::Insert,
        table: "tasks".into(),
        pk: pk.into(),
        payload: Some(format!("payload-{pk}").into_bytes()),
        txn_id: txn,
    }
}

fn into_op(f: Frame) -> RowOp {
    f.into_row_op()
}

#[test]
fn frame_into_insert_carries_payload() {
    let f = Frame {
        lsn: 1,
        op: Operation::Insert,
        table: "t".into(),
        pk: "1".into(),
        payload: Some(b"hello".to_vec()),
        txn_id: None,
    };
    let RowOp::Insert { table, pk, payload } = f.into_row_op() else {
        panic!("expected Insert");
    };
    assert_eq!(table, "t");
    assert_eq!(pk, "1");
    assert_eq!(payload.as_slice(), b"hello");
}

#[test]
fn frame_into_delete_drops_payload() {
    let f = Frame {
        lsn: 1,
        op: Operation::Delete,
        table: "t".into(),
        pk: "9".into(),
        payload: Some(b"ignored".to_vec()),
        txn_id: None,
    };
    assert!(matches!(f.into_row_op(), RowOp::Delete { .. }));
}

#[test]
fn frames_in_one_txn_buffer_until_txn_closes() {
    let mut engine = ApplyEngine::new(InMemoryStorage::new());

    assert!(engine.feed(frame(10, "1", Some(7))).unwrap().is_none());
    assert!(engine.feed(frame(11, "2", Some(7))).unwrap().is_none());
    assert!(engine.feed(frame(12, "3", Some(7))).unwrap().is_none());

    let outcome = engine
        .feed(frame(13, "4", None))
        .unwrap()
        .expect("txn boundary flush");
    assert_eq!(outcome.rows_applied, 3);
    assert_eq!(outcome.checkpoint, Lsn::new(12));

    let storage = engine.into_storage();
    assert_eq!(storage.row_count(), 3, "the 4th frame is still pending");
}

#[test]
fn soft_cap_flushes_non_transactional_stream() {
    let mut engine = ApplyEngine::with_max_batch(InMemoryStorage::new(), 3);

    assert!(engine.feed(frame(1, "a", None)).unwrap().is_none());
    assert!(engine.feed(frame(2, "b", None)).unwrap().is_none());
    let outcome = engine
        .feed(frame(3, "c", None))
        .unwrap()
        .expect("cap flush");
    assert_eq!(outcome.rows_applied, 3);
    assert_eq!(outcome.checkpoint, Lsn::new(3));

    let storage = engine.into_storage();
    assert_eq!(storage.row_count(), 3);
    assert_eq!(storage.checkpoint().unwrap(), Lsn::new(3));
}

#[test]
fn flush_drains_pending_and_advances_checkpoint() {
    let mut engine = ApplyEngine::new(InMemoryStorage::new());
    engine.feed(frame(10, "1", None)).unwrap();
    engine.feed(frame(20, "2", None)).unwrap();

    let outcome = engine.flush().unwrap().expect("had pending");
    assert_eq!(outcome.rows_applied, 2);
    assert_eq!(outcome.checkpoint, Lsn::new(20));

    assert!(engine.flush().unwrap().is_none());
}

#[test]
fn flush_empty_returns_none_without_error() {
    let mut engine = ApplyEngine::new(InMemoryStorage::new());
    assert!(engine.flush().unwrap().is_none());
}

#[test]
fn resume_after_flush_only_fetches_new_frames() {
    let mut engine = ApplyEngine::with_max_batch(InMemoryStorage::new(), 2);
    engine.feed(frame(10, "a", None)).unwrap();
    engine.feed(frame(20, "b", None)).unwrap();

    let checkpoint = engine.checkpoint().unwrap();
    assert_eq!(
        checkpoint,
        Lsn::new(20),
        "durable checkpoint reflects applied frames"
    );

    engine.feed(frame(30, "c", None)).unwrap();
    engine.flush().unwrap();
    let storage = engine.into_storage();
    assert_eq!(storage.row_count(), 3);
    assert_eq!(storage.checkpoint().unwrap(), Lsn::new(30));
}

#[test]
fn engine_seeds_high_water_from_storage_checkpoint() {
    let mut storage = InMemoryStorage::new();
    storage
        .apply_batch(
            &[(
                RowOp::Insert {
                    table: "tasks".into(),
                    pk: "1".into(),
                    payload: b"x".to_vec(),
                },
                500,
            )],
            Lsn::new(500),
            &NameSet::new(),
        )
        .unwrap();

    let engine = ApplyEngine::new(storage);
    assert_eq!(engine.high_water(), Lsn::new(500));
}

#[test]
fn idempotent_reapply_via_reconnect_replay_is_safe() {
    let mut engine = ApplyEngine::with_max_batch(InMemoryStorage::new(), 100);

    for i in 1..=5 {
        engine.feed(frame(i * 10, &i.to_string(), None)).unwrap();
    }
    engine.flush().unwrap();
    let storage = engine.into_storage();
    assert_eq!(storage.row_count(), 5);
    assert_eq!(storage.checkpoint().unwrap(), Lsn::new(50));

    let mut replay = InMemoryStorage::new();
    replay
        .apply_batch(
            &[(
                RowOp::Insert {
                    table: "tasks".into(),
                    pk: "1".into(),
                    payload: b"payload-1".to_vec(),
                },
                50,
            )],
            Lsn::new(50),
            &NameSet::new(),
        )
        .unwrap();
    let mut engine2 = ApplyEngine::with_max_batch(replay, 100);
    for i in 1..=5 {
        engine2.feed(frame(i * 10, &i.to_string(), None)).unwrap();
    }
    engine2.flush().unwrap();
    let replayed = engine2.into_storage();
    assert_eq!(
        replayed.row_count(),
        5,
        "idempotent re-apply did not duplicate rows"
    );
}

#[test]
fn has_pending_reflects_buffered_state() {
    let mut engine = ApplyEngine::new(InMemoryStorage::new());
    assert!(!engine.has_pending(), "nothing fed yet");

    engine.feed(frame(10, "1", Some(7))).unwrap();
    assert!(engine.has_pending(), "a txn frame is buffered");

    engine.feed(frame(11, "2", Some(7))).unwrap();
    assert!(engine.has_pending(), "still accumulating the same txn");

    engine.flush().unwrap();
    assert!(!engine.has_pending(), "explicit flush drains the buffer");
}

#[test]
fn has_pending_true_after_a_boundary_flush_that_buffers_the_next_frame() {
    let mut engine = ApplyEngine::new(InMemoryStorage::new());
    engine.feed(frame(10, "1", Some(7))).unwrap();
    let outcome = engine.feed(frame(20, "2", Some(8))).unwrap();
    assert!(outcome.is_some(), "txn 7 closed on this call");
    assert!(
        engine.has_pending(),
        "frame 2 (txn 8) is buffered by the same call"
    );
}

#[test]
fn into_op_helper_is_wired() {
    let op = into_op(frame(1, "x", None));
    assert!(matches!(op, RowOp::Insert { .. }));
}

#[test]
fn snapshot_reconcile_removes_orphans_absent_from_snapshot() {
    let mut storage = InMemoryStorage::new();
    storage
        .apply_batch(
            &[(
                RowOp::Insert {
                    table: "T".into(),
                    pk: "A".into(),
                    payload: b"old".to_vec(),
                },
                1,
            )],
            Lsn::new(1),
            &NameSet::new(),
        )
        .unwrap();

    let mut engine = ApplyEngine::new(storage);

    engine.snapshot_boundary("T", true, &[]).unwrap();
    engine
        .feed(Frame {
            lsn: 2,
            op: Operation::Insert,
            table: "T".into(),
            pk: "B".into(),
            payload: Some(b"new".to_vec()),
            txn_id: None,
        })
        .unwrap();
    engine.snapshot_boundary("T", false, &[]).unwrap();
    engine.flush().unwrap();

    let storage = engine.into_storage();
    assert!(
        storage.payload("T", "A").is_none(),
        "orphan pk A (absent from snapshot) must be reaped"
    );
    assert_eq!(
        storage.payload("T", "B"),
        Some(b"new" as &[u8]),
        "snapshot row B must be present"
    );
}

#[test]
fn live_upsert_outside_snapshot_does_not_reconcile() {
    let mut storage = InMemoryStorage::new();
    storage
        .apply_batch(
            &[
                (
                    RowOp::Insert {
                        table: "T".into(),
                        pk: "A".into(),
                        payload: b"a".to_vec(),
                    },
                    1,
                ),
                (
                    RowOp::Insert {
                        table: "T".into(),
                        pk: "B".into(),
                        payload: b"b".to_vec(),
                    },
                    1,
                ),
            ],
            Lsn::new(1),
            &NameSet::new(),
        )
        .unwrap();

    let mut engine = ApplyEngine::new(storage);
    engine
        .feed(Frame {
            lsn: 2,
            op: Operation::Insert,
            table: "T".into(),
            pk: "C".into(),
            payload: Some(b"c".to_vec()),
            txn_id: None,
        })
        .unwrap();
    engine.flush().unwrap();

    let storage = engine.into_storage();
    assert_eq!(storage.payload("T", "A"), Some(b"a" as &[u8]));
    assert_eq!(storage.payload("T", "B"), Some(b"b" as &[u8]));
    assert_eq!(storage.payload("T", "C"), Some(b"c" as &[u8]));
    assert_eq!(
        storage.row_count(),
        3,
        "no false deletes outside a snapshot window"
    );
}

#[test]
fn snapshot_window_received_row_is_protected_from_reap() {
    let mut storage = InMemoryStorage::new();
    storage
        .apply_batch(
            &[
                (
                    RowOp::Insert {
                        table: "T".into(),
                        pk: "A".into(),
                        payload: b"a-old".to_vec(),
                    },
                    1,
                ),
                (
                    RowOp::Insert {
                        table: "T".into(),
                        pk: "B".into(),
                        payload: b"b".to_vec(),
                    },
                    1,
                ),
            ],
            Lsn::new(1),
            &NameSet::new(),
        )
        .unwrap();

    let mut engine = ApplyEngine::new(storage);
    engine.snapshot_boundary("T", true, &[]).unwrap();
    engine
        .feed(Frame {
            lsn: 2,
            op: Operation::Insert,
            table: "T".into(),
            pk: "A".into(),
            payload: Some(b"a-new".to_vec()),
            txn_id: None,
        })
        .unwrap();
    engine.snapshot_boundary("T", false, &[]).unwrap();
    engine.flush().unwrap();

    let storage = engine.into_storage();
    assert_eq!(
        storage.payload("T", "A"),
        Some(b"a-new" as &[u8]),
        "re-confirmed row A survived (and was updated)"
    );
    assert!(
        storage.payload("T", "B").is_none(),
        "absent row B reaped as orphan"
    );
}

#[test]
fn snapshot_end_without_begin_is_noop() {
    let mut storage = InMemoryStorage::new();
    storage
        .apply_batch(
            &[(
                RowOp::Insert {
                    table: "T".into(),
                    pk: "A".into(),
                    payload: b"a".to_vec(),
                },
                1,
            )],
            Lsn::new(1),
            &NameSet::new(),
        )
        .unwrap();
    let mut engine = ApplyEngine::new(storage);
    engine.snapshot_boundary("T", false, &[]).unwrap();
    let storage = engine.into_storage();
    assert_eq!(storage.payload("T", "A"), Some(b"a" as &[u8]));
}

#[test]
fn snapshot_reconcile_exempts_pending_local_writes() {
    let mut storage = InMemoryStorage::new();
    storage
        .apply_batch(
            &[(
                RowOp::Insert {
                    table: "T".into(),
                    pk: "A".into(),
                    payload: b"a-local".to_vec(),
                },
                1,
            )],
            Lsn::new(1),
            &NameSet::new(),
        )
        .unwrap();
    storage
        .enqueue(PendingWrite {
            table: "T".into(),
            op: WriteOp::Upsert,
            pk: "A".into(),
            payload_json: Some(r#"{"id":"A"}"#.into()),
        })
        .unwrap();
    let exempt = storage.pending_pks_for_table("T").unwrap();
    assert_eq!(exempt, vec!["A".to_string()]);

    let mut engine = ApplyEngine::new(storage);
    engine.snapshot_boundary("T", true, &exempt).unwrap();
    engine
        .feed(Frame {
            lsn: 2,
            op: Operation::Insert,
            table: "T".into(),
            pk: "B".into(),
            payload: Some(b"b-snap".to_vec()),
            txn_id: None,
        })
        .unwrap();
    engine.snapshot_boundary("T", false, &[]).unwrap();
    engine.flush().unwrap();

    let storage = engine.into_storage();
    assert_eq!(
        storage.payload("T", "A"),
        Some(b"a-local" as &[u8]),
        "pending-local write A must NOT be reaped (hole #1)"
    );
    assert_eq!(
        storage.payload("T", "B"),
        Some(b"b-snap" as &[u8]),
        "snapshot row B present"
    );
}
