//! Changes of rows, and the events that carry them.

use nostos::events::{Operation, ReplicationEvent, RowOp};
use nostos::lsn::Lsn;

fn payload(n: usize) -> Vec<u8> {
    vec![0u8; n]
}

#[test]
fn table_pk_extraction() {
    let ins = RowOp::Insert {
        table: "tasks".into(),
        pk: "1".into(),
        payload: payload(8),
    };
    assert_eq!(ins.table(), "tasks");
    assert_eq!(ins.pk(), "1");
    assert_eq!(ins.operation(), Operation::Insert);
    assert!(ins.has_payload());
    assert_eq!(ins.payload_len(), 8);

    let del = RowOp::Delete {
        table: "tasks".into(),
        pk: "1".into(),
    };
    assert!(!del.has_payload());
    assert_eq!(del.payload_len(), 0);
}

#[test]
fn event_carries_lsn_and_txn() {
    let e = ReplicationEvent::new(
        Lsn::new(42),
        RowOp::Delete {
            table: "t".into(),
            pk: "x".into(),
        },
    )
    .with_txn(99);
    assert_eq!(e.lsn, Lsn::new(42));
    assert_eq!(e.table(), "t");
    assert_eq!(e.txn_id, Some(99));
}
