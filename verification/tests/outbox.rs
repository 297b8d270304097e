//! The queue of writes.

use nostos::outbox::{Outbox, PendingWrite, QueueState, WriteOp, WriteView};
use nostos::storage::{RowMap, StorageError, StoreState};

#[test]
fn write_op_wire_roundtrip() {
    for op in [WriteOp::Upsert, WriteOp::Delete, WriteOp::Patch] {
        let s = op.as_wire_str();
        assert_eq!(WriteOp::from_wire_str(s), Some(op));
    }
}

#[test]
fn write_op_rejects_unknown_wire_string() {
    assert_eq!(WriteOp::from_wire_str("insert"), None);
    assert_eq!(WriteOp::from_wire_str("update"), None);
    assert_eq!(WriteOp::from_wire_str("put"), None);
    assert_eq!(WriteOp::from_wire_str("increment"), None);
    assert_eq!(WriteOp::from_wire_str(""), None);
}

#[test]
fn pending_write_eq() {
    let a = PendingWrite {
        table: "tasks".into(),
        op: WriteOp::Upsert,
        pk: "1".into(),
        payload_json: Some(r#"{"x":1}"#.into()),
    };
    let b = a.clone();
    assert_eq!(a, b);
}

/// A queue that holds nothing, and shows no write at once.
struct Silent;

impl Outbox for Silent {
    fn queue(&self) -> QueueState {
        unreachable!()
    }

    fn store(&self) -> StoreState {
        unreachable!()
    }

    fn showing(_s: StoreState, _w: WriteView) -> RowMap {
        unreachable!()
    }

    fn prompt(&self) -> bool {
        unreachable!()
    }

    fn enqueue(&mut self, _write: PendingWrite) -> Result<u64, StorageError> {
        Ok(1)
    }

    fn enqueue_batch(&mut self, writes: Vec<PendingWrite>) -> Result<Vec<u64>, StorageError> {
        Ok((1..=writes.len() as u64).collect())
    }

    fn pending(&self) -> Result<Vec<(u64, PendingWrite)>, StorageError> {
        Ok(vec![])
    }

    fn mark_done(&mut self, _id: u64) -> Result<(), StorageError> {
        Ok(())
    }

    fn clear_outbox(&mut self) -> Result<(), StorageError> {
        Ok(())
    }
}

#[test]
fn a_queue_need_not_show_writes_at_once() {
    let write = PendingWrite {
        table: "t".into(),
        op: WriteOp::Upsert,
        pk: "1".into(),
        payload_json: None,
    };
    assert!(Silent.apply_local(&write).is_ok());
    assert_eq!(Silent.bump_attempts(1).unwrap(), 0);
    assert!(Silent.mark_dead_letter(1).is_ok());
}
