//! What the write-ahead log reports: changes of rows, and the events that carry
//! them.

use vstd::prelude::*;
use crate::lsn::Lsn;

verus! {

/// A change of one row. The payload is an opaque image of the row.
#[derive(Debug, PartialEq, Eq)]
pub enum RowOp {
    Insert { table: String, pk: String, payload: Vec<u8> },
    Update { table: String, pk: String, payload: Vec<u8> },
    Delete { table: String, pk: String },
}

/// The kind of a change.
#[derive(Debug, Clone, Copy, PartialEq, Eq, Hash, Structural)]
pub enum Operation {
    Insert,
    Update,
    Delete,
}

/// A change by its values.
pub struct RowOpView {
    pub op: Operation,
    pub table: Seq<char>,
    pub pk: Seq<char>,
    /// The image of the row; none for a delete.
    pub payload: Option<Seq<u8>>,
}

impl View for RowOp {
    type V = RowOpView;

    open spec fn view(&self) -> RowOpView {
        match *self {
            RowOp::Insert { table, pk, payload } => RowOpView {
                op: Operation::Insert,
                table: table@,
                pk: pk@,
                payload: Some(payload@),
            },
            RowOp::Update { table, pk, payload } => RowOpView {
                op: Operation::Update,
                table: table@,
                pk: pk@,
                payload: Some(payload@),
            },
            RowOp::Delete { table, pk } => RowOpView {
                op: Operation::Delete,
                table: table@,
                pk: pk@,
                payload: None,
            },
        }
    }
}

impl RowOp {
    /// The table of the row.
    pub fn table(&self) -> (r: &str)
        ensures
            r@ == self@.table,
    {
        match self {
            RowOp::Insert { table, .. } => table.as_str(),
            RowOp::Update { table, .. } => table.as_str(),
            RowOp::Delete { table, .. } => table.as_str(),
        }
    }

    /// The primary key of the row.
    pub fn pk(&self) -> (r: &str)
        ensures
            r@ == self@.pk,
    {
        match self {
            RowOp::Insert { pk, .. } => pk.as_str(),
            RowOp::Update { pk, .. } => pk.as_str(),
            RowOp::Delete { pk, .. } => pk.as_str(),
        }
    }

    /// The number of bytes of the row's image; zero for a delete.
    pub fn payload_len(&self) -> (r: usize)
        ensures
            r as nat == (match self@.payload {
                Some(p) => p.len(),
                None => 0,
            }),
    {
        match self {
            RowOp::Insert { payload, .. } => payload.len(),
            RowOp::Update { payload, .. } => payload.len(),
            RowOp::Delete { .. } => 0,
        }
    }

    /// Whether the change carries an image of the row.
    pub fn has_payload(&self) -> (r: bool)
        ensures
            r == (self@.payload is Some),
            r == (self@.op != Operation::Delete),
    {
        match self {
            RowOp::Delete { .. } => false,
            _ => true,
        }
    }

    /// The kind of the change.
    pub fn operation(&self) -> (r: Operation)
        ensures
            r == self@.op,
    {
        match self {
            RowOp::Insert { .. } => Operation::Insert,
            RowOp::Update { .. } => Operation::Update,
            RowOp::Delete { .. } => Operation::Delete,
        }
    }
}

/// The same bytes again.
pub(crate) fn copy_bytes(bytes: &Vec<u8>) -> (r: Vec<u8>)
    ensures
        r@ == bytes@,
{
    vstd::slice::slice_to_vec(bytes.as_slice())
}

impl Clone for RowOp {
    fn clone(&self) -> (r: Self)
        ensures
            r@ == self@,
    {
        match self {
            RowOp::Insert { table, pk, payload } => RowOp::Insert {
                table: table.clone(),
                pk: pk.clone(),
                payload: copy_bytes(payload),
            },
            RowOp::Update { table, pk, payload } => RowOp::Update {
                table: table.clone(),
                pk: pk.clone(),
                payload: copy_bytes(payload),
            },
            RowOp::Delete { table, pk } => RowOp::Delete { table: table.clone(), pk: pk.clone() },
        }
    }
}

/// A change, where in the log it stands, and the transaction it belongs to.
#[derive(Debug, Clone, PartialEq, Eq)]
pub struct ReplicationEvent {
    pub lsn: Lsn,
    pub op: RowOp,
    pub txn_id: Option<u64>,
}

impl ReplicationEvent {
    /// The event of `op` at `lsn`, in no known transaction.
    pub fn new(lsn: Lsn, op: RowOp) -> (r: Self)
        ensures
            r == (ReplicationEvent { lsn, op, txn_id: None }),
    {
        ReplicationEvent { lsn, op, txn_id: None }
    }

    /// The same event in the transaction `txn_id`.
    pub fn with_txn(self, txn_id: u64) -> (r: Self)
        ensures
            r == (ReplicationEvent { lsn: self.lsn, op: self.op, txn_id: Some(txn_id) }),
    {
        ReplicationEvent { lsn: self.lsn, op: self.op, txn_id: Some(txn_id) }
    }

    /// The table of the row.
    pub fn table(&self) -> (r: &str)
        ensures
            r@ == self.op@.table,
    {
        self.op.table()
    }

    /// The number of bytes of the row's image; zero for a delete.
    pub fn payload_len(&self) -> (r: usize)
        ensures
            r as nat == (match self.op@.payload {
                Some(p) => p.len(),
                None => 0,
            }),
    {
        self.op.payload_len()
    }
}

} // verus!
