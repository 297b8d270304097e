//! What a connected client does on the events of its socket.

use nostos::engine::NostosEngine;
use nostos::in_memory::InMemoryStorage;
use nostos::socket::{handshake, resume_from, Handshake, SocketReply};

fn engine() -> NostosEngine<InMemoryStorage> {
    NostosEngine::new("r1".to_string())
}

fn frame(lsn: u64, pk: &str, txn: u64) -> String {
    format!(
        r#"{{"lsn":{lsn},"op":"insert","table":"tasks","pk":"{pk}","payload":"6869","txn_id":{txn}}}"#
    )
}

#[test]
fn a_handshake_ends_open_or_failed() {
    assert_eq!(handshake(0), Handshake::Waiting);
    assert_eq!(handshake(1), Handshake::Open);
    assert_eq!(handshake(2), Handshake::Waiting);
    assert_eq!(handshake(3), Handshake::Failed);
}

#[test]
fn a_write_is_queued_shown_and_sent_once() {
    let mut eng = engine();
    let w = eng
        .write("tasks", "upsert", "1", Some(r#" {"b":2,"a":1} "#), "w1")
        .unwrap();
    assert!(w.shown);
    assert_eq!(
        w.frame,
        r#"{"type":"write","table":"tasks","op":"upsert","pk":"1","payload":{"a":1,"b":2},"client_write_id":"w1"}"#
    );
    assert_eq!(eng.rows_for("tasks")[0].1, br#"{"b":2,"a":1}"#);
    assert_eq!(eng.pending_count(), 1);
    assert_eq!(
        eng.pending_frame(w.id).unwrap(),
        format!(
            r#"{{"type":"write","table":"tasks","op":"upsert","pk":"1","payload":{{"a":1,"b":2}},"client_write_id":"{}"}}"#,
            w.id
        )
    );
    eng.mark_shipped(w.id);
    assert_eq!(eng.pending_count(), 0);
    assert_eq!(eng.pending_frame(w.id), None);
}

#[test]
fn writes_that_are_not_sent() {
    let mut eng = engine();
    let refused = |r: Result<nostos::socket::Written, String>| match r {
        Ok(_) => String::new(),
        Err(e) => e,
    };
    assert_eq!(
        refused(eng.write("t", "upsert", "1", Some("{"), "w")),
        "nostos write: payload is not JSON"
    );
    assert_eq!(
        refused(eng.write("t", "upsert", "1", Some("[1]"), "w")),
        "nostos write: payload is not a JSON object"
    );
    assert_eq!(
        refused(eng.write("t", "merge", "1", None, "w")),
        "nostos write: invalid op (expected upsert|delete|patch)"
    );
    assert_eq!(eng.pending_count(), 0);
}

#[test]
fn subscriptions_resume_where_the_store_stands() {
    let mut eng = engine();
    assert_eq!(
        eng.subscribe(true, "tasks", Some("a = 1")).unwrap(),
        r#"{"type":"subscribe","table":"tasks","filters":[],"where_sql":"a = 1"}"#
    );
    assert_eq!(
        eng.subscribe(false, "tasks", None).unwrap_err(),
        "subscribe: socket not open"
    );
    let _ = eng.receive(frame(7, "1", 1).as_bytes());
    assert!(matches!(
        eng.finish(),
        SocketReply::Confirm { lsn: 7, frame } if frame == r#"{"type":"ack","lsn":7}"#
    ));
    assert!(matches!(eng.finish(), SocketReply::Quiet));
    eng.set_where_sql(Some("b = 2".to_string()));
    assert_eq!(
        eng.resume(true, "tasks").unwrap(),
        r#"{"type":"subscribe","table":"tasks","filters":[],"resume_lsn":7,"where_sql":"b = 2"}"#
    );
    assert!(eng.resume(false, "tasks").is_err());
}

#[test]
fn a_message_that_closes_a_transaction_is_confirmed() {
    let mut eng = engine();
    assert!(matches!(
        eng.receive(frame(1, "1", 1).as_bytes()),
        SocketReply::Quiet
    ));
    assert!(matches!(
        eng.receive(frame(2, "2", 2).as_bytes()),
        SocketReply::Confirm { lsn: 1, .. }
    ));
    assert!(matches!(eng.receive(b"nonsense"), SocketReply::Quiet));
    assert_eq!(eng.row_count(), 1);
}

#[test]
fn a_durable_store_resumes_at_its_checkpoint() {
    assert_eq!(resume_from(true, 7, Some(3)), Some(7));
    assert_eq!(resume_from(true, 0, Some(3)), None);
    assert_eq!(resume_from(false, 7, Some(3)), Some(3));
    assert_eq!(resume_from(false, 7, None), None);
}
