//! The messages between a client and the server.

use std::sync::atomic::{AtomicU64, Ordering};
use std::time::{SystemTime, UNIX_EPOCH};

use nostos::engine::{replica_id, NostosEngine};
use nostos::events::Operation;
use nostos::in_memory::InMemoryStorage;
use nostos::storage::StorageError;
use nostos::transport;
use nostos::transport::{
    build_ack_frame, build_subscribe_frame, build_write_frame, checkpoint_from, checkpoint_key,
    decode_frames, decode_hex, parse_checkpoint, pump_committed, read_checkpoint,
    write_checkpoint, KvStore, PumpResult,
};

type Engine = NostosEngine<InMemoryStorage>;

fn engine() -> Engine {
    static MADE: AtomicU64 = AtomicU64::new(0);
    NostosEngine::new(replica_id(now_ms(), MADE.fetch_add(1, Ordering::Relaxed)))
}

fn now_ms() -> u64 {
    SystemTime::now()
        .duration_since(UNIX_EPOCH)
        .map_or(0, |d| d.as_millis() as u64)
}

fn on_message(engine: &mut Engine, bytes: &[u8]) -> Result<PumpResult, StorageError> {
    transport::on_message(engine.apply_engine(), bytes)
}

fn frame_json(lsn: u64, op: &str, table: &str, pk: &str, payload_hex: Option<&str>) -> String {
    let payload = match payload_hex {
        Some(h) => format!(",\"payload\":\"{h}\""),
        None => String::new(),
    };
    format!(
        r#"{{"type":"event","lsn":{lsn},"op":"{op}","table":"{table}","pk":"{pk}"{payload}}}"#
    )
}

#[test]
fn decode_single_object_frame() {
    let bytes = frame_json(10, "insert", "tasks", "1", Some("6869")); // "hi"
    let frames = decode_frames(bytes.as_bytes());
    assert_eq!(frames.len(), 1);
    assert_eq!(frames[0].lsn, 10);
    assert_eq!(frames[0].op, Operation::Insert);
    assert_eq!(frames[0].table, "tasks");
    assert_eq!(frames[0].pk, "1");
    assert_eq!(frames[0].payload.as_deref(), Some("6869"));
}

#[test]
fn decode_array_of_frames_batched() {
    let arr = format!(
        "[{},{}]",
        frame_json(10, "insert", "tasks", "1", Some("6869")),
        frame_json(11, "update", "tasks", "2", Some("6f6b"))
    );
    let frames = decode_frames(arr.as_bytes());
    assert_eq!(frames.len(), 2);
    assert_eq!(frames[0].lsn, 10);
    assert_eq!(frames[1].lsn, 11);
    assert_eq!(frames[0].op, Operation::Insert);
    assert_eq!(frames[1].op, Operation::Update);
}

#[test]
fn decode_delete_has_no_payload() {
    let bytes = frame_json(5, "delete", "tasks", "9", None);
    let frames = decode_frames(bytes.as_bytes());
    assert_eq!(frames.len(), 1);
    assert_eq!(frames[0].op, Operation::Delete);
    assert!(frames[0].payload.is_none());
}

#[test]
fn decode_malformed_is_empty() {
    assert!(decode_frames(b"not json").is_empty());
    assert!(decode_frames(b"").is_empty());
    assert!(decode_frames(b"   ").is_empty());
    assert!(decode_frames(b"[\"not a frame\"]").is_empty());
}

#[test]
fn decode_handles_leading_whitespace() {
    let bytes = frame_json(7, "insert", "tasks", "1", Some("00"));
    let padded = format!("   {bytes}");
    let frames = decode_frames(padded.as_bytes());
    assert_eq!(frames.len(), 1);
    assert_eq!(frames[0].lsn, 7);
}

#[test]
fn decode_empty_array_is_empty() {
    assert!(decode_frames(b"[]").is_empty());
}

#[test]
fn wire_frame_op_lowercase_round_trips() {
    for op in ["insert", "update", "delete"] {
        let bytes = frame_json(1, op, "t", "1", None);
        let frames = decode_frames(bytes.as_bytes());
        assert_eq!(frames.len(), 1, "op={op} decoded");
    }
}

#[test]
fn decode_hex_round_trips() {
    assert_eq!(decode_hex("6869").as_deref(), Some(b"hi".as_slice()));
    assert_eq!(
        decode_hex("00ff10").as_deref(),
        Some(&[0x00, 0xff, 0x10][..])
    );
    assert_eq!(decode_hex("").as_deref(), Some(&[][..]));
}

#[test]
fn decode_hex_odd_length_is_none() {
    assert_eq!(decode_hex("6"), None);
    assert_eq!(decode_hex("686"), None);
}

#[test]
fn decode_hex_non_hex_is_none() {
    assert_eq!(decode_hex("6zzz"), None);
    assert_eq!(decode_hex("gg"), None);
}

#[test]
fn subscribe_minimal_no_where_no_resume() {
    let json = build_subscribe_frame("tasks", None, None);
    let v: serde_json::Value = serde_json::from_str(&json).unwrap();
    assert_eq!(v["type"], "subscribe");
    assert_eq!(v["table"], "tasks");
    assert_eq!(v["filters"], serde_json::Value::Array(vec![]));
    assert!(v.get("resume_lsn").is_none());
    assert!(v.get("where_sql").is_none());
}

#[test]
fn subscribe_with_where_sql_and_resume() {
    let json = build_subscribe_frame(
        "tasks",
        Some("status = 'open' AND priority >= 3"),
        Some(12_345),
    );
    let v: serde_json::Value = serde_json::from_str(&json).unwrap();
    assert_eq!(v["type"], "subscribe");
    assert_eq!(v["table"], "tasks");
    assert_eq!(v["filters"], serde_json::Value::Array(vec![]));
    assert_eq!(v["resume_lsn"], 12_345);
    assert_eq!(v["where_sql"], "status = 'open' AND priority >= 3");
}

#[test]
fn subscribe_resume_only_no_where() {
    let json = build_subscribe_frame("users", None, Some(99));
    let v: serde_json::Value = serde_json::from_str(&json).unwrap();
    assert_eq!(v["resume_lsn"], 99);
    assert!(v.get("where_sql").is_none(), "where_sql omitted when None");
}

#[test]
fn subscribe_empty_where_sql_is_dropped() {
    let json = build_subscribe_frame("tasks", Some(""), Some(1));
    let v: serde_json::Value = serde_json::from_str(&json).unwrap();
    assert!(v.get("where_sql").is_none(), "empty where_sql dropped");
}

#[test]
fn subscribe_decodes_back_as_clientmessage_shape() {
    let json = build_subscribe_frame("tasks", Some("x > 1"), Some(5));
    let v: serde_json::Value = serde_json::from_str(&json).unwrap();
    assert_eq!(v["type"].as_str(), Some("subscribe"));
    assert!(v["filters"].is_array());
}

#[test]
fn ack_frame_shape() {
    let json = build_ack_frame(42);
    assert_eq!(json, r#"{"type":"ack","lsn":42}"#);
}

#[test]
fn ack_frame_zero() {
    let json = build_ack_frame(0);
    let v: serde_json::Value = serde_json::from_str(&json).unwrap();
    assert_eq!(v["type"], "ack");
    assert_eq!(v["lsn"], 0);
}

#[test]
fn write_upsert_frame_shape() {
    let json = build_write_frame(
        "tasks",
        "upsert",
        "web-echo",
        Some(r#"{"title":"from-client","status":"open","priority":"5"}"#),
        "w1",
    )
    .expect("valid upsert frame");
    let v: serde_json::Value = serde_json::from_str(&json).unwrap();
    assert_eq!(v["type"], "write");
    assert_eq!(v["table"], "tasks");
    assert_eq!(v["op"], "upsert");
    assert_eq!(v["pk"], "web-echo");
    assert_eq!(v["payload"]["title"], "from-client");
    assert_eq!(v["payload"]["status"], "open");
    assert_eq!(v["payload"]["priority"], "5");
    assert_eq!(v["client_write_id"], "w1");
}

#[test]
fn write_delete_frame_omits_payload() {
    let json =
        build_write_frame("tasks", "delete", "stale", None, "w2").expect("valid delete frame");
    let v: serde_json::Value = serde_json::from_str(&json).unwrap();
    assert_eq!(v["type"], "write");
    assert_eq!(v["op"], "delete");
    assert!(v.get("payload").is_none(), "payload absent on delete");
    assert_eq!(v["client_write_id"], "w2");
}

#[test]
fn write_empty_payload_string_treated_as_delete() {
    let json = build_write_frame("tasks", "upsert", "x", Some("   "), "w3")
        .expect("empty payload -> delete-shaped frame");
    let v: serde_json::Value = serde_json::from_str(&json).unwrap();
    assert!(v.get("payload").is_none());
}

#[test]
fn checkpoint_key_format() {
    assert_eq!(checkpoint_key("tasks"), "cairn:checkpoint:tasks");
    assert_eq!(
        checkpoint_key("org_members"),
        "cairn:checkpoint:org_members"
    );
}

#[test]
fn parse_checkpoint_valid() {
    assert_eq!(parse_checkpoint(Some("42")), Some(42));
    assert_eq!(parse_checkpoint(Some("  100  ")), Some(100));
    assert_eq!(parse_checkpoint(Some("0")), Some(0));
}

#[test]
fn parse_checkpoint_missing_or_malformed() {
    assert_eq!(parse_checkpoint(None), None);
    assert_eq!(parse_checkpoint(Some("not a number")), None);
    assert_eq!(parse_checkpoint(Some("")), None);
    assert_eq!(parse_checkpoint(Some("12.5")), None);
}

#[test]
fn pump_single_frame_buffers_until_flush_no_ack() {
    let mut eng = engine();
    let bytes = frame_json(10, "insert", "tasks", "1", Some("6869"));
    let result = on_message(&mut eng, bytes.as_bytes()).unwrap();
    assert_eq!(result.applied, 1);
    assert_eq!(result.ack, None, "buffered frame → no commit → no ack");
    assert_eq!(eng.row_count(), 0, "not yet flushed");
}

#[test]
fn pump_batched_frames_buffer_then_commit_on_flush() {
    let mut eng = engine();
    let batch = format!(
        "[{},{}]",
        frame_json(10, "insert", "tasks", "a", Some("00")),
        frame_json(11, "insert", "tasks", "b", Some("00"))
    );
    let _ = on_message(&mut eng, batch.as_bytes()).unwrap();
    assert_eq!(eng.checkpoint(), 0);

    let outcome = eng.flush().unwrap().expect("had pending");
    assert_eq!(outcome.checkpoint.raw(), 11);
    assert_eq!(eng.row_count(), 2);
}

#[test]
fn pump_batched_array_applies_all_frames() {
    let mut eng = engine();
    let batch = format!(
        "[{},{},{}]",
        frame_json(10, "insert", "tasks", "1", Some("6869")),
        frame_json(20, "insert", "tasks", "2", Some("6f6b")),
        frame_json(30, "insert", "tasks", "3", Some("00")),
    );
    let result = on_message(&mut eng, batch.as_bytes()).unwrap();
    assert_eq!(result.applied, 3);
    let outcome = eng.flush().unwrap().expect("had pending");
    assert_eq!(outcome.checkpoint.raw(), 30);
    assert_eq!(eng.row_count(), 3);
}

#[test]
fn pump_delete_payload_decodes_to_none() {
    let mut eng = engine();
    let seed = frame_json(10, "insert", "tasks", "1", Some("6869"));
    let _ = on_message(&mut eng, seed.as_bytes()).unwrap();
    eng.flush().unwrap();
    assert_eq!(eng.row_count(), 1);

    let del = frame_json(20, "delete", "tasks", "1", None);
    let _ = on_message(&mut eng, del.as_bytes()).unwrap();
    eng.flush().unwrap();
    assert_eq!(eng.row_count(), 0, "delete removed the row");
    assert_eq!(eng.checkpoint(), 20);
}

#[test]
fn pump_malformed_message_is_no_op() {
    let mut eng = engine();
    let result = on_message(&mut eng, b"totally not json").unwrap();
    assert_eq!(
        result,
        PumpResult {
            applied: 0,
            ack: None
        }
    );
}

#[test]
fn pump_checkpoint_from_helper() {
    let result = PumpResult {
        applied: 2,
        ack: Some(50),
    };
    assert_eq!(checkpoint_from(result), Some(50));
    let result = PumpResult {
        applied: 2,
        ack: None,
    };
    assert_eq!(checkpoint_from(result), None);
}

struct MemKv(std::cell::RefCell<std::collections::HashMap<String, String>>);

impl MemKv {
    fn new() -> Self {
        Self(std::cell::RefCell::new(std::collections::HashMap::new()))
    }
}

impl KvStore for MemKv {
    fn get(&self, key: &str) -> Option<String> {
        self.0.borrow().get(key).cloned()
    }
    fn set(&self, key: &str, value: &str) {
        self.0
            .borrow_mut()
            .insert(key.to_string(), value.to_string());
    }
}

#[test]
fn checkpoint_round_trips_through_injected_store() {
    let kv = MemKv::new();
    write_checkpoint("tasks", 42, &kv);
    assert_eq!(
        kv.0.borrow()
            .get("cairn:checkpoint:tasks")
            .map(String::as_str),
        Some("42"),
        "the injected store received the checkpoint under the pinned key"
    );
    assert_eq!(read_checkpoint("tasks", &kv), Some(42));
}

#[test]
fn injected_store_missing_or_malformed_reads_resume_from_none() {
    let kv = MemKv::new();
    assert_eq!(read_checkpoint("tasks", &kv), None, "no key → None");
    kv.set("cairn:checkpoint:tasks", "not a number");
    assert_eq!(read_checkpoint("tasks", &kv), None, "malformed → None");
}

#[test]
fn injected_store_overwrites_are_newest_wins() {
    let kv = MemKv::new();
    write_checkpoint("tasks", 10, &kv);
    write_checkpoint("tasks", 20, &kv);
    assert_eq!(read_checkpoint("tasks", &kv), Some(20));
}

#[test]
fn pump_hex_payload_decodes_before_apply() {
    let mut eng = engine();
    let bytes = frame_json(10, "insert", "tasks", "1", Some("6869"));
    let result = on_message(&mut eng, bytes.as_bytes()).unwrap();
    assert_eq!(result.applied, 1);
    eng.flush().unwrap();
    assert_eq!(eng.row_count(), 1);
}

#[test]
fn pump_replay_is_idempotent_through_resume() {
    let mut eng = engine();

    let batch = format!(
        "[{},{}]",
        frame_json(10, "insert", "tasks", "1", Some("6869")),
        frame_json(20, "insert", "tasks", "2", Some("6f6b")),
    );
    let _ = on_message(&mut eng, batch.as_bytes()).unwrap();
    eng.flush().unwrap();
    assert_eq!(eng.checkpoint(), 20);
    assert_eq!(eng.row_count(), 2);

    let _ = on_message(&mut eng, batch.as_bytes()).unwrap();
    eng.flush().unwrap();
    assert_eq!(eng.row_count(), 2, "replay did not duplicate");
}

#[test]
fn pump_committed_true_when_pump_acked_in_message() {
    let pump = PumpResult {
        applied: 1,
        ack: Some(10),
    };
    assert!(pump_committed(&pump, false));
}

#[test]
fn pump_committed_true_when_only_trailing_flush_committed() {
    let pump = PumpResult {
        applied: 1,
        ack: None,
    };
    assert!(pump_committed(&pump, true));
}

#[test]
fn pump_committed_false_when_nothing_committed() {
    let pump = PumpResult {
        applied: 0,
        ack: None,
    };
    assert!(!pump_committed(&pump, false));
}

#[test]
fn reactive_snapshot_after_commit_is_the_full_table() {
    let mut eng = engine();
    let bytes = frame_json(10, "insert", "tasks", "1", Some("6869"));
    let pump = on_message(&mut eng, bytes.as_bytes()).unwrap();
    assert!(
        !pump_committed(&pump, false),
        "buffered frame → no in-message commit → no tick"
    );
    assert_eq!(eng.row_count(), 0, "not yet flushed → empty snapshot");

    let flush_committed = eng.flush().unwrap().is_some();
    assert!(flush_committed);
    assert!(
        pump_committed(&pump, flush_committed),
        "flush committed → tick fires"
    );

    let snapshot = eng.rows_for("tasks");
    assert_eq!(snapshot.len(), 1);
    assert_eq!(snapshot[0].0, "1");
}
