//! The life of an attachment.

use nostos::attachments::{
    cols, retry_after_ms, AttachmentOp, AttachmentState, ATTACHMENTS_TABLE, DEFAULT_MAX_ATTEMPTS,
};

#[test]
fn wire_str_roundtrip() {
    for state in [
        AttachmentState::QueuedUpload,
        AttachmentState::QueuedDownload,
        AttachmentState::QueuedDelete,
        AttachmentState::Synced,
        AttachmentState::Archived,
    ] {
        let s = state.as_wire_str();
        assert_eq!(AttachmentState::from_wire_str(s), Some(state));
    }
    assert_eq!(AttachmentState::from_wire_str("nonsense"), None);
}

#[test]
fn pending_op_maps_queued_states_only() {
    assert_eq!(
        AttachmentState::QueuedUpload.pending_op(),
        Some(AttachmentOp::Upload)
    );
    assert_eq!(
        AttachmentState::QueuedDownload.pending_op(),
        Some(AttachmentOp::Download)
    );
    assert_eq!(
        AttachmentState::QueuedDelete.pending_op(),
        Some(AttachmentOp::Delete)
    );
    assert_eq!(AttachmentState::Synced.pending_op(), None);
    assert_eq!(AttachmentState::Archived.pending_op(), None);
}

#[test]
fn on_success_transitions() {
    assert_eq!(
        AttachmentState::QueuedUpload.on_success(),
        AttachmentState::Synced
    );
    assert_eq!(
        AttachmentState::QueuedDownload.on_success(),
        AttachmentState::Synced
    );
    assert_eq!(
        AttachmentState::QueuedDelete.on_success(),
        AttachmentState::Archived
    );
    assert_eq!(
        AttachmentState::Synced.on_success(),
        AttachmentState::Synced
    );
    assert_eq!(
        AttachmentState::Archived.on_success(),
        AttachmentState::Archived
    );
}

#[test]
fn is_queued_predicate() {
    assert!(AttachmentState::QueuedUpload.is_queued());
    assert!(AttachmentState::QueuedDownload.is_queued());
    assert!(AttachmentState::QueuedDelete.is_queued());
    assert!(!AttachmentState::Synced.is_queued());
    assert!(!AttachmentState::Archived.is_queued());
}

#[test]
fn retry_schedule_is_exponential_then_capped_then_dead_letter() {
    let max = DEFAULT_MAX_ATTEMPTS;
    assert_eq!(retry_after_ms(0, max), Some(1_000));
    assert_eq!(retry_after_ms(1, max), Some(2_000));
    assert_eq!(retry_after_ms(2, max), Some(4_000));
    assert_eq!(retry_after_ms(3, max), Some(8_000));
    assert_eq!(retry_after_ms(4, max), Some(16_000));
    assert_eq!(retry_after_ms(6, 100), Some(60_000));
    assert_eq!(retry_after_ms(max, max), None);
    assert_eq!(retry_after_ms(max + 1, max), None);
    assert_eq!(retry_after_ms(0, 0), None);
}

#[test]
fn cols_are_stable_wire_identifiers() {
    assert_eq!(cols::ID, "id");
    assert_eq!(cols::FILENAME, "filename");
    assert_eq!(cols::SIZE, "size");
    assert_eq!(cols::MEDIA_TYPE, "media_type");
    assert_eq!(cols::STATE, "state");
    assert_eq!(cols::TIMESTAMP, "timestamp");
    assert_eq!(ATTACHMENTS_TABLE, "attachments");
}
