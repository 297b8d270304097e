//! The epoch that a client resumes in.

use nostos::fnv::compose_sync_epoch;

#[test]
fn distinct_inputs_distinct_epochs() {
    let base = compose_sync_epoch(1, 100);

    assert_ne!(base, compose_sync_epoch(2, 100));
    assert_ne!(base, compose_sync_epoch(1, 200));
    assert_ne!(base, compose_sync_epoch(2, 200));
}

#[test]
fn is_deterministic() {
    assert_eq!(compose_sync_epoch(42, 999), compose_sync_epoch(42, 999));
    assert_eq!(compose_sync_epoch(0, 0), compose_sync_epoch(0, 0));
}

#[test]
fn zero_checksum_is_not_identity() {
    assert_ne!(compose_sync_epoch(5, 0), 5);
    assert_ne!(compose_sync_epoch(0, 0), 0);
}
