//! Clocks, sets and counters.

use nostos::counter::{
    counter_apply_delta, counter_value, merge_counter_payloads, parse_counter_entries,
    serialize_counter_entries, PnCounterPayload, PnEntry,
};
use nostos::crdt::{
    merge_or_set_payloads, present_elements, serialize_elements, OrSetElement, OrSetPayload,
};
use nostos::hlc::Hlc;

fn h(wall: u64, ctr: u32) -> Hlc {
    Hlc { wall_ms: wall, ctr }
}

fn payload(elems: Vec<OrSetElement>) -> Vec<u8> {
    serialize_elements(&elems)
}

fn el(v: &str, h: Hlc, d: Option<Hlc>) -> OrSetElement {
    OrSetElement { v: v.into(), h, d }
}

#[test]
fn mint_is_strictly_monotone() {
    let mut prev: Option<Hlc> = None;
    let mut last = Hlc::mint(prev, 1);
    prev = Some(last);
    for now in [1u64, 1, 5, 5, 5, 10, 9, 10, 3] {
        let next = Hlc::mint(prev, now);
        assert!(next > last, "{next:?} not > {last:?} (now={now})");
        last = next;
        prev = Some(next);
    }
}

#[test]
fn mint_advances_ctr_within_a_ms_and_resets_on_new_wall() {
    let a = Hlc::mint(None, 100);
    assert_eq!(a, h(100, 0));
    let b = Hlc::mint(Some(a), 100);
    assert_eq!(b, h(100, 1));
    let c = Hlc::mint(Some(b), 200);
    assert_eq!(c, h(200, 0));
}

#[test]
fn mint_uses_max_of_clock_and_prev_wall() {
    let a = Hlc::mint(None, 500);
    let b = Hlc::mint(Some(a), 100);
    assert_eq!(b, h(500, 1));
}

#[test]
fn hlc_total_order() {
    assert!(h(1, 0) < h(1, 1));
    assert!(h(1, 9) < h(2, 0));
    assert_eq!(h(3, 3), h(3, 3));
    assert_eq!(h(1, 5).max(h(2, 0)), h(2, 0));
    assert_eq!(h(2, 0).max(h(1, 5)), h(2, 0));
    assert_eq!(h(1, 3).max(h(1, 3)), h(1, 3));
}

#[test]
fn merge_union_of_disjoint_adds() {
    let a = payload(vec![el("x", h(10, 0), None)]);
    let b = payload(vec![el("y", h(10, 1), None)]);
    let m = merge_or_set_payloads(&a, &b).unwrap();
    let mut present = present_elements(&m).unwrap();
    present.sort();
    assert_eq!(present, vec!["x".to_string(), "y".to_string()]);
}

#[test]
fn merge_is_commutative_and_idempotent() {
    let a = payload(vec![el("x", h(10, 0), None), el("y", h(10, 1), None)]);
    let b = payload(vec![el("y", h(20, 0), Some(h(15, 0))), el("z", h(12, 0), None)]);
    let ab = merge_or_set_payloads(&a, &b).unwrap();
    let ba = merge_or_set_payloads(&b, &a).unwrap();
    assert_eq!(ab, ba, "commutative");
    let abb = merge_or_set_payloads(&ab, &b).unwrap();
    assert_eq!(ab, abb, "idempotent");
}

#[test]
fn add_wins_over_concurrent_remove() {
    let a = payload(vec![el("x", h(10, 0), None)]);
    let b = payload(vec![el("x", h(10, 0), Some(h(10, 1)))]);
    let m = merge_or_set_payloads(&a, &b).unwrap();
    assert!(
        present_elements(&m).unwrap().is_empty(),
        "later remove wins"
    );

    let readd = payload(vec![el("x", h(20, 0), None)]);
    let m2 = merge_or_set_payloads(&m, &readd).unwrap();
    assert_eq!(
        present_elements(&m2).unwrap(),
        vec!["x".to_string()],
        "re-add wins"
    );
}

#[test]
fn merge_keeps_max_add_and_max_remove_per_element() {
    let a = payload(vec![el("x", h(30, 0), None)]);
    let b = payload(vec![el("x", h(10, 0), Some(h(20, 0)))]);
    let m = merge_or_set_payloads(&a, &b).unwrap();
    assert_eq!(present_elements(&m).unwrap(), vec!["x".to_string()]);
}

#[test]
fn merge_empty_payloads() {
    let empty: &[u8] = b"";
    let a = payload(vec![el("x", h(1, 0), None)]);
    assert_eq!(
        present_elements(&merge_or_set_payloads(&a, empty).unwrap()).unwrap(),
        vec!["x".to_string()]
    );
    assert!(
        present_elements(&merge_or_set_payloads(empty, empty).unwrap())
            .unwrap()
            .is_empty()
    );
}

#[test]
fn merge_null_payload_is_empty_set() {
    let a = payload(vec![el("x", h(1, 0), None)]);
    let m = merge_or_set_payloads(&a, b"null").unwrap();
    assert_eq!(present_elements(&m).unwrap(), vec!["x".to_string()]);
}

#[test]
fn merge_rejects_non_object_payload() {
    assert!(merge_or_set_payloads(b"[1,2,3]", b"{}").is_err());
    assert!(merge_or_set_payloads(b"\"oops\"", b"{}").is_err());
    assert!(merge_or_set_payloads(b"not-json", b"{}").is_err());
}

#[test]
fn present_filters_tombstoned_only() {
    let p = payload(vec![
        el("present_add", h(10, 0), None),
        el("removed", h(10, 0), Some(h(20, 0))),
        el("readded", h(30, 0), Some(h(20, 0))),
    ]);
    let mut present = present_elements(&p).unwrap();
    present.sort();
    assert_eq!(
        present,
        vec!["present_add".to_string(), "readded".to_string()]
    );
}

#[test]
fn is_present_add_wins() {
    assert!(el("x", h(10, 0), None).is_present());
    assert!(el("x", h(30, 0), Some(h(20, 0))).is_present());
    assert!(!el("x", h(10, 0), Some(h(20, 0))).is_present());
}

fn ce(r: &str, p: u64, n: u64) -> PnEntry {
    PnEntry {
        r: r.to_string(),
        p,
        n,
    }
}

fn cpayload(entries: Vec<PnEntry>) -> Vec<u8> {
    serialize_counter_entries(&entries)
}

#[test]
fn counter_value_sums_p_minus_n() {
    let p = cpayload(vec![ce("a", 5, 1), ce("b", 3, 0)]);
    assert_eq!(counter_value(&p).unwrap(), 7);
}

#[test]
fn counter_value_can_be_negative() {
    let p = cpayload(vec![ce("a", 1, 5)]);
    assert_eq!(counter_value(&p).unwrap(), -4);
}

#[test]
fn counter_merge_is_per_replica_max() {
    let a = cpayload(vec![ce("A", 3, 0), ce("B", 2, 0)]);
    let b = cpayload(vec![ce("A", 3, 0), ce("C", 5, 0)]);
    let m = merge_counter_payloads(&a, &b).unwrap();
    assert_eq!(counter_value(&m).unwrap(), 10);
    let entries = parse_counter_entries(&m).unwrap();
    let a_entry = entries.iter().find(|e| e.r == "A").unwrap();
    assert_eq!((a_entry.p, a_entry.n), (3, 0));
}

#[test]
fn counter_merge_is_commutative_associative_idempotent() {
    let a = cpayload(vec![ce("A", 3, 1), ce("B", 2, 0)]);
    let b = cpayload(vec![ce("B", 5, 2), ce("C", 1, 0)]);
    let c = cpayload(vec![ce("A", 4, 0)]);

    let ab = merge_counter_payloads(&a, &b).unwrap();
    let ba = merge_counter_payloads(&b, &a).unwrap();
    assert_eq!(ab, ba, "commutative");

    let ab_c = merge_counter_payloads(&ab, &c).unwrap();
    let a_bc = merge_counter_payloads(&a, &merge_counter_payloads(&b, &c).unwrap()).unwrap();
    assert_eq!(ab_c, a_bc, "associative");

    let aa = merge_counter_payloads(&a, &a).unwrap();
    assert_eq!(aa, a, "idempotent");
}

#[test]
fn counter_apply_delta_positive_bumps_p() {
    let p = cpayload(vec![ce("A", 3, 0)]);
    let p2 = counter_apply_delta(&p, "A", 2);
    assert_eq!(counter_value(&p2).unwrap(), 5);
    let entries = parse_counter_entries(&p2).unwrap();
    let a = entries.iter().find(|e| e.r == "A").unwrap();
    assert_eq!((a.p, a.n), (5, 0));
}

#[test]
fn counter_apply_delta_negative_bumps_n() {
    let p = cpayload(vec![ce("A", 5, 0)]);
    let p2 = counter_apply_delta(&p, "A", -3);
    assert_eq!(counter_value(&p2).unwrap(), 2);
    let entries = parse_counter_entries(&p2).unwrap();
    let a = entries.iter().find(|e| e.r == "A").unwrap();
    assert_eq!((a.p, a.n), (5, 3));
}

#[test]
fn counter_apply_delta_creates_new_replica() {
    let p = cpayload(vec![ce("A", 1, 0)]);
    let p2 = counter_apply_delta(&p, "B", 4);
    assert_eq!(counter_value(&p2).unwrap(), 5);
    assert!(parse_counter_entries(&p2)
        .unwrap()
        .iter()
        .any(|e| e.r == "B" && e.p == 4));
}

#[test]
fn counter_apply_delta_on_empty_starts_fresh() {
    let p2 = counter_apply_delta(b"", "A", 7);
    assert_eq!(counter_value(&p2).unwrap(), 7);
}

#[test]
fn counter_concurrent_increments_from_two_replicas_merge_correctly() {
    let mut a_payload = b"".to_vec();
    a_payload = counter_apply_delta(&a_payload, "A", 3);
    a_payload = counter_apply_delta(&a_payload, "A", 2);
    a_payload = counter_apply_delta(&a_payload, "A", -1);

    let mut b_payload = b"".to_vec();
    b_payload = counter_apply_delta(&b_payload, "B", 4);
    b_payload = counter_apply_delta(&b_payload, "B", -2);

    let merged = merge_counter_payloads(&a_payload, &b_payload).unwrap();
    assert_eq!(
        counter_value(&merged).unwrap(),
        6,
        "merged counter value is the correct total"
    );
    let merged_rev = merge_counter_payloads(&b_payload, &a_payload).unwrap();
    assert_eq!(counter_value(&merged_rev).unwrap(), 6);
    assert_eq!(merged, merged_rev, "byte-identical regardless of order");
}

#[test]
fn counter_merge_empty_and_null_payloads() {
    let a = cpayload(vec![ce("A", 3, 0)]);
    assert_eq!(
        counter_value(&merge_counter_payloads(&a, b"").unwrap()).unwrap(),
        3
    );
    assert_eq!(
        counter_value(&merge_counter_payloads(&a, b"null").unwrap()).unwrap(),
        3
    );
    assert_eq!(
        counter_value(&merge_counter_payloads(b"", b"").unwrap()).unwrap(),
        0
    );
}

#[test]
fn counter_merge_rejects_non_object_payload() {
    assert!(merge_counter_payloads(b"[1,2,3]", b"{}").is_err());
    assert!(merge_counter_payloads(b"42", b"{}").is_err());
    assert!(merge_counter_payloads(b"not-json", b"{}").is_err());
}

#[test]
fn payloads_are_written_in_order() {
    let set = payload(vec![el("b", h(1, 0), None), el("a", h(2, 0), Some(h(1, 0)))]);
    assert_eq!(
        String::from_utf8(set).unwrap(),
        r#"{"elements":[{"v":"a","h":{"wall_ms":2,"ctr":0},"d":{"wall_ms":1,"ctr":0}},{"v":"b","h":{"wall_ms":1,"ctr":0}}]}"#
    );
    let counter = cpayload(vec![ce("b", 1, 0), ce("a", 2, 3), ce("b", 4, 0)]);
    assert_eq!(
        String::from_utf8(counter).unwrap(),
        r#"{"entries":[{"r":"a","p":2,"n":3},{"r":"b","p":1,"n":0},{"r":"b","p":4,"n":0}]}"#
    );
}

#[test]
fn payloads_start_empty() {
    assert!(OrSetPayload::default().elements.is_empty());
    assert!(PnCounterPayload::default().entries.is_empty());
    let one = el("a", h(1, 0), None);
    assert_eq!(one.clone(), one);
}
