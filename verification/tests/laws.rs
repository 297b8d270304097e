//! The laws of the library on concrete values.

use nostos::apply::{ApplyEngine, Frame};
use nostos::counter::{counter_apply_delta, counter_value, merge_counter_payloads};
use nostos::crdt::merge_or_set_payloads;
use nostos::events::{Operation, RowOp};
use nostos::fnv::compose_sync_epoch;
use nostos::hlc::Hlc;
use nostos::in_memory::InMemoryStorage;
use nostos::lsn::Lsn;
use nostos::names::NameSet;
use nostos::ordered::OrderedMap;
use nostos::outbox::{Outbox, PendingWrite, WriteOp};
use nostos::predicate::{ColumnValue, FloatReadings, PredicateExpr, Row, ScopeOp};
use nostos::predicate_compile::{bind_params, parse_predicate_expr};
use nostos::principal::Principal;
use nostos::pull::PullCursor;
use nostos::rules::{HandRule, StreamRule, SyncMode, SyncRules, TableRule, RULES_VERSION};
use nostos::scope::ScopeExpr;
use nostos::storage::Storage;
use nostos::tier::Tier;

fn insert(table: &str, pk: &str, payload: &str) -> RowOp {
    RowOp::Insert {
        table: table.into(),
        pk: pk.into(),
        payload: payload.as_bytes().to_vec(),
    }
}

fn delete(table: &str, pk: &str) -> RowOp {
    RowOp::Delete {
        table: table.into(),
        pk: pk.into(),
    }
}

fn applied(batches: &[&[(RowOp, u64)]]) -> InMemoryStorage {
    let mut store = InMemoryStorage::new();
    for ops in batches {
        store.apply_batch(ops, Lsn::new(9), &NameSet::new()).unwrap();
    }
    store
}

fn payload<'a>(store: &'a InMemoryStorage, pk: &str) -> Option<&'a [u8]> {
    store.payload("t", pk)
}

fn frame(lsn: u64, pk: &str, txn_id: Option<u64>) -> Frame {
    Frame {
        lsn,
        op: Operation::Insert,
        table: "t".into(),
        pk: pk.into(),
        payload: Some(pk.as_bytes().to_vec()),
        txn_id,
    }
}

// ---- stores ----

#[test]
fn a_stale_operation_is_passed_over() {
    let store = applied(&[&[(insert("t", "a", "new"), 5)], &[(insert("t", "a", "old"), 4)]]);
    assert_eq!(payload(&store, "a"), Some(&b"new"[..]));
}

#[test]
fn a_batch_touches_its_rows_only() {
    let store = applied(&[&[(insert("t", "a", "1"), 1)], &[(insert("t", "b", "2"), 2)]]);
    assert_eq!(payload(&store, "a"), Some(&b"1"[..]));
    assert_eq!(payload(&store, "b"), Some(&b"2"[..]));
}

#[test]
fn a_replayed_batch_changes_nothing() {
    let ops = [
        (insert("t", "a", "1"), 1),
        (insert("t", "b", "2"), 2),
        (delete("t", "a"), 3),
        (insert("t", "b", "3"), 4),
    ];
    let once = applied(&[&ops]);
    let twice = applied(&[&ops, &ops]);
    assert_eq!(once.rows_for("t"), twice.rows_for("t"));
    assert_eq!(twice.rows_for("t"), vec![("b".to_string(), b"3".to_vec())]);
}

#[test]
fn a_replayed_batch_changes_nothing_where_payloads_merge() {
    let ops = [
        (insert("t", "a", r#"{"entries":[{"r":"x","p":5,"n":0}]}"#), 1),
        (delete("t", "a"), 1),
        (insert("t", "a", r#"{"entries":[{"r":"x","p":2,"n":1}]}"#), 1),
        (insert("t", "a", r#"{"entries":[{"r":"y","p":4,"n":0}]}"#), 2),
    ];
    let counters = NameSet::of(&["t".to_string()]);
    let mut store = InMemoryStorage::new().with_counter_tables(counters);
    store.apply_batch(&ops, Lsn::new(2), &NameSet::new()).unwrap();
    let once = store.rows_for("t");
    assert_eq!(counter_value(&once[0].1).unwrap(), 5);
    store.apply_batch(&ops, Lsn::new(2), &NameSet::new()).unwrap();
    assert_eq!(store.rows_for("t"), once);
}

#[test]
fn two_batches_are_one() {
    let first = [(insert("t", "a", "1"), 1)];
    let second = [(insert("t", "a", "2"), 2), (insert("t", "b", "3"), 3)];
    let both = [
        (insert("t", "a", "1"), 1),
        (insert("t", "a", "2"), 2),
        (insert("t", "b", "3"), 3),
    ];
    assert_eq!(
        applied(&[&first, &second]).rows_for("t"),
        applied(&[&both]).rows_for("t")
    );
}

// ---- the engine ----

#[test]
fn an_open_transaction_only_waits_and_commits_whole() {
    let mut engine = ApplyEngine::new(InMemoryStorage::new());
    assert!(engine.feed(frame(1, "a", Some(7))).unwrap().is_none());
    assert!(engine.feed(frame(2, "b", Some(7))).unwrap().is_none());
    assert_eq!(engine.storage().row_count(), 0);
    let out = engine.feed(frame(3, "c", Some(8))).unwrap().expect("commit");
    assert_eq!(out.rows_applied, 2);
    assert_eq!(engine.storage().row_count(), 2);
    assert!(out.checkpoint <= engine.storage().checkpoint().unwrap());
}

#[test]
fn the_mark_never_falls() {
    let mut engine = ApplyEngine::new(InMemoryStorage::new());
    engine.feed(frame(5, "a", Some(1))).unwrap();
    assert_eq!(engine.high_water(), Lsn::new(5));
    engine.feed(frame(3, "b", Some(1))).unwrap();
    assert_eq!(engine.high_water(), Lsn::new(5));
}

#[test]
fn a_snapshot_replaces_its_tables_but_for_what_is_exempt() {
    let mut store = InMemoryStorage::new();
    let seed = [
        (insert("orders", "kept", "old"), 1),
        (insert("orders", "mine", "local"), 2),
        (insert("orders", "gone", "old"), 3),
        (insert("notes", "n", "old"), 4),
        (insert("drafts", "d", "old"), 5),
    ];
    store.apply_batch(&seed, Lsn::new(5), &NameSet::new()).unwrap();
    let mut engine = ApplyEngine::new(store);
    let snapshot = r#"[
        {"horizon":"9","table_name":null,"pk":null,"row":null},
        {"horizon":"9","table_name":"orders","pk":null,"row":null},
        {"horizon":"9","table_name":"orders","pk":"kept","row":{"b":1,"a":2}},
        {"horizon":"9","table_name":"orders","pk":"new","row":{"id":"new"}},
        {"horizon":"9","table_name":"drafts","pk":null,"row":null}
    ]"#;
    let exempt = vec![("orders".to_string(), "mine".to_string())];
    let out = PullCursor::fresh()
        .apply_snapshot(&mut engine, snapshot, &exempt)
        .expect("applied");
    assert_eq!(out.rows_applied, 2);
    assert!(!engine.has_pending());
    let text = |pk: &str| {
        engine
            .storage()
            .payload("orders", pk)
            .map(|b| String::from_utf8(b.to_vec()).unwrap())
    };
    assert_eq!(text("kept").as_deref(), Some(r#"{"a":2,"b":1}"#));
    assert_eq!(text("new").as_deref(), Some(r#"{"id":"new"}"#));
    assert_eq!(text("mine").as_deref(), Some("local"));
    assert_eq!(text("gone"), None);
    assert_eq!(engine.storage().rows_for("notes").len(), 1);
    assert!(engine.storage().rows_for("drafts").is_empty());
}

#[test]
fn every_row_of_a_page_lands() {
    let mut engine = ApplyEngine::new(InMemoryStorage::new());
    let page = r#"[
        {"horizon":"9","seq":2,"xid":"4","table_name":"t","pk":"b","op":"update","row":{"v":2}},
        {"horizon":"9","seq":1,"xid":"4","table_name":"t","pk":"a","op":"insert","row":{"v":1}}
    ]"#;
    let out = PullCursor::fresh().apply(&mut engine, page).expect("applied");
    assert_eq!(out.rows_applied, 2);
    assert_eq!(
        engine.storage().rows_for("t"),
        vec![
            ("a".to_string(), br#"{"v":1}"#.to_vec()),
            ("b".to_string(), br#"{"v":2}"#.to_vec()),
        ]
    );
}

#[test]
fn a_broken_row_leaves_the_transactions_before_it() {
    let mut engine = ApplyEngine::new(InMemoryStorage::new());
    let page = r#"[
        {"horizon":"9","seq":1,"xid":"4","table_name":"t","pk":"a","op":"insert","row":{}},
        {"horizon":"9","seq":2,"xid":"5","table_name":"t","pk":"b","op":"insert","row":{}},
        {"horizon":"9","seq":3,"xid":"5","table_name":"t","pk":"c","op":"merge","row":{}}
    ]"#;
    let mut cursor = PullCursor::fresh();
    assert!(cursor.apply(&mut engine, page).is_err());
    assert_eq!(engine.storage().row_count(), 1);
    assert!(engine.has_pending());
    assert_eq!(cursor.since().as_str(), "0");
    assert_eq!(engine.storage().horizon().unwrap(), None);
}

// ---- local writes ----

fn write(op: WriteOp, pk: &str, payload: Option<&str>) -> PendingWrite {
    PendingWrite {
        table: "t".into(),
        op,
        pk: pk.into(),
        payload_json: payload.map(str::to_string),
    }
}

#[test]
fn a_local_write_shows_and_a_local_delete_hides() {
    let mut store = applied(&[&[(insert("t", "other", "same"), 1)]]);
    store
        .apply_local(&write(WriteOp::Upsert, "a", Some("{\"v\":1}")))
        .unwrap();
    assert_eq!(payload(&store, "a"), Some(&b"{\"v\":1}"[..]));
    store.apply_local(&write(WriteOp::Delete, "a", None)).unwrap();
    assert_eq!(payload(&store, "a"), None);
    assert_eq!(payload(&store, "other"), Some(&b"same"[..]));
}

#[test]
fn the_queue_stays_in_order_and_done_takes_one() {
    let mut store = InMemoryStorage::new();
    let first = store.enqueue(write(WriteOp::Upsert, "a", Some("{}"))).unwrap();
    let second = store.enqueue(write(WriteOp::Upsert, "b", Some("{}"))).unwrap();
    let third = store.enqueue(write(WriteOp::Delete, "c", None)).unwrap();
    assert!(first < second && second < third);
    store.mark_done(second).unwrap();
    let ids: Vec<u64> = store.pending().unwrap().iter().map(|(id, _)| *id).collect();
    assert_eq!(ids, vec![first, third]);
}

// ---- clocks, sets and counters ----

#[test]
fn clocks_have_a_least_one_and_a_later_one() {
    let a = Hlc { wall_ms: 5, ctr: 1 };
    let b = Hlc { wall_ms: 5, ctr: 2 };
    assert!(Hlc::zero().earlier(a));
    assert!(a.earlier(b) && !b.earlier(a) && !a.earlier(a));
    assert_eq!(a.max(b), b);
    assert_eq!(b.max(a), b);
    assert_eq!(Hlc::mint(Some(b), 3), Hlc { wall_ms: 5, ctr: 3 });
    assert_eq!(
        Hlc::mint(Some(Hlc { wall_ms: 5, ctr: u32::MAX }), 5),
        Hlc { wall_ms: 6, ctr: 0 }
    );
}

#[test]
fn set_merge_is_associative() {
    let one = |v: &str, wall: u64| {
        format!(r#"{{"elements":[{{"v":"{v}","h":{{"wall_ms":{wall},"ctr":0}},"d":null}}]}}"#)
            .into_bytes()
    };
    let (a, b, c) = (one("x", 1), one("y", 2), one("x", 3));
    let left = merge_or_set_payloads(&merge_or_set_payloads(&a, &b).unwrap(), &c).unwrap();
    let right = merge_or_set_payloads(&a, &merge_or_set_payloads(&b, &c).unwrap()).unwrap();
    assert_eq!(left, right);
}

#[test]
fn counter_changes_add_up_and_totals_never_fall() {
    let five = counter_apply_delta(b"", "r", 5);
    let two = counter_apply_delta(&five, "r", -3);
    assert_eq!(counter_value(&two).unwrap(), 2);
    let other = counter_apply_delta(b"", "s", 4);
    let merged = merge_counter_payloads(&two, &other).unwrap();
    assert_eq!(counter_value(&merged).unwrap(), 6);
    assert_eq!(merge_counter_payloads(&merged, &five).unwrap(), merged);
}

#[test]
fn a_counter_stays_within_its_range() {
    let most = format!(r#"{{"entries":[{{"r":"a","p":{},"n":0}}]}}"#, u64::MAX);
    assert_eq!(counter_value(most.as_bytes()).unwrap(), i64::MAX);
}

// ---- predicates, scopes and rules ----

fn parse(input: &str) -> PredicateExpr {
    parse_predicate_expr(input, &FloatReadings::new()).expect("a predicate")
}

fn row(pairs: &[(&str, ColumnValue)]) -> Row {
    let mut row = Row::new();
    for (column, value) in pairs {
        row.set(column, value.clone());
    }
    row
}

#[test]
fn predicates_combine() {
    let r = row(&[("a", ColumnValue::number(1)), ("b", ColumnValue::number(2))]);
    assert!(parse("a = 1 AND b = 2").matches(&r));
    assert!(!parse("a = 1 AND b = 3").matches(&r));
    assert!(parse("a = 9 OR b = 2").matches(&r));
    assert!(!parse("NOT a = 1").matches(&r));
}

#[test]
fn of_less_equal_and_greater_one_holds() {
    for n in [1i64, 2, 3] {
        let r = row(&[("a", ColumnValue::number(n))]);
        let held: Vec<bool> = ["a < 2", "a = 2", "a > 2"]
            .iter()
            .map(|p| parse(p).matches(&r))
            .collect();
        assert_eq!(held.iter().filter(|h| **h).count(), 1);
        assert_eq!(parse("a <= 2").matches(&r), held[0] || held[1]);
        assert_eq!(parse("a >= 2").matches(&r), held[2] || held[1]);
        assert_eq!(parse("a != 2").matches(&r), !held[1]);
    }
}

#[test]
fn nothing_is_said_of_a_missing_column_or_an_unbound_placeholder() {
    let r = row(&[("a", ColumnValue::number(1))]);
    assert!(!parse("b = 1").matches(&r));
    assert!(!parse("b != 1").matches(&r));
    assert!(!parse("a = :x").matches(&r));
    assert!(!parse("a != :x").matches(&r));
}

#[test]
fn binding_closes_a_template_and_leaves_a_closed_one() {
    let mut params = OrderedMap::new();
    params.insert("x".to_string(), ColumnValue::number(1));
    let bound = bind_params(&parse("a = :x OR b = 2"), &params).unwrap();
    assert_eq!(bound, parse("a = 1 OR b = 2"));
    assert_eq!(bind_params(&bound, &OrderedMap::new()).unwrap(), bound);
}

fn scope(input: &str) -> ScopeExpr {
    ScopeExpr::parse(input, &FloatReadings::new()).expect("a scope")
}

#[test]
fn a_scope_means_all_of_its_terms_and_denies_without_its_claim() {
    let s = scope("owner = claims.sub AND kind = 'x'");
    let p = s.resolve(&Principal::new("u1", "t1")).expect("resolved");
    assert!(p.matches(&row(&[
        ("owner", ColumnValue::text("u1")),
        ("kind", ColumnValue::text("x")),
    ])));
    assert!(!p.matches(&row(&[
        ("owner", ColumnValue::text("u1")),
        ("kind", ColumnValue::text("y")),
    ])));
    assert!(scope("org = claims.org")
        .resolve(&Principal::new("u1", "t1"))
        .is_none());
    assert_eq!(s.terms[0].op, ScopeOp::Eq);
}

#[test]
fn the_order_of_the_terms_of_a_scope_is_no_matter() {
    assert_eq!(
        scope("b = 2 AND a = 1").canonical(),
        scope("a = 1 AND b = 2").canonical()
    );
    assert_eq!(
        scope("c = 3 AND b = 2 AND a = 1").canonical(),
        scope("b = 2 AND a = 1 AND c = 3").canonical()
    );
}

#[test]
fn the_blanks_between_the_tokens_of_a_scope_are_no_matter() {
    assert_eq!(
        scope(" a   =\t1 AND\n b = 'x  y' ").canonical(),
        scope("a = 1 AND b = 'x  y'").canonical()
    );
    assert_ne!(scope("b = 'x  y'").canonical(), scope("b = 'x y'").canonical());
}

fn table(name: &str) -> TableRule {
    TableRule {
        table: name.to_string(),
        sync: true,
        scope: None,
    }
}

fn stream(name: &str, template: &str) -> StreamRule {
    StreamRule {
        name: name.to_string(),
        table: "t".to_string(),
        template: template.to_string(),
    }
}

fn rules(mode: SyncMode, tables: &[&str], streams: Vec<StreamRule>) -> SyncRules {
    SyncRules {
        version: RULES_VERSION,
        mode,
        tables: tables.iter().map(|t| table(t)).collect(),
        hand: vec![],
        streams,
    }
}

fn sum(r: &SyncRules) -> u64 {
    r.checksum(&FloatReadings::new())
}

#[test]
fn the_order_of_tables_and_streams_is_no_matter() {
    assert_eq!(
        sum(&rules(SyncMode::Toggles, &["a", "b"], vec![])),
        sum(&rules(SyncMode::Toggles, &["b", "a"], vec![]))
    );
    assert_eq!(
        sum(&rules(SyncMode::All, &[], vec![stream("s", "a = 1"), stream("r", "b = 2")])),
        sum(&rules(SyncMode::All, &[], vec![stream("r", "b = 2"), stream("s", "a = 1")]))
    );
    assert_ne!(
        sum(&rules(SyncMode::Toggles, &["a"], vec![])),
        sum(&rules(SyncMode::Toggles, &["b"], vec![]))
    );
}

#[test]
fn the_order_of_hand_rules_and_the_writing_of_their_scopes_is_no_matter() {
    let hand = |name: &str, scope: &str| HandRule {
        table: name.to_string(),
        scope: Some(scope.to_string()),
    };
    let mut plain = rules(SyncMode::Hand, &[], vec![]);
    plain.hand = vec![hand("c", "x = 1 AND y = 2"), hand("a", "z = 3"), hand("b", "z = 4")];
    let mut other = rules(SyncMode::Hand, &[], vec![]);
    other.hand = vec![hand("a", " z=3\t"), hand("b", "z = 4"), hand("c", "y  = 2 AND x =1")];
    assert_eq!(sum(&plain), sum(&other));
    other.hand[1] = hand("b", "z = 5");
    assert_ne!(sum(&plain), sum(&other));
}

#[test]
fn the_section_of_another_mode_is_ignored() {
    let plain = rules(SyncMode::Toggles, &["a"], vec![]);
    let mut other = plain.clone();
    other.hand = vec![HandRule {
        table: "z\t".to_string(),
        scope: Some("no scope at all".to_string()),
    }];
    assert_eq!(sum(&plain), sum(&other));
    assert!(other.validate(&FloatReadings::new()).is_ok());
}

#[test]
fn the_spaces_of_a_template_are_no_matter() {
    assert_eq!(
        sum(&rules(SyncMode::All, &[], vec![stream("s", "a = 1 AND b = 2")])),
        sum(&rules(SyncMode::All, &[], vec![stream("s", "  a  =\t1   AND b = 2")]))
    );
}

#[test]
fn a_larger_tier_has_more_devices() {
    assert!(Tier::Hobby.device_cap() < Tier::Pro.device_cap());
    assert!(Tier::Pro.device_cap() < Tier::Scale.device_cap());
    assert!(Tier::Scale.device_cap() < Tier::Enterprise.device_cap());
}

#[test]
fn the_echo_replaces_what_a_local_write_showed() {
    let mut store = InMemoryStorage::new();
    store
        .apply_local(&write(WriteOp::Upsert, "a", Some("A")))
        .unwrap();
    assert_eq!(store.payload("t", "a"), Some(b"A".as_slice()));
    let none = NameSet::new();
    store
        .apply_batch(&[(insert("t", "a", "B"), 100)], Lsn::new(100), &none)
        .unwrap();
    assert_eq!(store.payload("t", "a"), Some(b"B".as_slice()));
    store
        .apply_local(&write(WriteOp::Upsert, "a", Some("C")))
        .unwrap();
    store
        .apply_batch(&[(insert("t", "a", "old"), 99)], Lsn::new(100), &none)
        .unwrap();
    assert_eq!(store.payload("t", "a"), Some(b"C".as_slice()));
}

#[test]
fn an_edit_inside_a_quoted_value_is_seen() {
    let two = rules(SyncMode::All, &[], vec![stream("s", "a = 'x  y'")]);
    let one = rules(SyncMode::All, &[], vec![stream("s", "a = 'x y'")]);
    let floats = FloatReadings::new();
    assert_ne!(two.canonical(&floats), one.canonical(&floats));
    assert_ne!(sum(&two), sum(&one));
    let broken = rules(SyncMode::All, &[], vec![stream("s", "a =  = 1")]);
    assert!(broken.canonical(&floats).contains("a = = 1"));
}

#[test]
fn an_edit_of_the_mode_or_of_a_table_is_seen() {
    let plain = rules(SyncMode::Toggles, &["a", "b"], vec![]);
    let floats = FloatReadings::new();
    for mode in [SyncMode::All, SyncMode::Hand] {
        let mut other = plain.clone();
        other.mode = mode;
        assert_ne!(plain.canonical(&floats), other.canonical(&floats));
    }
    let mut off = plain.clone();
    off.tables[1].sync = !off.tables[1].sync;
    assert_ne!(plain.canonical(&floats), off.canonical(&floats));
    assert_ne!(
        plain.canonical(&floats),
        rules(SyncMode::Toggles, &["a"], vec![]).canonical(&floats)
    );
    let mut one = rules(SyncMode::Hand, &[], vec![]);
    one.hand = vec![HandRule {
        table: "a".to_string(),
        scope: Some("x = 'p\nb\ty = q'".to_string()),
    }];
    let mut two = rules(SyncMode::Hand, &[], vec![]);
    two.hand = vec![
        HandRule {
            table: "a".to_string(),
            scope: Some("x = 'p'".to_string()),
        },
        HandRule {
            table: "b".to_string(),
            scope: Some("y = 'q'".to_string()),
        },
    ];
    assert!(one.validate(&floats).is_ok());
    assert!(two.validate(&floats).is_ok());
    assert_ne!(one.canonical(&floats), two.canonical(&floats));
}

#[test]
fn an_edit_of_the_streams_is_seen() {
    let floats = FloatReadings::new();
    let plain = rules(SyncMode::All, &[], vec![stream("s", "a = 'x\ty\nz'")]);
    assert!(plain.validate(&floats).is_ok());
    let text = plain.canonical(&floats);
    assert_eq!(text.matches('\n').count(), 3);
    assert_eq!(text.matches('\t').count(), 3);
    let renamed = rules(SyncMode::All, &[], vec![stream("r", "a = 'x\ty\nz'")]);
    assert_ne!(text, renamed.canonical(&floats));
    let mut moved = plain.clone();
    moved.streams[0].table = "elsewhere".to_string();
    assert_ne!(text, moved.canonical(&floats));
    assert_ne!(text, rules(SyncMode::All, &[], vec![]).canonical(&floats));
}

#[test]
fn the_canonical_text_of_a_scope_reads_back() {
    let text = "b >= -3 AND a = 'two\nlines' AND on != TRUE AND c = claims.sub AND a = open";
    let s = scope(text);
    let again = scope(s.canonical().as_str());
    assert_eq!(again.terms.len(), s.terms.len());
    for t in &s.terms {
        assert!(again.terms.contains(t));
    }
    assert_eq!(again.canonical(), s.canonical());
    assert_ne!(scope("a = 'x'").canonical(), scope("a = 'x' AND a = 'x'").canonical());
    assert_ne!(scope("a = 1").canonical(), scope("a = '1'").canonical());
}

#[test]
fn one_byte_changes_the_epoch() {
    assert_ne!(compose_sync_epoch(1, 100), compose_sync_epoch(2, 100));
    assert_ne!(compose_sync_epoch(1, 100), compose_sync_epoch(1, 200));
    for shift in 0..8 {
        let bit = 1u64 << (8 * shift);
        assert_ne!(compose_sync_epoch(0, 0), compose_sync_epoch(bit, 0));
        assert_ne!(compose_sync_epoch(0, 0), compose_sync_epoch(0, bit));
    }
}

#[test]
fn a_delta_moves_the_counter_and_absorbs_what_was() {
    let before = counter_apply_delta(&counter_apply_delta(b"", "b", 5), "a", -2);
    assert_eq!(counter_value(&before).unwrap(), 3);
    let after = counter_apply_delta(&before, "a", 7);
    assert_eq!(counter_value(&after).unwrap(), 10);
    assert_eq!(
        after,
        br#"{"entries":[{"r":"a","p":7,"n":2},{"r":"b","p":5,"n":0}]}"#.to_vec()
    );
    assert_eq!(merge_counter_payloads(&before, &after).unwrap(), after);
    assert_eq!(counter_apply_delta(&after, "c", 0), after);
}

#[test]
fn no_id_is_given_twice() {
    let mut store = InMemoryStorage::new();
    let one = |s: &mut InMemoryStorage| s.enqueue(write(WriteOp::Upsert, "a", None)).unwrap();
    let first = one(&mut store);
    store.mark_done(first).unwrap();
    let second = one(&mut store);
    assert!(second > first);
    store.clear_outbox().unwrap();
    let batch = store
        .enqueue_batch(vec![
            write(WriteOp::Upsert, "b", None),
            write(WriteOp::Delete, "c", None),
        ])
        .unwrap();
    assert!(batch[0] > second && batch[1] > batch[0]);
    Storage::clear(&mut store).unwrap();
    let last = one(&mut store);
    assert!(last > batch[1]);
    let pending = store.pending().unwrap();
    assert_eq!(pending.last().map(|(id, _)| *id), Some(last));
}
