//! The cases that every store has to pass, run on stores that do and do not.

use nostos::conformance::{in_memory_conforms, run_all};
use nostos::events::RowOp;
use nostos::in_memory::InMemoryStorage;
use nostos::lsn::Lsn;
use nostos::names::NameSet;
use nostos::storage::{Storage, StorageError, StoreState};
use nostos::verdicts::{
    judge_echo, judge_horizon, judge_reaping, judge_resnapshot, judge_transaction, Failure,
    ECHO_CASE, HORIZON_CASE, REAP_CASE, RESNAPSHOT_CASE, TRANSACTION_CASE,
};

#[test]
fn the_in_memory_store_conforms() {
    let covered = run_all(InMemoryStorage::default).expect("every case passes");
    assert_eq!(covered.len(), 5, "every case ran: {covered:?}");
}

#[test]
fn the_cases_run_in_order() {
    let covered = in_memory_conforms().expect("every case passes");
    assert_eq!(
        covered,
        vec![
            "a_multi_table_transaction_is_never_seen_in_pieces",
            "an_echoed_page_applies_twice_with_the_same_result",
            "the_horizon_never_runs_ahead_of_the_rows",
            "a_resnapshot_leaves_no_stale_horizon",
            "a_snapshot_reaps_rows_deleted_while_away",
        ]
    );
}

/// A store that keeps its rows, and loses its horizon or the rows that it is told to
/// delete.
struct Careless {
    inner: InMemoryStorage,
    keeps_horizon: bool,
}

impl Storage for Careless {
    fn state(&self) -> StoreState {
        unreachable!()
    }

    fn dependable(&self) -> bool {
        unreachable!()
    }

    fn checkpoint(&self) -> Result<Lsn, StorageError> {
        self.inner.checkpoint()
    }

    fn horizon(&self) -> Result<Option<String>, StorageError> {
        self.inner.horizon()
    }

    fn save_horizon(&mut self, horizon: &str) -> Result<(), StorageError> {
        if self.keeps_horizon {
            self.inner.save_horizon(horizon)
        } else {
            Ok(())
        }
    }

    fn apply_batch(
        &mut self,
        ops: &[(RowOp, u64)],
        checkpoint: Lsn,
        snapshot_tables: &NameSet,
    ) -> Result<(), StorageError> {
        self.inner.apply_batch(ops, checkpoint, snapshot_tables)
    }

    fn pks_for_table(&self, table: &str) -> Result<Vec<String>, StorageError> {
        self.inner.pks_for_table(table)
    }

    fn delete_pks(&mut self, _table: &str, _pks: &[String]) -> Result<(), StorageError> {
        Ok(())
    }

    fn clear(&mut self) -> Result<(), StorageError> {
        self.inner.clear()
    }
}

#[test]
fn a_store_without_a_horizon_is_found_out() {
    let failure = run_all(|| Careless {
        inner: InMemoryStorage::new(),
        keeps_horizon: false,
    })
    .expect_err("no horizon is kept");
    assert_eq!(failure.case, HORIZON_CASE);
    assert_eq!(failure.said, "a horizon was saved");
}

#[test]
fn a_store_that_keeps_deleted_rows_is_found_out() {
    let failure = run_all(|| Careless {
        inner: InMemoryStorage::new(),
        keeps_horizon: true,
    })
    .expect_err("rows are kept");
    assert_eq!(failure.case, REAP_CASE);
    assert_eq!(
        failure.said,
        "a row the snapshot did not confirm must be reaped, not kept forever"
    );
}

fn pks(list: &[&str]) -> Option<Vec<String>> {
    Some(list.iter().map(|pk| pk.to_string()).collect())
}

fn at(horizon: &str) -> Option<Option<String>> {
    Some(Some(horizon.to_string()))
}

fn fails(verdict: Result<(), Failure>, case: &str, said: &str) {
    let failure = verdict.expect_err(said);
    assert_eq!(failure.case, case);
    assert_eq!(failure.said, said);
}

#[test]
fn verdicts_on_a_transaction() {
    let case = TRANSACTION_CASE;
    let orders = pks(&["o1", "o2"]);
    let lines = pks(&["l1"]);
    let shipments = pks(&["s1"]);
    assert!(judge_transaction(Some(4), &orders, &lines, &shipments).is_ok());
    fails(judge_transaction(None, &None, &None, &None), case, "apply the page");
    fails(
        judge_transaction(Some(3), &orders, &lines, &shipments),
        case,
        "every row in the page landed",
    );
    fails(judge_transaction(Some(4), &orders, &None, &shipments), case, "read back");
    for (o, l, s) in [
        (&["x"][..], &["l1"][..], &["s1"][..]),
        (&["o1", "o2"][..], &[][..], &["s1"][..]),
        (&["o1", "o2"][..], &["l1"][..], &["", "1s"][..]),
    ] {
        fails(
            judge_transaction(Some(4), &pks(o), &pks(l), &pks(s)),
            case,
            "all three tables of the transaction are present",
        );
    }
    fails(
        judge_transaction(Some(4), &pks(&["o1"]), &lines, &shipments),
        case,
        "the second transaction in the same page also landed whole",
    );
}

#[test]
fn verdicts_on_an_echo() {
    let case = ECHO_CASE;
    let rows = pks(&["o1"]);
    let bytes = Some(Some(b"x".to_vec()));
    assert!(judge_echo(true, &rows, &bytes, true, &rows, &bytes).is_ok());
    assert!(judge_echo(true, &rows, &Some(None), true, &rows, &Some(None)).is_ok());
    fails(judge_echo(false, &None, &None, false, &None, &None), case, "first apply");
    fails(judge_echo(true, &None, &bytes, false, &None, &None), case, "read back");
    fails(judge_echo(true, &rows, &None, false, &None, &None), case, "read");
    fails(judge_echo(true, &rows, &bytes, false, &None, &None), case, "second apply");
    fails(judge_echo(true, &rows, &bytes, true, &None, &bytes), case, "read back");
    fails(judge_echo(true, &rows, &bytes, true, &rows, &None), case, "read");
    fails(
        judge_echo(true, &rows, &bytes, true, &pks(&["o1", "o1"]), &bytes),
        case,
        "the echo must not duplicate the row",
    );
    for other in [Some(Some(b"y".to_vec())), Some(None)] {
        fails(
            judge_echo(true, &rows, &bytes, true, &rows, &other),
            case,
            "re-applying the same bytes must produce the same bytes",
        );
    }
}

#[test]
fn verdicts_on_a_horizon() {
    let case = HORIZON_CASE;
    let rows = pks(&["o1", "o2"]);
    let carried = Some("105".to_string());
    assert!(judge_horizon(true, &at("105"), &rows, &carried).is_ok());
    fails(judge_horizon(false, &None, &None, &None), case, "apply");
    fails(judge_horizon(true, &None, &rows, &carried), case, "read the horizon");
    fails(judge_horizon(true, &Some(None), &rows, &None), case, "a horizon was saved");
    fails(
        judge_horizon(true, &at("104"), &rows, &carried),
        case,
        "the horizon is the snapshot, not the last xid",
    );
    fails(judge_horizon(true, &at("105"), &None, &carried), case, "read back");
    fails(
        judge_horizon(true, &at("105"), &pks(&["o2"]), &carried),
        case,
        "o1 must be durable before the horizon that covers it",
    );
    fails(
        judge_horizon(true, &at("105"), &pks(&["o1"]), &carried),
        case,
        "o2 must be durable before the horizon that covers it",
    );
    for other in [None, Some("0".to_string())] {
        fails(
            judge_horizon(true, &at("105"), &rows, &other),
            case,
            "the resumed request must carry the saved horizon verbatim, as text",
        );
    }
}

#[test]
fn verdicts_on_starting_over() {
    let case = RESNAPSHOT_CASE;
    let none = pks(&[]);
    assert!(judge_resnapshot(true, &at("101"), true, &Some(None), &none).is_ok());
    fails(judge_resnapshot(false, &None, false, &None, &None), case, "apply");
    fails(judge_resnapshot(true, &None, false, &None, &None), case, "read");
    fails(judge_resnapshot(true, &Some(None), false, &None, &None), case, "a horizon was saved");
    fails(judge_resnapshot(true, &at("101"), false, &None, &None), case, "clear for re-snapshot");
    fails(judge_resnapshot(true, &at("101"), true, &None, &none), case, "read");
    fails(
        judge_resnapshot(true, &at("101"), true, &at("101"), &none),
        case,
        "clear() must wipe the horizon, or the re-snapshot resumes mid-log",
    );
    fails(judge_resnapshot(true, &at("101"), true, &Some(None), &None), case, "read back");
    fails(
        judge_resnapshot(true, &at("101"), true, &Some(None), &pks(&["o1"])),
        case,
        "clear() must wipe the rows too",
    );
}

#[test]
fn verdicts_on_a_snapshot() {
    let case = REAP_CASE;
    let rows = pks(&["stays"]);
    assert!(judge_reaping(true, &at("400"), &rows, &at("400")).is_ok());
    fails(judge_reaping(false, &None, &None, &None), case, "seed");
    fails(judge_reaping(true, &None, &None, &None), case, "apply snapshot");
    fails(judge_reaping(true, &at("400"), &None, &at("400")), case, "read back");
    fails(judge_reaping(true, &at("400"), &pks(&[]), &at("400")), case, "a confirmed row survives");
    fails(
        judge_reaping(true, &at("400"), &pks(&["stays", "goes"]), &at("400")),
        case,
        "a row the snapshot did not confirm must be reaped, not kept forever",
    );
    for moved in [Some(None), at("101")] {
        fails(
            judge_reaping(true, &moved, &rows, &at("400")),
            case,
            "the snapshot's horizon is the new resume point",
        );
    }
    fails(judge_reaping(true, &at("400"), &rows, &None), case, "read the horizon");
    for kept in [Some(None), at("101")] {
        fails(
            judge_reaping(true, &at("400"), &rows, &kept),
            case,
            "and it is durable, or the next launch re-snapshots for nothing",
        );
    }
}
