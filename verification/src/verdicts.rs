//! What each case of the suite makes of the answers that a store gave. An answer is
//! missing where the call failed, or was not made because an earlier one did.

use vstd::prelude::*;
use crate::text::{chars_of, same_text, text_views};

verus! {

/// A case that a store did not pass.
#[derive(Debug)]
pub struct Failure {
    pub case: &'static str,
    pub said: &'static str,
}

pub const TRANSACTION_CASE: &'static str = "a_multi_table_transaction_is_never_seen_in_pieces";

pub const ECHO_CASE: &'static str = "an_echoed_page_applies_twice_with_the_same_result";

pub const HORIZON_CASE: &'static str = "the_horizon_never_runs_ahead_of_the_rows";

pub const RESNAPSHOT_CASE: &'static str = "a_resnapshot_leaves_no_stale_horizon";

pub const REAP_CASE: &'static str = "a_snapshot_reaps_rows_deleted_while_away";

/// Whether `r` passes a case without a fault, and fails it with the fault otherwise.
pub open spec fn says(r: Result<(), Failure>, case: Seq<char>, fault: Option<Seq<char>>) -> bool {
    match fault {
        None => r is Ok,
        Some(said) => r is Err && r->Err_0.case@ == case && r->Err_0.said@ == said,
    }
}

/// The error of a case.
fn failed(case: &'static str, said: &'static str) -> (r: Result<(), Failure>)
    ensures
        says(r, case@, Some(said@)),
{
    Err(Failure { case, said })
}

// ---- answers by their values ----

/// The keys that were given.
pub open spec fn keys(answer: Option<Vec<String>>) -> Option<Seq<Seq<char>>> {
    match answer {
        Some(pks) => Some(text_views(pks@)),
        None => None,
    }
}

/// The bytes of an optional payload.
pub open spec fn bytes_of(v: Option<Vec<u8>>) -> Option<Seq<u8>> {
    match v {
        Some(b) => Some(b@),
        None => None,
    }
}

/// The payload that was given.
pub open spec fn payload_given(answer: Option<Option<Vec<u8>>>) -> Option<Option<Seq<u8>>> {
    match answer {
        Some(payload) => Some(bytes_of(payload)),
        None => None,
    }
}

/// The text of an optional horizon.
pub open spec fn text_of_horizon(h: Option<String>) -> Option<Seq<char>> {
    match h {
        Some(text) => Some(text@),
        None => None,
    }
}

/// The horizon that was given.
pub open spec fn horizon_given(answer: Option<Option<String>>) -> Option<Option<Seq<char>>> {
    match answer {
        Some(h) => Some(text_of_horizon(h)),
        None => None,
    }
}

// ---- comparisons ----

/// Whether a list holds a text.
fn holds_text(list: &Vec<String>, text: &str) -> (r: bool)
    ensures
        r == text_views(list@).contains(text@),
{
    let ghost all = text_views(list@);
    let mut i: usize = 0;
    while i < list.len()
        invariant
            i <= list@.len(),
            all == text_views(list@),
            forall|k: int| 0 <= k < i ==> all[k] != text@,
        decreases list@.len() - i,
    {
        if same_text(list[i].as_str(), text) {
            assert(all[i as int] == text@);
            return true;
        }
        i += 1;
    }
    false
}

/// Whether a key is one of those that the transaction writes.
pub open spec fn of_transaction(pk: Seq<char>) -> bool {
    pk.len() > 0 && (pk[0] == 'o' || pk[0] == 'l' || pk[0] == 's')
}

/// Whether a key of the transaction is among these.
pub open spec fn some_of_transaction(pks: Seq<Seq<char>>) -> bool {
    exists|i: int| 0 <= i < pks.len() && of_transaction(#[trigger] pks[i])
}

/// Whether a list holds such a key.
fn holds_some(list: &Vec<String>) -> (r: bool)
    ensures
        r == some_of_transaction(text_views(list@)),
{
    let ghost all = text_views(list@);
    let mut i: usize = 0;
    while i < list.len()
        invariant
            i <= list@.len(),
            all == text_views(list@),
            forall|k: int| 0 <= k < i ==> !of_transaction(#[trigger] all[k]),
        decreases list@.len() - i,
    {
        let pk = chars_of(list[i].as_str());
        assert(all[i as int] == pk@);
        if pk.len() > 0 && (pk[0] == 'o' || pk[0] == 'l' || pk[0] == 's') {
            return true;
        }
        i += 1;
    }
    false
}

/// Whether two lists of texts are the same.
fn same_list(a: &Vec<String>, b: &Vec<String>) -> (r: bool)
    ensures
        r == (text_views(a@) == text_views(b@)),
{
    let ghost s = text_views(a@);
    let ghost t = text_views(b@);
    if a.len() != b.len() {
        assert(s.len() != t.len());
        return false;
    }
    let mut i: usize = 0;
    while i < a.len()
        invariant
            i <= a@.len(),
            a@.len() == b@.len(),
            s == text_views(a@),
            t == text_views(b@),
            forall|k: int| 0 <= k < i ==> s[k] == t[k],
        decreases a@.len() - i,
    {
        if !same_text(a[i].as_str(), b[i].as_str()) {
            assert(s[i as int] != t[i as int]);
            return false;
        }
        i += 1;
    }
    assert(s =~= t);
    true
}

/// Whether two payloads are the same.
fn same_payload(a: &Option<Vec<u8>>, b: &Option<Vec<u8>>) -> (r: bool)
    ensures
        r == (bytes_of(*a) == bytes_of(*b)),
{
    match (a, b) {
        (Some(x), Some(y)) => {
            if x.len() != y.len() {
                return false;
            }
            let mut i: usize = 0;
            while i < x.len()
                invariant
                    i <= x@.len(),
                    x@.len() == y@.len(),
                    bytes_of(*a) == Some(x@),
                    bytes_of(*b) == Some(y@),
                    forall|k: int| 0 <= k < i ==> x@[k] == y@[k],
                decreases x@.len() - i,
            {
                if x[i] != y[i] {
                    return false;
                }
                i += 1;
            }
            assert(x@ =~= y@);
            true
        },
        (None, None) => true,
        _ => false,
    }
}

/// Whether there is a horizon, and it is `text`.
fn is_at(h: &Option<String>, text: &str) -> (r: bool)
    ensures
        r == (text_of_horizon(*h) == Some(text@)),
{
    match h {
        Some(h) => same_text(h.as_str(), text),
        None => false,
    }
}

// ---- verdicts ----

/// What is wrong with how a transaction on three tables was seen: `applied` is the number
/// of rows of the page that landed, and the keys are those of the three tables.
pub open spec fn transaction_fault(
    applied: Option<usize>,
    orders: Option<Seq<Seq<char>>>,
    lines: Option<Seq<Seq<char>>>,
    shipments: Option<Seq<Seq<char>>>,
) -> Option<Seq<char>> {
    if applied is None {
        Some("apply the page"@)
    } else if applied->0 != 4 {
        Some("every row in the page landed"@)
    } else if orders is None || lines is None || shipments is None {
        Some("read back"@)
    } else if !some_of_transaction(orders->0) || !some_of_transaction(lines->0)
        || !some_of_transaction(shipments->0) {
        Some("all three tables of the transaction are present"@)
    } else if !orders->0.contains("o2"@) {
        Some("the second transaction in the same page also landed whole"@)
    } else {
        None
    }
}

/// Judges how a transaction on three tables was seen.
pub fn judge_transaction(
    applied: Option<usize>,
    orders: &Option<Vec<String>>,
    lines: &Option<Vec<String>>,
    shipments: &Option<Vec<String>>,
) -> (r: Result<(), Failure>)
    ensures
        says(
            r,
            TRANSACTION_CASE@,
            transaction_fault(applied, keys(*orders), keys(*lines), keys(*shipments)),
        ),
{
    match applied {
        None => {
            return failed(TRANSACTION_CASE, "apply the page");
        },
        Some(n) => if n != 4 {
            return failed(TRANSACTION_CASE, "every row in the page landed");
        },
    }
    match (orders, lines, shipments) {
        (Some(orders), Some(lines), Some(shipments)) => {
            if !holds_some(orders) || !holds_some(lines) || !holds_some(shipments) {
                failed(TRANSACTION_CASE, "all three tables of the transaction are present")
            } else if !holds_text(orders, "o2") {
                failed(
                    TRANSACTION_CASE,
                    "the second transaction in the same page also landed whole",
                )
            } else {
                Ok(())
            }
        },
        _ => failed(TRANSACTION_CASE, "read back"),
    }
}

/// What is wrong with how a page and its echo were seen: whether each was applied, and
/// the keys and the payload after it.
pub open spec fn echo_fault(
    first: bool,
    pks_one: Option<Seq<Seq<char>>>,
    payload_one: Option<Option<Seq<u8>>>,
    second: bool,
    pks_two: Option<Seq<Seq<char>>>,
    payload_two: Option<Option<Seq<u8>>>,
) -> Option<Seq<char>> {
    if !first {
        Some("first apply"@)
    } else if pks_one is None {
        Some("read back"@)
    } else if payload_one is None {
        Some("read"@)
    } else if !second {
        Some("second apply"@)
    } else if pks_two is None {
        Some("read back"@)
    } else if payload_two is None {
        Some("read"@)
    } else if pks_one != pks_two {
        Some("the echo must not duplicate the row"@)
    } else if payload_one != payload_two {
        Some("re-applying the same bytes must produce the same bytes"@)
    } else {
        None
    }
}

/// Judges how a page and its echo were seen.
pub fn judge_echo(
    first: bool,
    pks_one: &Option<Vec<String>>,
    payload_one: &Option<Option<Vec<u8>>>,
    second: bool,
    pks_two: &Option<Vec<String>>,
    payload_two: &Option<Option<Vec<u8>>>,
) -> (r: Result<(), Failure>)
    ensures
        says(
            r,
            ECHO_CASE@,
            echo_fault(
                first,
                keys(*pks_one),
                payload_given(*payload_one),
                second,
                keys(*pks_two),
                payload_given(*payload_two),
            ),
        ),
{
    if !first {
        return failed(ECHO_CASE, "first apply");
    }
    let after_one = match pks_one {
        Some(pks) => pks,
        None => {
            return failed(ECHO_CASE, "read back");
        },
    };
    let held_one = match payload_one {
        Some(payload) => payload,
        None => {
            return failed(ECHO_CASE, "read");
        },
    };
    if !second {
        return failed(ECHO_CASE, "second apply");
    }
    let after_two = match pks_two {
        Some(pks) => pks,
        None => {
            return failed(ECHO_CASE, "read back");
        },
    };
    let held_two = match payload_two {
        Some(payload) => payload,
        None => {
            return failed(ECHO_CASE, "read");
        },
    };
    if !same_list(after_one, after_two) {
        return failed(ECHO_CASE, "the echo must not duplicate the row");
    }
    if !same_payload(held_one, held_two) {
        return failed(ECHO_CASE, "re-applying the same bytes must produce the same bytes");
    }
    Ok(())
}

/// What is wrong with how a horizon was seen: whether its page was applied, the horizon
/// and the keys after it, and the horizon that the request of a client that resumes
/// there carries.
pub open spec fn horizon_fault(
    applied: bool,
    saved: Option<Option<Seq<char>>>,
    pks: Option<Seq<Seq<char>>>,
    carried: Option<Seq<char>>,
) -> Option<Seq<char>> {
    if !applied {
        Some("apply"@)
    } else if saved is None {
        Some("read the horizon"@)
    } else if saved->0 is None {
        Some("a horizon was saved"@)
    } else if saved->0->0 != "105"@ {
        Some("the horizon is the snapshot, not the last xid"@)
    } else if pks is None {
        Some("read back"@)
    } else if !pks->0.contains("o1"@) {
        Some("o1 must be durable before the horizon that covers it"@)
    } else if !pks->0.contains("o2"@) {
        Some("o2 must be durable before the horizon that covers it"@)
    } else if carried != saved->0 {
        Some("the resumed request must carry the saved horizon verbatim, as text"@)
    } else {
        None
    }
}

/// Judges how a horizon was seen.
pub fn judge_horizon(
    applied: bool,
    saved: &Option<Option<String>>,
    pks: &Option<Vec<String>>,
    carried: &Option<String>,
) -> (r: Result<(), Failure>)
    ensures
        says(
            r,
            HORIZON_CASE@,
            horizon_fault(applied, horizon_given(*saved), keys(*pks), text_of_horizon(*carried)),
        ),
{
    if !applied {
        return failed(HORIZON_CASE, "apply");
    }
    let at = match saved {
        None => {
            return failed(HORIZON_CASE, "read the horizon");
        },
        Some(None) => {
            return failed(HORIZON_CASE, "a horizon was saved");
        },
        Some(Some(at)) => at,
    };
    if !same_text(at.as_str(), "105") {
        return failed(HORIZON_CASE, "the horizon is the snapshot, not the last xid");
    }
    let rows = match pks {
        Some(rows) => rows,
        None => {
            return failed(HORIZON_CASE, "read back");
        },
    };
    if !holds_text(rows, "o1") {
        return failed(HORIZON_CASE, "o1 must be durable before the horizon that covers it");
    }
    if !holds_text(rows, "o2") {
        return failed(HORIZON_CASE, "o2 must be durable before the horizon that covers it");
    }
    if !is_at(carried, at.as_str()) {
        return failed(
            HORIZON_CASE,
            "the resumed request must carry the saved horizon verbatim, as text",
        );
    }
    Ok(())
}

/// What is wrong with how a store was seen to start over: whether the page was applied,
/// the horizon after it, whether the store was cleared, and the horizon and the keys
/// after that.
pub open spec fn resnapshot_fault(
    applied: bool,
    kept: Option<Option<Seq<char>>>,
    cleared: bool,
    left: Option<Option<Seq<char>>>,
    pks: Option<Seq<Seq<char>>>,
) -> Option<Seq<char>> {
    if !applied {
        Some("apply"@)
    } else if kept is None {
        Some("read"@)
    } else if kept->0 is None {
        Some("a horizon was saved"@)
    } else if !cleared {
        Some("clear for re-snapshot"@)
    } else if left is None {
        Some("read"@)
    } else if left->0 is Some {
        Some("clear() must wipe the horizon, or the re-snapshot resumes mid-log"@)
    } else if pks is None {
        Some("read back"@)
    } else if pks->0.len() != 0 {
        Some("clear() must wipe the rows too"@)
    } else {
        None
    }
}

/// Judges how a store was seen to start over.
pub fn judge_resnapshot(
    applied: bool,
    kept: &Option<Option<String>>,
    cleared: bool,
    left: &Option<Option<String>>,
    pks: &Option<Vec<String>>,
) -> (r: Result<(), Failure>)
    ensures
        says(
            r,
            RESNAPSHOT_CASE@,
            resnapshot_fault(
                applied,
                horizon_given(*kept),
                cleared,
                horizon_given(*left),
                keys(*pks),
            ),
        ),
{
    if !applied {
        return failed(RESNAPSHOT_CASE, "apply");
    }
    match kept {
        None => {
            return failed(RESNAPSHOT_CASE, "read");
        },
        Some(None) => {
            return failed(RESNAPSHOT_CASE, "a horizon was saved");
        },
        Some(Some(_)) => {},
    }
    if !cleared {
        return failed(RESNAPSHOT_CASE, "clear for re-snapshot");
    }
    match left {
        None => {
            return failed(RESNAPSHOT_CASE, "read");
        },
        Some(Some(_)) => {
            return failed(
                RESNAPSHOT_CASE,
                "clear() must wipe the horizon, or the re-snapshot resumes mid-log",
            );
        },
        Some(None) => {},
    }
    match pks {
        None => failed(RESNAPSHOT_CASE, "read back"),
        Some(rows) => if rows.len() != 0 {
            failed(RESNAPSHOT_CASE, "clear() must wipe the rows too")
        } else {
            Ok(())
        },
    }
}

/// What is wrong with how a snapshot was seen to replace two rows: whether the rows were
/// seeded, the horizon that the snapshot moved the cursor to, and the keys and the
/// horizon after it.
pub open spec fn reaping_fault(
    seeded: bool,
    moved: Option<Option<Seq<char>>>,
    pks: Option<Seq<Seq<char>>>,
    kept: Option<Option<Seq<char>>>,
) -> Option<Seq<char>> {
    if !seeded {
        Some("seed"@)
    } else if moved is None {
        Some("apply snapshot"@)
    } else if pks is None {
        Some("read back"@)
    } else if !pks->0.contains("stays"@) {
        Some("a confirmed row survives"@)
    } else if pks->0.contains("goes"@) {
        Some("a row the snapshot did not confirm must be reaped, not kept forever"@)
    } else if moved->0 != Some("400"@) {
        Some("the snapshot's horizon is the new resume point"@)
    } else if kept is None {
        Some("read the horizon"@)
    } else if kept->0 != Some("400"@) {
        Some("and it is durable, or the next launch re-snapshots for nothing"@)
    } else {
        None
    }
}

/// Judges how a snapshot was seen to replace two rows.
pub fn judge_reaping(
    seeded: bool,
    moved: &Option<Option<String>>,
    pks: &Option<Vec<String>>,
    kept: &Option<Option<String>>,
) -> (r: Result<(), Failure>)
    ensures
        says(
            r,
            REAP_CASE@,
            reaping_fault(seeded, horizon_given(*moved), keys(*pks), horizon_given(*kept)),
        ),
{
    if !seeded {
        return failed(REAP_CASE, "seed");
    }
    let at = match moved {
        Some(at) => at,
        None => {
            return failed(REAP_CASE, "apply snapshot");
        },
    };
    let rows = match pks {
        Some(rows) => rows,
        None => {
            return failed(REAP_CASE, "read back");
        },
    };
    if !holds_text(rows, "stays") {
        return failed(REAP_CASE, "a confirmed row survives");
    }
    if holds_text(rows, "goes") {
        return failed(
            REAP_CASE,
            "a row the snapshot did not confirm must be reaped, not kept forever",
        );
    }
    if !is_at(at, "400") {
        return failed(REAP_CASE, "the snapshot's horizon is the new resume point");
    }
    let durable = match kept {
        Some(durable) => durable,
        None => {
            return failed(REAP_CASE, "read the horizon");
        },
    };
    if !is_at(durable, "400") {
        return failed(
            REAP_CASE,
            "and it is durable, or the next launch re-snapshots for nothing",
        );
    }
    Ok(())
}

// ---- which fault is whose ----

/// A store that took the page has another fault.
pub(crate) proof fn lemma_transaction_refused(
    applied: Option<usize>,
    orders: Option<Seq<Seq<char>>>,
    lines: Option<Seq<Seq<char>>>,
    shipments: Option<Seq<Seq<char>>>,
)
    ensures
        transaction_fault(applied, orders, lines, shipments) == Some("apply the page"@)
            ==> applied is None,
{
    reveal_strlit("all three tables of the transaction are present");
    reveal_strlit("apply the page");
    reveal_strlit("every row in the page landed");
    reveal_strlit("read back");
    reveal_strlit("the second transaction in the same page also landed whole");
    assert("all three tables of the transaction are present"@.len() == 47);
    assert("apply the page"@.len() == 14);
    assert("every row in the page landed"@.len() == 28);
    assert("read back"@.len() == 9);
    assert("the second transaction in the same page also landed whole"@.len() == 57);
}

/// A store that took the page, or its echo, has another fault.
pub(crate) proof fn lemma_echo_refused(
    first: bool,
    pks_one: Option<Seq<Seq<char>>>,
    payload_one: Option<Option<Seq<u8>>>,
    second: bool,
    pks_two: Option<Seq<Seq<char>>>,
    payload_two: Option<Option<Seq<u8>>>,
)
    ensures
        echo_fault(first, pks_one, payload_one, second, pks_two, payload_two) == Some(
            "first apply"@,
        ) ==> !first,
        echo_fault(first, pks_one, payload_one, second, pks_two, payload_two) == Some(
            "second apply"@,
        ) ==> first && !second && pks_one is Some && payload_one is Some,
{
    reveal_strlit("first apply");
    reveal_strlit("re-applying the same bytes must produce the same bytes");
    reveal_strlit("read");
    reveal_strlit("read back");
    reveal_strlit("second apply");
    reveal_strlit("the echo must not duplicate the row");
    assert("first apply"@.len() == 11);
    assert("re-applying the same bytes must produce the same bytes"@.len() == 54);
    assert("read"@.len() == 4);
    assert("read back"@.len() == 9);
    assert("second apply"@.len() == 12);
    assert("the echo must not duplicate the row"@.len() == 35);
}

/// A store that took the page has another fault.
pub(crate) proof fn lemma_horizon_refused(
    applied: bool,
    saved: Option<Option<Seq<char>>>,
    pks: Option<Seq<Seq<char>>>,
    carried: Option<Seq<char>>,
)
    ensures
        horizon_fault(applied, saved, pks, carried) == Some("apply"@) ==> !applied,
{
    reveal_strlit("a horizon was saved");
    reveal_strlit("apply");
    reveal_strlit("o1 must be durable before the horizon that covers it");
    reveal_strlit("o2 must be durable before the horizon that covers it");
    reveal_strlit("read back");
    reveal_strlit("read the horizon");
    reveal_strlit("the horizon is the snapshot, not the last xid");
    reveal_strlit("the resumed request must carry the saved horizon verbatim, as text");
    assert("a horizon was saved"@.len() == 19);
    assert("apply"@.len() == 5);
    assert("o1 must be durable before the horizon that covers it"@.len() == 52);
    assert("o2 must be durable before the horizon that covers it"@.len() == 52);
    assert("read back"@.len() == 9);
    assert("read the horizon"@.len() == 16);
    assert("the horizon is the snapshot, not the last xid"@.len() == 45);
    assert("the resumed request must carry the saved horizon verbatim, as text"@.len() == 66);
}

/// A store that took the page, or was cleared, has another fault.
pub(crate) proof fn lemma_resnapshot_refused(
    applied: bool,
    kept: Option<Option<Seq<char>>>,
    cleared: bool,
    left: Option<Option<Seq<char>>>,
    pks: Option<Seq<Seq<char>>>,
)
    ensures
        resnapshot_fault(applied, kept, cleared, left, pks) == Some("apply"@) ==> !applied,
        resnapshot_fault(applied, kept, cleared, left, pks) == Some("clear for re-snapshot"@)
            ==> applied && !cleared && kept is Some && kept->0 is Some,
{
    reveal_strlit("a horizon was saved");
    reveal_strlit("apply");
    reveal_strlit("clear for re-snapshot");
    reveal_strlit("clear() must wipe the horizon, or the re-snapshot resumes mid-log");
    reveal_strlit("clear() must wipe the rows too");
    reveal_strlit("read");
    reveal_strlit("read back");
    assert("a horizon was saved"@.len() == 19);
    assert("apply"@.len() == 5);
    assert("clear for re-snapshot"@.len() == 21);
    assert("clear() must wipe the horizon, or the re-snapshot resumes mid-log"@.len() == 65);
    assert("clear() must wipe the rows too"@.len() == 30);
    assert("read"@.len() == 4);
    assert("read back"@.len() == 9);
}

/// A store that took the rows, or the snapshot, has another fault.
pub(crate) proof fn lemma_reaping_refused(
    seeded: bool,
    moved: Option<Option<Seq<char>>>,
    pks: Option<Seq<Seq<char>>>,
    kept: Option<Option<Seq<char>>>,
)
    ensures
        reaping_fault(seeded, moved, pks, kept) == Some("seed"@) ==> !seeded,
        reaping_fault(seeded, moved, pks, kept) == Some("apply snapshot"@) ==> seeded && moved
            is None,
{
    reveal_strlit("a confirmed row survives");
    reveal_strlit("a row the snapshot did not confirm must be reaped, not kept forever");
    reveal_strlit("and it is durable, or the next launch re-snapshots for nothing");
    reveal_strlit("apply snapshot");
    reveal_strlit("read back");
    reveal_strlit("read the horizon");
    reveal_strlit("seed");
    reveal_strlit("the snapshot's horizon is the new resume point");
    assert("a confirmed row survives"@.len() == 24);
    assert("a row the snapshot did not confirm must be reaped, not kept forever"@.len() == 67);
    assert("and it is durable, or the next launch re-snapshots for nothing"@.len() == 62);
    assert("apply snapshot"@.len() == 14);
    assert("read back"@.len() == 9);
    assert("read the horizon"@.len() == 16);
    assert("seed"@.len() == 4);
    assert("the snapshot's horizon is the new resume point"@.len() == 46);
}

} // verus!
