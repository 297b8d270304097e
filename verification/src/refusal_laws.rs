//! What is refused, and with which words.

use vstd::prelude::*;
use vstd::utf8::encode_utf8;
use crate::apply::{ApplyEngine, Frame};
use crate::appwrite_pull::{AppwriteCursor, AppwritePullError, AppwritePullOutcome};
use crate::auth::{accept_claims, read_claims};
use crate::base64url::{encoded, law_encoded_reads_back};
use crate::counter::CounterError;
use crate::crdt::OrSetError;
use crate::digest::hmac_sha256_tag;
use crate::in_memory::InMemoryStorage;
use crate::json::{json_fault, json_read, member, JsonView};
use crate::license::{LicenseClaims, LicenseError};
use crate::lsn::LsnParseError;
use crate::numbers::{decimal, lemma_digits_round_trip, signed_decimal, NumberFault};
use crate::predicate::{Float, FloatReadings};
use crate::predicate_compile::{parsed, BindError, ParseError};
use crate::pull::{decode_rows, PullCursor, PullError, PullOutcome, PullRow};
use crate::pull_snapshot::{
    arriving, decode_snapshot, snapshot_steps, snapshot_views, steps_taken, SnapshotRow,
    SnapshotRowView, SnapshotStep,
};
use crate::routes::{
    check_login, check_signup, check_waitlist_email, own_account, plan_checkout, ApiError,
};
use crate::records::Account;
use crate::rules::{
    last_stream_fault, last_table_fault, stream_fault, table_fault, RulesError, StreamView,
    SyncMode, SyncRules,
};
use crate::scope::{parsed_scope, ScopeError};
use crate::storage::StorageError;
use crate::stripe::{pieces, said_time, verify_webhook_at, StripeError};
use crate::text::{control, debug_quoted, trimmed};
use crate::tier::Tier;

verus! {

// ---- rules ----

/// Whether the `i`-th table of the active section of the rules has a name.
pub open spec fn lists_table(rules: SyncRules, i: int, name: Seq<char>) -> bool {
    match rules.mode {
        SyncMode::All => false,
        SyncMode::Toggles => 0 <= i < rules.tables@.len() && rules.tables@[i].table@ == name,
        SyncMode::Hand => 0 <= i < rules.hand@.len() && rules.hand@[i].table@ == name,
    }
}

/// The scope of the `i`-th table of the active section of the rules.
pub open spec fn listed_scope(rules: SyncRules, i: int) -> Option<String> {
    match rules.mode {
        SyncMode::All => None,
        SyncMode::Toggles => rules.tables@[i].scope,
        SyncMode::Hand => rules.hand@[i].scope,
    }
}

/// Whether a name holds a control character.
pub open spec fn unprintable(name: Seq<char>) -> bool {
    exists|k: int| 0 <= k < name.len() && control(#[trigger] name[k])
}

/// Whether two tables of the active section have one name.
pub open spec fn twice(rules: SyncRules, name: Seq<char>) -> bool {
    exists|i: int, j: int| #[trigger]
        lists_table(rules, i, name) && #[trigger] lists_table(rules, j, name) && i < j
}

/// Whether some table of the active section has a name.
pub open spec fn once(rules: SyncRules, name: Seq<char>) -> bool {
    exists|i: int| #[trigger] lists_table(rules, i, name)
}

/// Whether some table of a name has a scope that is refused for the reason.
pub open spec fn scope_refused(
    rules: SyncRules,
    name: Seq<char>,
    floats: Map<Seq<char>, Float>,
    why: crate::scope::ScopeErrorView,
) -> bool {
    exists|i: int| #[trigger]
        lists_table(rules, i, name) && listed_scope(rules, i) is Some && parsed_scope(
            trimmed(listed_scope(rules, i)->0@),
            floats,
        ) == Err::<Seq<crate::scope::ScopeTermView>, crate::scope::ScopeErrorView>(why)
}

/// Rules are refused for what they are: for another version than the first, for a table
/// or a stream that comes twice or cannot be printed, for a scope or a template that
/// cannot be read. The reason names the table or the stream.
pub proof fn law_rules_are_refused_for_what_they_are(
    rules: &SyncRules,
    floats: &FloatReadings,
    r: Result<(), RulesError>,
)
    requires
        call_ensures(SyncRules::validate, (rules, floats), r),
    ensures
        rules.version != 1 ==> r is Err && r->Err_0 == RulesError::UnsupportedVersion(
            rules.version,
        ),
        r is Err ==> match r->Err_0 {
            RulesError::UnsupportedVersion(v) => v == rules.version && v != 1,
            RulesError::UnknownMode(_) => false,
            RulesError::DuplicateTable(t) => twice(*rules, t@),
            RulesError::InvalidTableName(t) => unprintable(t@) && (once(*rules, t@) || exists|i: int|
                0 <= i < rules.streams@.len() && (#[trigger] rules.streams@[i]).table@ == t@),
            RulesError::Scope { table, source } => scope_refused(
                *rules,
                table@,
                floats.readings@,
                source@,
            ),
            RulesError::DuplicateStream(s) => exists|i: int, j: int|
                0 <= i < j < rules.streams@.len() && (#[trigger] rules.streams@[i]).name@ == s@ && (
                #[trigger] rules.streams@[j]).name@ == s@,
            RulesError::InvalidStreamName(s) => unprintable(s@) && exists|i: int|
                0 <= i < rules.streams@.len() && (#[trigger] rules.streams@[i]).name@ == s@,
            RulesError::StreamTemplate { name, source } => exists|i: int|
                0 <= i < rules.streams@.len() && (#[trigger] rules.streams@[i]).name@ == name@
                    && parsed(trimmed(rules.streams@[i].template@), floats.readings@) == Err::<
                    crate::predicate::ExprView,
                    crate::predicate_compile::ParseErrorView,
                >(source@),
        },
{
    let f = floats.readings@;
    if rules.version == 1 && r is Err {
        let s = rules.stream_views();
        match stream_fault(s, f) {
            Some(e) => {
                let k = lemma_stream_fault(s, f);
                let t = s.take(k + 1);
                assert(t.last() == s[k]);
                assert(rules.streams@[k].name@ == s[k].name);
                assert(rules.streams@[k].table@ == s[k].table);
                assert(rules.streams@[k].template@ == s[k].template);
                let names = crate::rules::stream_names(t);
                if crate::rules::last_repeats(names) {
                    let i = choose|i: int|
                        0 <= i < names.len() - 1 && #[trigger] names[i] == names.last();
                    assert(names[i] == s[i].name);
                    assert(names.last() == s[k].name);
                    assert(rules.streams@[i].name@ == s[i].name);
                }
            },
            None => {
                let names = rules.table_names();
                let scopes = rules.table_scopes();
                let k = lemma_table_fault(names, scopes, f);
                let n = names.take(k + 1);
                assert(n.last() == names[k]);
                assert(scopes.take(k + 1).last() == scopes[k]);
                assert(lists_table(*rules, k, names[k]));
                if crate::rules::last_repeats(n) {
                    let i = choose|i: int| 0 <= i < n.len() - 1 && #[trigger] n[i] == n.last();
                    assert(n[i] == names[i]);
                    assert(lists_table(*rules, i, names[k]));
                }
            },
        }
    }
}

proof fn lemma_table_fault(
    names: Seq<Seq<char>>,
    scopes: Seq<Option<Seq<char>>>,
    floats: Map<Seq<char>, Float>,
) -> (k: int)
    requires
        names.len() == scopes.len(),
        table_fault(names, scopes, floats) is Some,
    ensures
        0 <= k < names.len(),
        last_table_fault(names.take(k + 1), scopes.take(k + 1), floats) == table_fault(
            names,
            scopes,
            floats,
        ),
    decreases names.len(),
{
    let a = names.drop_last();
    let b = scopes.drop_last();
    if table_fault(a, b, floats) is Some {
        let k = lemma_table_fault(a, b, floats);
        assert(a.take(k + 1) =~= names.take(k + 1));
        assert(b.take(k + 1) =~= scopes.take(k + 1));
        k
    } else {
        let k = names.len() - 1;
        assert(names.take(k + 1) =~= names);
        assert(scopes.take(k + 1) =~= scopes);
        k
    }
}

proof fn lemma_stream_fault(s: Seq<StreamView>, floats: Map<Seq<char>, Float>) -> (k: int)
    requires
        stream_fault(s, floats) is Some,
    ensures
        0 <= k < s.len(),
        last_stream_fault(s.take(k + 1), floats) == stream_fault(s, floats),
    decreases s.len(),
{
    let a = s.drop_last();
    if stream_fault(a, floats) is Some {
        let k = lemma_stream_fault(a, floats);
        assert(a.take(k + 1) =~= s.take(k + 1));
        k
    } else {
        let k = s.len() - 1;
        assert(s.take(k + 1) =~= s);
        k
    }
}

/// The word for each way of syncing.
pub proof fn law_mode_words(m: SyncMode, word: &'static str, s: &str, read: Option<SyncMode>)
    requires
        call_ensures(SyncMode::as_str, (m,), word),
        call_ensures(SyncMode::parse, (s,), read),
    ensures
        m == SyncMode::All ==> word@ == "all"@,
        m == SyncMode::Toggles ==> word@ == "toggles"@,
        m == SyncMode::Hand ==> word@ == "hand"@,
        s@ == word@ ==> read == Some(m),
        s@ != "all"@ && s@ != "toggles"@ && s@ != "hand"@ ==> read is None,
{
    crate::rules::law_mode_round_trip(m);
}

// ---- pages ----

/// A page that is no JSON, no list, or a list of something else is refused with these
/// words.
pub proof fn law_malformed_pages(
    body: &str,
    rows: Result<Vec<PullRow>, PullError>,
    snapshot: Result<Vec<SnapshotRow>, PullError>,
)
    requires
        call_ensures(decode_rows, (body,), rows),
        call_ensures(decode_snapshot, (body,), snapshot),
    ensures
        json_read(encode_utf8(body@)) is None ==> {
            &&& rows is Err && rows->Err_0@ == crate::pull::PullErrorView::Decode(
                json_fault(encode_utf8(body@)),
            )
            &&& snapshot is Err && snapshot->Err_0@ == crate::pull::PullErrorView::Decode(
                json_fault(encode_utf8(body@)),
            )
        },
        json_read(encode_utf8(body@)) is Some && !(json_read(encode_utf8(body@))->0 is List) ==> {
            &&& rows is Err && rows->Err_0@ == crate::pull::PullErrorView::Decode("not a list"@)
            &&& snapshot is Err && snapshot->Err_0@ == crate::pull::PullErrorView::Decode(
                "not a list"@,
            )
        },
        json_read(encode_utf8(body@)) is Some && json_read(encode_utf8(body@))->0 is List ==> {
            let items = json_read(encode_utf8(body@))->0->List_0;
            &&& rows is Err ==> rows->Err_0@ == crate::pull::PullErrorView::Decode(
                "not a log row"@,
            )
            &&& snapshot is Err ==> snapshot->Err_0@ == crate::pull::PullErrorView::Decode(
                "not a snapshot row"@,
            )
            &&& rows is Ok ==> rows->Ok_0@.len() == items.len()
            &&& snapshot is Ok ==> snapshot->Ok_0@.len() == items.len()
        },
{
    let v = json_read(encode_utf8(body@));
    if v is Some && v->0 is List {
        lemma_read_len(v->0->List_0);
        if rows is Ok {
            assert(crate::pull::row_views(rows->Ok_0@).len() == rows->Ok_0@.len());
        }
        if snapshot is Ok {
            assert(snapshot_views(snapshot->Ok_0@).len() == snapshot->Ok_0@.len());
        }
    }
}

proof fn lemma_read_len(items: Seq<JsonView>)
    ensures
        crate::pull::read_rows(items) is Some ==> crate::pull::read_rows(items)->0.len()
            == items.len(),
        crate::pull_snapshot::read_snapshot_rows(items) is Some
            ==> crate::pull_snapshot::read_snapshot_rows(items)->0.len() == items.len(),
    decreases items.len(),
{
    if items.len() > 0 {
        lemma_read_len(items.drop_last());
    }
}

/// A row of the log with a word that is no operation is refused with its row, one whose
/// transaction is no number with that.
pub proof fn law_refused_rows(row: &PullRow, r: Result<Frame, PullError>, n: u64)
    requires
        call_ensures(PullRow::to_frame, (row,), r),
    ensures
        row.op@ != "insert"@ && row.op@ != "update"@ && row.op@ != "delete"@ ==> r is Err
            && r->Err_0@ == (crate::pull::PullErrorView::UnknownOp {
            op: row.op@,
            table: row.table_name@,
            pk: row.pk@,
        }),
        (row.op@ == "insert"@ || row.op@ == "update"@ || row.op@ == "delete"@) && row.xid@
            == decimal(n as nat) ==> r is Ok && r->Ok_0.txn_id == Some(n),
        (row.op@ == "insert"@ || row.op@ == "update"@ || row.op@ == "delete"@) && r is Err
            ==> r->Err_0@ == crate::pull::PullErrorView::BadXid(row.xid@),
        row.xid@.len() == 0 ==> r is Err,
{
    lemma_digits_round_trip(n as nat, 10);
    assert(crate::numbers::without_plus(decimal(n as nat)) == decimal(n as nat));
}

/// Whether a row of a snapshot is a row of a table.
pub open spec fn arrives(row: SnapshotRow) -> bool {
    row.table_name is Some && row.pk is Some
}

/// A snapshot counts the rows that it brought.
pub proof fn law_snapshot_counts_its_rows(
    storage: InMemoryStorage,
    e0: ApplyEngine<InMemoryStorage>,
    c0: PullCursor,
    body: &str,
    exempt: &[(String, String)],
    r: PullOutcome,
    c1: PullCursor,
    e1: ApplyEngine<InMemoryStorage>,
    rows: Vec<SnapshotRow>,
)
    requires
        call_ensures(ApplyEngine::<InMemoryStorage>::new, (storage,), e0),
        exists|h: &mut PullCursor, g: &mut ApplyEngine<InMemoryStorage>| #[trigger]
            call_ensures(
                PullCursor::apply_snapshot::<InMemoryStorage>,
                (h, g, body, exempt),
                Ok::<PullOutcome, PullError>(r),
            ) && *h == c0 && *final(h) == c1 && *g == e0 && *final(g) == e1,
        call_ensures(decode_snapshot, (body,), Ok::<Vec<SnapshotRow>, PullError>(rows)),
    ensures
        !r.more,
        rows@.filter(|row: SnapshotRow| arrives(row)).len() <= usize::MAX ==> r.rows_applied
            == rows@.filter(|row: SnapshotRow| arrives(row)).len(),
{
    let v = snapshot_views(rows@);
    lemma_arriving(rows@);
    assert(e0.batch().pending.len() == 0);
    lemma_steps_drain(v, exempt@, e0.batch(), e0.store(), e1.batch());
}

proof fn lemma_arriving(rows: Seq<SnapshotRow>)
    ensures
        arriving(snapshot_views(rows)) == rows.filter(|row: SnapshotRow| arrives(row)).len(),
    decreases rows.len(),
{
    reveal(Seq::filter);
    if rows.len() > 0 {
        lemma_arriving(rows.drop_last());
        assert(snapshot_views(rows).drop_last() =~= snapshot_views(rows.drop_last()));
        assert(snapshot_views(rows).last() == rows.last()@);
    }
}

proof fn lemma_steps_drain(
    rows: Seq<SnapshotRowView>,
    exempt: Seq<(String, String)>,
    b: crate::apply::BatchState,
    s: crate::storage::StoreState,
    b2: crate::apply::BatchState,
)
    requires
        b.pending.len() == 0,
        exists|s2: crate::storage::StoreState| #[trigger]
            steps_taken(exempt, snapshot_steps(rows), b, s, b2, s2),
    ensures
        b2.pending.len() == 0,
{
    let steps = snapshot_steps(rows);
    let s2 = choose|s2: crate::storage::StoreState| #[trigger]
        steps_taken(exempt, steps, b, s, b2, s2);
    let (batches, stores) = choose|
        batches: Seq<crate::apply::BatchState>,
        stores: Seq<crate::storage::StoreState>,
    | #[trigger]
        crate::pull_snapshot::stepped_through(exempt, steps, batches, stores) && batches[0] == b
            && stores[0] == s && batches.last() == b2 && stores.last() == s2;
    let open = crate::pull_snapshot::open_table(rows);
    let n = steps.len() as int;
    if open is Some {
        assert(steps[n - 2] == SnapshotStep::Commit);
        assert(steps[n - 1] == SnapshotStep::End(open->0));
        assert(crate::pull_snapshot::stepped(
            exempt,
            steps[n - 2],
            batches[n - 2],
            stores[n - 2],
            batches[n - 1],
            stores[n - 1],
        )) by {
            assert(n - 2 + 1 == n - 1);
        }
        assert(crate::pull_snapshot::stepped(
            exempt,
            steps[n - 1],
            batches[n - 1],
            stores[n - 1],
            batches[n],
            stores[n],
        )) by {
            assert(n - 1 + 1 == n);
        }
        assert(batches.last() == batches[n]);
    } else {
        lemma_no_steps(rows);
        assert(n == 0);
        assert(batches.last() == batches[0]);
    }
}

proof fn lemma_no_steps(rows: Seq<SnapshotRowView>)
    requires
        crate::pull_snapshot::open_table(rows) is None,
    ensures
        crate::pull_snapshot::steps_up_to(rows).len() == 0,
    decreases rows.len(),
{
    if rows.len() > 0 {
        lemma_no_steps(rows.drop_last());
    }
}

/// A page of a feed is taken where what was searched lies between the cursor and the
/// head, and it says that there is more exactly where that is before the head and behind
/// the cursor. The cursor then goes there; else it stays, and the numbers are named.
pub proof fn law_feed_page_must_fit(
    c0: AppwriteCursor,
    e0: ApplyEngine<InMemoryStorage>,
    body: &str,
    r: Result<AppwritePullOutcome, AppwritePullError>,
    c1: AppwriteCursor,
    e1: ApplyEngine<InMemoryStorage>,
    f: Seq<(Seq<char>, JsonView)>,
    head: u64,
    scanned: u64,
    more: bool,
    at: u64,
    then: u64,
)
    requires
        exists|h: &mut AppwriteCursor, g: &mut ApplyEngine<InMemoryStorage>| #[trigger]
            call_ensures(AppwriteCursor::apply::<InMemoryStorage>, (h, g, body), r) && *h == c0
                && *final(h) == c1 && *g == e0 && *final(g) == e1,
        call_ensures(AppwriteCursor::after, (&c0,), at),
        call_ensures(AppwriteCursor::after, (&c1,), then),
        json_read(encode_utf8(body@)) == Some(JsonView::Record(f)),
        member(f, "head"@) == Some(JsonView::Text(decimal(head as nat))),
        member(f, "scanned_through"@) == Some(JsonView::Text(decimal(scanned as nat))),
        member(f, "has_more"@) == Some(JsonView::Bool(more)),
        member(f, "changes"@) == Some(JsonView::List(seq![])),
    ensures
        r is Ok <==> at <= scanned <= head && more == (scanned < head) && (more ==> at < scanned),
        r is Ok ==> r->Ok_0.scanned_through == scanned && r->Ok_0.head == head && r->Ok_0.has_more
            == more && then == scanned,
        r is Err ==> then == at,
        !(at <= scanned <= head) ==> r is Err && r->Err_0@
            == crate::appwrite_pull::FeedErrorView::Protocol(
            "after "@ + decimal(at as nat) + ", scanned "@ + decimal(scanned as nat) + ", head "@
                + decimal(head as nat),
        ),
        at <= scanned <= head && r is Err ==> r->Err_0@
            == crate::appwrite_pull::FeedErrorView::Protocol(
            "inconsistent has_more or no progress"@,
        ),
{
    let none: Seq<crate::appwrite_pull::ChangeView> = seq![];
    let items: Seq<JsonView> = seq![];
    lemma_digits_round_trip(head as nat, 10);
    lemma_digits_round_trip(scanned as nat, 10);
    let h = decimal(head as nat);
    let d = decimal(scanned as nat);
    assert(crate::numbers::without_plus(h) == h);
    assert(crate::numbers::without_plus(d) == d);
    assert(crate::appwrite_pull::read_changes(items) == Some(none));
    assert(crate::appwrite_pull::read_page(JsonView::Record(f)) == Some(
        crate::appwrite_pull::PageView {
            head: h,
            scanned_through: d,
            has_more: more,
            changes: none,
        },
    ));
    assert(crate::appwrite_pull::read_seq(h) == Ok::<u64, crate::appwrite_pull::FeedErrorView>(
        head,
    ));
    assert(crate::appwrite_pull::read_seq(d) == Ok::<u64, crate::appwrite_pull::FeedErrorView>(
        scanned,
    ));
}

// ---- tokens and licenses ----

/// Claims need an account; an expiry may be missing or null, may lie before 1970, and is
/// else a whole number.
pub proof fn law_claims_of_a_token(
    payload: &[u8],
    r: Option<(String, Option<i64>)>,
    f: Seq<(Seq<char>, JsonView)>,
)
    requires
        call_ensures(read_claims, (payload,), r),
        json_read(payload@) == Some(JsonView::Record(f)),
    ensures
        r is Some ==> member(f, "sub"@) == Some(JsonView::Text((r->0).0@)),
        !(member(f, "sub"@) is Some && member(f, "sub"@)->0 is Text) ==> r is None,
        member(f, "sub"@) is Some && member(f, "sub"@)->0 is Text ==> match member(f, "exp"@) {
            None => r is Some && (r->0).1 is None,
            Some(JsonView::Null) => r is Some && (r->0).1 is None,
            Some(JsonView::Unsigned(n)) => (r is Some <==> n <= i64::MAX) && (r is Some ==> (
            r->0).1 == Some(n as i64)),
            Some(JsonView::Negative(n)) => r is Some && (r->0).1 == Some(n),
            Some(_) => r is None,
        },
{
}

/// Claims that nobody signed are accepted where the expiry is no more than a minute past.
pub proof fn law_claims_last(payload: &str, now: i64, r: Option<String>, bytes: &[u8], c: Option<(String, Option<i64>)>)
    requires
        call_ensures(accept_claims, (payload, now), r),
        payload@ == encoded(bytes@),
        call_ensures(read_claims, (bytes,), c),
    ensures
        r is Some <==> c is Some && ((c->0).1 is Some ==> now <= (c->0).1->0 + 60),
        r is Some ==> r->0@ == (c->0).0@,
{
    law_encoded_reads_back(bytes@);
}

/// A license without a full stop is malformed.
pub proof fn law_license_needs_two_parts(
    token: &str,
    secret: &[u8],
    r: Result<LicenseClaims, LicenseError>,
)
    requires
        call_ensures(LicenseClaims::verify, (token, secret), r),
        !token@.contains('.'),
    ensures
        r == Err::<LicenseClaims, LicenseError>(LicenseError::Malformed),
{
    lemma_no_dot_at_all(token@, 0);
}

proof fn lemma_no_dot_at_all(s: Seq<char>, from: int)
    requires
        !s.contains('.'),
        0 <= from <= s.len(),
    ensures
        crate::auth::until_dot(s, from) == s.len(),
    decreases s.len() - from,
{
    if from < s.len() {
        assert(s[from] != '.');
        lemma_no_dot_at_all(s, from + 1);
    }
}

// ---- the payment provider ----

/// A header without a time or without a signature says nothing; one whose time is too far
/// off, or whose signature is another, is refused with these words.
pub proof fn law_refused_headers(
    header: &str,
    body: &[u8],
    secret: &str,
    tolerance: u64,
    now: i64,
    r: Result<(), StripeError>,
    time: i64,
    tag: Seq<u8>,
)
    requires
        call_ensures(verify_webhook_at, (header, body, secret, tolerance, now), r),
    ensures
        header@.len() == 0 ==> r is Err && says_why(r->Err_0, "missing t"@),
        header@ == "v1="@ ==> r is Err && says_why(r->Err_0, "missing t"@),
        header@ == crate::cloud_laws::signature_header(time, tag) && !(-(tolerance as int) <= time
            - now <= tolerance) ==> r is Err && says_why(
            r->Err_0,
            "timestamp outside tolerance"@,
        ),
        header@ == crate::cloud_laws::signature_header(time, tag) && -(tolerance as int) <= time
            - now <= tolerance && tag != hmac_sha256_tag(
            encode_utf8(secret@),
            encode_utf8(signed_decimal(time as int)) + seq![46u8] + body@,
        ) ==> r is Err && says_why(r->Err_0, "hmac mismatch"@),
{
    crate::cloud_laws::lemma_header(time, tag);
    crate::cloud_laws::lemma_hex_reads_back(tag);
    reveal_strlit("v1=");
    if header@.len() == 0 {
        reveal_with_fuel(pieces, 2);
        let p = pieces(header@);
        assert(p.len() == 1 && p.last().len() == 0);
        assert(p.drop_last() =~= seq![]);
        reveal_with_fuel(said_time, 3);
    }
    if header@ == "v1="@ {
        assert(!header@.contains(','));
        crate::cloud_laws::lemma_pieces_of_one(header@);
        let p = pieces(header@);
        assert(p.last() == header@);
        assert(p.drop_last() =~= seq![]);
        reveal_with_fuel(said_time, 3);
    }
}

/// Whether an error says that a message is not from the provider, and why.
pub open spec fn says_why(e: StripeError, why: Seq<char>) -> bool {
    e matches StripeError::BadSignature(s) && s@ == why
}

/// What is answered where the provider failed: the sender is at fault only for a message
/// that is not from the provider.
pub proof fn law_answer_to_a_failure(e: &StripeError, r: ApiError, text: String)
    requires
        call_ensures(ApiError::of_stripe, (e,), r),
        call_ensures(StripeError::to_text, (e,), text),
    ensures
        r.0 == 400 <==> *e is BadSignature,
        !(*e is BadSignature) ==> r.0 == 500,
        r.1@ == text@,
        *e matches StripeError::BadSignature(s) ==> text@ == "webhook signature invalid: "@ + s@,
        *e is BadSecret ==> text@ == "bad secret"@,
        *e matches StripeError::Http(s) ==> text@ == "http error: "@ + s@,
        *e matches StripeError::Api(s) ==> text@ == "stripe api error: "@ + s@,
{
}

/// What a request is refused with.
pub proof fn law_refused_requests(
    email: &str,
    password: &str,
    signup: Result<(), ApiError>,
    account: Option<&Account>,
    login: Result<(), ApiError>,
    waitlist: Result<(), ApiError>,
    accounts: &Vec<Account>,
    own: Result<&Account, ApiError>,
    secret: Option<&str>,
    prices: &Vec<(Tier, String)>,
    tier: Tier,
    plan: Result<crate::routes::CheckoutPlan, ApiError>,
)
    requires
        call_ensures(check_signup, (email, password), signup),
        call_ensures(check_login, (account, password), login),
        call_ensures(check_waitlist_email, (email,), waitlist),
        call_ensures(own_account, (email, accounts), own),
        call_ensures(plan_checkout, (secret, prices, tier, email, password), plan),
    ensures
        signup is Err ==> signup->Err_0.1@ == "email required and password >= 8 chars"@,
        login is Err ==> login->Err_0.1@ == "invalid credentials"@,
        waitlist is Ok <==> trimmed(email@).len() > 0 && email@.contains('@'),
        waitlist is Err ==> waitlist->Err_0.0 == 400 && waitlist->Err_0.1@
            == "valid email required"@,
        own is Err ==> own->Err_0.1@ == "no such account"@,
        secret is None ==> plan is Err && plan->Err_0.1@ == "Stripe not configured"@,
        secret is Some && plan is Err ==> plan->Err_0.1@ == "no price configured for tier"@,
{
}

// ---- what errors say ----

/// What is said of a predicate that cannot be read.
pub proof fn law_parse_errors_say(e: &ParseError, r: String)
    requires
        call_ensures(ParseError::to_text, (e,), r),
    ensures
        *e is Empty ==> r@ == "empty predicate"@,
        *e matches ParseError::UnexpectedEof { expected } ==> r@
            == "unexpected end of input; expected "@ + expected@,
        *e matches ParseError::UnexpectedToken { found, expected } ==> r@ == "unexpected token "@
            + debug_quoted(found@) + "; expected "@ + expected@,
        *e is UnbalancedParens ==> r@ == "unbalanced parentheses"@,
        *e matches ParseError::TrailingInput(s) ==> r@ == "trailing input after predicate: "@ + s@,
        *e matches ParseError::InvalidNumber(s) ==> r@ == "invalid number literal: "@ + s@,
        *e matches ParseError::TooDeep { max } ==> r@ == "predicate nests deeper than "@ + decimal(
            max as nat,
        ),
        *e matches ParseError::TooLarge { max } ==> r@ == "predicate is longer than "@ + decimal(
            max as nat,
        ),
{
}

/// What is said where values and placeholders do not match.
pub proof fn law_bind_errors_say(e: &BindError, r: String)
    requires
        call_ensures(BindError::to_text, (e,), r),
    ensures
        *e matches BindError::MissingParam { name } ==> r@ == "missing value for placeholder :"@
            + name@,
        *e matches BindError::ExtraParam { name } ==> r@ == "unexpected param "@ + debug_quoted(
            name@,
        ) + ": no placeholder :"@ + name@ + " in the template"@,
        *e matches BindError::NestedParam { name } ==> r@ == "param "@ + debug_quoted(name@)
            + " is itself a placeholder; params must bind to concrete values"@,
{
}

/// What is said of a scope that cannot be read.
pub proof fn law_scope_errors_say(e: &ScopeError, r: String)
    requires
        call_ensures(ScopeError::to_text, (e,), r),
    ensures
        *e is Empty ==> r@ == "empty scope expression"@,
        *e matches ScopeError::UnexpectedToken(s) ==> r@ == "unexpected token `"@ + s@ + "`"@,
        *e matches ScopeError::Unsupported(s) ==> r@ == "`"@ + s@
            + "` is not supported in a v1 rules scope (AND-composition only)"@,
        *e matches ScopeError::MissingOperator(s) ==> r@
            == "expected a comparison operator after `"@ + s@ + "`"@,
        *e matches ScopeError::MissingValue(s) ==> r@ == "expected a value after `"@ + s@ + "`"@,
{
}

/// What is said of rules that are refused. A scope or a template says what is wrong with
/// it behind the name of its table or stream.
pub proof fn law_rules_errors_say(e: &RulesError, r: String, of_scope: String, of_template: String)
    requires
        call_ensures(RulesError::to_text, (e,), r),
        *e is Scope ==> call_ensures(ScopeError::to_text, (&e->Scope_source,), of_scope),
        *e is StreamTemplate ==> call_ensures(
            ParseError::to_text,
            (&e->StreamTemplate_source,),
            of_template,
        ),
    ensures
        *e matches RulesError::UnsupportedVersion(v) ==> r@ == "unsupported rules version "@
            + decimal(v as nat) + " (this server understands "@ + decimal(1) + ")"@,
        *e matches RulesError::UnknownMode(s) ==> r@ == "unknown sync_mode `"@ + s@
            + "` (expected all|toggles|hand)"@,
        *e matches RulesError::Scope { table, source } ==> r@ == "table `"@ + table@ + "`: "@
            + of_scope@,
        *e matches RulesError::DuplicateTable(s) ==> r@ == "duplicate table `"@ + s@ + "`"@,
        *e matches RulesError::DuplicateStream(s) ==> r@ == "duplicate stream `"@ + s@ + "`"@,
        *e matches RulesError::StreamTemplate { name, source } ==> r@ == "stream `"@ + name@
            + "`: template parse error: "@ + of_template@,
{
}

/// What is said of a pull that failed.
pub proof fn law_pull_errors_say(
    e: &PullError,
    r: String,
    f: &AppwritePullError,
    s: String,
    g: &StorageError,
    t: String,
)
    requires
        call_ensures(PullError::to_text, (e,), r),
        call_ensures(AppwritePullError::to_text, (f,), s),
        call_ensures(StorageError::to_text, (g,), t),
    ensures
        *e matches PullError::Decode(x) ==> r@ == "malformed pull response: "@ + x@,
        *e matches PullError::UnknownOp { op, table, pk } ==> r@ == "unknown op "@ + debug_quoted(
            op@,
        ) + " on "@ + table@ + "/"@ + pk@,
        *e matches PullError::BadXid(x) ==> r@ == "xid "@ + debug_quoted(x@)
            + " is not a u64 — cannot group the transaction it belongs to"@,
        *e matches PullError::PageTooSmall { xid, max_rows } ==> r@ == "transaction "@ + xid@
            + " exceeds a page of "@ + decimal(max_rows as nat) + " rows — raise max_rows"@,
        *e matches PullError::Storage(x) ==> r@ == "storage backend error: "@ + x->Backend_0@,
        *f matches AppwritePullError::Decode(x) ==> s@ == "invalid Appwrite feed: "@ + x@,
        *f matches AppwritePullError::Protocol(x) ==> s@ == "invalid Appwrite cursor: "@ + x@,
        *f matches AppwritePullError::Storage(x) ==> s@ == "storage backend error: "@
            + x->Backend_0@,
        *g matches StorageError::Backend(x) ==> t@ == "storage backend error: "@ + x@,
{
}

/// What is said of a position or a payload that cannot be read.
pub proof fn law_reading_errors_say(
    a: &LsnParseError,
    x: String,
    b: &OrSetError,
    y: String,
    c: &CounterError,
    z: String,
    cause: NumberFault,
    why: &'static str,
)
    requires
        call_ensures(LsnParseError::to_text, (a,), x),
        call_ensures(OrSetError::to_text, (b,), y),
        call_ensures(CounterError::to_text, (c,), z),
        call_ensures(NumberFault::as_text, (cause,), why),
    ensures
        *a is MissingSeparator ==> x@ == "LSN must be of the form HI/LO"@,
        *a == LsnParseError::InvalidHex(cause) ==> x@ == "invalid hex component: "@ + why@,
        *b matches OrSetError::InvalidJson(s) ==> y@ == "or-set payload is not valid JSON: "@ + s@,
        *c matches CounterError::InvalidJson(s) ==> z@ == "counter payload is not valid JSON: "@
            + s@,
        cause is Empty ==> why@ == "cannot parse integer from empty string"@,
        cause is InvalidDigit ==> why@ == "invalid digit found in string"@,
        cause is TooLarge ==> why@ == "number too large to fit in target type"@,
{
}

} // verus!
