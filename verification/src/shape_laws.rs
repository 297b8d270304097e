//! What else a text, a list or a record can be shaped like, and what is made of it.

use vstd::prelude::*;
use vstd::utf8::encode_utf8;
use crate::apply::FrameView;
use crate::appwrite_pull::{change_frame, ChangeView, FeedErrorView};
use crate::auth::read_claims;
use crate::base64url::{encoded, law_encoded_reads_back};
use crate::cloud_laws::{has_text, lemma_hex_reads_back};
use crate::counter::{parse_counter_entries, CounterError, PnEntry};
use crate::crdt::{parse_elements, OrSetElement, OrSetError};
use crate::digest::{hex_text, hmac_sha256_tag, sha256_digest};
use crate::hlc::Hlc;
use crate::identity::hash_password;
use crate::json::{json_read, member, Json, JsonView};
use crate::lexer::{in_class, lemma_run, step, Class, Dialect, LexemeView, StepView};
use crate::license::{lemma_no_dot, lemma_until_dot, LicenseClaims, LicenseError};
use crate::numbers::{
    decimal, digits_of, fault_of_number, lemma_digits_round_trip, signed_decimal, NumberFault,
};
use crate::ordered::{lemma_lists_unique, listing, lists, Key};
use crate::parse_laws::is_word;
use crate::payments::{Checkout, CheckoutRequest, PaymentError, PaymentProvider, PaypalProvider};
use crate::predicate::{ExprView, FloatReadings, PredicateExpr, ScopeOp, ValueView};
use crate::predicate_compile::{decimals, float_literals};
use crate::predicate_json::expr_of;
use crate::principal::Principal;
use crate::pull::{decode_rows, frame_of, frames_of, frames_until, PullError, PullRow, PullRowView};
use crate::pull_snapshot::{
    decode_snapshot, snapshot_steps, steps_up_to, SnapshotRow, SnapshotRowView, SnapshotStep,
};
use crate::routes::admin_path;
use crate::rules::{collapsed, collapsed_from};
use crate::stripe::{
    checkout_reply, parse_event, said_signature, said_time, verify_webhook_at, CheckoutSession,
    StripeError, StripeEvent,
};
use crate::text::{debug_quoted, lex_lt, text_views, trimmed, white_space};
use crate::tier::{tier_str, Tier};
use crate::transport::{decode_hex, read_frame, WireFrame};

verus! {

// ---- snapshots ----

/// A snapshot that names a table without a row begins it and ends it, so that nothing of
/// it stays; a row without a table does nothing.
pub proof fn law_snapshot_of_no_rows(row: SnapshotRowView)
    ensures
        row.table is Some && row.pk is None ==> snapshot_steps(seq![row]) == seq![
            SnapshotStep::Begin(row.table->0),
            SnapshotStep::Commit,
            SnapshotStep::End(row.table->0),
        ],
        row.table is None ==> snapshot_steps(seq![row]).len() == 0,
{
    let rows = seq![row];
    assert(rows.drop_last() =~= seq![]);
    assert(rows.last() == row);
    reveal_with_fuel(steps_up_to, 2);
    reveal_with_fuel(crate::pull_snapshot::open_table, 2);
    if row.table is Some && row.pk is None {
        assert(snapshot_steps(rows) =~= seq![
            SnapshotStep::Begin(row.table->0),
            SnapshotStep::Commit,
            SnapshotStep::End(row.table->0),
        ]);
    }
}

/// The next row of a snapshot arrives in the table that is open, or ends that table,
/// with what arrived committed first, and begins its own.
pub proof fn law_snapshot_turns(rows: Seq<SnapshotRowView>, a: SnapshotRowView, b: SnapshotRowView)
    requires
        a.table is Some,
        b.table is Some,
    ensures
        ({
            let front = steps_up_to(rows.push(a));
            let all = steps_up_to(rows.push(a).push(b));
            &&& front.len() <= all.len()
            &&& all.take(front.len() as int) == front
            &&& a.table == b.table ==> all.len() == front.len() + (if b.pk is Some {
                1int
            } else {
                0
            })
            &&& a.table != b.table ==> all.len() == front.len() + 3 + (if b.pk is Some {
                1int
            } else {
                0
            }) && all[front.len() as int] == SnapshotStep::Commit && all[front.len() as int + 1]
                == SnapshotStep::End(a.table->0) && all[front.len() as int + 2]
                == SnapshotStep::Begin(b.table->0)
            &&& b.pk is Some ==> all.last() is Row && all.last()->Row_0.table == b.table->0
                && all.last()->Row_0.pk == b.pk->0
        }),
{
    let x = rows.push(a);
    let y = x.push(b);
    assert(y.drop_last() =~= x);
    assert(y.last() == b);
    assert(x.last() == a);
    let front = steps_up_to(x);
    let all = steps_up_to(y);
    assert(all == front + crate::pull_snapshot::row_steps(a.table, b));
    assert(all.take(front.len() as int) =~= front);
}

/// The rows of a page up to the first that cannot be taken are taken.
pub proof fn law_rows_before_a_bad_one(rows: Seq<PullRowView>, k: int)
    requires
        0 <= k < rows.len(),
        frames_of(rows.take(k)) is Ok,
        frame_of(rows[k]) is Err,
    ensures
        frames_until(rows) == frames_of(rows.take(k))->Ok_0,
        frames_of(rows) is Err,
        frames_of(rows)->Err_0 == frame_of(rows[k])->Err_0,
    decreases rows.len() - k,
{
    if k < rows.len() - 1 {
        let front = rows.drop_last();
        assert(front.take(k) =~= rows.take(k));
        assert(front[k] == rows[k]);
        lemma_bad_front(front, k);
        law_rows_before_a_bad_one(front, k);
    } else {
        assert(rows.drop_last() =~= rows.take(k));
        assert(rows.last() == rows[k]);
        lemma_until_good(rows.take(k));
    }
}

proof fn lemma_bad_front(rows: Seq<PullRowView>, k: int)
    requires
        0 <= k < rows.len(),
        frame_of(rows[k]) is Err,
    ensures
        frames_of(rows) is Err,
    decreases rows.len(),
{
    if k < rows.len() - 1 {
        assert(rows.drop_last()[k] == rows[k]);
        lemma_bad_front(rows.drop_last(), k);
    } else {
        assert(rows.last() == rows[k]);
    }
}

proof fn lemma_until_good(rows: Seq<PullRowView>)
    ensures
        frames_of(rows) is Ok ==> frames_until(rows) == frames_of(rows)->Ok_0,
{
}

// ---- headers ----

/// The parts of a header may come in either order, with space around what they say.
pub proof fn law_header_in_any_order(
    header: &str,
    body: &[u8],
    secret: &str,
    tolerance: u64,
    now: i64,
    r: Result<(), StripeError>,
    time: i64,
    tag: Seq<u8>,
    x: Seq<char>,
    y: Seq<char>,
)
    requires
        call_ensures(verify_webhook_at, (header, body, secret, tolerance, now), r),
        trimmed(x) == signed_decimal(time as int),
        trimmed(y) == hex_text(tag),
        !x.contains(','),
        !y.contains(','),
        header@ == "t="@ + x + seq![','] + ("v1="@ + y) || header@ == "v1="@ + y + seq![','] + (
        "t="@ + x),
    ensures
        r is Ok <==> -(tolerance as int) <= time - now <= tolerance && tag == hmac_sha256_tag(
            encode_utf8(secret@),
            encode_utf8(signed_decimal(time as int)) + seq![46u8] + body@,
        ),
{
    reveal_strlit("t=");
    reveal_strlit("v1=");
    crate::match_laws::lemma_signed_round_trip(time);
    lemma_hex_reads_back(tag);
    let a = "t="@ + x;
    let b = "v1="@ + y;
    assert(!a.contains(',')) by {
        if a.contains(',') {
            let i = choose|i: int| 0 <= i < a.len() && a[i] == ',';
            assert(i >= 2);
            assert(a[i] == x[i - 2]);
        }
    }
    assert(!b.contains(',')) by {
        if b.contains(',') {
            let i = choose|i: int| 0 <= i < b.len() && b[i] == ',';
            assert(i >= 3);
            assert(b[i] == y[i - 3]);
        }
    }
    crate::cloud_laws::lemma_pieces_of_two(a, b);
    crate::cloud_laws::lemma_pieces_of_two(b, a);
    assert(a.skip(2) =~= x);
    assert(b.skip(3) =~= y);
    assert(a[0] == 't' && a[1] == '=' && b[0] == 'v' && b[1] == '1' && b[2] == '=');
    let p = seq![a, b];
    let q = seq![b, a];
    assert(p.last() == b && q.last() == a);
    assert(p.drop_last() =~= seq![a] && q.drop_last() =~= seq![b]);
    assert(p.drop_last().last() == a && q.drop_last().last() == b);
    reveal_with_fuel(said_time, 3);
    reveal_with_fuel(said_signature, 3);
}

// ---- numbers with a point ----

/// Whether a text is digits, a point and digits.
pub open spec fn is_decimal(d: Seq<char>, w: int) -> bool {
    &&& 0 < w < d.len()
    &&& d[w] == '.'
    &&& forall|i: int| 0 <= i < d.len() && i != w ==> in_class(#[trigger] d[i], Class::Digit)
}

/// The numbers with a point of a text are found one after the other; words between them
/// are passed over.
pub proof fn law_decimals_are_found_in_order(
    input: &str,
    rest: &str,
    dialect: Dialect,
    r: Vec<String>,
    s: Vec<String>,
    front: Seq<char>,
    w: int,
)
    requires
        call_ensures(float_literals, (input, dialect), r),
        call_ensures(float_literals, (rest, dialect), s),
        input@ == front + (seq![' '] + rest@),
    ensures
        is_decimal(front, w) ==> text_views(r@) == seq![front] + text_views(s@),
        is_word(front) ==> text_views(r@) == text_views(s@),
{
    let t = input@;
    let back = seq![' '] + rest@;
    let n = front.len() as int;
    assert(t.skip(n) =~= back);
    assert(back.skip(1) =~= rest@);
    assert(back[0] == ' ');
    crate::text::law_character_kinds(' ');
    assert(decimals(back, dialect) == decimals(rest@, dialect));
    if is_decimal(front, w) {
        assert(t[0] == front[0]);
        assert(in_class(front[0], Class::Digit));
        crate::text::law_character_kinds(front[0]);
        assert forall|k: int| 0 <= k < w implies in_class(#[trigger] t[k], Class::Digit) by {
            assert(t[k] == front[k]);
        }
        assert(t[w] == '.');
        crate::text::law_character_kinds('.');
        lemma_run(t, Class::Digit, w);
        let tail = t.skip(w + 1);
        assert forall|k: int| 0 <= k < n - w - 1 implies in_class(
            #[trigger] tail[k],
            Class::Digit,
        ) by {
            assert(tail[k] == front[k + w + 1]);
        }
        assert(tail[n - w - 1] == ' ');
        lemma_run(tail, Class::Digit, n - w - 1);
        assert(t.take(n) =~= front);
        assert(step(t, dialect) == StepView::Item(LexemeView::Decimal(front), n as nat));
        assert(decimals(t, dialect) == seq![front] + decimals(back, dialect));
    }
    if is_word(front) {
        assert(t[0] == front[0]);
        crate::text::law_character_kinds(front[0]);
        assert forall|k: int| 0 <= k < n implies in_class(#[trigger] t[k], Class::Word)
            && in_class(t[k], Class::Dotted) by {
            assert(t[k] == front[k]);
            assert(in_class(front[k], Class::Word));
        }
        assert(t[n] == ' ');
        lemma_run(t, Class::Word, n);
        lemma_run(t, Class::Dotted, n);
        assert(t.take(n) =~= front);
        assert(step(t, dialect) == StepView::Item(LexemeView::Word(front), n as nat));
    }
}

// ---- templates that cannot be read ----

/// In a template that cannot be read space counts for no more than that it is there:
/// around the text it is left out, and between words it is one space.
pub proof fn law_space_is_collapsed(word: Seq<char>, gap: Seq<char>, rest: Seq<char>)
    requires
        word.len() > 0,
        forall|i: int| 0 <= i < word.len() ==> !white_space(#[trigger] word[i]),
        forall|i: int| 0 <= i < gap.len() ==> white_space(#[trigger] gap[i]),
    ensures
        collapsed(word) == word,
        collapsed(gap + rest) == collapsed(rest),
        collapsed(word + gap) == word,
        gap.len() > 0 && rest.len() > 0 && !white_space(rest[0]) ==> collapsed(word + (gap + rest))
            == word + (seq![' '] + collapsed(rest)),
{
    let none: Seq<char> = seq![];
    lemma_gap(gap, rest, false, false);
    lemma_word(word, none, false);
    assert(word + none =~= word);
    lemma_word(word, gap, false);
    lemma_gap(gap, none, true, false);
    assert(gap + none =~= gap);
    assert(collapsed_from(gap, true, false) =~= none);
    assert(word + collapsed_from(none, true, false) =~= word);
    assert(word + none =~= word);
    lemma_word(word, gap + rest, false);
    lemma_gap(gap, rest, true, false);
    if gap.len() > 0 && rest.len() > 0 && !white_space(rest[0]) {
        assert(collapsed_from(rest, true, true) == seq![' ', rest[0]] + collapsed_from(
            rest.skip(1),
            true,
            false,
        ));
        assert(collapsed(rest) == seq![rest[0]] + collapsed_from(rest.skip(1), true, false));
        assert(collapsed_from(rest, true, true) =~= seq![' '] + collapsed(rest));
    }
}

proof fn lemma_gap(gap: Seq<char>, rest: Seq<char>, begun: bool, before: bool)
    requires
        forall|i: int| 0 <= i < gap.len() ==> white_space(#[trigger] gap[i]),
    ensures
        collapsed_from(gap + rest, begun, before) == collapsed_from(
            rest,
            begun,
            if gap.len() > 0 {
                begun
            } else {
                before
            },
        ),
    decreases gap.len(),
{
    let s = gap + rest;
    if gap.len() > 0 {
        assert(s[0] == gap[0]);
        assert(s.skip(1) =~= gap.skip(1) + rest);
        assert forall|i: int| 0 <= i < gap.skip(1).len() implies white_space(
            #[trigger] gap.skip(1)[i],
        ) by {
            assert(gap.skip(1)[i] == gap[i + 1]);
        }
        lemma_gap(gap.skip(1), rest, begun, begun);
    } else {
        assert(s =~= rest);
    }
}

proof fn lemma_word(word: Seq<char>, rest: Seq<char>, begun: bool)
    requires
        forall|i: int| 0 <= i < word.len() ==> !white_space(#[trigger] word[i]),
    ensures
        word.len() > 0 ==> collapsed_from(word + rest, begun, false) == word + collapsed_from(
            rest,
            true,
            false,
        ),
    decreases word.len(),
{
    if word.len() > 0 {
        let s = word + rest;
        let more = word.skip(1);
        assert(s[0] == word[0]);
        assert(s.skip(1) =~= more + rest);
        assert forall|i: int| 0 <= i < more.len() implies !white_space(#[trigger] more[i]) by {
            assert(more[i] == word[i + 1]);
        }
        lemma_word(more, rest, true);
        if more.len() == 0 {
            assert(more + rest =~= rest);
        }
        assert(seq![word[0]] + (more + collapsed_from(rest, true, false)) =~= word
            + collapsed_from(rest, true, false));
        assert(seq![word[0]] + collapsed_from(rest, true, false) =~= seq![word[0]] + (
        Seq::<char>::empty() + collapsed_from(rest, true, false)));
        if more.len() == 0 {
            assert(word =~= seq![word[0]]);
        }
    }
}

// ---- accounts in logs ----

/// What a log shows of an account: who it is, whose, and the names of its other claims.
pub proof fn law_account_in_a_log(p: &Principal, r: String, a: Seq<char>, b: Seq<char>, x: String, y: String)
    requires
        call_ensures(Principal::debug_text, (p,), r),
    ensures
        p.extra@ == Map::<Seq<char>, String>::empty() ==> r@ == shown(p, seq![]),
        p.extra@ == Map::<Seq<char>, String>::empty().insert(a, x) ==> r@ == shown(
            p,
            debug_quoted(a),
        ),
        crate::text::lex_lt(a, b) && p.extra@ == Map::<Seq<char>, String>::empty().insert(
            a,
            x,
        ).insert(b, y) ==> r@ == shown(p, debug_quoted(a) + ", "@ + debug_quoted(b)),
{
    let m = p.extra@;
    let names = crate::principal::claim_names(m);
    let none: Seq<(Seq<char>, String)> = seq![];
    let one = seq![(a, x)];
    let two = seq![(a, x), (b, y)];
    reveal_with_fuel(crate::principal::quoted_list, 3);
    if m == Map::<Seq<char>, String>::empty() {
        assert(lists(none, m));
        assert(lists(listing(m), m));
        lemma_lists_unique(none, listing(m), m);
        assert(names.len() == 0);
    }
    if m == Map::<Seq<char>, String>::empty().insert(a, x) {
        assert(one[0].0 == a);
        assert(lists(one, m));
        assert(lists(listing(m), m));
        lemma_lists_unique(one, listing(m), m);
        assert(names =~= seq![a]);
    }
    if crate::text::lex_lt(a, b) && m == Map::<Seq<char>, String>::empty().insert(a, x).insert(
        b,
        y,
    ) {
        crate::text::lemma_lex_irreflexive(a);
        assert(a != b);
        assert(two[0].0 == a && two[1].0 == b);
        assert(lists(two, m));
        assert(lists(listing(m), m));
        lemma_lists_unique(two, listing(m), m);
        assert(names =~= seq![a, b]);
        assert(names.drop_last() =~= seq![a]);
    }
}

/// What a log shows of an account with these names of claims.
pub open spec fn shown(p: &Principal, names: Seq<char>) -> Seq<char> {
    "Principal { account_id: "@ + debug_quoted(p.account_id@) + ", tenant_id: "@ + debug_quoted(
        p.tenant_id@,
    ) + ", extra_claim_names: ["@ + names + "] }"@
}

// ---- licenses ----

/// A license says until when, before 1970 too, and for how many devices where that is
/// not what the tier allows; anything else in these places makes it malformed.
pub proof fn law_license_limits(
    token: &str,
    secret: &[u8],
    r: Result<LicenseClaims, LicenseError>,
    payload: Seq<u8>,
    f: Seq<(Seq<char>, JsonView)>,
    tier: Tier,
    word: &'static str,
)
    requires
        call_ensures(LicenseClaims::verify, (token, secret), r),
        token@ == encoded(payload) + seq!['.'] + encoded(
            hmac_sha256_tag(secret@, encode_utf8(encoded(payload))),
        ),
        json_read(payload) == Some(JsonView::Record(f)),
        has_text(f, "project_id"@),
        call_ensures(tier_str, (tier,), word),
        member(f, "tier"@) == Some(JsonView::Text(word@)),
    ensures
        r is Err ==> r->Err_0 == LicenseError::Malformed,
        r is Ok ==> match member(f, "expires_at"@) {
            Some(JsonView::Unsigned(n)) => n <= i64::MAX && r->Ok_0.expires_at == n,
            Some(JsonView::Negative(n)) => r->Ok_0.expires_at == n,
            _ => false,
        },
        r is Ok ==> match member(f, "device_cap"@) {
            Some(JsonView::Unsigned(n)) => r->Ok_0.device_cap == Some(n),
            Some(JsonView::Null) => r->Ok_0.device_cap is None,
            None => r->Ok_0.device_cap is None,
            _ => false,
        },
        member(f, "expires_at"@) is Some && (member(f, "expires_at"@)->0 is Negative) && member(
            f,
            "device_cap"@,
        ) is Some && (member(f, "device_cap"@)->0 is Unsigned) ==> r is Ok,
{
    let body = encoded(payload);
    let tag = hmac_sha256_tag(secret@, encode_utf8(body));
    let s = token@;
    lemma_no_dot(payload);
    assert forall|i: int| 0 <= i < body.len() implies #[trigger] s[i] != '.' by {
        assert(s[i] == body[i]);
    }
    assert(s[body.len() as int] == '.');
    lemma_until_dot(s, 0, body.len() as int);
    assert(s.subrange(0, body.len() as int) =~= body);
    assert(s.skip(body.len() as int + 1) =~= encoded(tag));
    law_encoded_reads_back(payload);
    law_encoded_reads_back(tag);
    crate::tier::law_tier_round_trip(tier);
}

// ---- predicates in JSON ----

/// A predicate that matches everything is written as a word or as a tag with nothing;
/// what negates is a tag with what it negates, and any other tag is refused.
pub proof fn law_tags_of_predicates(
    v: &Json,
    floats: &FloatReadings,
    r: Option<PredicateExpr>,
    inner: &Json,
    x: Option<PredicateExpr>,
    tag: Seq<char>,
)
    requires
        call_ensures(expr_of, (v, floats), r),
        call_ensures(expr_of, (inner, floats), x),
    ensures
        v@ == JsonView::Text("Any"@) || v@ == JsonView::Record(seq![("Any"@, JsonView::Null)])
            ==> r is Some && r->0@ is Any,
        v@ == JsonView::Record(seq![("Not"@, inner@)]) ==> (r is Some <==> x is Some) && (
        r is Some ==> r->0@ == ExprView::Not(Box::new(x->0@))),
        v@ == JsonView::Record(seq![(tag, inner@)]) && !is_tag(tag) ==> r is None,
        v@ is Null || v@ is Bool || v@ is Unsigned || v@ is List ==> r is None,
{
    reveal_strlit("Any");
    reveal_strlit("Not");
    reveal_strlit("And");
    reveal_strlit("Or");
    assert("Any"@[1] == 'n' && "Not"@[0] == 'N' && "And"@[2] == 'd' && "Any"@[2] == 'y' && "Or"@[0]
        == 'O');
    assert(seq![("Any"@, JsonView::Null)][0] == ("Any"@, JsonView::Null));
    assert(seq![("Not"@, inner@)][0] == ("Not"@, inner@));
    assert(seq![(tag, inner@)][0] == (tag, inner@));
}

/// Whether a text is the tag of a predicate.
pub open spec fn is_tag(t: Seq<char>) -> bool {
    t == "Any"@ || t == "And"@ || t == "Or"@ || t == "Not"@ || t == "Eq"@ || t == "Ne"@ || t
        == "Lt"@ || t == "Gt"@ || t == "Le"@ || t == "Ge"@
}

// ---- parts in the order of a list ----

/// A frame may be a list of its parts: position, operation, table, key, payload and
/// transaction.
pub proof fn law_frame_in_a_list(items: Seq<JsonView>, w: WireFrame)
    requires
        items.len() == 6,
        items[0] == JsonView::Unsigned(w.lsn),
        items[1] == JsonView::Text(crate::client_laws::op_word(w.op)),
        items[2] == JsonView::Text(w.table@),
        items[3] == JsonView::Text(w.pk@),
        w.payload is Some ==> items[4] == JsonView::Text(w.payload->0@),
        w.payload is None ==> items[4] is Null,
        w.txn_id is Some ==> items[5] == JsonView::Unsigned(w.txn_id->0),
        w.txn_id is None ==> items[5] is Null,
    ensures
        read_frame(JsonView::List(items)) == Some(w@),
{
    reveal_strlit("insert");
    reveal_strlit("update");
    reveal_strlit("delete");
    assert("insert"@[0] == 'i' && "update"@[0] == 'u' && "delete"@[0] == 'd');
}

/// A row of the log may be a list of its parts: horizon, number, transaction, table, key,
/// operation and row. So may a row of a snapshot: horizon, table, key and row.
pub proof fn law_rows_in_a_list(
    body: &str,
    r: Result<Vec<PullRow>, PullError>,
    s: Result<Vec<SnapshotRow>, PullError>,
    items: Seq<JsonView>,
)
    requires
        call_ensures(decode_rows, (body,), r),
        call_ensures(decode_snapshot, (body,), s),
        json_read(encode_utf8(body@)) == Some(JsonView::List(seq![JsonView::List(items)])),
    ensures
        items.len() == 7 && items[0] is Text && items[1] is Unsigned && items[2] is Text && items[3]
            is Text && items[4] is Text && items[5] is Text && items[6] is Record ==> r is Ok
            && r->Ok_0@.len() == 1 && ({
            let row = r->Ok_0@[0];
            &&& row.horizon@ == items[0]->Text_0
            &&& row.seq == items[1]->Unsigned_0
            &&& row.xid@ == items[2]->Text_0
            &&& row.table_name@ == items[3]->Text_0
            &&& row.pk@ == items[4]->Text_0
            &&& row.op@ == items[5]->Text_0
            &&& row.row is Some && row.row->0@ == items[6]
        }),
        items.len() == 4 && items[0] is Text && items[1] is Text && items[2] is Text && items[3]
            is Record ==> s is Ok && s->Ok_0@.len() == 1 && ({
            let row = s->Ok_0@[0];
            &&& row.horizon@ == items[0]->Text_0
            &&& row.table_name is Some && row.table_name->0@ == items[1]->Text_0
            &&& row.pk is Some && row.pk->0@ == items[2]->Text_0
            &&& row.row is Some && row.row->0@ == items[3]
        }),
{
    let all = seq![JsonView::List(items)];
    assert(all.last() == JsonView::List(items));
    assert(all.drop_last() =~= seq![]);
    reveal_with_fuel(crate::pull::read_rows, 2);
    reveal_with_fuel(crate::pull_snapshot::read_snapshot_rows, 2);
    if r is Ok {
        let v = crate::pull::row_views(r->Ok_0@);
        assert(v.len() == r->Ok_0@.len());
        if v.len() == 1 {
            assert(v[0] == r->Ok_0@[0]@);
        }
    }
    if s is Ok {
        let v = crate::pull_snapshot::snapshot_views(s->Ok_0@);
        assert(v.len() == s->Ok_0@.len());
        if v.len() == 1 {
            assert(v[0] == s->Ok_0@[0]@);
        }
    }
}

/// So may claims, an event of the payment provider and its answer to a checkout.
pub proof fn law_answers_in_a_list(
    payload: &[u8],
    claims: Option<(String, Option<i64>)>,
    event: Option<StripeEvent>,
    body: &str,
    session: Result<CheckoutSession, StripeError>,
    items: Seq<JsonView>,
    object: JsonView,
)
    requires
        call_ensures(read_claims, (payload,), claims),
        call_ensures(parse_event, (payload,), event),
        payload@ == encode_utf8(body@),
        call_ensures(checkout_reply, (true, "", body), session),
        json_read(payload@) == Some(JsonView::List(items)),
    ensures
        items.len() == 2 && items[0] is Text && items[1] is Unsigned && items[1]->Unsigned_0 <= 100
            ==> claims is Some && (claims->0).0@ == items[0]->Text_0 && (claims->0).1 == Some(
            items[1]->Unsigned_0 as i64,
        ),
        items.len() == 3 && items[0] is Text && items[1] is Text && items[2] == JsonView::List(
            seq![object],
        ) ==> event is Some && event->0.id@ == items[0]->Text_0 && event->0.event_type@
            == items[1]->Text_0 && event->0.data.object@ == object,
        items.len() == 2 && items[0] is Text && items[1] is Text ==> session is Ok
            && session->Ok_0.url@ == items[0]->Text_0 && session->Ok_0.id@ == items[1]->Text_0,
{
}

/// So may the elements of a set and the entries of a counter: an element is its value, the
/// moment of its add and that of its remove, a moment is its time and its count, and an
/// entry is its replica and its two totals. A payload that is empty, null, or a record
/// without them has none; any other is malformed.
pub proof fn law_payloads_in_a_list(
    payload: &[u8],
    elements: Result<Vec<OrSetElement>, OrSetError>,
    entries: Result<Vec<PnEntry>, CounterError>,
    f: Seq<(Seq<char>, JsonView)>,
    v: Seq<char>,
    h: Hlc,
    d: Hlc,
    added: u64,
    taken: u64,
)
    requires
        call_ensures(parse_elements, (payload,), elements),
        call_ensures(parse_counter_entries, (payload,), entries),
    ensures
        payload@.len() == 0 || json_read(payload@) == Some(JsonView::Null) ==> elements is Ok
            && elements->Ok_0@.len() == 0 && entries is Ok && entries->Ok_0@.len() == 0,
        payload@.len() > 0 && json_read(payload@) == Some(JsonView::Record(f)) ==> {
            &&& member(f, "elements"@) is None ==> elements is Ok && elements->Ok_0@.len() == 0
            &&& member(f, "entries"@) is None ==> entries is Ok && entries->Ok_0@.len() == 0
            &&& member(f, "elements"@) is Some && !(member(f, "elements"@)->0 is List)
                ==> elements == Err::<Vec<OrSetElement>, OrSetError>(OrSetError::Malformed)
            &&& member(f, "entries"@) is Some && !(member(f, "entries"@)->0 is List) ==> entries
                == Err::<Vec<PnEntry>, CounterError>(CounterError::Malformed)
        },
        payload@.len() > 0 && json_read(payload@) is Some && !(json_read(payload@)->0 is Record)
            && !(json_read(payload@)->0 is Null) ==> elements == Err::<
            Vec<OrSetElement>,
            OrSetError,
        >(OrSetError::Malformed) && entries == Err::<Vec<PnEntry>, CounterError>(
            CounterError::Malformed,
        ),
        payload@.len() > 0 && json_read(payload@) == Some(JsonView::Record(f)) && member(
            f,
            "elements"@,
        ) == Some(
            JsonView::List(
                seq![JsonView::List(seq![JsonView::Text(v), moment_list(h), moment_list(d)])],
            ),
        ) ==> elements is Ok && elements->Ok_0@.len() == 1 && elements->Ok_0@[0].v@ == v
            && elements->Ok_0@[0].h == h && elements->Ok_0@[0].d == Some(d),
        payload@.len() > 0 && json_read(payload@) == Some(JsonView::Record(f)) && member(
            f,
            "entries"@,
        ) == Some(
            JsonView::List(
                seq![
                    JsonView::List(
                        seq![
                            JsonView::Text(v),
                            JsonView::Unsigned(added),
                            JsonView::Unsigned(taken),
                        ],
                    ),
                ],
            ),
        ) ==> entries is Ok && entries->Ok_0@.len() == 1 && entries->Ok_0@[0].r@ == v
            && entries->Ok_0@[0].p == added && entries->Ok_0@[0].n == taken,
{
    let e = JsonView::List(seq![JsonView::Text(v), moment_list(h), moment_list(d)]);
    let c = JsonView::List(
        seq![JsonView::Text(v), JsonView::Unsigned(added), JsonView::Unsigned(taken)],
    );
    assert(seq![e].last() == e && seq![c].last() == c);
    assert(seq![e].drop_last() =~= seq![] && seq![c].drop_last() =~= seq![]);
    reveal_with_fuel(crate::crdt::read_elements, 2);
    reveal_with_fuel(crate::counter::read_entries, 2);
    assert(crate::crdt::read_hlc(moment_list(h)) == Some(h));
    assert(crate::crdt::read_hlc(moment_list(d)) == Some(d));
    if elements is Ok {
        let w = crate::crdt::element_views(elements->Ok_0@);
        assert(w.len() == elements->Ok_0@.len());
        if w.len() == 1 {
            assert(w[0] == (
                elements->Ok_0@[0].v@,
                (elements->Ok_0@[0].h, elements->Ok_0@[0].d),
            ));
        }
    }
    if entries is Ok {
        let w = crate::counter::entry_views(entries->Ok_0@);
        assert(w.len() == entries->Ok_0@.len());
        if w.len() == 1 {
            assert(w[0] == (entries->Ok_0@[0].r@, (entries->Ok_0@[0].p, entries->Ok_0@[0].n)));
        }
    }
}

/// A moment as a list.
pub open spec fn moment_list(h: Hlc) -> JsonView {
    JsonView::List(seq![JsonView::Unsigned(h.wall_ms), JsonView::Unsigned(h.ctr as u64)])
}

/// A comparison may be a list of its column and its value, and a tag of a value holds it.
pub proof fn law_comparison_in_a_list(
    v: &Json,
    floats: &FloatReadings,
    r: Option<PredicateExpr>,
    column: Seq<char>,
    n: u64,
)
    requires
        call_ensures(expr_of, (v, floats), r),
        n <= 100,
        v@ == JsonView::Record(
            seq![
                (
                    "Lt"@,
                    JsonView::List(
                        seq![
                            JsonView::Text(column),
                            JsonView::Record(seq![("Number"@, JsonView::Unsigned(n))]),
                        ],
                    ),
                ),
            ],
        ),
    ensures
        r is Some,
        r->0@ == ExprView::Leaf(ScopeOp::Lt, column, ValueView::Number(n as i64)),
{
    reveal_strlit("Any");
    reveal_strlit("Not");
    reveal_strlit("And");
    reveal_strlit("Or");
    reveal_strlit("Eq");
    reveal_strlit("Ne");
    reveal_strlit("Lt");
    reveal_strlit("Text");
    reveal_strlit("Number");
    assert("Lt"@.len() == 2 && "Lt"@[0] == 'L' && "Or"@[0] == 'O' && "Eq"@[0] == 'E' && "Ne"@[0]
        == 'N' && "Any"@.len() == 3 && "Not"@.len() == 3 && "And"@.len() == 3);
    assert("Number"@.len() == 6 && "Text"@.len() == 4);
    let f = v@->Record_0;
    assert(f.len() == 1 && f[0].0 == "Lt"@);
}

// ---- single changes of a feed ----

/// A change of a feed is taken where its number lies behind the cursor and within what was
/// searched, its operation is known, its table and its key are not empty, and its row is
/// there unless it is deleted. What is wrong with it is said.
pub proof fn law_feed_change_must_fit(
    c: ChangeView,
    n: u64,
    previous: u64,
    scanned: u64,
)
    requires
        c.seq == decimal(n as nat),
    ensures
        ({
            let r = change_frame(c, previous, scanned);
            let known = c.op == "insert"@ || c.op == "update"@ || c.op == "delete"@;
            &&& r is Ok <==> previous < n <= scanned && known && c.table.len() > 0 && c.pk.len() > 0
                && (c.op == "delete"@ || c.row is Some)
            &&& r is Ok ==> r->Ok_0.lsn == n && r->Ok_0.txn_id == Some(n)
            &&& !(previous < n <= scanned) ==> r == Err::<FrameView, FeedErrorView>(
                FeedErrorView::Protocol(
                    "visible sequence "@ + decimal(n as nat) + " outside ("@ + decimal(
                        previous as nat,
                    ) + ", "@ + decimal(scanned as nat) + "]"@,
                ),
            )
            &&& previous < n <= scanned && !known ==> r == Err::<FrameView, FeedErrorView>(
                FeedErrorView::Protocol("unknown op "@ + c.op),
            )
            &&& previous < n <= scanned && known && (c.table.len() == 0 || c.pk.len() == 0) ==> r
                == Err::<FrameView, FeedErrorView>(
                FeedErrorView::Protocol("empty table or primary key"@),
            )
            &&& previous < n <= scanned && known && c.table.len() > 0 && c.pk.len() > 0 && r is Err
                ==> r == Err::<FrameView, FeedErrorView>(
                FeedErrorView::Protocol("row image missing"@),
            )
        }),
{
    lemma_digits_round_trip(n as nat, 10);
    let d = decimal(n as nat);
    assert(crate::numbers::without_plus(d) == d);
    reveal_strlit("insert");
    reveal_strlit("update");
    reveal_strlit("delete");
    assert("insert"@[0] == 'i' && "update"@[0] == 'u' && "delete"@[0] == 'd');
}

// ---- orders ----

/// Texts come in the order of their characters, and pairs in the order of what comes
/// first, then of what comes second.
pub proof fn law_pairs_in_order(a: &(String, String), b: &(String, String), r: bool)
    requires
        call_ensures(<(String, String) as Key>::less, (a, b), r),
    ensures
        r <==> lex_lt(a.0@, b.0@) || (a.0@ == b.0@ && lex_lt(a.1@, b.1@)),
{
}

// ---- numbers that are none ----

/// Nothing is no number, digits that write too much are too large, and what does not begin
/// with a digit is none.
pub proof fn law_number_faults(s: &Vec<char>, radix: u64, max: u64, r: NumberFault, n: nat)
    requires
        call_ensures(fault_of_number, (s, radix, max), r),
        2 <= radix <= 16,
    ensures
        s@.len() == 0 ==> r is Empty,
        s@.len() > 0 ==> !(r is Empty),
        s@ == digits_of(n, radix as nat) && n > max ==> r is TooLarge,
        s@.len() > 0 && s@[0] != '+' && crate::numbers::digit_value(s@[0]) is None
            ==> r is InvalidDigit,
{
    lemma_digits_round_trip(n, radix as nat);
    let d = crate::numbers::without_plus(s@);
    let k = crate::numbers::leading_digits(d, radix as nat);
    if s@ == digits_of(n, radix as nat) {
        lemma_all_leading(s@, radix as nat);
        assert(d.take(k as int) =~= d);
    }
    if s@.len() > 0 && s@[0] != '+' && crate::numbers::digit_value(s@[0]) is None {
        assert(k == 0);
        assert(d.take(0).len() == 0);
    }
}

proof fn lemma_all_leading(s: Seq<char>, radix: nat)
    requires
        crate::numbers::all_digits(s, radix),
    ensures
        crate::numbers::leading_digits(s, radix) == s.len(),
    decreases s.len(),
{
    if s.len() > 0 {
        assert(crate::numbers::is_digit(s[0], radix));
        let rest = s.drop_first();
        assert forall|i: int| 0 <= i < rest.len() implies crate::numbers::is_digit(
            #[trigger] rest[i],
            radix,
        ) by {
            assert(rest[i] == s[i + 1]);
        }
        lemma_all_leading(rest, radix);
    }
}

// ---- the rest of the service ----

/// A password is kept as the hash of its bytes, in hexadecimal.
pub proof fn law_password_is_kept_as_its_hash(password: &str, r: String, s: &str, b: Option<Vec<u8>>)
    requires
        call_ensures(hash_password, (password,), r),
        s@ == r@,
        call_ensures(decode_hex, (s,), b),
    ensures
        b is Some,
        b->0@ == sha256_digest(encode_utf8(password@)),
{
    lemma_hex_reads_back(sha256_digest(encode_utf8(password@)));
}

/// What a payment that failed says, what there is of the provider that is not written yet,
/// and where the page of a project is.
pub proof fn law_payment_words(
    e: &PaymentError,
    r: String,
    id: &str,
    page: String,
    req: &CheckoutRequest<'_>,
    other: &PaypalProvider,
    said: Result<Checkout, PaymentError>,
)
    requires
        call_ensures(PaymentError::to_text, (e,), r),
        call_ensures(admin_path, (id,), page),
        call_ensures(PaypalProvider::create_checkout, (other, req), said),
    ensures
        *e matches PaymentError::Unsupported { provider } ==> r@ == "the "@ + provider@
            + " provider is configured but not yet implemented"@,
        *e matches PaymentError::Other(s) ==> r@ == "payment provider error: "@ + s@,
        page@ == "/admin/#/projects/"@ + id@,
        said is Err && (said->Err_0 matches PaymentError::Unsupported { provider } && provider@
            == "paypal"@),
{
}

} // verus!
