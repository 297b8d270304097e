//! What the small functions give, each by what it is made of.

use vstd::prelude::*;
use vstd::utf8::encode_utf8;
use crate::auth::{read_claims, TestVerifier};
use crate::base64url::{encoded, law_encoded_reads_back};
use crate::cloud_laws::{lemma_account_place, lemma_no_more_dots};
use crate::conformance::in_memory_conforms;
use crate::counter::{counter_apply_delta, counter_delta_text};
use crate::crdt::OrSetElement;
use crate::engine::NostosEngine;
use crate::events::{Operation, RowOp};
use crate::hlc::Hlc;
use crate::in_memory::InMemoryStorage;
use crate::json::{json_read, json_text, Json, JsonView};
use crate::license::{lemma_no_dot, lemma_until_dot};
use crate::lsn::Lsn;
use crate::merge_laws::moment;
use crate::names::NameSet;
use crate::numbers::{decimal, lemma_digits_round_trip, parse_signed, parse_unsigned};
use crate::predicate::{
    law_combining, ColumnValue, FloatReadings, Predicate, PredicateExpr, Row, ScopeOp, ValueView,
};
use crate::predicate_json::{expr_of, expr_value};
use crate::principal::{Principal, TenantScope};
use crate::records::{Account, ApiKey, Project, Role};
use crate::routes::{confirm_session, current_account_id, ApiError};
use crate::scope::{ScopeExpr, ScopeValue};
use crate::sqlite_store::{
    attempts_of, bytes_of_value, decode_columns, decode_pks, error_of, key_bind, number_or_zero,
    text_of_value, SqlValue,
};
use crate::sqlite_laws::is_text;
use crate::stripe::member_text;
use crate::text::{text_less, text_views, yields_at};
use crate::transport::{checkpoint_from, PumpResult};
use crate::verdicts::Failure;

verus! {

/// What an operation on a row is, by its kind.
pub proof fn law_operation_parts(
    op: &RowOp,
    table: &str,
    pk: &str,
    len: usize,
    bears: bool,
    kind: Operation,
)
    requires
        call_ensures(RowOp::table, (op,), table),
        call_ensures(RowOp::pk, (op,), pk),
        call_ensures(RowOp::payload_len, (op,), len),
        call_ensures(RowOp::has_payload, (op,), bears),
        call_ensures(RowOp::operation, (op,), kind),
    ensures
        *op matches RowOp::Insert { table: t, pk: k, payload } ==> table@ == t@ && pk@ == k@ && len
            == payload@.len() && bears && kind == Operation::Insert,
        *op matches RowOp::Update { table: t, pk: k, payload } ==> table@ == t@ && pk@ == k@ && len
            == payload@.len() && bears && kind == Operation::Update,
        *op matches RowOp::Delete { table: t, pk: k } ==> table@ == t@ && pk@ == k@ && len == 0
            && !bears && kind == Operation::Delete,
{
}

/// An element is in its set where it was never removed, or was added later than it was
/// removed.
pub proof fn law_element_is_present(e: &OrSetElement, r: bool)
    requires
        call_ensures(OrSetElement::is_present, (e,), r),
    ensures
        e.d is None ==> r,
        e.d is Some ==> r == (moment(e.d->0) < moment(e.h)),
{
}

/// The smaller of two positions.
pub proof fn law_smaller_position(a: Lsn, b: Lsn, r: Lsn)
    requires
        call_ensures(Lsn::min, (a, b), r),
    ensures
        r.0 <= a.0 && r.0 <= b.0,
        r == a || r == b,
{
}

/// A position moves to a later one and to no other, and says whether it did.
pub proof fn law_position_moves_on(before: Lsn, next: Lsn, after: Lsn, r: bool)
    requires
        exists|h: &mut Lsn| #[trigger]
            call_ensures(Lsn::advance, (h, next), r) && *h == before && *final(h) == after,
    ensures
        r <==> next.0 > before.0,
        r ==> after == next,
        !r ==> after == before,
{
}

/// Nobody has no account; the rows of anybody else are those of the tenant, where the
/// tables say which column that is.
pub proof fn law_rows_of_the_tenant(
    p: &Principal,
    column: Option<&str>,
    r: Option<TenantScope<'_>>,
    nobody: bool,
    none: Principal,
)
    requires
        call_ensures(Principal::tenant_scope, (p, column), r),
        call_ensures(Principal::is_anonymous, (p,), nobody),
        call_ensures(Principal::anonymous, (), none),
    ensures
        nobody <==> p.account_id@.len() == 0,
        r is Some <==> !nobody && column is Some,
        r is Some ==> r->0.column@ == column->0@ && r->0.value@ == p.tenant_id@,
        none.account_id@.len() == 0 && none.tenant_id@.len() == 0,
{
}

/// A predicate made of a column and a value compares the column with the value.
pub proof fn law_made_expressions_compare(
    column: &str,
    row: &Row,
    e: PredicateExpr,
    r: bool,
    a: i64,
    b: i64,
)
    requires
        call_ensures(PredicateExpr::matches, (&e, row), r),
        row.columns@.contains_key(column@),
        row.columns@[column@] == ColumnValue::Number(a),
    ensures
        call_ensures(PredicateExpr::any, (), e) ==> r,
        call_ensures(PredicateExpr::eq, (column, ColumnValue::Number(b)), e) ==> r == (a == b),
        call_ensures(PredicateExpr::ne, (column, ColumnValue::Number(b)), e) ==> r == (a != b),
        call_ensures(PredicateExpr::lt, (column, ColumnValue::Number(b)), e) ==> r == (a < b),
        call_ensures(PredicateExpr::gt, (column, ColumnValue::Number(b)), e) ==> r == (a > b),
        call_ensures(PredicateExpr::le, (column, ColumnValue::Number(b)), e) ==> r == (a <= b),
        call_ensures(PredicateExpr::ge, (column, ColumnValue::Number(b)), e) ==> r == (a >= b),
{
}

/// A predicate narrowed by a column holds where both do, one widened by it where either
/// does.
pub proof fn law_narrowed_and_widened(
    p: Predicate,
    column: &str,
    b: i64,
    q: Predicate,
    row: &Row,
    rp: bool,
    rq: bool,
    a: i64,
)
    requires
        call_ensures(Predicate::matches, (&p, row), rp),
        call_ensures(Predicate::matches, (&q, row), rq),
        row.columns@.contains_key(column@),
        row.columns@[column@] == ColumnValue::Number(a),
    ensures
        call_ensures(Predicate::and_eq, (p, column, ColumnValue::Number(b)), q) ==> rq == (rp && a
            == b) && q.table@ == p.table@,
        call_ensures(Predicate::or_eq, (p, column, ColumnValue::Number(b)), q) ==> rq == (rp || a
            == b) && q.table@ == p.table@,
{
    law_combining(
        p.expr@,
        crate::predicate::ExprView::Leaf(ScopeOp::Eq, column@, ValueView::Number(b)),
        row@,
    );
}

/// The text of a predicate is that of its JSON, and a predicate is read from the JSON of
/// its text.
pub proof fn law_predicate_text(
    e: &PredicateExpr,
    r: String,
    j: Json,
    text: &str,
    v: &Json,
    floats: &FloatReadings,
    x: Option<PredicateExpr>,
    y: Option<PredicateExpr>,
)
    requires
        call_ensures(PredicateExpr::to_json, (e,), r),
        call_ensures(expr_value, (e,), j),
        call_ensures(PredicateExpr::from_json, (text, floats), x),
        call_ensures(expr_of, (v, floats), y),
    ensures
        r@ == json_text(j@),
        json_read(encode_utf8(text@)) == Some(v@) ==> (x is Some <==> y is Some) && (x is Some
            ==> x->0@ == y->0@),
        json_read(encode_utf8(text@)) is None ==> x is None,
{
}

/// The claims that a scope refers to are those that its comparisons name, each once.
pub proof fn law_referenced_claims(s: &ScopeExpr, r: Vec<String>, i: int, k: int)
    requires
        call_ensures(ScopeExpr::referenced_claims, (s,), r),
    ensures
        0 <= i < s.terms@.len() && (s.terms@[i].value matches ScopeValue::Claim(f)) ==> exists|
            j: int,
        | 0 <= j < r@.len() && (#[trigger] r@[j])@ == s.terms@[i].value->Claim_0@,
        0 <= k < r@.len() ==> exists|j: int|
            0 <= j < s.terms@.len() && ((#[trigger] s.terms@[j]).value matches ScopeValue::Claim(f)
                && f@ == r@[k]@),
{
    if 0 <= i < s.terms@.len() && s.terms@[i].value is Claim {
        let f = s.terms@[i].value->Claim_0@;
        assert(s@[i].value == crate::scope::ScopeValueView::Claim(f));
        assert(crate::scope::names_claim(s@, f));
        assert(text_views(r@).contains(f));
        let j = choose|j: int| 0 <= j < text_views(r@).len() && text_views(r@)[j] == f;
        assert(r@[j]@ == f);
    }
    if 0 <= k < r@.len() {
        let f = r@[k]@;
        assert(text_views(r@)[k] == f);
        assert(text_views(r@).contains(f));
        assert(crate::scope::names_claim(s@, f));
        let j = choose|j: int|
            0 <= j < s@.len() && (#[trigger] s@[j]).value == crate::scope::ScopeValueView::Claim(f);
        assert(s@[j] == s.terms@[j]@);
    }
}

/// A session lets in the account that it names, where that exists.
pub proof fn law_session_needs_its_account(
    id: &str,
    accounts: &Vec<Account>,
    r: Result<String, ApiError>,
    found: Option<&Account>,
)
    requires
        call_ensures(confirm_session, (id, accounts), r),
        call_ensures(crate::records::find_account, (accounts, id), found),
    ensures
        r is Ok <==> found is Some,
        r is Ok ==> r->Ok_0@ == id@,
        r is Err ==> r->Err_0.0 == 401 && r->Err_0.1@ == "session invalid"@,
{
}

/// What is made of an account, a project and a key: each has an id with a prefix of its
/// kind, and what it was made with.
pub proof fn law_records_are_made(
    email: &str,
    hash: &str,
    role: Role,
    account: Account,
    project: Project,
    key: ApiKey,
)
    requires
        call_ensures(Account::create, (email, hash, role), account),
        call_ensures(Project::create, (email, hash), project),
        call_ensures(ApiKey::create, (email,), key),
    ensures
        account.email@ == email@ && account.password_hash@ == hash@ && account.role == role,
        account.id@.len() == 28 && account.id@.take(4) == "acc_"@,
        project.account_id@ == email@ && project.name@ == hash@ && project.sync_url is None,
        project.id@.len() == 29 && project.id@.take(5) == "proj_"@,
        key.project_id@ == email@,
        key.id@.len() == 28 && key.id@.take(4) == "key_"@,
        key.key@.len() == 28 && key.key@.take(4) == "cak_"@,
{
    reveal_strlit("acc_");
    reveal_strlit("proj_");
    reveal_strlit("key_");
    reveal_strlit("cak_");
    lemma_prefixed(account.id@, "acc_"@);
    lemma_prefixed(project.id@, "proj_"@);
    lemma_prefixed(key.id@, "key_"@);
    lemma_prefixed(key.key@, "cak_"@);
}

proof fn lemma_prefixed(s: Seq<char>, prefix: Seq<char>)
    requires
        crate::records::is_id(s, prefix),
    ensures
        s.len() == prefix.len() + 24,
        s.take(prefix.len() as int) == prefix,
{
    let id = choose|id: Seq<char>| #[trigger]
        crate::identity::is_random_id(id) && crate::identity::is_drawn_id(id) && s == prefix + id;
    assert(s.take(prefix.len() as int) =~= prefix);
}

/// The moments of an engine are those of its clock, each later than the one before.
pub proof fn law_moments_of_an_engine(
    name: String,
    e0: NostosEngine<InMemoryStorage>,
    now: u64,
    e1: NostosEngine<InMemoryStorage>,
    a: Hlc,
    then: u64,
    e2: NostosEngine<InMemoryStorage>,
    b: Hlc,
)
    requires
        call_ensures(NostosEngine::<InMemoryStorage>::new, (name,), e0),
        exists|g: &mut NostosEngine<InMemoryStorage>| #[trigger]
            call_ensures(NostosEngine::<InMemoryStorage>::mint_hlc, (g, now), a) && *g == e0
                && *final(g) == e1,
        exists|g: &mut NostosEngine<InMemoryStorage>| #[trigger]
            call_ensures(NostosEngine::<InMemoryStorage>::mint_hlc, (g, then), b) && *g == e1
                && *final(g) == e2,
    ensures
        a == (Hlc { wall_ms: now, ctr: 0 }),
        then > now ==> b == (Hlc { wall_ms: then, ctr: 0 }),
        then <= now ==> b == (Hlc { wall_ms: now, ctr: 1 }),
{
}

/// What the store says is read as text, as a number or as bytes; what is none is nothing.
pub proof fn law_values_are_read(
    v: &SqlValue,
    text: Option<String>,
    n: u64,
    bytes: Vec<u8>,
    attempts: u32,
    error: Option<String>,
    s: Seq<char>,
    m: u64,
)
    requires
        call_ensures(text_of_value, (v,), text),
        call_ensures(number_or_zero, (v,), n),
        call_ensures(bytes_of_value, (v,), bytes),
        call_ensures(attempts_of, (v,), attempts),
        call_ensures(error_of, (v,), error),
    ensures
        is_text(*v, s) ==> text is Some && text->0@ == s && bytes@ == encode_utf8(s) && (
        error is Some <==> s.len() > 0) && (error is Some ==> error->0@ == s),
        *v == SqlValue::Integer(m) ==> text is Some && text->0@ == decimal(m as nat) && n == m && (m
            <= u32::MAX ==> attempts == m) && (m > u32::MAX ==> attempts == 0),
        *v matches SqlValue::Blob(b) ==> bytes@ == b@ && text is None && n == 0,
        *v is Null ==> text is None && n == 0 && bytes@.len() == 0 && attempts == 0
            && error is None,
{
    lemma_digits_round_trip(m as nat, 10);
    crate::sqlite_store::law_stored_number_reads_back(m);
    let d = decimal(m as nat);
    assert(crate::numbers::without_plus(d) == d);
    crate::sqlite_laws::lemma_plain_ends(m);
    crate::text::lemma_trimmed(d);
}

/// A key binds its table and its row; of a list of rows the keys stand first, and of a list
/// of columns the names second.
pub proof fn law_columns_of_rows(
    table: &str,
    pk: &str,
    bind: Vec<SqlValue>,
    rows: &Vec<Vec<SqlValue>>,
    pks: Vec<String>,
    names: Vec<String>,
    i: int,
    s: Seq<char>,
)
    requires
        call_ensures(key_bind, (table, pk), bind),
        call_ensures(decode_pks, (rows,), pks),
        call_ensures(decode_columns, (rows,), names),
        0 <= i < rows@.len(),
    ensures
        bind@.len() == 2 && is_text(bind@[0], table@) && is_text(bind@[1], pk@),
        pks@.len() == rows@.len() && names@.len() == rows@.len(),
        rows@[i]@.len() > 0 && is_text(rows@[i]@[0], s) ==> pks@[i]@ == s,
        rows@[i]@.len() > 1 && is_text(rows@[i]@[1], s) ==> names@[i]@ == s,
{
    let c = crate::sqlite_store::cells(bind@);
    assert(c.len() == bind@.len());
    assert(c[0] == bind@[0]@ && c[1] == bind@[1]@);
    let r = crate::sqlite_store::cells(rows@[i]@);
    assert(r.len() == rows@[i]@.len());
    if r.len() > 0 {
        assert(r[0] == rows@[i]@[0]@);
    }
    if r.len() > 1 {
        assert(r[1] == rows@[i]@[1]@);
    }
    assert(pks@[i]@ == crate::sqlite_store::text_column(r, 0));
    assert(names@[i]@ == crate::sqlite_store::text_column(r, 1));
}

/// A text stands before another where it is the start of it, or has the smaller character
/// where they first differ.
pub proof fn law_text_before_another(a: &str, b: &str, r: bool)
    requires
        call_ensures(text_less, (a, b), r),
    ensures
        r <==> exists|k: int| #[trigger] yields_at(a@, b@, k),
{
    crate::text::law_text_order(a@, b@);
}

/// Numbers are read from their digits.
pub proof fn law_numbers_from_digits(
    s: &Vec<char>,
    n: u64,
    max: u64,
    r: Option<u64>,
    m: i64,
    x: Option<i64>,
)
    requires
        call_ensures(parse_unsigned, (s, 10, max), r),
        call_ensures(parse_signed, (s,), x),
    ensures
        s@ == decimal(n as nat) ==> (r is Some <==> n <= max) && (r is Some ==> r->0 == n),
        s@ == crate::numbers::signed_decimal(m as int) ==> x == Some(m),
{
    lemma_digits_round_trip(n as nat, 10);
    let d = decimal(n as nat);
    assert(crate::numbers::without_plus(d) == d);
    crate::match_laws::lemma_signed_round_trip(m);
}

/// A member of a record is read where it is a text.
pub proof fn law_text_of_a_member(v: &Json, name: &str, r: Option<String>, s: Seq<char>)
    requires
        call_ensures(member_text, (v, name), r),
    ensures
        v@ matches JsonView::Record(f) ==> (crate::json::member(f, name@) == Some(JsonView::Text(s))
            ==> r is Some && r->0@ == s) && (r is Some ==> crate::json::member(f, name@) == Some(
            JsonView::Text(r->0@),
        )),
        !(v@ is Record) ==> r is None,
{
}

/// The text of a changed counter is that of its bytes, and the position to confirm is the
/// one that was committed.
pub proof fn law_texts_and_bytes(
    bytes: &[u8],
    replica: &str,
    delta: i64,
    text: String,
    r: Vec<u8>,
    pump: PumpResult,
    at: Option<u64>,
)
    requires
        call_ensures(counter_delta_text, (bytes, replica, delta), text),
        call_ensures(counter_apply_delta, (bytes, replica, delta), r),
        call_ensures(checkpoint_from, (pump,), at),
    ensures
        encode_utf8(text@) == r@,
        at == pump.ack,
{
}

/// The tables of sets and of counters can be set anew, each without the other.
pub proof fn law_tables_set_anew(
    s0: InMemoryStorage,
    names: NameSet,
    s1: InMemoryStorage,
    s2: InMemoryStorage,
)
    requires
        exists|h: &mut InMemoryStorage| #[trigger]
            call_ensures(InMemoryStorage::set_or_set_tables, (h, names), ()) && *h == s0
                && *final(h) == s1,
        exists|h: &mut InMemoryStorage| #[trigger]
            call_ensures(InMemoryStorage::set_counter_tables, (h, names), ()) && *h == s0
                && *final(h) == s2,
    ensures
        s1.store_view().merging.or_sets == names@,
        s1.store_view().merging.counters == s0.store_view().merging.counters,
        s2.store_view().merging.counters == names@,
        s2.store_view().merging.or_sets == s0.store_view().merging.or_sets,
        s1.store_view().rows == s0.store_view().rows,
        s2.store_view().rows == s0.store_view().rows,
{
}

/// A verifier for tests takes the account of the claims of a token, whoever signed it; a
/// request with such a token is that account's, and without claims its session's. Either
/// way the account has to exist.
pub proof fn law_whose_request(
    v: &TestVerifier,
    header: &str,
    session: Option<&str>,
    accounts: &Vec<Account>,
    r: Result<String, ApiError>,
    head: Seq<char>,
    payload: &[u8],
    c: Option<(String, Option<i64>)>,
    i: int,
)
    requires
        call_ensures(
            current_account_id::<TestVerifier>,
            (Some(v), Some(header), session, accounts),
            r,
        ),
        !head.contains('.'),
        header@ == "Bearer "@ + (head + seq!['.'] + encoded(payload@)),
        call_ensures(read_claims, (payload,), c),
    ensures
        r is Err ==> r->Err_0.0 == 401,
        c is Some && r is Ok ==> r->Ok_0@ == (c->0).0@,
        c is None && r is Ok ==> session is Some && r->Ok_0@ == session->0@,
        0 <= i < accounts@.len() && c is Some && accounts@[i].id@ == (c->0).0@ ==> r is Ok,
        0 <= i < accounts@.len() && c is None && session is Some && accounts@[i].id@
            == session->0@ ==> r is Ok,
        (forall|k: int| 0 <= k < accounts@.len() ==> (#[trigger] accounts@[k]).id@ != (if c is Some {
            (c->0).0@
        } else {
            session->0@
        })) ==> r is Err,
{
    reveal_strlit("Bearer ");
    let t = head + seq!['.'] + encoded(payload@);
    assert(header@.take(7) =~= "Bearer "@);
    assert(header@.skip(7) =~= t);
    assert(t.len() > 0);
    let n = head.len() as int;
    lemma_no_dot(payload@);
    assert forall|k: int| 0 <= k < n implies #[trigger] t[k] != '.' by {
        assert(t[k] == head[k]);
        if t[k] == '.' {
            assert(head.contains('.'));
        }
    }
    assert(t[n] == '.');
    lemma_until_dot(t, 0, n);
    assert forall|k: int| n + 1 <= k < t.len() implies #[trigger] t[k] != '.' by {
        assert(t[k] == encoded(payload@)[k - n - 1]);
    }
    lemma_no_more_dots(t, n + 1);
    assert(t.subrange(n + 1, t.len() as int) =~= encoded(payload@));
    law_encoded_reads_back(payload@);
    if c is Some {
        lemma_account_place(accounts@, (c->0).0@, 0);
    } else if session is Some {
        lemma_account_place(accounts@, session->0@, 0);
    }
}

/// The store in memory passes the five cases, in this order.
pub proof fn law_store_in_memory_conforms(r: Result<Vec<&'static str>, Failure>)
    requires
        call_ensures(in_memory_conforms, (), r),
    ensures
        r is Ok,
        r->Ok_0@.len() == 5,
        r->Ok_0@[0]@ == "a_multi_table_transaction_is_never_seen_in_pieces"@,
        r->Ok_0@[1]@ == "an_echoed_page_applies_twice_with_the_same_result"@,
        r->Ok_0@[2]@ == "the_horizon_never_runs_ahead_of_the_rows"@,
        r->Ok_0@[3]@ == "a_resnapshot_leaves_no_stale_horizon"@,
        r->Ok_0@[4]@ == "a_snapshot_reaps_rows_deleted_while_away"@,
{
}

} // verus!
