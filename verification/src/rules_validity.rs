//! What checking rules is for: rules are accepted exactly where every part of them can
//! be used, and a fault that is reported is one that they have.

use vstd::prelude::*;
use crate::fnv::{compose_sync_epoch, fnv1a_64};
use crate::predicate::{Float, FloatReadings, PredicateExpr, Row};
use crate::predicate_compile::{parsed, ParseErrorView};
use crate::principal::Principal;
use crate::rules::{
    active_scope, canonical_scope_text, canonical_template_text, clean, concatenated, scope_view,
    sorted_lines, stream_fault, stream_lines, stream_names, table_fault, RulesError, RulesErrorView,
    StreamView, SyncMode, SyncRules,
};
use crate::scope::{parsed_scope, ScopeErrorView, ScopeExpr, ScopeTermView, ScopeValueView};
use crate::scope_laws::{scope_value_can_be_written, term_written};
use crate::sorting::{in_order, is_order, lemma_order_exists, lemma_order_unique, order_by, placed};
use crate::text::{control, law_character_kinds, lex_lt, trimmed};

verus! {

/// Whether a name holds no control character: none below the space, and none from 127
/// to 159.
pub open spec fn printable(name: Seq<char>) -> bool {
    forall|i: int|
        0 <= i < name.len() ==> 31 < (#[trigger] name[i]) as int && !(127 <= name[i] as int <= 159)
}

proof fn lemma_printable(name: Seq<char>)
    ensures
        clean(name) == printable(name),
{
    assert forall|i: int| 0 <= i < name.len() implies control(#[trigger] name[i]) == (name[i] as int
        <= 31 || 127 <= name[i] as int <= 159) by {
        law_character_kinds(name[i]);
    }
    if clean(name) {
        assert forall|i: int| 0 <= i < name.len() implies 31 < (#[trigger] name[i]) as int && !(127
            <= name[i] as int <= 159) by {
            assert(!control(name[i]));
        }
    }
    if printable(name) {
        assert forall|i: int| 0 <= i < name.len() implies !control(#[trigger] name[i]) by {
            assert(31 < name[i] as int);
        }
    }
}

/// Whether a scope can be used: there is none, there is nothing in it, or it reads as
/// one.
pub open spec fn scope_reads(scope: Option<Seq<char>>, floats: Map<Seq<char>, Float>) -> bool {
    scope matches Some(s) ==> trimmed(s).len() == 0 || parsed_scope(trimmed(s), floats) is Ok
}

/// Whether tables can be used: printable names, no two alike, and scopes that read.
pub open spec fn tables_usable(
    names: Seq<Seq<char>>,
    scopes: Seq<Option<Seq<char>>>,
    floats: Map<Seq<char>, Float>,
) -> bool {
    &&& forall|i: int| 0 <= i < names.len() ==> printable(#[trigger] names[i])
    &&& forall|i: int, j: int|
        0 <= i < j < names.len() ==> #[trigger] names[i] != #[trigger] names[j]
    &&& forall|i: int| 0 <= i < scopes.len() ==> scope_reads(#[trigger] scopes[i], floats)
}

/// Whether tables have a fault.
pub open spec fn tables_have(
    names: Seq<Seq<char>>,
    scopes: Seq<Option<Seq<char>>>,
    floats: Map<Seq<char>, Float>,
    e: RulesErrorView,
) -> bool {
    match e {
        RulesErrorView::InvalidTableName(t) => names.contains(t) && !printable(t),
        RulesErrorView::DuplicateTable(t) => exists|i: int, j: int|
            0 <= i < j < names.len() && #[trigger] names[i] == t && #[trigger] names[j] == t,
        RulesErrorView::Scope { table, source } => exists|i: int|
            0 <= i < names.len() && #[trigger] names[i] == table && (scopes[i] matches Some(s)
                && trimmed(s).len() > 0 && parsed_scope(trimmed(s), floats) == Err::<
                Seq<ScopeTermView>,
                ScopeErrorView,
            >(source)),
        _ => false,
    }
}

proof fn lemma_tables(
    names: Seq<Seq<char>>,
    scopes: Seq<Option<Seq<char>>>,
    floats: Map<Seq<char>, Float>,
)
    requires
        names.len() == scopes.len(),
    ensures
        table_fault(names, scopes, floats) is None <==> tables_usable(names, scopes, floats),
        table_fault(names, scopes, floats) is Some ==> tables_have(
            names,
            scopes,
            floats,
            table_fault(names, scopes, floats)->0,
        ),
    decreases names.len(),
{
    if names.len() > 0 {
        let n = names.drop_last();
        let s = scopes.drop_last();
        let last = names.len() - 1;
        lemma_tables(n, s, floats);
        lemma_printable(names.last());
        assert(names[last] == names.last() && scopes[last] == scopes.last());
        assert forall|i: int| 0 <= i < n.len() implies #[trigger] n[i] == names[i] && s[i]
            == scopes[i] by {}
        match table_fault(n, s, floats) {
            Some(e) => {
                match e {
                    RulesErrorView::InvalidTableName(t) => {
                        let i = choose|i: int| 0 <= i < n.len() && n[i] == t;
                        assert(names[i] == t);
                        assert(!tables_usable(names, scopes, floats));
                    },
                    RulesErrorView::DuplicateTable(t) => {
                        let (i, j) = choose|i: int, j: int|
                            0 <= i < j < n.len() && #[trigger] n[i] == t && #[trigger] n[j] == t;
                        assert(names[i] == t && names[j] == t);
                    },
                    RulesErrorView::Scope { table, source } => {
                        let i = choose|i: int|
                            0 <= i < n.len() && #[trigger] n[i] == table && (s[i] matches Some(x)
                                && trimmed(x).len() > 0 && parsed_scope(trimmed(x), floats)
                                == Err::<Seq<ScopeTermView>, ScopeErrorView>(source));
                        assert(names[i] == table);
                        assert(!scope_reads(scopes[i], floats));
                    },
                    _ => {},
                }
                assert(!tables_usable(names, scopes, floats));
            },
            None => {
                if !clean(names.last()) {
                    assert(names.contains(names.last()));
                } else if crate::rules::last_repeats(names) {
                    let i = choose|i: int|
                        0 <= i < names.len() - 1 && #[trigger] names[i] == names.last();
                    assert(names[i] == names.last() && names[last] == names.last());
                } else {
                    if active_scope(scopes.last()) is Some && parsed_scope(
                        active_scope(scopes.last())->0,
                        floats,
                    ) is Err {
                        assert(!scope_reads(scopes[last], floats));
                    } else {
                        assert forall|i: int| 0 <= i < names.len() implies printable(
                            #[trigger] names[i],
                        ) by {
                            if i < n.len() {
                                assert(printable(n[i]));
                            }
                        }
                        assert forall|i: int, j: int| 0 <= i < j < names.len() implies #[trigger] names[i]
                            != #[trigger] names[j] by {
                            if j < n.len() {
                                assert(n[i] != n[j]);
                            }
                        }
                        assert forall|i: int| 0 <= i < scopes.len() implies scope_reads(
                            #[trigger] scopes[i],
                            floats,
                        ) by {
                            if i < s.len() {
                                assert(scope_reads(s[i], floats));
                            }
                        }
                    }
                }
            },
        }
    }
}

/// Whether streams can be used: printable names and tables, no two names alike, and
/// templates that read as predicates.
pub open spec fn streams_usable(s: Seq<StreamView>, floats: Map<Seq<char>, Float>) -> bool {
    &&& forall|i: int|
        0 <= i < s.len() ==> printable((#[trigger] s[i]).name) && printable(s[i].table) && parsed(
            trimmed(s[i].template),
            floats,
        ) is Ok
    &&& forall|i: int, j: int|
        0 <= i < j < s.len() ==> (#[trigger] s[i]).name != (#[trigger] s[j]).name
}

/// Whether streams have a fault.
pub open spec fn streams_have(
    s: Seq<StreamView>,
    floats: Map<Seq<char>, Float>,
    e: RulesErrorView,
) -> bool {
    match e {
        RulesErrorView::InvalidStreamName(n) => !printable(n) && exists|i: int|
            0 <= i < s.len() && (#[trigger] s[i]).name == n,
        RulesErrorView::InvalidTableName(t) => !printable(t) && exists|i: int|
            0 <= i < s.len() && (#[trigger] s[i]).table == t,
        RulesErrorView::DuplicateStream(n) => exists|i: int, j: int|
            0 <= i < j < s.len() && (#[trigger] s[i]).name == n && (#[trigger] s[j]).name == n,
        RulesErrorView::StreamTemplate { name, source } => exists|i: int|
            0 <= i < s.len() && (#[trigger] s[i]).name == name && parsed(
                trimmed(s[i].template),
                floats,
            ) == Err::<crate::predicate::ExprView, ParseErrorView>(source),
        _ => false,
    }
}

proof fn lemma_streams(s: Seq<StreamView>, floats: Map<Seq<char>, Float>)
    ensures
        stream_fault(s, floats) is None <==> streams_usable(s, floats),
        stream_fault(s, floats) is Some ==> streams_have(s, floats, stream_fault(s, floats)->0),
    decreases s.len(),
{
    if s.len() > 0 {
        let n = s.drop_last();
        let last = s.len() - 1;
        lemma_streams(n, floats);
        lemma_printable(s.last().name);
        lemma_printable(s.last().table);
        assert(s[last] == s.last());
        assert forall|i: int| 0 <= i < n.len() implies #[trigger] n[i] == s[i] by {}
        match stream_fault(n, floats) {
            Some(e) => {
                match e {
                    RulesErrorView::InvalidStreamName(x) => {
                        let i = choose|i: int| 0 <= i < n.len() && (#[trigger] n[i]).name == x;
                        assert(s[i].name == x);
                    },
                    RulesErrorView::InvalidTableName(x) => {
                        let i = choose|i: int| 0 <= i < n.len() && (#[trigger] n[i]).table == x;
                        assert(s[i].table == x);
                    },
                    RulesErrorView::DuplicateStream(x) => {
                        let (i, j) = choose|i: int, j: int|
                            0 <= i < j < n.len() && (#[trigger] n[i]).name == x && (
                            #[trigger] n[j]).name == x;
                        assert(s[i].name == x && s[j].name == x);
                    },
                    RulesErrorView::StreamTemplate { name, source } => {
                        let i = choose|i: int|
                            0 <= i < n.len() && (#[trigger] n[i]).name == name && parsed(
                                trimmed(n[i].template),
                                floats,
                            ) == Err::<crate::predicate::ExprView, ParseErrorView>(source);
                        assert(s[i].name == name);
                    },
                    _ => {},
                }
                assert(!streams_usable(s, floats));
            },
            None => {
                let names = stream_names(s);
                if crate::rules::last_repeats(names) {
                    let i = choose|i: int|
                        0 <= i < names.len() - 1 && #[trigger] names[i] == names.last();
                    assert(s[i].name == s[last].name);
                } else {
                    assert forall|i: int| 0 <= i < last implies (#[trigger] s[i]).name
                        != s[last].name by {
                        assert(names[i] != names.last());
                    }
                }
                if stream_fault(s, floats) is None {
                    assert forall|i: int| 0 <= i < s.len() implies printable((#[trigger] s[i]).name)
                        && printable(s[i].table) && parsed(trimmed(s[i].template), floats) is Ok by {
                        if i < n.len() {
                            assert(printable(n[i].name));
                        }
                    }
                    assert forall|i: int, j: int| 0 <= i < j < s.len() implies (
                    #[trigger] s[i]).name != (#[trigger] s[j]).name by {
                        if j < n.len() {
                            assert(n[i].name != n[j].name);
                        }
                    }
                }
            },
        }
    }
}

/// The tables of the section that decides: those of the toggles or those written by
/// hand, and none where everything is synced.
pub open spec fn deciding_tables(r: SyncRules) -> (Seq<Seq<char>>, Seq<Option<Seq<char>>>) {
    match r.mode {
        SyncMode::All => (seq![], seq![]),
        SyncMode::Toggles => (
            Seq::new(r.tables@.len(), |i: int| r.tables@[i].table@),
            Seq::new(r.tables@.len(), |i: int| scope_view(r.tables@[i].scope)),
        ),
        SyncMode::Hand => (
            Seq::new(r.hand@.len(), |i: int| r.hand@[i].table@),
            Seq::new(r.hand@.len(), |i: int| scope_view(r.hand@[i].scope)),
        ),
    }
}

/// The streams of rules.
pub open spec fn streams_of(r: SyncRules) -> Seq<StreamView> {
    Seq::new(
        r.streams@.len(),
        |i: int|
            StreamView {
                name: r.streams@[i].name@,
                table: r.streams@[i].table@,
                template: r.streams@[i].template@,
            },
    )
}

/// Rules are accepted exactly where their version is the first, and their streams and
/// the tables of the section that decides can be used. What is reported of rules that
/// are not is a fault that they have.
pub proof fn law_accepted_rules_can_be_used(
    rules: &SyncRules,
    floats: &FloatReadings,
    r: Result<(), RulesError>,
)
    requires
        call_ensures(SyncRules::validate, (rules, floats), r),
    ensures
        r is Ok <==> rules.version == 1 && streams_usable(streams_of(*rules), floats.readings@)
            && tables_usable(
            deciding_tables(*rules).0,
            deciding_tables(*rules).1,
            floats.readings@,
        ),
        r is Err ==> (rules.version != 1 && r->Err_0@ == RulesErrorView::UnsupportedVersion(
            rules.version,
        )) || streams_have(streams_of(*rules), floats.readings@, r->Err_0@) || tables_have(
            deciding_tables(*rules).0,
            deciding_tables(*rules).1,
            floats.readings@,
            r->Err_0@,
        ),
{
    assert(rules.stream_views() =~= streams_of(*rules));
    assert(rules.table_names() =~= deciding_tables(*rules).0);
    assert(rules.table_scopes() =~= deciding_tables(*rules).1);
    lemma_streams(rules.stream_views(), floats.readings@);
    lemma_tables(rules.table_names(), rules.table_scopes(), floats.readings@);
}

// ---- the canonical text ----

/// Whether names stand in order, no two alike.
pub open spec fn ascend(names: Seq<Seq<char>>) -> bool {
    forall|i: int, j: int|
        0 <= i < j < names.len() ==> lex_lt(#[trigger] names[i], #[trigger] names[j])
}

proof fn lemma_in_place(lines: Seq<Seq<char>>, names: Seq<Seq<char>>)
    requires
        lines.len() == names.len(),
        ascend(names),
    ensures
        sorted_lines(lines, names) == concatenated(lines),
{
    let o = Seq::new(names.len(), |i: int| i);
    assert(is_order::<String>(names, o)) by {
        assert forall|k: int| 0 <= k < names.len() implies #[trigger] placed(o, k) by {
            assert(o[k] == k);
        }
    }
    lemma_order_exists::<String>(names);
    lemma_order_unique::<String>(names, o, order_by::<String>(names));
    assert(in_order::<String, Seq<char>>(lines, names) =~= lines);
}

/// A line of the canonical text for each table of the toggles: its name, whether it is
/// synced, and its scope, with tabs between them.
pub open spec fn toggle_lines(r: SyncRules, floats: Map<Seq<char>, Float>) -> Seq<Seq<char>> {
    Seq::new(
        r.tables@.len(),
        |i: int|
            r.tables@[i].table@ + "\t"@ + (if r.tables@[i].sync {
                "true"@
            } else {
                "false"@
            }) + "\t"@ + canonical_scope_text(scope_view(r.tables@[i].scope), floats) + "\n"@,
    )
}

/// A line for each table written by hand: its name and its scope.
pub open spec fn hand_lines(r: SyncRules, floats: Map<Seq<char>, Float>) -> Seq<Seq<char>> {
    Seq::new(
        r.hand@.len(),
        |i: int|
            r.hand@[i].table@ + "\t"@ + canonical_scope_text(scope_view(r.hand@[i].scope), floats)
                + "\n"@,
    )
}

/// A line for each stream: the word, its name, its table and its template.
pub open spec fn lines_of_streams(r: SyncRules, floats: Map<Seq<char>, Float>) -> Seq<Seq<char>> {
    Seq::new(
        r.streams@.len(),
        |i: int|
            "stream"@ + "\t"@ + r.streams@[i].name@ + "\t"@ + r.streams@[i].table@ + "\t"@
                + canonical_template_text(r.streams@[i].template@, floats) + "\n"@,
    )
}

/// The canonical text is a line with the version, one with the mode, and one for each
/// table of the section that decides and for each stream. It is stated of rules whose
/// tables and streams stand in order; that their order makes no difference is another
/// law.
pub proof fn law_canonical_lines(rules: &SyncRules, floats: &FloatReadings, r: String)
    requires
        call_ensures(SyncRules::canonical, (rules, floats), r),
        rules.version == 1,
        ascend(deciding_tables(*rules).0),
        ascend(Seq::new(rules.streams@.len(), |i: int| rules.streams@[i].name@)),
    ensures
        rules.mode is All ==> r@ == "v1\nmode=all\n"@ + concatenated(
            lines_of_streams(*rules, floats.readings@),
        ),
        rules.mode is Toggles ==> r@ == "v1\nmode=toggles\n"@ + concatenated(
            toggle_lines(*rules, floats.readings@),
        ) + concatenated(lines_of_streams(*rules, floats.readings@)),
        rules.mode is Hand ==> r@ == "v1\nmode=hand\n"@ + concatenated(
            hand_lines(*rules, floats.readings@),
        ) + concatenated(lines_of_streams(*rules, floats.readings@)),
{
    let f = floats.readings@;
    let names = stream_names(rules.stream_views());
    assert(names =~= Seq::new(rules.streams@.len(), |i: int| rules.streams@[i].name@));
    reveal_strlit("stream\t");
    reveal_strlit("stream");
    reveal_strlit("\t");
    assert("stream\t"@ =~= "stream"@ + "\t"@);
    assert(stream_lines(rules.stream_views(), f) =~= lines_of_streams(*rules, f));
    lemma_in_place(stream_lines(rules.stream_views(), f), names);
    assert(rules.table_names() =~= deciding_tables(*rules).0);
    lemma_in_place(rules.table_lines(f), rules.table_names());
    crate::numbers::law_decimal_is_positional(0, 1);
    reveal_strlit("v");
    reveal_strlit("\nmode=");
    reveal_strlit("\n");
    reveal_strlit("all");
    reveal_strlit("toggles");
    reveal_strlit("hand");
    reveal_strlit("v1\nmode=all\n");
    reveal_strlit("v1\nmode=toggles\n");
    reveal_strlit("v1\nmode=hand\n");
    let one = crate::numbers::decimal(1);
    match rules.mode {
        SyncMode::All => {
            assert("v"@ + one + "\nmode="@ + "all"@ + "\n"@ =~= "v1\nmode=all\n"@);
            assert(concatenated(rules.table_lines(f)) =~= seq![]);
            assert("v1\nmode=all\n"@ + seq![] =~= "v1\nmode=all\n"@);
        },
        SyncMode::Toggles => {
            assert("v"@ + one + "\nmode="@ + "toggles"@ + "\n"@ =~= "v1\nmode=toggles\n"@);
            assert(rules.table_lines(f) =~= toggle_lines(*rules, f));
        },
        SyncMode::Hand => {
            assert("v"@ + one + "\nmode="@ + "hand"@ + "\n"@ =~= "v1\nmode=hand\n"@);
            assert(rules.table_lines(f) =~= hand_lines(*rules, f));
        },
    }
}

/// Lines one after the other.
pub proof fn law_lines_follow(lines: Seq<Seq<char>>, line: Seq<char>)
    ensures
        concatenated(seq![]) == Seq::<char>::empty(),
        concatenated(lines.push(line)) == concatenated(lines) + line,
{
    assert(lines.push(line).drop_last() =~= lines);
}

/// A scope of one comparison has that comparison, written out, as its canonical text;
/// one with nothing in it has none, and neither has a table without a scope.
pub proof fn law_canonical_comparison(s: &ScopeExpr, r: String, t: ScopeTermView)
    requires
        call_ensures(ScopeExpr::canonical, (s,), r),
        s@ == seq![t],
        scope_value_can_be_written(t.value),
    ensures
        r@ == term_written(t),
{
    let keys = crate::scope::term_keys(s@);
    let o = order_by::<(String, (String, String))>(keys);
    lemma_order_exists::<(String, (String, String))>(keys);
    assert(o[0] == 0);
    assert(crate::scope::sorted_keys(s@)[0] == crate::scope::term_key(t));
    crate::scope_laws::lemma_scope_value(t.value, Map::empty());
}

/// What stands for the scope of a table is that of its text without the white space
/// around it: none where nothing is left, the canonical text of the scope where that
/// reads, and the text itself where it does not.
pub proof fn law_canonical_scope(scope: Option<Seq<char>>, floats: Map<Seq<char>, Float>)
    ensures
        scope is None ==> canonical_scope_text(scope, floats).len() == 0,
        scope is Some && trimmed(scope->0).len() == 0 ==> canonical_scope_text(scope, floats).len()
            == 0,
        scope is Some && trimmed(scope->0).len() > 0 && parsed_scope(trimmed(scope->0), floats) is Err
            ==> canonical_scope_text(scope, floats) == trimmed(scope->0),
{
}

/// The checksum is the hash of the canonical text in bytes, which starts at the offset
/// and, for each byte, takes it in by exclusive or and multiplies by the prime, in 64
/// bits.
pub proof fn law_checksum_steps(bytes: &[u8], front: &[u8], r: u64, before: u64)
    requires
        call_ensures(fnv1a_64, (bytes,), r),
        call_ensures(fnv1a_64, (front,), before),
    ensures
        bytes@.len() == 0 ==> r == 14695981039346656037u64,
        bytes@.len() > 0 && front@ == bytes@.drop_last() ==> r as int == ((before
            ^ bytes@.last() as u64) * 1099511628211) % 18446744073709551616,
{
    if bytes@.len() > 0 && front@ == bytes@.drop_last() {
        let h = before ^ bytes@.last() as u64;
        assert(r == h.wrapping_mul(crate::fnv::FNV_PRIME));
    }
}

/// The epoch of a sync is the hash of the epoch of the log and of the checksum of the
/// rules, each as eight bytes, the lowest first.
pub proof fn law_epoch_is_of_both(slot: u64, checksum: u64, r: u64, bytes: &[u8], hash: u64)
    requires
        call_ensures(compose_sync_epoch, (slot, checksum), r),
        bytes@.len() == 16,
        bytes@[0] == (slot & 0xff) as u8,
        bytes@[1] == ((slot >> 8) & 0xff) as u8,
        bytes@[2] == ((slot >> 16) & 0xff) as u8,
        bytes@[3] == ((slot >> 24) & 0xff) as u8,
        bytes@[4] == ((slot >> 32) & 0xff) as u8,
        bytes@[5] == ((slot >> 40) & 0xff) as u8,
        bytes@[6] == ((slot >> 48) & 0xff) as u8,
        bytes@[7] == ((slot >> 56) & 0xff) as u8,
        bytes@[8] == (checksum & 0xff) as u8,
        bytes@[9] == ((checksum >> 8) & 0xff) as u8,
        bytes@[10] == ((checksum >> 16) & 0xff) as u8,
        bytes@[11] == ((checksum >> 24) & 0xff) as u8,
        bytes@[12] == ((checksum >> 32) & 0xff) as u8,
        bytes@[13] == ((checksum >> 40) & 0xff) as u8,
        bytes@[14] == ((checksum >> 48) & 0xff) as u8,
        bytes@[15] == ((checksum >> 56) & 0xff) as u8,
        call_ensures(fnv1a_64, (bytes,), hash),
    ensures
        r == hash,
{
    assert(bytes@ =~= vstd::bytes::spec_u64_to_le_bytes_open(slot)
        + vstd::bytes::spec_u64_to_le_bytes_open(checksum));
}

/// The checksum of rules is the hash of the bytes of their canonical text.
pub proof fn law_checksum_is_of_the_text(
    rules: &SyncRules,
    floats: &FloatReadings,
    text: String,
    bytes: &[u8],
    hash: u64,
    r: u64,
)
    requires
        call_ensures(SyncRules::canonical, (rules, floats), text),
        bytes@ == vstd::utf8::encode_utf8(text@),
        call_ensures(fnv1a_64, (bytes,), hash),
        call_ensures(SyncRules::checksum, (rules, floats), r),
    ensures
        r == hash,
{
}

// ---- who sees what ----

/// The claims of an account: `sub` is its id and `tenant_id` its tenant, neither where
/// it is empty; every other claim is the one of that name.
pub proof fn law_claims_by_name(p: &Principal, field: &str, r: Option<&str>)
    requires
        call_ensures(Principal::claim, (p, field), r),
    ensures
        field@ == "sub"@ ==> (r is Some <==> p.account_id@.len() > 0) && (r is Some ==> r->0@
            == p.account_id@),
        field@ == "tenant_id"@ ==> (r is Some <==> p.tenant_id@.len() > 0) && (r is Some ==> r->0@
            == p.tenant_id@),
        field@ != "sub"@ && field@ != "tenant_id"@ ==> (r is Some <==> p.extra@.contains_key(
            field@,
        )) && (r is Some ==> r->0@ == p.extra@[field@]@),
{
    reveal_strlit("sub");
    reveal_strlit("tenant_id");
    assert("sub"@.len() == 3 && "tenant_id"@.len() == 9);
}

/// An account that a scope compares with one of its claims sees the rows with that very
/// text in the column, and no others; without the claim it sees nothing at all.
pub proof fn law_scope_shows_own_rows(
    scope: &ScopeExpr,
    p: &Principal,
    field: &str,
    claim: Option<&str>,
    column: Seq<char>,
    resolved: Option<PredicateExpr>,
    row: &Row,
    shown: bool,
    text: String,
)
    requires
        scope@ == seq![
            ScopeTermView {
                column,
                op: crate::predicate::ScopeOp::Eq,
                value: ScopeValueView::Claim(field@),
            },
        ],
        call_ensures(Principal::claim, (p, field), claim),
        call_ensures(ScopeExpr::resolve, (scope, p), resolved),
        row.columns@.contains_key(column),
        row.columns@[column] == crate::predicate::ColumnValue::Text(text),
        resolved is Some ==> call_ensures(PredicateExpr::matches, (&resolved->0, row), shown),
    ensures
        resolved is Some <==> claim is Some,
        resolved is Some ==> shown == (text@ == claim->0@),
{
    let terms = scope@;
    assert(terms.drop_last() =~= seq![]);
    reveal_with_fuel(crate::scope::resolved_terms, 2);
    if claim is Some {
        crate::text::lemma_lex_irreflexive(text@);
        if crate::text::lex_lt(text@, claim->0@) {
            crate::text::lemma_lex_asymmetric(text@, claim->0@);
        }
        let none: Seq<crate::predicate::ExprView> = seq![];
        assert(none.push(
            crate::predicate::ExprView::Leaf(
                crate::predicate::ScopeOp::Eq,
                column,
                crate::predicate::ValueView::Text(claim->0@),
            ),
        ).len() == 1);
    }
}

/// A scope without comparisons shows every row.
pub proof fn law_empty_scope_shows_all(
    scope: &ScopeExpr,
    p: &Principal,
    resolved: Option<PredicateExpr>,
    row: &Row,
    shown: bool,
)
    requires
        scope.terms@.len() == 0,
        call_ensures(ScopeExpr::resolve, (scope, p), resolved),
        resolved is Some ==> call_ensures(PredicateExpr::matches, (&resolved->0, row), shown),
    ensures
        resolved is Some,
        shown,
{
}

} // verus!
