//! What the canonical text of rules tells: an edit of the mode, of what the section that
//! decides says of a table, and of a stream is seen in it.

use vstd::prelude::*;
use crate::lexer::{in_class, lemma_run_holds, step, Class, Dialect, LexemeView, StepView};
use crate::numbers::{decimal, lemma_digits_round_trip};
use crate::predicate::Float;
use crate::predicate_compile::{op_name, word_value};
use crate::rules::{
    active_scope, bool_name, canonical_scope_text, clean, concatenated, mode_name, sorted_lines,
    stream_fault, stream_lines, stream_names, table_fault, template_is_a_field, StreamView,
    SyncMode, SyncRules, TableEntry,
};
use crate::scope::{
    conjunction, item_token, key_text, parsed_scope, scope_text, sorted_keys, term_keys, term_of,
    terms_of, tokens_of, value_text, value_token, ScopeTermView, ScopeToken,
};
use crate::sorting::{in_order, lemma_order_exists, order_by, placed};

verus! {

// ---- texts that end where a line does ----

/// Whether a quote is open behind `s`.
pub open spec fn in_quotes(s: Seq<char>) -> bool
    decreases s.len(),
{
    if s.len() == 0 {
        false
    } else if s.last() == '\'' {
        !in_quotes(s.drop_last())
    } else {
        in_quotes(s.drop_last())
    }
}

/// Whether every line break in `s` stands between quotes, and no quote is left open.
pub open spec fn one_line(s: Seq<char>) -> bool {
    &&& !in_quotes(s)
    &&& forall|i: int| 0 <= i < s.len() && #[trigger] s[i] == '\n' ==> in_quotes(s.take(i))
}

/// Whether `s` holds no quote.
pub open spec fn unquoted(s: Seq<char>) -> bool {
    forall|i: int| 0 <= i < s.len() ==> #[trigger] s[i] != '\''
}

/// Whether `s` holds no quote and no line break.
pub open spec fn unbroken(s: Seq<char>) -> bool {
    forall|i: int| 0 <= i < s.len() ==> #[trigger] s[i] != '\'' && s[i] != '\n'
}

proof fn lemma_unquoted(s: Seq<char>)
    requires
        unquoted(s),
    ensures
        !in_quotes(s),
    decreases s.len(),
{
    if s.len() > 0 {
        assert(s.last() == s[s.len() - 1]);
        assert(unquoted(s.drop_last())) by {
            assert forall|i: int| 0 <= i < s.drop_last().len() implies #[trigger] s.drop_last()[i]
                != '\'' by {
                assert(s.drop_last()[i] == s[i]);
            }
        }
        lemma_unquoted(s.drop_last());
    }
}

proof fn lemma_unbroken(s: Seq<char>)
    requires
        unbroken(s),
    ensures
        one_line(s),
{
    assert(unquoted(s));
    lemma_unquoted(s);
}

proof fn lemma_quotes_join(a: Seq<char>, b: Seq<char>)
    ensures
        in_quotes(a + b) == (in_quotes(a) != in_quotes(b)),
    decreases b.len(),
{
    if b.len() == 0 {
        assert(a + b =~= a);
    } else {
        assert((a + b).drop_last() =~= a + b.drop_last());
        assert((a + b).last() == b.last());
        lemma_quotes_join(a, b.drop_last());
    }
}

proof fn lemma_lines_join(a: Seq<char>, b: Seq<char>)
    requires
        one_line(a),
        one_line(b),
    ensures
        one_line(a + b),
{
    let s = a + b;
    lemma_quotes_join(a, b);
    assert forall|i: int| 0 <= i < s.len() && #[trigger] s[i] == '\n' implies in_quotes(
        s.take(i),
    ) by {
        if i < a.len() {
            assert(a[i] == '\n');
            assert(s.take(i) =~= a.take(i));
        } else {
            let k = i - a.len();
            assert(b[k] == '\n');
            assert(s.take(i) =~= a + b.take(k));
            lemma_quotes_join(a, b.take(k));
        }
    }
}

proof fn lemma_between_quotes(s: Seq<char>)
    requires
        unquoted(s),
    ensures
        one_line("'"@ + s + "'"@),
{
    reveal_strlit("'");
    let q = "'"@;
    let t = q + s + q;
    assert(q =~= seq!['\'']);
    assert(in_quotes(q)) by {
        assert(q.drop_last() =~= Seq::<char>::empty());
        assert(!in_quotes(q.drop_last()));
    }
    lemma_unquoted(s);
    lemma_quotes_join(q, s);
    lemma_quotes_join(q + s, q);
    assert forall|i: int| 0 <= i < t.len() && #[trigger] t[i] == '\n' implies in_quotes(
        t.take(i),
    ) by {
        assert(0 < i <= s.len());
        let u = s.take(i - 1);
        assert(t.take(i) =~= q + u);
        assert(unquoted(u));
        lemma_unquoted(u);
        lemma_quotes_join(q, u);
    }
}

/// Two texts that are each one line end alike where the same line break follows.
proof fn lemma_line_ends(a: Seq<char>, u: Seq<char>, b: Seq<char>, v: Seq<char>)
    requires
        one_line(a),
        one_line(b),
        a + "\n"@ + u == b + "\n"@ + v,
    ensures
        a == b,
        u == v,
{
    reveal_strlit("\n");
    let x = a + "\n"@ + u;
    let y = b + "\n"@ + v;
    if a.len() < b.len() {
        assert(x[a.len() as int] == '\n');
        assert(y[a.len() as int] == b[a.len() as int]);
        assert(b.take(a.len() as int) =~= x.take(a.len() as int));
        assert(x.take(a.len() as int) =~= a);
        assert(false);
    } else if b.len() < a.len() {
        assert(y[b.len() as int] == '\n');
        assert(x[b.len() as int] == a[b.len() as int]);
        assert(a.take(b.len() as int) =~= y.take(b.len() as int));
        assert(y.take(b.len() as int) =~= b);
        assert(false);
    }
    assert(x.take(a.len() as int) =~= a);
    assert(y.take(a.len() as int) =~= b);
    assert(x.skip(a.len() as int + 1) =~= u);
    assert(y.skip(a.len() as int + 1) =~= v);
}

/// Two texts without a tab end alike where the same tab follows.
proof fn lemma_field_ends(a: Seq<char>, u: Seq<char>, b: Seq<char>, v: Seq<char>)
    requires
        forall|i: int| 0 <= i < a.len() ==> #[trigger] a[i] != '\t',
        forall|i: int| 0 <= i < b.len() ==> #[trigger] b[i] != '\t',
        a + "\t"@ + u == b + "\t"@ + v,
    ensures
        a == b,
        u == v,
{
    reveal_strlit("\t");
    let x = a + "\t"@ + u;
    let y = b + "\t"@ + v;
    if a.len() < b.len() {
        assert(x[a.len() as int] == '\t');
        assert(y[a.len() as int] == b[a.len() as int]);
    } else if b.len() < a.len() {
        assert(y[b.len() as int] == '\t');
        assert(x[b.len() as int] == a[b.len() as int]);
    }
    assert(x.take(a.len() as int) =~= a);
    assert(y.take(a.len() as int) =~= b);
    assert(x.skip(a.len() as int + 1) =~= u);
    assert(y.skip(a.len() as int + 1) =~= v);
}

// ---- the canonical text of a scope is one line ----

/// Whether the numbers with a decimal point are shown without quotes and line breaks.
pub open spec fn shown_plainly(floats: Map<Seq<char>, Float>) -> bool {
    forall|s: Seq<char>| #[trigger] floats.contains_key(s) ==> unbroken(floats[s]@.display)
}

spec fn token_fits(t: ScopeToken) -> bool {
    match t {
        ScopeToken::Ident(s) => unbroken(s),
        ScopeToken::Claim(s) => unbroken(s),
        ScopeToken::Text(s) => unquoted(s),
        ScopeToken::NumberFloat(f) => unbroken(f.display),
        _ => true,
    }
}

proof fn lemma_item_fits(s: Seq<char>, floats: Map<Seq<char>, Float>)
    requires
        s.len() > 0,
        shown_plainly(floats),
    ensures
        step(s, Dialect::Scope) matches StepView::Item(item, _) ==> (item_token(
            item,
            floats,
        ) matches Ok(t) ==> token_fits(t)),
{
    reveal_strlit("true");
    reveal_strlit("false");
    match step(s, Dialect::Scope) {
        StepView::Item(item, _) => match item {
            LexemeView::Word(w) => {
                lemma_run_holds(s, Class::Dotted);
                assert forall|i: int| 0 <= i < w.len() implies #[trigger] w[i] != '\'' && w[i]
                    != '\n' by {
                    assert(w[i] == s[i]);
                    assert(in_class(s[i], Class::Dotted));
                }
                assert(w.len() > 7 ==> unbroken(w.skip(7)));
            },
            LexemeView::Quoted(q) => {
                lemma_run_holds(s.skip(1), Class::Unquoted);
                assert forall|i: int| 0 <= i < q.len() implies #[trigger] q[i] != '\'' by {
                    assert(in_class(s.skip(1)[i], Class::Unquoted));
                }
            },
            _ => {},
        },
        _ => {},
    }
}

proof fn lemma_tokens_fit(s: Seq<char>, floats: Map<Seq<char>, Float>)
    requires
        shown_plainly(floats),
        tokens_of(s, floats) is Ok,
    ensures
        forall|i: int|
            0 <= i < tokens_of(s, floats)->Ok_0.len() ==> token_fits(
                #[trigger] tokens_of(s, floats)->Ok_0[i],
            ),
    decreases s.len(),
{
    if s.len() > 0 {
        lemma_item_fits(s, floats);
        match step(s, Dialect::Scope) {
            StepView::Blank => lemma_tokens_fit(s.skip(1), floats),
            StepView::Item(_, n) => if 0 < n <= s.len() {
                lemma_tokens_fit(s.skip(n as int), floats);
            },
            StepView::Fault(_) => {},
        }
    }
}

spec fn term_fits(t: ScopeTermView) -> bool {
    unbroken(t.column) && one_line(value_text(t.value))
}

proof fn lemma_value_fits(t: ScopeToken)
    requires
        token_fits(t),
        value_token(t) is Some,
    ensures
        one_line(value_text(value_token(t)->0)),
{
    reveal_strlit("true");
    reveal_strlit("false");
    reveal_strlit("claims.");
    let text = value_text(value_token(t)->0);
    match t {
        ScopeToken::Claim(s) => {
            assert(unbroken(text)) by {
                assert forall|i: int| 0 <= i < text.len() implies #[trigger] text[i] != '\''
                    && text[i] != '\n' by {
                    if i >= 7 {
                        assert(text[i] == s[i - 7]);
                    }
                }
            }
            lemma_unbroken(text);
        },
        ScopeToken::NumberInt(n) => {
            let m: nat = if n < 0 {
                (-n) as nat
            } else {
                n as nat
            };
            lemma_digits_round_trip(m, 10);
            assert(unbroken(text)) by {
                assert forall|i: int| 0 <= i < text.len() implies #[trigger] text[i] != '\''
                    && text[i] != '\n' by {
                    if n < 0 {
                        assert(i > 0 ==> text[i] == decimal(m)[i - 1]);
                    } else {
                        assert(text[i] == decimal(m)[i]);
                    }
                }
            }
            lemma_unbroken(text);
        },
        ScopeToken::NumberFloat(f) => lemma_unbroken(text),
        ScopeToken::Text(s) => {
            if word_value(s) is Text {
                lemma_between_quotes(s);
            } else {
                lemma_unbroken(text);
            }
        },
        ScopeToken::Ident(s) => {
            if word_value(s) is Text {
                lemma_between_quotes(s);
            } else {
                lemma_unbroken(text);
            }
        },
        _ => {},
    }
}

proof fn lemma_terms_fit(t: Seq<ScopeToken>)
    requires
        forall|i: int| 0 <= i < t.len() ==> token_fits(#[trigger] t[i]),
        terms_of(t) is Ok,
    ensures
        forall|i: int|
            0 <= i < terms_of(t)->Ok_0.len() ==> term_fits(#[trigger] terms_of(t)->Ok_0[i]),
    decreases t.len(),
{
    assert(token_fits(t[0]));
    assert(token_fits(t[2]));
    lemma_value_fits(t[2]);
    assert(term_fits(term_of(t)->Ok_0));
    if t.len() > 3 {
        let rest = t.skip(4);
        assert forall|i: int| 0 <= i < rest.len() implies token_fits(#[trigger] rest[i]) by {
            assert(rest[i] == t[i + 4]);
        }
        lemma_terms_fit(rest);
    }
}

proof fn lemma_key_line(k: (Seq<char>, (Seq<char>, Seq<char>)), t: ScopeTermView)
    requires
        term_fits(t),
        k == (t.column, (op_name(t.op), value_text(t.value))),
    ensures
        one_line(key_text(k)),
{
    reveal_strlit(" ");
    reveal_strlit("=");
    reveal_strlit("!=");
    reveal_strlit("<");
    reveal_strlit(">");
    reveal_strlit("<=");
    reveal_strlit(">=");
    lemma_unbroken(k.0);
    lemma_unbroken(" "@);
    lemma_unbroken(k.1.0);
    lemma_lines_join(k.0, " "@);
    lemma_lines_join(k.0 + " "@, k.1.0);
    lemma_lines_join(k.0 + " "@ + k.1.0, " "@);
    lemma_lines_join(k.0 + " "@ + k.1.0 + " "@, k.1.1);
}

proof fn lemma_conjunction_line(keys: Seq<(Seq<char>, (Seq<char>, Seq<char>))>)
    requires
        forall|i: int| 0 <= i < keys.len() ==> one_line(key_text(#[trigger] keys[i])),
    ensures
        one_line(conjunction(keys)),
    decreases keys.len(),
{
    if keys.len() == 0 {
        lemma_unbroken(conjunction(keys));
    } else if keys.len() > 1 {
        reveal_strlit(" AND ");
        let front = keys.drop_last();
        lemma_conjunction_line(front);
        lemma_unbroken(" AND "@);
        lemma_lines_join(conjunction(front), " AND "@);
        assert(keys.last() == keys[keys.len() - 1]);
        lemma_lines_join(conjunction(front) + " AND "@, key_text(keys.last()));
    }
}

proof fn lemma_scope_line(terms: Seq<ScopeTermView>)
    requires
        forall|i: int| 0 <= i < terms.len() ==> term_fits(#[trigger] terms[i]),
    ensures
        one_line(scope_text(terms)),
{
    let keys = sorted_keys(terms);
    let r = order_by::<(String, (String, String))>(term_keys(terms));
    lemma_order_exists::<(String, (String, String))>(term_keys(terms));
    assert forall|i: int| 0 <= i < keys.len() implies one_line(key_text(#[trigger] keys[i])) by {
        assert(0 <= r[i] < terms.len());
        assert(keys[i] == term_keys(terms)[r[i]]);
        lemma_key_line(keys[i], terms[r[i]]);
    }
    lemma_conjunction_line(keys);
}

proof fn lemma_canonical_scope_line(scope: Option<Seq<char>>, floats: Map<Seq<char>, Float>)
    requires
        shown_plainly(floats),
        active_scope(scope) is Some ==> parsed_scope(active_scope(scope)->0, floats) is Ok,
    ensures
        one_line(canonical_scope_text(scope, floats)),
{
    match active_scope(scope) {
        None => lemma_unbroken(canonical_scope_text(scope, floats)),
        Some(text) => {
            lemma_tokens_fit(text, floats);
            lemma_terms_fit(tokens_of(text, floats)->Ok_0);
            lemma_scope_line(parsed_scope(text, floats)->Ok_0);
        },
    }
}

proof fn lemma_sound_tables(
    names: Seq<Seq<char>>,
    scopes: Seq<Option<Seq<char>>>,
    floats: Map<Seq<char>, Float>,
    i: int,
)
    requires
        names.len() == scopes.len(),
        table_fault(names, scopes, floats) is None,
        0 <= i < names.len(),
    ensures
        clean(names[i]),
        active_scope(scopes[i]) is Some ==> parsed_scope(active_scope(scopes[i])->0, floats)
            is Ok,
    decreases names.len(),
{
    if i < names.len() - 1 {
        lemma_sound_tables(names.drop_last(), scopes.drop_last(), floats, i);
    }
}

// ---- the lines of tables ----

/// The line of what a rule says of a table.
spec fn entry_line(e: TableEntry, mode: SyncMode) -> Seq<char> {
    if mode == SyncMode::Toggles {
        e.table + "\t"@ + bool_name(e.sync) + "\t"@ + e.scope + "\n"@
    } else {
        e.table + "\t"@ + e.scope + "\n"@
    }
}

spec fn entry_lines(s: Seq<TableEntry>, mode: SyncMode) -> Seq<Seq<char>> {
    Seq::new(s.len(), |i: int| entry_line(s[i], mode))
}

/// Whether the line of an entry can be told from what follows it.
spec fn entry_fits(e: TableEntry, mode: SyncMode) -> bool {
    &&& clean(e.table)
    &&& one_line(e.scope)
    &&& mode == SyncMode::Hand ==> e.sync
}

proof fn lemma_first_line(
    d: TableEntry,
    u: Seq<char>,
    e: TableEntry,
    v: Seq<char>,
    mode: SyncMode,
)
    requires
        mode != SyncMode::All,
        entry_fits(d, mode),
        entry_fits(e, mode),
        entry_line(d, mode) + u == entry_line(e, mode) + v,
    ensures
        d == e,
        u == v,
{
    let x = d.scope + "\n"@ + u;
    let y = e.scope + "\n"@ + v;
    lemma_clean(d.table);
    lemma_clean(e.table);
    if mode == SyncMode::Toggles {
        lemma_toggle_line(d, u);
        lemma_toggle_line(e, v);
        lemma_field_ends(
            d.table,
            bool_name(d.sync) + "\t"@ + x,
            e.table,
            bool_name(e.sync) + "\t"@ + y,
        );
        lemma_bool_name(d.sync);
        lemma_bool_name(e.sync);
        lemma_field_ends(bool_name(d.sync), x, bool_name(e.sync), y);
    } else {
        assert(entry_line(d, mode) + u =~= d.table + "\t"@ + x);
        assert(entry_line(e, mode) + v =~= e.table + "\t"@ + y);
        lemma_field_ends(d.table, x, e.table, y);
    }
    lemma_line_ends(d.scope, u, e.scope, v);
}

proof fn lemma_clean(s: Seq<char>)
    requires
        clean(s),
    ensures
        forall|i: int| 0 <= i < s.len() ==> #[trigger] s[i] != '\t',
{
}

proof fn lemma_bool_name(b: bool)
    ensures
        forall|i: int| 0 <= i < bool_name(b).len() ==> #[trigger] bool_name(b)[i] != '\t',
        bool_name(b).len() == (if b { 4int } else { 5int }),
{
    reveal_strlit("true");
    reveal_strlit("false");
}

proof fn lemma_toggle_line(e: TableEntry, u: Seq<char>)
    ensures
        entry_line(e, SyncMode::Toggles) + u == e.table + "\t"@ + (bool_name(e.sync) + "\t"@ + (
        e.scope + "\n"@ + u)),
{
    let a = e.table + "\t"@;
    let b = bool_name(e.sync) + "\t"@;
    let c = e.scope + "\n"@;
    assert(entry_line(e, SyncMode::Toggles) =~= a + (b + c));
    assert((a + (b + c)) + u =~= a + (b + (c + u)));
}

proof fn lemma_first_of_lines(lines: Seq<Seq<char>>)
    requires
        lines.len() > 0,
    ensures
        concatenated(lines) == lines[0] + concatenated(lines.drop_first()),
    decreases lines.len(),
{
    if lines.len() == 1 {
        assert(lines.drop_last() =~= Seq::<Seq<char>>::empty());
        assert(lines.drop_first() =~= Seq::<Seq<char>>::empty());
        assert(concatenated(lines.drop_last()) =~= Seq::<char>::empty());
        assert(concatenated(lines.drop_first()) =~= Seq::<char>::empty());
        assert(concatenated(lines) =~= lines[0] + concatenated(lines.drop_first()));
    } else {
        let front = lines.drop_last();
        lemma_first_of_lines(front);
        assert(front.drop_first() =~= lines.drop_first().drop_last());
        assert(lines.drop_first().last() == lines.last());
        assert(concatenated(lines) =~= lines[0] + (concatenated(front.drop_first())
            + lines.last()));
    }
}

/// Lines that can be told apart are told by the text that they make.
proof fn lemma_lines_told(p: Seq<TableEntry>, q: Seq<TableEntry>, mode: SyncMode)
    requires
        mode != SyncMode::All,
        forall|i: int| 0 <= i < p.len() ==> entry_fits(#[trigger] p[i], mode),
        forall|i: int| 0 <= i < q.len() ==> entry_fits(#[trigger] q[i], mode),
        concatenated(entry_lines(p, mode)) == concatenated(entry_lines(q, mode)),
    ensures
        p == q,
    decreases p.len(),
{
    reveal_strlit("\t");
    let a = entry_lines(p, mode);
    let b = entry_lines(q, mode);
    if p.len() > 0 {
        lemma_first_of_lines(a);
        assert(a[0].len() > 0);
    }
    if q.len() > 0 {
        lemma_first_of_lines(b);
        assert(b[0].len() > 0);
    }
    if p.len() == 0 || q.len() == 0 {
        assert(p.len() == 0 ==> concatenated(a).len() == 0);
        assert(q.len() == 0 ==> concatenated(b).len() == 0);
        assert(p =~= q);
    } else {
        let u = concatenated(a.drop_first());
        let v = concatenated(b.drop_first());
        lemma_first_line(p[0], u, q[0], v, mode);
        let x = p.drop_first();
        let y = q.drop_first();
        assert(entry_lines(x, mode) =~= a.drop_first());
        assert(entry_lines(y, mode) =~= b.drop_first());
        assert forall|i: int| 0 <= i < x.len() implies entry_fits(#[trigger] x[i], mode) by {
            assert(x[i] == p[i + 1]);
        }
        assert forall|i: int| 0 <= i < y.len() implies entry_fits(#[trigger] y[i], mode) by {
            assert(y[i] == q[i + 1]);
        }
        lemma_lines_told(x, y, mode);
        assert(p =~= seq![p[0]] + x);
        assert(q =~= seq![q[0]] + y);
    }
}

spec fn ordered_entries(a: SyncRules, floats: Map<Seq<char>, Float>) -> Seq<TableEntry> {
    in_order::<String, TableEntry>(a.table_entries(floats), a.table_names())
}

proof fn lemma_ordered_entries(a: SyncRules, floats: Map<Seq<char>, Float>)
    requires
        a.mode != SyncMode::All,
        a.fault(floats) is None,
        shown_plainly(floats),
    ensures
        sorted_lines(a.table_lines(floats), a.table_names()) == concatenated(
            entry_lines(ordered_entries(a, floats), a.mode),
        ),
        forall|i: int|
            0 <= i < ordered_entries(a, floats).len() ==> entry_fits(
                #[trigger] ordered_entries(a, floats)[i],
                a.mode,
            ),
        forall|e: TableEntry| #[trigger]
            a.table_entries(floats).contains(e) <==> ordered_entries(a, floats).contains(e),
{
    let names = a.table_names();
    let entries = a.table_entries(floats);
    let r = order_by::<String>(names);
    let p = ordered_entries(a, floats);
    lemma_order_exists::<String>(names);
    assert(in_order::<String, Seq<char>>(a.table_lines(floats), names) =~= entry_lines(
        p,
        a.mode,
    )) by {
        assert forall|i: int| 0 <= i < names.len() implies a.table_lines(floats)[#[trigger] r[i]]
            == entry_line(entries[r[i]], a.mode) by {
            assert(0 <= r[i] < names.len());
        }
    }
    assert forall|i: int| 0 <= i < p.len() implies entry_fits(#[trigger] p[i], a.mode) by {
        assert(0 <= r[i] < names.len());
        lemma_sound_tables(names, a.table_scopes(), floats, r[i]);
        lemma_canonical_scope_line(a.table_scopes()[r[i]], floats);
    }
    assert forall|e: TableEntry| #[trigger] entries.contains(e) <==> p.contains(e) by {
        if entries.contains(e) {
            let k = choose|k: int| 0 <= k < entries.len() && entries[k] == e;
            assert(placed(r, k));
            let i = choose|i: int| 0 <= i < r.len() && #[trigger] r[i] == k;
            assert(p[i] == e);
        }
        if p.contains(e) {
            let i = choose|i: int| 0 <= i < p.len() && p[i] == e;
            assert(0 <= r[i] < names.len());
            assert(entries[r[i]] == e);
        }
    }
}

// ---- the lines of streams ----

/// The line of a stream, with the canonical text of its template.
spec fn named_line(s: StreamView) -> Seq<char> {
    "stream\t"@ + s.name + "\t"@ + s.table + "\t"@ + s.template + "\n"@
}

spec fn named_lines(s: Seq<StreamView>) -> Seq<Seq<char>> {
    Seq::new(s.len(), |i: int| named_line(s[i]))
}

/// Whether the line of a stream can be told from what follows it.
spec fn stream_fits(s: StreamView) -> bool {
    &&& clean(s.name)
    &&& clean(s.table)
    &&& forall|i: int| 0 <= i < s.template.len() ==> #[trigger] s.template[i] != '\n'
}

proof fn lemma_named_line(s: StreamView, u: Seq<char>)
    ensures
        named_line(s) + u == "stream\t"@ + (s.name + "\t"@ + (s.table + "\t"@ + (s.template
            + "\n"@ + u))),
{
    let h = "stream\t"@;
    let a = s.name + "\t"@;
    let b = s.table + "\t"@;
    let c = s.template + "\n"@;
    assert(named_line(s) =~= h + (a + (b + c)));
    assert((h + (a + (b + c))) + u =~= h + (a + (b + (c + u))));
}

/// Two texts without a line break end alike where the same line break follows.
proof fn lemma_break_ends(a: Seq<char>, u: Seq<char>, b: Seq<char>, v: Seq<char>)
    requires
        forall|i: int| 0 <= i < a.len() ==> #[trigger] a[i] != '\n',
        forall|i: int| 0 <= i < b.len() ==> #[trigger] b[i] != '\n',
        a + "\n"@ + u == b + "\n"@ + v,
    ensures
        a == b,
        u == v,
{
    reveal_strlit("\n");
    let x = a + "\n"@ + u;
    let y = b + "\n"@ + v;
    if a.len() < b.len() {
        assert(x[a.len() as int] == '\n');
        assert(y[a.len() as int] == b[a.len() as int]);
    } else if b.len() < a.len() {
        assert(y[b.len() as int] == '\n');
        assert(x[b.len() as int] == a[b.len() as int]);
    }
    assert(x.take(a.len() as int) =~= a);
    assert(y.take(a.len() as int) =~= b);
    assert(x.skip(a.len() as int + 1) =~= u);
    assert(y.skip(a.len() as int + 1) =~= v);
}

proof fn lemma_first_stream(s: StreamView, u: Seq<char>, t: StreamView, v: Seq<char>)
    requires
        stream_fits(s),
        stream_fits(t),
        named_line(s) + u == named_line(t) + v,
    ensures
        s == t,
        u == v,
{
    let h = "stream\t"@;
    let x = s.template + "\n"@ + u;
    let y = t.template + "\n"@ + v;
    let p = s.name + "\t"@ + (s.table + "\t"@ + x);
    let q = t.name + "\t"@ + (t.table + "\t"@ + y);
    lemma_named_line(s, u);
    lemma_named_line(t, v);
    assert((h + p).skip(h.len() as int) =~= p);
    assert((h + q).skip(h.len() as int) =~= q);
    lemma_clean(s.name);
    lemma_clean(t.name);
    lemma_clean(s.table);
    lemma_clean(t.table);
    lemma_field_ends(s.name, s.table + "\t"@ + x, t.name, t.table + "\t"@ + y);
    lemma_field_ends(s.table, x, t.table, y);
    lemma_break_ends(s.template, u, t.template, v);
}

proof fn lemma_streams_told(p: Seq<StreamView>, q: Seq<StreamView>)
    requires
        forall|i: int| 0 <= i < p.len() ==> stream_fits(#[trigger] p[i]),
        forall|i: int| 0 <= i < q.len() ==> stream_fits(#[trigger] q[i]),
        concatenated(named_lines(p)) == concatenated(named_lines(q)),
    ensures
        p == q,
    decreases p.len(),
{
    reveal_strlit("\n");
    let a = named_lines(p);
    let b = named_lines(q);
    if p.len() > 0 {
        lemma_first_of_lines(a);
        assert(a[0].len() > 0);
    }
    if q.len() > 0 {
        lemma_first_of_lines(b);
        assert(b[0].len() > 0);
    }
    if p.len() == 0 || q.len() == 0 {
        assert(p.len() == 0 ==> concatenated(a).len() == 0);
        assert(q.len() == 0 ==> concatenated(b).len() == 0);
        assert(p =~= q);
    } else {
        lemma_first_stream(
            p[0],
            concatenated(a.drop_first()),
            q[0],
            concatenated(b.drop_first()),
        );
        let x = p.drop_first();
        let y = q.drop_first();
        assert(named_lines(x) =~= a.drop_first());
        assert(named_lines(y) =~= b.drop_first());
        assert forall|i: int| 0 <= i < x.len() implies stream_fits(#[trigger] x[i]) by {
            assert(x[i] == p[i + 1]);
        }
        assert forall|i: int| 0 <= i < y.len() implies stream_fits(#[trigger] y[i]) by {
            assert(y[i] == q[i + 1]);
        }
        lemma_streams_told(x, y);
        assert(p =~= seq![p[0]] + x);
        assert(q =~= seq![q[0]] + y);
    }
}

proof fn lemma_sound_streams(s: Seq<StreamView>, floats: Map<Seq<char>, Float>, i: int)
    requires
        stream_fault(s, floats) is None,
        0 <= i < s.len(),
    ensures
        clean(s[i].name),
        clean(s[i].table),
    decreases s.len(),
{
    if i < s.len() - 1 {
        lemma_sound_streams(s.drop_last(), floats, i);
    }
}

spec fn ordered_streams(a: SyncRules, floats: Map<Seq<char>, Float>) -> Seq<StreamView> {
    in_order::<String, StreamView>(a.stream_entries(floats), stream_names(a.stream_views()))
}

proof fn lemma_ordered_streams(a: SyncRules, floats: Map<Seq<char>, Float>)
    requires
        a.fault(floats) is None,
        templates_are_fields(a, floats),
    ensures
        sorted_lines(
            stream_lines(a.stream_views(), floats),
            stream_names(a.stream_views()),
        ) == concatenated(named_lines(ordered_streams(a, floats))),
        forall|i: int|
            0 <= i < ordered_streams(a, floats).len() ==> stream_fits(
                #[trigger] ordered_streams(a, floats)[i],
            ),
        forall|s: StreamView| #[trigger]
            a.stream_entries(floats).contains(s) <==> ordered_streams(a, floats).contains(s),
{
    let views = a.stream_views();
    let names = stream_names(views);
    let entries = a.stream_entries(floats);
    let r = order_by::<String>(names);
    let p = ordered_streams(a, floats);
    lemma_order_exists::<String>(names);
    assert(in_order::<String, Seq<char>>(stream_lines(views, floats), names) =~= named_lines(p)) by {
        assert forall|i: int| 0 <= i < names.len() implies stream_lines(views, floats)[#[trigger] r[i]]
            == named_line(entries[r[i]]) by {
            assert(0 <= r[i] < names.len());
        }
    }
    assert forall|i: int| 0 <= i < p.len() implies stream_fits(#[trigger] p[i]) by {
        assert(0 <= r[i] < names.len());
        lemma_sound_streams(views, floats, r[i]);
        assert(template_is_a_field(a.streams@[r[i]].template@, floats));
        assert(p[i] == entries[r[i]]);
    }
    assert forall|s: StreamView| #[trigger] entries.contains(s) <==> p.contains(s) by {
        if entries.contains(s) {
            let k = choose|k: int| 0 <= k < entries.len() && entries[k] == s;
            assert(placed(r, k));
            let i = choose|i: int| 0 <= i < r.len() && #[trigger] r[i] == k;
            assert(p[i] == s);
        }
        if p.contains(s) {
            let i = choose|i: int| 0 <= i < p.len() && p[i] == s;
            assert(0 <= r[i] < names.len());
            assert(entries[r[i]] == s);
        }
    }
}

/// Whether the canonical texts of the templates hold no tab and no line break, which is
/// known of rules whose canonical text was written.
pub open spec fn templates_are_fields(a: SyncRules, floats: Map<Seq<char>, Float>) -> bool {
    forall|i: int|
        0 <= i < a.streams@.len() ==> template_is_a_field(
            (#[trigger] a.streams@[i]).template@,
            floats,
        )
}

// ---- laws ----

/// A change of the mode is seen in the canonical text.
pub proof fn law_mode_edit_is_seen(a: SyncRules, b: SyncRules, floats: Map<Seq<char>, Float>)
    requires
        a.version == b.version,
        a.mode != b.mode,
    ensures
        a.canonical_text(floats) != b.canonical_text(floats),
{
    reveal_strlit("all");
    reveal_strlit("toggles");
    reveal_strlit("hand");
    let head = "v"@ + decimal(a.version as nat) + "\nmode="@;
    let x = a.canonical_text(floats);
    let y = b.canonical_text(floats);
    let n = head.len() as int;
    assert(x[n] == mode_name(a.mode)[0]);
    assert(y[n] == mode_name(b.mode)[0]);
}

/// An edit of the section that decides is seen in the canonical text: where one of two
/// sets of valid rules with the same streams says of a table what the other does not,
/// their texts differ, whatever the tables are called and the scopes compare with.
pub proof fn law_table_edit_is_seen(
    a: SyncRules,
    b: SyncRules,
    e: TableEntry,
    floats: Map<Seq<char>, Float>,
)
    requires
        a.fault(floats) is None,
        b.fault(floats) is None,
        shown_plainly(floats),
        a.mode == b.mode,
        a.streams@ == b.streams@,
        a.table_entries(floats).contains(e),
        !b.table_entries(floats).contains(e),
    ensures
        a.canonical_text(floats) != b.canonical_text(floats),
{
    let p = ordered_entries(a, floats);
    let q = ordered_entries(b, floats);
    lemma_ordered_entries(a, floats);
    lemma_ordered_entries(b, floats);
    assert(a.stream_views() =~= b.stream_views());
    let head = "v"@ + decimal(a.version as nat) + "\nmode="@ + mode_name(a.mode) + "\n"@;
    let tail = sorted_lines(
        stream_lines(a.stream_views(), floats),
        stream_names(a.stream_views()),
    );
    let x = concatenated(entry_lines(p, a.mode));
    let y = concatenated(entry_lines(q, a.mode));
    if a.canonical_text(floats) == b.canonical_text(floats) {
        let s = head + x + tail;
        let t = head + y + tail;
        assert(s == t);
        assert(s.len() == head.len() + x.len() + tail.len());
        assert(t.len() == head.len() + y.len() + tail.len());
        assert(s.subrange(head.len() as int, (head.len() + x.len()) as int) =~= x);
        assert(t.subrange(head.len() as int, (head.len() + y.len()) as int) =~= y);
        lemma_lines_told(p, q, a.mode);
    }
}

/// An edit of the streams is seen in the canonical text, under every mode: where one of
/// two sets of valid rules with the same tables has a stream that the other has not,
/// under its name, on its table, or with its template, their texts differ.
pub proof fn law_streams_edit_is_seen(
    a: SyncRules,
    b: SyncRules,
    s: StreamView,
    floats: Map<Seq<char>, Float>,
)
    requires
        a.fault(floats) is None,
        b.fault(floats) is None,
        templates_are_fields(a, floats),
        templates_are_fields(b, floats),
        a.mode == b.mode,
        a.tables@ == b.tables@,
        a.hand@ == b.hand@,
        a.stream_entries(floats).contains(s),
        !b.stream_entries(floats).contains(s),
    ensures
        a.canonical_text(floats) != b.canonical_text(floats),
{
    let p = ordered_streams(a, floats);
    let q = ordered_streams(b, floats);
    lemma_ordered_streams(a, floats);
    lemma_ordered_streams(b, floats);
    assert(a.table_names() =~= b.table_names());
    assert(a.table_lines(floats) =~= b.table_lines(floats));
    let head = "v"@ + decimal(a.version as nat) + "\nmode="@ + mode_name(a.mode) + "\n"@
        + sorted_lines(a.table_lines(floats), a.table_names());
    let x = concatenated(named_lines(p));
    let y = concatenated(named_lines(q));
    if a.canonical_text(floats) == b.canonical_text(floats) {
        assert(head + x == head + y);
        assert((head + x).skip(head.len() as int) =~= x);
        assert((head + y).skip(head.len() as int) =~= y);
        lemma_streams_told(p, q);
    }
}

} // verus!
