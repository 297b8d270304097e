//! Sync rules: which tables are synced, with which scopes, and the streams that the
//! server offers; their validation, canonical text and checksum.

use vstd::prelude::*;
use vstd::utf8::encode_utf8;
use crate::fnv::{fnv1a, fnv1a_64};
use crate::json::{json_read, json_text, nesting, plain, render_json};
use crate::numbers::{decimal, decimal_text};
use crate::predicate::{Float, FloatReadings};
use crate::lexer::blank;
use crate::predicate_compile::{
    parse_predicate_expr, parsed, tokens_of, ParseError, ParseErrorView, MAX_LENGTH,
};
use crate::predicate_json::{
    expr_json, expr_value, floats_known, law_json_tells_predicates_apart, lemma_predicate_is_plain,
};
use crate::scope::{parsed_scope, scope_text, ScopeError, ScopeErrorView, ScopeExpr};
use crate::ordered::{lemma_lists_unique, lists};
use crate::sorting::{
    in_order, key_names, lemma_order_exists, order_by, order_of, placed, positions, ranks_before,
};
use crate::text::{
    chars_of, control, lemma_lex_irreflexive, lex_lt, same_text, string_of, trim_text, trimmed,
    trimmed_end, trimmed_start, white_space,
};

verus! {

/// The version of the rules that this library understands.
pub const RULES_VERSION: u32 = 1;

/// Which section of the rules decides about tables.
#[derive(Debug, Clone, Copy, PartialEq, Eq, Structural)]
pub enum SyncMode {
    /// None: every table is synced.
    All,
    /// The generated table entries.
    Toggles,
    /// The rules written by hand.
    Hand,
}

/// A generated entry for a table.
#[derive(Debug, Clone, PartialEq, Eq)]
pub struct TableRule {
    pub table: String,
    pub sync: bool,
    /// The text of a scope; nothing in it is the whole table.
    pub scope: Option<String>,
}

/// A rule written by hand.
#[derive(Debug, Clone, PartialEq, Eq)]
pub struct HandRule {
    pub table: String,
    pub scope: Option<String>,
}

/// A stream that the server offers: a predicate with placeholders on a table.
#[derive(Debug, Clone, PartialEq, Eq)]
pub struct StreamRule {
    pub name: String,
    pub table: String,
    pub template: String,
}

/// The rules.
#[derive(Debug, Clone, PartialEq, Eq)]
pub struct SyncRules {
    pub version: u32,
    pub mode: SyncMode,
    pub tables: Vec<TableRule>,
    pub hand: Vec<HandRule>,
    /// The streams count in every mode.
    pub streams: Vec<StreamRule>,
}

impl Default for SyncRules {
    /// Rules that sync everything: version zero, no entries.
    fn default() -> (r: Self)
        ensures
            r.version == 0,
            r.mode == SyncMode::All,
            r.tables@.len() == 0,
            r.hand@.len() == 0,
            r.streams@.len() == 0,
    {
        SyncRules::new()
    }
}

/// Why rules are not valid.
#[derive(Debug, Clone, PartialEq, Eq)]
pub enum RulesError {
    UnsupportedVersion(u32),
    UnknownMode(String),
    Scope { table: String, source: ScopeError },
    DuplicateTable(String),
    InvalidTableName(String),
    DuplicateStream(String),
    InvalidStreamName(String),
    StreamTemplate { name: String, source: ParseError },
}

/// Why rules are not valid, by its values.
pub enum RulesErrorView {
    UnsupportedVersion(u32),
    UnknownMode(Seq<char>),
    Scope { table: Seq<char>, source: ScopeErrorView },
    DuplicateTable(Seq<char>),
    InvalidTableName(Seq<char>),
    DuplicateStream(Seq<char>),
    InvalidStreamName(Seq<char>),
    StreamTemplate { name: Seq<char>, source: ParseErrorView },
}

impl View for RulesError {
    type V = RulesErrorView;

    open spec fn view(&self) -> RulesErrorView {
        match *self {
            RulesError::UnsupportedVersion(v) => RulesErrorView::UnsupportedVersion(v),
            RulesError::UnknownMode(s) => RulesErrorView::UnknownMode(s@),
            RulesError::Scope { table, source } => RulesErrorView::Scope {
                table: table@,
                source: source@,
            },
            RulesError::DuplicateTable(s) => RulesErrorView::DuplicateTable(s@),
            RulesError::InvalidTableName(s) => RulesErrorView::InvalidTableName(s@),
            RulesError::DuplicateStream(s) => RulesErrorView::DuplicateStream(s@),
            RulesError::InvalidStreamName(s) => RulesErrorView::InvalidStreamName(s@),
            RulesError::StreamTemplate { name, source } => RulesErrorView::StreamTemplate {
                name: name@,
                source: source@,
            },
        }
    }
}

// ---- modes ----

/// The spelling of a mode.
pub open spec fn mode_name(m: SyncMode) -> Seq<char> {
    match m {
        SyncMode::All => "all"@,
        SyncMode::Toggles => "toggles"@,
        SyncMode::Hand => "hand"@,
    }
}

/// The mode with the given spelling.
pub open spec fn mode_named(s: Seq<char>) -> Option<SyncMode> {
    if s == "all"@ {
        Some(SyncMode::All)
    } else if s == "toggles"@ {
        Some(SyncMode::Toggles)
    } else if s == "hand"@ {
        Some(SyncMode::Hand)
    } else {
        None
    }
}

impl SyncMode {
    /// The spelling of the mode.
    pub fn as_str(self) -> (r: &'static str)
        ensures
            r@ == mode_name(self),
    {
        match self {
            SyncMode::All => "all",
            SyncMode::Toggles => "toggles",
            SyncMode::Hand => "hand",
        }
    }

    /// The mode with the given spelling.
    pub fn parse(s: &str) -> (r: Option<Self>)
        ensures
            r == mode_named(s@),
    {
        if same_text(s, "all") {
            Some(SyncMode::All)
        } else if same_text(s, "toggles") {
            Some(SyncMode::Toggles)
        } else if same_text(s, "hand") {
            Some(SyncMode::Hand)
        } else {
            None
        }
    }
}

impl Default for SyncMode {
    fn default() -> (r: Self)
        ensures
            r == SyncMode::All,
    {
        SyncMode::All
    }
}

/// What is written of a mode reads back as that mode.
pub proof fn law_mode_round_trip(m: SyncMode)
    ensures
        mode_named(mode_name(m)) == Some(m),
{
    reveal_strlit("all");
    reveal_strlit("toggles");
    reveal_strlit("hand");
    assert("all"@[0] == 'a' && "toggles"@[0] == 't' && "hand"@[0] == 'h');
}

// ---- validity ----

/// Whether a name holds no control character.
pub open spec fn clean(name: Seq<char>) -> bool {
    forall|i: int| 0 <= i < name.len() ==> !control(#[trigger] name[i])
}

/// The text of a scope that says something.
pub open spec fn active_scope(scope: Option<Seq<char>>) -> Option<Seq<char>> {
    match scope {
        None => None,
        Some(s) => if trimmed(s).len() == 0 {
            None
        } else {
            Some(trimmed(s))
        },
    }
}

/// Whether an earlier name equals the last one.
pub open spec fn last_repeats(names: Seq<Seq<char>>) -> bool {
    exists|i: int| 0 <= i < names.len() - 1 && #[trigger] names[i] == names.last()
}

/// What is wrong with the last of the table entries.
pub open spec fn last_table_fault(
    names: Seq<Seq<char>>,
    scopes: Seq<Option<Seq<char>>>,
    floats: Map<Seq<char>, Float>,
) -> Option<RulesErrorView> {
    let table = names.last();
    if !clean(table) {
        Some(RulesErrorView::InvalidTableName(table))
    } else if last_repeats(names) {
        Some(RulesErrorView::DuplicateTable(table))
    } else {
        match active_scope(scopes.last()) {
            None => None,
            Some(text) => match parsed_scope(text, floats) {
                Ok(_) => None,
                Err(source) => Some(RulesErrorView::Scope { table, source }),
            },
        }
    }
}

/// What is wrong with the first of the table entries with a fault.
pub open spec fn table_fault(
    names: Seq<Seq<char>>,
    scopes: Seq<Option<Seq<char>>>,
    floats: Map<Seq<char>, Float>,
) -> Option<RulesErrorView>
    decreases names.len(),
{
    if names.len() == 0 {
        None
    } else {
        match table_fault(names.drop_last(), scopes.drop_last(), floats) {
            Some(e) => Some(e),
            None => last_table_fault(names, scopes, floats),
        }
    }
}

/// A stream by its values.
pub struct StreamView {
    pub name: Seq<char>,
    pub table: Seq<char>,
    pub template: Seq<char>,
}

/// The names of the streams.
pub open spec fn stream_names(s: Seq<StreamView>) -> Seq<Seq<char>> {
    Seq::new(s.len(), |i: int| s[i].name)
}

/// What is wrong with the last of the streams.
pub open spec fn last_stream_fault(
    s: Seq<StreamView>,
    floats: Map<Seq<char>, Float>,
) -> Option<RulesErrorView> {
    let stream = s.last();
    if !clean(stream.name) {
        Some(RulesErrorView::InvalidStreamName(stream.name))
    } else if last_repeats(stream_names(s)) {
        Some(RulesErrorView::DuplicateStream(stream.name))
    } else if !clean(stream.table) {
        Some(RulesErrorView::InvalidTableName(stream.table))
    } else {
        match parsed(trimmed(stream.template), floats) {
            Ok(_) => None,
            Err(source) => Some(RulesErrorView::StreamTemplate { name: stream.name, source }),
        }
    }
}

/// What is wrong with the first of the streams with a fault.
pub open spec fn stream_fault(
    s: Seq<StreamView>,
    floats: Map<Seq<char>, Float>,
) -> Option<RulesErrorView>
    decreases s.len(),
{
    if s.len() == 0 {
        None
    } else {
        match stream_fault(s.drop_last(), floats) {
            Some(e) => Some(e),
            None => last_stream_fault(s, floats),
        }
    }
}

/// The text of an optional scope.
pub open spec fn scope_view(s: Option<String>) -> Option<Seq<char>> {
    match s {
        Some(x) => Some(x@),
        None => None,
    }
}

impl SyncRules {
    /// The names of the tables in the section that decides.
    pub open spec fn table_names(&self) -> Seq<Seq<char>> {
        match self.mode {
            SyncMode::All => seq![],
            SyncMode::Toggles => Seq::new(self.tables@.len(), |i: int| self.tables@[i].table@),
            SyncMode::Hand => Seq::new(self.hand@.len(), |i: int| self.hand@[i].table@),
        }
    }

    /// The scopes in the section that decides.
    pub open spec fn table_scopes(&self) -> Seq<Option<Seq<char>>> {
        match self.mode {
            SyncMode::All => seq![],
            SyncMode::Toggles => Seq::new(
                self.tables@.len(),
                |i: int| scope_view(self.tables@[i].scope),
            ),
            SyncMode::Hand => Seq::new(self.hand@.len(), |i: int| scope_view(self.hand@[i].scope)),
        }
    }

    /// The streams by their values.
    pub open spec fn stream_views(&self) -> Seq<StreamView> {
        Seq::new(
            self.streams@.len(),
            |i: int|
                StreamView {
                    name: self.streams@[i].name@,
                    table: self.streams@[i].table@,
                    template: self.streams@[i].template@,
                },
        )
    }

    /// What is wrong with the rules, if anything: the version first, then the
    /// streams, then the section that decides about tables.
    pub open spec fn fault(&self, floats: Map<Seq<char>, Float>) -> Option<RulesErrorView> {
        if self.version != RULES_VERSION {
            Some(RulesErrorView::UnsupportedVersion(self.version))
        } else {
            match stream_fault(self.stream_views(), floats) {
                Some(e) => Some(e),
                None => table_fault(self.table_names(), self.table_scopes(), floats),
            }
        }
    }
}

/// Whether a name holds no control character.
fn table_name_is_valid(name: &str) -> (r: bool)
    ensures
        r == clean(name@),
{
    let chars = chars_of(name);
    let mut i: usize = 0;
    while i < chars.len()
        invariant
            i <= chars@.len(),
            chars@ == name@,
            forall|k: int| 0 <= k < i ==> !control(#[trigger] chars@[k]),
        decreases chars@.len() - i,
    {
        if chars[i].is_control() {
            return false;
        }
        i += 1;
    }
    true
}

/// The text of a scope that says something.
fn active_scope_text(scope: &Option<String>) -> (r: Option<String>)
    ensures
        r is Some <==> active_scope(scope_view(*scope)) is Some,
        r is Some ==> r->0@ == active_scope(scope_view(*scope))->0,
{
    match scope {
        None => None,
        Some(s) => {
            let text = trim_text(s.as_str());
            if text.as_str().is_empty() {
                None
            } else {
                Some(text)
            }
        },
    }
}

/// Whether `names` has the name at `i` before `i`.
fn repeats(names: &Vec<String>, i: usize) -> (r: bool)
    requires
        i < names@.len(),
    ensures
        r == last_repeats(key_names(names@).take(i + 1)),
{
    let ghost s = key_names(names@).take(i + 1);
    let mut k: usize = 0;
    while k < i
        invariant
            k <= i < names@.len(),
            s == key_names(names@).take(i + 1),
            forall|j: int| 0 <= j < k ==> #[trigger] s[j] != s[i as int],
        decreases i - k,
    {
        assert(s[k as int] == names@[k as int]@);
        assert(s[i as int] == names@[i as int]@);
        if names[k] == names[i] {
            assert(s.last() == s[i as int]);
            return true;
        }
        k += 1;
    }
    assert(s.last() == s[i as int]);
    false
}

proof fn lemma_table_fault_prefix(
    names: Seq<Seq<char>>,
    scopes: Seq<Option<Seq<char>>>,
    floats: Map<Seq<char>, Float>,
    i: int,
)
    requires
        0 <= i <= names.len(),
        scopes.len() == names.len(),
        table_fault(names.take(i), scopes.take(i), floats) is Some,
    ensures
        table_fault(names, scopes, floats) == table_fault(names.take(i), scopes.take(i), floats),
    decreases names.len() - i,
{
    if i == names.len() {
        assert(names.take(i) =~= names && scopes.take(i) =~= scopes);
    } else {
        assert(names.take(i + 1).drop_last() =~= names.take(i));
        assert(scopes.take(i + 1).drop_last() =~= scopes.take(i));
        lemma_table_fault_prefix(names, scopes, floats, i + 1);
    }
}

/// The scopes by their values.
pub open spec fn scope_views(s: Seq<Option<String>>) -> Seq<Option<Seq<char>>> {
    Seq::new(s.len(), |i: int| scope_view(s[i]))
}

/// Checks the table entries.
fn validate_tables(
    names: &Vec<String>,
    scopes: &Vec<Option<String>>,
    floats: &FloatReadings,
) -> (r: Result<(), RulesError>)
    requires
        names@.len() == scopes@.len(),
    ensures
        match table_fault(key_names(names@), scope_views(scopes@), floats.readings@) {
            None => r is Ok,
            Some(e) => r is Err && r->Err_0@ == e,
        },
{
    let ghost n = key_names(names@);
    let ghost s = scope_views(scopes@);
    let mut i: usize = 0;
    assert(n.take(0) =~= seq![] && s.take(0) =~= seq![]);
    while i < names.len()
        invariant
            i <= names@.len(),
            names@.len() == scopes@.len(),
            n == key_names(names@),
            s == scope_views(scopes@),
            table_fault(n.take(i as int), s.take(i as int), floats.readings@) is None,
        decreases names@.len() - i,
    {
        proof {
            assert(n.take(i + 1).drop_last() =~= n.take(i as int));
            assert(s.take(i + 1).drop_last() =~= s.take(i as int));
            assert(n.take(i + 1).last() == names@[i as int]@);
            assert(s.take(i + 1).last() == scope_view(scopes@[i as int]));
            if table_fault(n.take(i + 1), s.take(i + 1), floats.readings@) is Some {
                lemma_table_fault_prefix(n, s, floats.readings@, i + 1);
            }
        }
        if !table_name_is_valid(names[i].as_str()) {
            return Err(RulesError::InvalidTableName(names[i].clone()));
        }
        if repeats(names, i) {
            return Err(RulesError::DuplicateTable(names[i].clone()));
        }
        match active_scope_text(&scopes[i]) {
            None => {},
            Some(text) => match ScopeExpr::parse(text.as_str(), floats) {
                Ok(_) => {},
                Err(source) => {
                    return Err(RulesError::Scope { table: names[i].clone(), source });
                },
            },
        }
        i += 1;
    }
    assert(n.take(i as int) =~= n && s.take(i as int) =~= s);
    Ok(())
}

proof fn lemma_stream_fault_prefix(s: Seq<StreamView>, floats: Map<Seq<char>, Float>, i: int)
    requires
        0 <= i <= s.len(),
        stream_fault(s.take(i), floats) is Some,
    ensures
        stream_fault(s, floats) == stream_fault(s.take(i), floats),
    decreases s.len() - i,
{
    if i == s.len() {
        assert(s.take(i) =~= s);
    } else {
        assert(s.take(i + 1).drop_last() =~= s.take(i));
        lemma_stream_fault_prefix(s, floats, i + 1);
    }
}

impl SyncRules {
    /// Rules that sync everything: version zero, no entries.
    pub fn new() -> (r: Self)
        ensures
            r.version == 0,
            r.mode == SyncMode::All,
            r.tables@.len() == 0,
            r.hand@.len() == 0,
            r.streams@.len() == 0,
    {
        SyncRules {
            version: 0,
            mode: SyncMode::All,
            tables: Vec::new(),
            hand: Vec::new(),
            streams: Vec::new(),
        }
    }

    /// Checks the streams.
    fn validate_streams(&self, floats: &FloatReadings) -> (r: Result<(), RulesError>)
        ensures
            match stream_fault(self.stream_views(), floats.readings@) {
                None => r is Ok,
                Some(e) => r is Err && r->Err_0@ == e,
            },
    {
        let ghost s = self.stream_views();
        let mut names: Vec<String> = Vec::new();
        let mut i: usize = 0;
        assert(s.take(0) =~= seq![]);
        while i < self.streams.len()
            invariant
                i <= self.streams@.len(),
                s == self.stream_views(),
                names@.len() == i,
                forall|k: int| 0 <= k < i ==> #[trigger] names@[k]@ == s[k].name,
                stream_fault(s.take(i as int), floats.readings@) is None,
            decreases self.streams@.len() - i,
        {
            let stream = &self.streams[i];
            names.push(stream.name.clone());
            proof {
                assert(s.take(i + 1).drop_last() =~= s.take(i as int));
                assert(s.take(i + 1).last() == s[i as int]);
                assert(key_names(names@).take(i + 1) =~= stream_names(s.take(i + 1))) by {
                    assert forall|k: int| 0 <= k < i + 1 implies #[trigger] key_names(names@).take(i + 1)[k]
                        == stream_names(s.take(i + 1))[k] by {
                        assert(names@[k]@ == s[k].name);
                    }
                }
                if stream_fault(s.take(i + 1), floats.readings@) is Some {
                    lemma_stream_fault_prefix(s, floats.readings@, i + 1);
                }
            }
            if !table_name_is_valid(stream.name.as_str()) {
                return Err(RulesError::InvalidStreamName(stream.name.clone()));
            }
            if repeats(&names, i) {
                return Err(RulesError::DuplicateStream(stream.name.clone()));
            }
            if !table_name_is_valid(stream.table.as_str()) {
                return Err(RulesError::InvalidTableName(stream.table.clone()));
            }
            let template = trim_text(stream.template.as_str());
            match parse_predicate_expr(template.as_str(), floats) {
                Ok(_) => {},
                Err(source) => {
                    return Err(RulesError::StreamTemplate { name: stream.name.clone(), source });
                },
            }
            i += 1;
        }
        assert(s.take(i as int) =~= s);
        Ok(())
    }

    /// The names and scopes of the section that decides about tables.
    fn active_section(&self) -> (r: (Vec<String>, Vec<Option<String>>))
        ensures
            r.0@.len() == r.1@.len(),
            key_names(r.0@) == self.table_names(),
            scope_views(r.1@) == self.table_scopes(),
    {
        let mut names: Vec<String> = Vec::new();
        let mut scopes: Vec<Option<String>> = Vec::new();
        let mut i: usize = 0;
        match self.mode {
            SyncMode::All => {},
            SyncMode::Toggles => {
                while i < self.tables.len()
                    invariant
                        i <= self.tables@.len(),
                        names@.len() == i,
                        scopes@.len() == i,
                        forall|k: int|
                            0 <= k < i ==> #[trigger] names@[k]@ == self.tables@[k].table@,
                        forall|k: int|
                            0 <= k < i ==> scope_view(#[trigger] scopes@[k]) == scope_view(
                                self.tables@[k].scope,
                            ),
                    decreases self.tables@.len() - i,
                {
                    names.push(self.tables[i].table.clone());
                    scopes.push(copy_scope(&self.tables[i].scope));
                    i += 1;
                }
            },
            SyncMode::Hand => {
                while i < self.hand.len()
                    invariant
                        i <= self.hand@.len(),
                        names@.len() == i,
                        scopes@.len() == i,
                        forall|k: int|
                            0 <= k < i ==> #[trigger] names@[k]@ == self.hand@[k].table@,
                        forall|k: int|
                            0 <= k < i ==> scope_view(#[trigger] scopes@[k]) == scope_view(
                                self.hand@[k].scope,
                            ),
                    decreases self.hand@.len() - i,
                {
                    names.push(self.hand[i].table.clone());
                    scopes.push(copy_scope(&self.hand[i].scope));
                    i += 1;
                }
            },
        }
        assert(key_names(names@) =~= self.table_names());
        assert(scope_views(scopes@) =~= self.table_scopes());
        (names, scopes)
    }

    /// Checks the rules: the version, the streams, and the section that decides
    /// about tables. The other section is not looked at. `floats` says what the
    /// numbers with a decimal point read as.
    pub fn validate(&self, floats: &FloatReadings) -> (r: Result<(), RulesError>)
        ensures
            match self.fault(floats.readings@) {
                None => r is Ok,
                Some(e) => r is Err && r->Err_0@ == e,
            },
    {
        if self.version != RULES_VERSION {
            return Err(RulesError::UnsupportedVersion(self.version));
        }
        match self.validate_streams(floats) {
            Ok(_) => {},
            Err(e) => {
                return Err(e);
            },
        }
        let section = self.active_section();
        validate_tables(&section.0, &section.1, floats)
    }
}

/// The same scope again.
fn copy_scope(scope: &Option<String>) -> (r: Option<String>)
    ensures
        scope_view(r) == scope_view(*scope),
{
    match scope {
        Some(s) => Some(s.clone()),
        None => None,
    }
}

// ---- canonical text ----

/// `s` with every run of white space as one space, and none at its ends. `begun`
/// says whether something came before, and `gap` whether white space did.
pub open spec fn collapsed_from(s: Seq<char>, begun: bool, gap: bool) -> Seq<char>
    decreases s.len(),
{
    if s.len() == 0 {
        seq![]
    } else if white_space(s[0]) {
        collapsed_from(s.skip(1), begun, begun)
    } else if gap {
        seq![' ', s[0]] + collapsed_from(s.skip(1), true, false)
    } else {
        seq![s[0]] + collapsed_from(s.skip(1), true, false)
    }
}

/// `s` with every run of white space as one space, and none at its ends.
pub open spec fn collapsed(s: Seq<char>) -> Seq<char> {
    collapsed_from(s, false, false)
}

/// The canonical text of a scope: the text of what it parses to, or the text itself
/// where it does not parse.
pub open spec fn canonical_scope_text(
    scope: Option<Seq<char>>,
    floats: Map<Seq<char>, Float>,
) -> Seq<char> {
    match active_scope(scope) {
        None => seq![],
        Some(text) => match parsed_scope(text, floats) {
            Ok(terms) => scope_text(terms),
            Err(_) => text,
        },
    }
}

/// The canonical text of a template: the JSON of what it parses to, or its
/// collapsed text where it does not parse.
pub open spec fn canonical_template_text(
    template: Seq<char>,
    floats: Map<Seq<char>, Float>,
) -> Seq<char> {
    match parsed(trimmed(template), floats) {
        Ok(e) => json_text(expr_json(e)),
        Err(_) => collapsed(template),
    }
}

/// The spelling of a truth value.
pub open spec fn bool_name(b: bool) -> Seq<char> {
    if b {
        "true"@
    } else {
        "false"@
    }
}

/// The line of a generated entry.
pub open spec fn toggle_line(
    table: Seq<char>,
    sync: bool,
    scope: Option<Seq<char>>,
    floats: Map<Seq<char>, Float>,
) -> Seq<char> {
    table + "\t"@ + bool_name(sync) + "\t"@ + canonical_scope_text(scope, floats) + "\n"@
}

/// The line of a rule written by hand.
pub open spec fn hand_line(
    table: Seq<char>,
    scope: Option<Seq<char>>,
    floats: Map<Seq<char>, Float>,
) -> Seq<char> {
    table + "\t"@ + canonical_scope_text(scope, floats) + "\n"@
}

/// The line of a stream.
pub open spec fn stream_line(s: StreamView, floats: Map<Seq<char>, Float>) -> Seq<char> {
    "stream\t"@ + s.name + "\t"@ + s.table + "\t"@ + canonical_template_text(s.template, floats)
        + "\n"@
}

/// The lines of the streams.
pub open spec fn stream_lines(s: Seq<StreamView>, floats: Map<Seq<char>, Float>) -> Seq<
    Seq<char>,
> {
    Seq::new(s.len(), |i: int| stream_line(s[i], floats))
}

/// The texts one after another.
pub open spec fn concatenated(lines: Seq<Seq<char>>) -> Seq<char>
    decreases lines.len(),
{
    if lines.len() == 0 {
        seq![]
    } else {
        concatenated(lines.drop_last()) + lines.last()
    }
}

/// The lines in the order of their names, where equal names keep their order.
pub open spec fn sorted_lines(lines: Seq<Seq<char>>, names: Seq<Seq<char>>) -> Seq<char> {
    concatenated(in_order::<String, Seq<char>>(lines, names))
}

impl SyncRules {
    /// The lines of the section that decides about tables.
    pub open spec fn table_lines(&self, floats: Map<Seq<char>, Float>) -> Seq<Seq<char>> {
        match self.mode {
            SyncMode::All => seq![],
            SyncMode::Toggles => Seq::new(
                self.tables@.len(),
                |i: int|
                    toggle_line(
                        self.tables@[i].table@,
                        self.tables@[i].sync,
                        scope_view(self.tables@[i].scope),
                        floats,
                    ),
            ),
            SyncMode::Hand => Seq::new(
                self.hand@.len(),
                |i: int|
                    hand_line(self.hand@[i].table@, scope_view(self.hand@[i].scope), floats),
            ),
        }
    }

    /// The canonical text of the rules: the version, the mode, the lines of the
    /// section that decides in the order of their tables, and the streams in the
    /// order of their names.
    pub open spec fn canonical_text(&self, floats: Map<Seq<char>, Float>) -> Seq<char> {
        "v"@ + decimal(self.version as nat) + "\nmode="@ + mode_name(self.mode) + "\n"@
            + sorted_lines(self.table_lines(floats), self.table_names()) + sorted_lines(
            stream_lines(self.stream_views(), floats),
            stream_names(self.stream_views()),
        )
    }
}

/// `s` with every run of white space as one space, and none at its ends.
fn collapse(s: &str) -> (r: String)
    ensures
        r@ == collapsed(s@),
{
    let chars = chars_of(s);
    let mut out: Vec<char> = Vec::new();
    let mut begun = false;
    let mut gap = false;
    let mut i: usize = 0;
    proof {
        assert(chars@.skip(0) =~= chars@);
        assert(out@ + collapsed(s@) =~= collapsed(s@));
    }
    while i < chars.len()
        invariant
            i <= chars@.len(),
            chars@ == s@,
            collapsed(s@) == out@ + collapsed_from(chars@.skip(i as int), begun, gap),
        decreases chars@.len() - i,
    {
        let c = chars[i];
        let ghost before = out@;
        let ghost rest = chars@.skip(i as int);
        assert(rest.skip(1) =~= chars@.skip(i + 1));
        if c.is_whitespace() {
            gap = begun;
        } else {
            if gap {
                out.push(' ');
            }
            out.push(c);
            proof {
                let tail = collapsed_from(rest.skip(1), true, false);
                if gap {
                    assert(before + (seq![' ', c] + tail) =~= before.push(' ').push(c) + tail);
                } else {
                    assert(before + (seq![c] + tail) =~= before.push(c) + tail);
                }
            }
            begun = true;
            gap = false;
        }
        i += 1;
    }
    assert(out@ + Seq::<char>::empty() =~= out@);
    string_of(out.as_slice())
}

/// The canonical text of a scope.
fn canonical_scope(scope: &Option<String>, floats: &FloatReadings) -> (r: String)
    ensures
        r@ == canonical_scope_text(scope_view(*scope), floats.readings@),
{
    match active_scope_text(scope) {
        None => String::new(),
        Some(text) => match ScopeExpr::parse(text.as_str(), floats) {
            Ok(expr) => expr.canonical(),
            Err(_) => text,
        },
    }
}

/// The canonical text of a template.
fn canonical_template(template: &str, floats: &FloatReadings) -> (r: String)
    ensures
        r@ == canonical_template_text(template@, floats.readings@),
        template_reads_back(template@, floats.readings@),
        template_is_a_field(template@, floats.readings@),
{
    proof {
        lemma_collapsed_field(template@, false, false);
    }
    let text = trim_text(template);
    match parse_predicate_expr(text.as_str(), floats) {
        Ok(expr) => {
            let value = expr_value(&expr);
            render_json(&value)
        },
        Err(_) => collapse(template),
    }
}

/// Appends the lines in the order of their names.
fn append_sorted(out: &mut String, lines: &Vec<String>, names: &Vec<String>)
    requires
        lines@.len() == names@.len(),
    ensures
        final(out)@ == old(out)@ + sorted_lines(key_names(lines@), key_names(names@)),
{
    let order = order_of(names);
    let ghost start = out@;
    let ghost sorted = in_order::<String, Seq<char>>(key_names(lines@), key_names(names@));
    let mut i: usize = 0;
    proof {
        assert(sorted.take(0) =~= seq![]);
        assert(start + Seq::<char>::empty() =~= start);
    }
    while i < order.len()
        invariant
            i <= order@.len(),
            order@.len() == lines@.len(),
            lines@.len() == names@.len(),
            positions(order@) == order_by::<String>(key_names(names@)),
            forall|k: int| 0 <= k < positions(order@).len() ==> 0 <= #[trigger] positions(
                order@,
            )[k] < lines@.len(),
            sorted == in_order::<String, Seq<char>>(key_names(lines@), key_names(names@)),
            out@ == start + concatenated(sorted.take(i as int)),
        decreases order@.len() - i,
    {
        proof {
            assert(0 <= positions(order@)[i as int] < lines@.len());
            assert(positions(order@)[i as int] == order@[i as int]);
            assert(sorted.take(i + 1).drop_last() =~= sorted.take(i as int));
            assert(sorted.take(i + 1).last() == sorted[i as int]);
            assert(sorted[i as int] == lines@[order@[i as int] as int]@);
        }
        let ghost before = out@;
        out.append(lines[order[i]].as_str());
        assert(out@ =~= start + concatenated(sorted.take(i + 1)));
        i += 1;
    }
    assert(sorted.take(i as int) =~= sorted);
}

impl SyncRules {
    /// The lines of the section that decides about tables.
    fn lines_of_tables(&self, floats: &FloatReadings) -> (r: Vec<String>)
        ensures
            key_names(r@) == self.table_lines(floats.readings@),
    {
        let ghost views = self.table_lines(floats.readings@);
        let mut lines: Vec<String> = Vec::new();
        let mut i: usize = 0;
        match self.mode {
            SyncMode::All => {},
            SyncMode::Toggles => {
                while i < self.tables.len()
                    invariant
                        i <= self.tables@.len(),
                        self.mode == SyncMode::Toggles,
                        lines@.len() == i,
                        views == self.table_lines(floats.readings@),
                        forall|k: int| 0 <= k < i ==> #[trigger] lines@[k]@ == views[k],
                    decreases self.tables@.len() - i,
                {
                    let rule = &self.tables[i];
                    let mut line = rule.table.clone();
                    line.append("\t");
                    line.append(if rule.sync { "true" } else { "false" });
                    line.append("\t");
                    let scope = canonical_scope(&rule.scope, floats);
                    line.append(scope.as_str());
                    line.append("\n");
                    lines.push(line);
                    i += 1;
                }
            },
            SyncMode::Hand => {
                while i < self.hand.len()
                    invariant
                        i <= self.hand@.len(),
                        self.mode == SyncMode::Hand,
                        lines@.len() == i,
                        views == self.table_lines(floats.readings@),
                        forall|k: int| 0 <= k < i ==> #[trigger] lines@[k]@ == views[k],
                    decreases self.hand@.len() - i,
                {
                    let rule = &self.hand[i];
                    let mut line = rule.table.clone();
                    line.append("\t");
                    let scope = canonical_scope(&rule.scope, floats);
                    line.append(scope.as_str());
                    line.append("\n");
                    lines.push(line);
                    i += 1;
                }
            },
        }
        assert(key_names(lines@) =~= views);
        lines
    }

    /// The names and lines of the streams.
    fn lines_of_streams(&self, floats: &FloatReadings) -> (r: (Vec<String>, Vec<String>))
        ensures
            key_names(r.0@) == stream_names(self.stream_views()),
            key_names(r.1@) == stream_lines(self.stream_views(), floats.readings@),
            forall|i: int|
                0 <= i < self.streams@.len() ==> template_reads_back(
                    (#[trigger] self.streams@[i]).template@,
                    floats.readings@,
                ),
            forall|i: int|
                0 <= i < self.streams@.len() ==> template_is_a_field(
                    (#[trigger] self.streams@[i]).template@,
                    floats.readings@,
                ),
    {
        let ghost views = self.stream_views();
        let mut names: Vec<String> = Vec::new();
        let mut lines: Vec<String> = Vec::new();
        let mut i: usize = 0;
        while i < self.streams.len()
            invariant
                i <= self.streams@.len(),
                names@.len() == i,
                lines@.len() == i,
                views == self.stream_views(),
                forall|k: int| 0 <= k < i ==> #[trigger] names@[k]@ == views[k].name,
                forall|k: int|
                    0 <= k < i ==> #[trigger] lines@[k]@ == stream_line(
                        views[k],
                        floats.readings@,
                    ),
                forall|k: int|
                    0 <= k < i ==> template_reads_back(
                        (#[trigger] self.streams@[k]).template@,
                        floats.readings@,
                    ),
                forall|k: int|
                    0 <= k < i ==> template_is_a_field(
                        (#[trigger] self.streams@[k]).template@,
                        floats.readings@,
                    ),
            decreases self.streams@.len() - i,
        {
            let stream = &self.streams[i];
            let mut line: String = "stream\t".to_owned();
            line.append(stream.name.as_str());
            line.append("\t");
            line.append(stream.table.as_str());
            line.append("\t");
            let template = canonical_template(stream.template.as_str(), floats);
            line.append(template.as_str());
            line.append("\n");
            lines.push(line);
            names.push(stream.name.clone());
            i += 1;
        }
        assert(key_names(names@) =~= stream_names(views));
        assert(key_names(lines@) =~= stream_lines(views, floats.readings@));
        (names, lines)
    }

    /// The canonical text of the rules.
    pub fn canonical(&self, floats: &FloatReadings) -> (r: String)
        ensures
            r@ == self.canonical_text(floats.readings@),
            forall|i: int|
                0 <= i < self.streams@.len() ==> template_reads_back(
                    (#[trigger] self.streams@[i]).template@,
                    floats.readings@,
                ),
            forall|i: int|
                0 <= i < self.streams@.len() ==> template_is_a_field(
                    (#[trigger] self.streams@[i]).template@,
                    floats.readings@,
                ),
    {
        let mut out: String = "v".to_owned();
        let version = decimal_text(self.version as u64);
        out.append(version.as_str());
        out.append("\nmode=");
        out.append(self.mode.as_str());
        out.append("\n");
        let section = self.active_section();
        let tables = self.lines_of_tables(floats);
        proof {
            assert(key_names(tables@).len() == key_names(section.0@).len());
        }
        append_sorted(&mut out, &tables, &section.0);
        let streams = self.lines_of_streams(floats);
        proof {
            assert(key_names(streams.0@).len() == key_names(streams.1@).len());
        }
        append_sorted(&mut out, &streams.1, &streams.0);
        out
    }

    /// The checksum of the canonical text: the same on every machine.
    pub fn checksum(&self, floats: &FloatReadings) -> (r: u64)
        ensures
            r == fnv1a(encode_utf8(self.canonical_text(floats.readings@))),
    {
        let text = self.canonical(floats);
        let bytes = text.as_str().as_bytes_vec();
        fnv1a_64(bytes.as_slice())
    }
}

// ---- laws ----

/// Only the mode, the version, the streams and the section that decides count: rules
/// that agree on these have the same faults and the same canonical text.
pub proof fn law_other_section_is_ignored(
    a: SyncRules,
    b: SyncRules,
    floats: Map<Seq<char>, Float>,
)
    requires
        a.version == b.version,
        a.mode == b.mode,
        a.streams@ == b.streams@,
        a.mode == SyncMode::Toggles ==> a.tables@ == b.tables@,
        a.mode == SyncMode::Hand ==> a.hand@ == b.hand@,
    ensures
        a.fault(floats) == b.fault(floats),
        a.canonical_text(floats) == b.canonical_text(floats),
{
    assert(a.stream_views() =~= b.stream_views());
    assert(a.table_names() =~= b.table_names());
    assert(a.table_scopes() =~= b.table_scopes());
    assert(a.table_lines(floats) =~= b.table_lines(floats));
}

/// Lines under distinct names are written alike, however they stand.
proof fn lemma_same_lines(
    lines: Seq<Seq<char>>,
    names: Seq<Seq<char>>,
    others: Seq<Seq<char>>,
    other_names: Seq<Seq<char>>,
)
    requires
        lines.len() == names.len(),
        others.len() == other_names.len(),
        names.no_duplicates(),
        other_names.no_duplicates(),
        forall|i: int|
            0 <= i < names.len() ==> stands_in(#[trigger] names[i], lines[i], others, other_names),
        forall|i: int|
            0 <= i < other_names.len() ==> stands_in(
                #[trigger] other_names[i],
                others[i],
                lines,
                names,
            ),
    ensures
        sorted_lines(lines, names) == sorted_lines(others, other_names),
{
    let m = Map::new(
        |n: Seq<char>| names.contains(n),
        |n: Seq<char>| lines[choose|i: int| 0 <= i < names.len() && names[i] == n],
    );
    let p = named_in_order(lines, names);
    let q = named_in_order(others, other_names);
    assert forall|i: int| 0 <= i < names.len() implies m.contains_key(#[trigger] names[i])
        && m[names[i]] == lines[i] by {
        let k = choose|k: int| 0 <= k < names.len() && names[k] == names[i];
        assert(k == i);
    }
    assert forall|i: int| 0 <= i < other_names.len() implies m.contains_key(
        #[trigger] other_names[i],
    ) && m[other_names[i]] == others[i] by {
        assert(stands_in(other_names[i], others[i], lines, names));
        let k = choose|k: int|
            0 <= k < names.len() && #[trigger] names[k] == other_names[i] && lines[k] == others[i];
        assert(m.contains_key(names[k]));
    }
    assert forall|n: Seq<char>| #[trigger] m.contains_key(n) implies other_names.contains(n) by {
        let i = choose|i: int| 0 <= i < names.len() && names[i] == n;
        assert(stands_in(names[i], lines[i], others, other_names));
    }
    lemma_named_in_order(lines, names, m);
    lemma_named_in_order(others, other_names, m);
    lemma_lists_unique(p, q, m);
    let r = order_by::<String>(names);
    let t = order_by::<String>(other_names);
    assert(in_order::<String, Seq<char>>(lines, names) =~= in_order::<String, Seq<char>>(
        others,
        other_names,
    )) by {
        assert(p.len() == q.len());
        assert forall|k: int| 0 <= k < p.len() implies lines[r[k]] == others[t[k]] by {
            assert(p[k] == q[k]);
        }
    }
}

/// Whether a line stands under a name.
spec fn stands_in(
    name: Seq<char>,
    line: Seq<char>,
    lines: Seq<Seq<char>>,
    names: Seq<Seq<char>>,
) -> bool {
    exists|k: int| 0 <= k < names.len() && #[trigger] names[k] == name && lines[k] == line
}

/// The lines with their names, in the order of the names.
spec fn named_in_order(lines: Seq<Seq<char>>, names: Seq<Seq<char>>) -> Seq<
    (Seq<char>, Seq<char>),
> {
    Seq::new(
        names.len(),
        |k: int|
            (names[order_by::<String>(names)[k]], lines[order_by::<String>(names)[k]]),
    )
}

proof fn lemma_named_in_order(
    lines: Seq<Seq<char>>,
    names: Seq<Seq<char>>,
    m: Map<Seq<char>, Seq<char>>,
)
    requires
        lines.len() == names.len(),
        names.no_duplicates(),
        forall|i: int|
            0 <= i < names.len() ==> m.contains_key(#[trigger] names[i]) && m[names[i]]
                == lines[i],
        forall|n: Seq<char>| #[trigger] m.contains_key(n) ==> names.contains(n),
    ensures
        lists(named_in_order(lines, names), m),
{
    let r = order_by::<String>(names);
    let p = named_in_order(lines, names);
    lemma_order_exists::<String>(names);
    assert forall|i: int, j: int| 0 <= i < j < p.len() implies lex_lt(
        (#[trigger] p[i]).0,
        (#[trigger] p[j]).0,
    ) by {
        assert(ranks_before::<String>(names, r[i], r[j]));
        assert(0 <= r[i] < names.len() && 0 <= r[j] < names.len());
    }
    assert forall|i: int| 0 <= i < p.len() implies m.contains_key((#[trigger] p[i]).0)
        && m[p[i].0] == p[i].1 by {
        assert(0 <= r[i] < names.len());
        assert(m.contains_key(names[r[i]]));
    }
    assert forall|n: Seq<char>| #[trigger] m.contains_key(n) implies exists|i: int|
        0 <= i < p.len() && (#[trigger] p[i]).0 == n by {
        let k = choose|k: int| 0 <= k < names.len() && names[k] == n;
        assert(placed(r, k));
        let i = choose|i: int| 0 <= i < r.len() && #[trigger] r[i] == k;
        assert(p[i].0 == n);
    }
}

/// What a rule says of a table, with the canonical text of its scope.
#[verifier::ext_equal]
pub struct TableEntry {
    pub table: Seq<char>,
    pub sync: bool,
    pub scope: Seq<char>,
}

impl SyncRules {
    /// What the section that decides says.
    pub open spec fn table_entries(&self, floats: Map<Seq<char>, Float>) -> Seq<TableEntry> {
        match self.mode {
            SyncMode::All => seq![],
            SyncMode::Toggles => Seq::new(
                self.tables@.len(),
                |i: int|
                    TableEntry {
                        table: self.tables@[i].table@,
                        sync: self.tables@[i].sync,
                        scope: canonical_scope_text(scope_view(self.tables@[i].scope), floats),
                    },
            ),
            SyncMode::Hand => Seq::new(
                self.hand@.len(),
                |i: int|
                    TableEntry {
                        table: self.hand@[i].table@,
                        sync: true,
                        scope: canonical_scope_text(scope_view(self.hand@[i].scope), floats),
                    },
            ),
        }
    }

    /// The streams, with the canonical texts of their templates.
    pub open spec fn stream_entries(&self, floats: Map<Seq<char>, Float>) -> Seq<StreamView> {
        Seq::new(
            self.streams@.len(),
            |i: int|
                StreamView {
                    name: self.streams@[i].name@,
                    table: self.streams@[i].table@,
                    template: canonical_template_text(self.streams@[i].template@, floats),
                },
        )
    }
}

/// The canonical text of rules does not depend on the order of the tables and the
/// streams, nor on how their scopes and templates are written: rules without a table or
/// a stream twice, that say the same in any order, have the same text.
pub proof fn law_order_is_ignored(a: SyncRules, b: SyncRules, floats: Map<Seq<char>, Float>)
    requires
        a.version == b.version,
        a.mode == b.mode,
        a.table_names().no_duplicates(),
        b.table_names().no_duplicates(),
        stream_names(a.stream_views()).no_duplicates(),
        stream_names(b.stream_views()).no_duplicates(),
        forall|e: TableEntry| #[trigger]
            a.table_entries(floats).contains(e) <==> b.table_entries(floats).contains(e),
        forall|s: StreamView| #[trigger]
            a.stream_entries(floats).contains(s) <==> b.stream_entries(floats).contains(s),
    ensures
        a.canonical_text(floats) == b.canonical_text(floats),
{
    lemma_tables_stand(a, b, floats);
    lemma_tables_stand(b, a, floats);
    lemma_same_lines(
        a.table_lines(floats),
        a.table_names(),
        b.table_lines(floats),
        b.table_names(),
    );
    lemma_streams_stand(a, b, floats);
    lemma_streams_stand(b, a, floats);
    lemma_same_lines(
        stream_lines(a.stream_views(), floats),
        stream_names(a.stream_views()),
        stream_lines(b.stream_views(), floats),
        stream_names(b.stream_views()),
    );
}

proof fn lemma_tables_stand(a: SyncRules, b: SyncRules, floats: Map<Seq<char>, Float>)
    requires
        a.mode == b.mode,
        forall|e: TableEntry| #[trigger]
            a.table_entries(floats).contains(e) ==> b.table_entries(floats).contains(e),
    ensures
        a.table_lines(floats).len() == a.table_names().len(),
        forall|i: int|
            0 <= i < a.table_names().len() ==> stands_in(
                #[trigger] a.table_names()[i],
                a.table_lines(floats)[i],
                b.table_lines(floats),
                b.table_names(),
            ),
{
    assert forall|i: int| 0 <= i < a.table_names().len() implies stands_in(
        #[trigger] a.table_names()[i],
        a.table_lines(floats)[i],
        b.table_lines(floats),
        b.table_names(),
    ) by {
        let e = a.table_entries(floats)[i];
        let entries = b.table_entries(floats);
        assert(a.table_entries(floats).contains(e));
        let k = choose|k: int| 0 <= k < entries.len() && entries[k] == e;
        assert(b.table_names()[k] == a.table_names()[i]);
    }
}

proof fn lemma_streams_stand(a: SyncRules, b: SyncRules, floats: Map<Seq<char>, Float>)
    requires
        forall|s: StreamView| #[trigger]
            a.stream_entries(floats).contains(s) ==> b.stream_entries(floats).contains(s),
    ensures
        forall|i: int|
            0 <= i < a.stream_views().len() ==> stands_in(
                #[trigger] stream_names(a.stream_views())[i],
                stream_lines(a.stream_views(), floats)[i],
                stream_lines(b.stream_views(), floats),
                stream_names(b.stream_views()),
            ),
{
    assert forall|i: int| 0 <= i < a.stream_views().len() implies stands_in(
        #[trigger] stream_names(a.stream_views())[i],
        stream_lines(a.stream_views(), floats)[i],
        stream_lines(b.stream_views(), floats),
        stream_names(b.stream_views()),
    ) by {
        let s = a.stream_entries(floats)[i];
        let entries = b.stream_entries(floats);
        assert(a.stream_entries(floats).contains(s));
        let k = choose|k: int| 0 <= k < entries.len() && entries[k] == s;
        assert(stream_names(b.stream_views())[k] == stream_names(a.stream_views())[i]);
    }
}

/// White space around a scope does not change its canonical text.
pub proof fn law_scope_spaces_are_ignored(
    front: Seq<char>,
    scope: Seq<char>,
    back: Seq<char>,
    floats: Map<Seq<char>, Float>,
)
    requires
        forall|i: int| 0 <= i < front.len() ==> white_space(#[trigger] front[i]),
        forall|i: int| 0 <= i < back.len() ==> white_space(#[trigger] back[i]),
    ensures
        canonical_scope_text(Some(front + (scope + back)), floats) == canonical_scope_text(
            Some(scope),
            floats,
        ),
{
    lemma_space_before(front, scope + back);
    lemma_space_behind(scope, back);
}

proof fn lemma_space_before(front: Seq<char>, s: Seq<char>)
    requires
        forall|i: int| 0 <= i < front.len() ==> white_space(#[trigger] front[i]),
    ensures
        trimmed_start(front + s) == trimmed_start(s),
    decreases front.len(),
{
    if front.len() > 0 {
        assert((front + s)[0] == front[0]);
        assert((front + s).drop_first() =~= front.drop_first() + s);
        lemma_space_before(front.drop_first(), s);
    } else {
        assert(front + s =~= s);
    }
}

proof fn lemma_space_behind(s: Seq<char>, back: Seq<char>)
    requires
        forall|i: int| 0 <= i < back.len() ==> white_space(#[trigger] back[i]),
    ensures
        trimmed(s + back) == trimmed(s),
    decreases s.len(),
{
    if s.len() == 0 {
        assert(s + back =~= back + s);
        lemma_space_before(back, s);
    } else if white_space(s[0]) {
        assert((s + back).drop_first() =~= s.drop_first() + back);
        lemma_space_behind(s.drop_first(), back);
    } else {
        lemma_space_at_end(s, back);
    }
}

proof fn lemma_space_at_end(s: Seq<char>, back: Seq<char>)
    requires
        forall|i: int| 0 <= i < back.len() ==> white_space(#[trigger] back[i]),
    ensures
        trimmed_end(s + back) == trimmed_end(s),
    decreases back.len(),
{
    if back.len() > 0 {
        assert((s + back).last() == back[back.len() - 1]);
        assert((s + back).drop_last() =~= s + back.drop_last());
        lemma_space_at_end(s, back.drop_last());
    } else {
        assert(s + back =~= s);
    }
}

proof fn lemma_collapsed_spaces(s: Seq<char>, t: Seq<char>, begun: bool, gap: bool)
    requires
        forall|i: int| 0 <= i < s.len() ==> white_space(#[trigger] s[i]),
    ensures
        collapsed_from(s + t, begun, gap) == collapsed_from(
            t,
            begun,
            if s.len() > 0 {
                begun
            } else {
                gap
            },
        ),
    decreases s.len(),
{
    if s.len() == 0 {
        assert(s + t =~= t);
    } else {
        assert((s + t).skip(1) =~= s.skip(1) + t);
        assert((s + t)[0] == s[0]);
        lemma_collapsed_spaces(s.skip(1), t, begun, begun);
    }
}

/// Blanks between two parts of a template do not change its canonical text, however
/// many there are, as long as the template is not too long; nor does white space around
/// it.
pub proof fn law_template_spaces_are_ignored(
    front: Seq<char>,
    gap: Seq<char>,
    other_gap: Seq<char>,
    back: Seq<char>,
    floats: Map<Seq<char>, Float>,
)
    requires
        tokens_of(front, floats) is Ok,
        gap.len() > 0,
        other_gap.len() > 0,
        forall|i: int| 0 <= i < gap.len() ==> blank(#[trigger] gap[i]),
        forall|i: int| 0 <= i < other_gap.len() ==> blank(#[trigger] other_gap[i]),
        front.len() > 0 && !white_space(front[0]),
        back.len() > 0 && !white_space(back.last()),
        front.len() + gap.len() + back.len() <= MAX_LENGTH,
        front.len() + other_gap.len() + back.len() <= MAX_LENGTH,
    ensures
        canonical_template_text(front + (gap + back), floats) == canonical_template_text(
            front + (other_gap + back),
            floats,
        ),
{
    crate::predicate_compile::law_spaces_are_ignored(front, gap, other_gap, back, floats);
    let a = front + (gap + back);
    let b = front + (other_gap + back);
    assert(a[0] == front[0] && b[0] == front[0]);
    assert(a.last() == back.last() && b.last() == back.last());
    assert(trimmed(a) == a && trimmed(b) == b);
    lemma_same_gap(front, gap, other_gap, back, false, false);
}

/// White space around a template does not change its canonical text.
pub proof fn law_space_around_a_template_is_ignored(
    front: Seq<char>,
    template: Seq<char>,
    back: Seq<char>,
    floats: Map<Seq<char>, Float>,
)
    requires
        forall|i: int| 0 <= i < front.len() ==> white_space(#[trigger] front[i]),
        forall|i: int| 0 <= i < back.len() ==> white_space(#[trigger] back[i]),
    ensures
        canonical_template_text(front + (template + back), floats) == canonical_template_text(
            template,
            floats,
        ),
{
    lemma_space_before(front, template + back);
    lemma_space_behind(template, back);
    lemma_collapsed_spaces(front, template + back, false, false);
    lemma_collapsed_end(template, back, false, false);
}

proof fn lemma_collapsed_end(s: Seq<char>, back: Seq<char>, begun: bool, gap: bool)
    requires
        forall|i: int| 0 <= i < back.len() ==> white_space(#[trigger] back[i]),
    ensures
        collapsed_from(s + back, begun, gap) == collapsed_from(s, begun, gap),
    decreases s.len(),
{
    if s.len() == 0 {
        assert(s + back =~= back + s);
        lemma_collapsed_spaces(back, s, begun, gap);
    } else {
        assert((s + back).skip(1) =~= s.skip(1) + back);
        assert((s + back)[0] == s[0]);
        if white_space(s[0]) {
            lemma_collapsed_end(s.skip(1), back, begun, begun);
        } else {
            lemma_collapsed_end(s.skip(1), back, true, false);
        }
    }
}

/// Whether the canonical text of a template holds no tab and no line break.
pub open spec fn template_is_a_field(template: Seq<char>, floats: Map<Seq<char>, Float>) -> bool {
    forall|i: int|
        0 <= i < canonical_template_text(template, floats).len() ==> #[trigger] canonical_template_text(
            template,
            floats,
        )[i] != '\t' && canonical_template_text(template, floats)[i] != '\n'
}

proof fn lemma_collapsed_field(s: Seq<char>, begun: bool, gap: bool)
    ensures
        forall|i: int|
            0 <= i < collapsed_from(s, begun, gap).len() ==> #[trigger] collapsed_from(
                s,
                begun,
                gap,
            )[i] != '\t' && collapsed_from(s, begun, gap)[i] != '\n',
    decreases s.len(),
{
    if s.len() > 0 {
        if white_space(s[0]) {
            lemma_collapsed_field(s.skip(1), begun, begun);
            assert(collapsed_from(s, begun, gap) == collapsed_from(s.skip(1), begun, begun));
        } else {
            lemma_collapsed_field(s.skip(1), true, false);
            let tail = collapsed_from(s.skip(1), true, false);
            let t = collapsed_from(s, begun, gap);
            let n: int = if gap {
                2
            } else {
                1
            };
            assert forall|i: int| 0 <= i < t.len() implies #[trigger] t[i] != '\t' && t[i]
                != '\n' by {
                if i >= n {
                    assert(t[i] == tail[i - n]);
                }
            }
        }
    }
}

/// Whether the canonical text of a template reads back as the JSON value of what the
/// template parses to, where that holds no number with a decimal point and does not nest
/// too deep.
pub open spec fn template_reads_back(template: Seq<char>, floats: Map<Seq<char>, Float>) -> bool {
    match parsed(trimmed(template), floats) {
        Ok(e) => plain(expr_json(e)) && nesting(expr_json(e)) <= 127 ==> json_read(
            encode_utf8(canonical_template_text(template, floats)),
        ) == Some(expr_json(e)),
        Err(_) => true,
    }
}

/// Templates that write different predicates have different canonical texts, so that an
/// edit inside a quoted value is seen. It is stated of predicates without a number with a
/// decimal point that do not nest too deep; what reads back is known of the templates
/// whose canonical texts were written.
pub proof fn law_template_edit_is_seen(a: Seq<char>, b: Seq<char>, floats: Map<Seq<char>, Float>)
    requires
        template_reads_back(a, floats),
        template_reads_back(b, floats),
        tells_of(a, floats),
        tells_of(b, floats),
        parsed(trimmed(a), floats)->Ok_0 != parsed(trimmed(b), floats)->Ok_0,
    ensures
        canonical_template_text(a, floats) != canonical_template_text(b, floats),
{
    let x = parsed(trimmed(a), floats)->Ok_0;
    let y = parsed(trimmed(b), floats)->Ok_0;
    lemma_predicate_is_plain(x);
    lemma_predicate_is_plain(y);
    if expr_json(x) == expr_json(y) {
        law_json_tells_predicates_apart(x, y, Map::empty());
    }
}

/// Whether a template parses to a predicate without a number with a decimal point that
/// does not nest too deep.
pub open spec fn tells_of(template: Seq<char>, floats: Map<Seq<char>, Float>) -> bool {
    match parsed(trimmed(template), floats) {
        Ok(e) => floats_known(e, Map::empty()) && nesting(expr_json(e)) <= 127,
        Err(_) => false,
    }
}

/// An edit of one stream's template is seen in the canonical text of the rules, under
/// every mode.
pub proof fn law_stream_edit_is_seen(
    a: SyncRules,
    b: SyncRules,
    i: int,
    floats: Map<Seq<char>, Float>,
)
    requires
        a.version == b.version,
        a.mode == b.mode,
        a.tables@ == b.tables@,
        a.hand@ == b.hand@,
        a.stream_views().len() == b.stream_views().len(),
        0 <= i < a.stream_views().len(),
        a.stream_views()[i].name == b.stream_views()[i].name,
        a.stream_views()[i].table == b.stream_views()[i].table,
        forall|k: int|
            0 <= k < a.stream_views().len() && k != i ==> #[trigger] a.stream_views()[k]
                == b.stream_views()[k],
        template_reads_back(a.stream_views()[i].template, floats),
        template_reads_back(b.stream_views()[i].template, floats),
        tells_of(a.stream_views()[i].template, floats),
        tells_of(b.stream_views()[i].template, floats),
        parsed(trimmed(a.stream_views()[i].template), floats)->Ok_0 != parsed(
            trimmed(b.stream_views()[i].template),
            floats,
        )->Ok_0,
    ensures
        a.canonical_text(floats) != b.canonical_text(floats),
{
    let x = a.stream_views();
    let y = b.stream_views();
    law_template_edit_is_seen(x[i].template, y[i].template, floats);
    assert(stream_names(x) =~= stream_names(y)) by {
        assert forall|k: int| 0 <= k < x.len() implies x[k].name == y[k].name by {
            if k != i {
                assert(x[k] == y[k]);
            }
        }
    }
    let names = stream_names(x);
    let r = order_by::<String>(names);
    lemma_order_exists::<String>(names);
    assert(placed(r, i));
    let k = choose|k: int| 0 <= k < r.len() && #[trigger] r[k] == i;
    let p = in_order::<String, Seq<char>>(stream_lines(x, floats), names);
    let q = in_order::<String, Seq<char>>(stream_lines(y, floats), names);
    let head = "stream\t"@ + x[i].name + "\t"@ + x[i].table + "\t"@;
    lemma_middle_differs(
        head,
        canonical_template_text(x[i].template, floats),
        canonical_template_text(y[i].template, floats),
        "\n"@,
    );
    assert(p[k] != q[k]);
    assert forall|l: int| 0 <= l < p.len() && l != k implies #[trigger] p[l] == q[l] by {
        assert(0 <= r[l] < names.len());
        if r[l] == i {
            if l < k {
                assert(ranks_before::<String>(names, r[l], r[k]));
            } else {
                assert(ranks_before::<String>(names, r[k], r[l]));
            }
            lemma_lex_irreflexive(names[i]);
        }
        assert(x[r[l]] == y[r[l]]);
    }
    lemma_one_line_differs(p, q, k);
    assert(a.table_names() =~= b.table_names());
    assert(a.table_lines(floats) =~= b.table_lines(floats));
    let front = "v"@ + decimal(a.version as nat) + "\nmode="@ + mode_name(a.mode) + "\n"@
        + sorted_lines(a.table_lines(floats), a.table_names());
    lemma_middle_differs(front, concatenated(p), concatenated(q), seq![]);
    assert(front + concatenated(p) + seq![] =~= a.canonical_text(floats));
    assert(front + concatenated(q) + seq![] =~= b.canonical_text(floats));
}

proof fn lemma_middle_differs(
    front: Seq<char>,
    a: Seq<char>,
    b: Seq<char>,
    back: Seq<char>,
)
    requires
        a != b,
    ensures
        front + a + back != front + b + back,
{
    let x = front + a + back;
    let y = front + b + back;
    if x == y {
        assert(x.len() == front.len() + a.len() + back.len());
        assert(y.len() == front.len() + b.len() + back.len());
        assert(x.subrange(front.len() as int, (front.len() + a.len()) as int) =~= a);
        assert(y.subrange(front.len() as int, (front.len() + b.len()) as int) =~= b);
    }
}

proof fn lemma_one_line_differs(p: Seq<Seq<char>>, q: Seq<Seq<char>>, k: int)
    requires
        p.len() == q.len(),
        0 <= k < p.len(),
        p[k] != q[k],
        forall|l: int| 0 <= l < p.len() && l != k ==> #[trigger] p[l] == q[l],
    ensures
        concatenated(p) != concatenated(q),
    decreases p.len(),
{
    let n = p.len() - 1;
    if k == n {
        assert(p.drop_last() =~= q.drop_last());
        lemma_middle_differs(concatenated(p.drop_last()), p[n], q[n], seq![]);
        assert(concatenated(p.drop_last()) + p[n] + seq![] =~= concatenated(p));
        assert(concatenated(q.drop_last()) + q[n] + seq![] =~= concatenated(q));
    } else {
        assert forall|l: int| 0 <= l < n && l != k implies #[trigger] p.drop_last()[l]
            == q.drop_last()[l] by {
            assert(p[l] == q[l]);
        }
        lemma_one_line_differs(p.drop_last(), q.drop_last(), k);
        assert(p[n] == q[n]);
        lemma_middle_differs(
            seq![],
            concatenated(p.drop_last()),
            concatenated(q.drop_last()),
            p[n],
        );
        assert(seq![] + concatenated(p.drop_last()) + p[n] =~= concatenated(p));
        assert(seq![] + concatenated(q.drop_last()) + q[n] =~= concatenated(q));
    }
}

proof fn lemma_same_gap(
    front: Seq<char>,
    gap: Seq<char>,
    other_gap: Seq<char>,
    back: Seq<char>,
    begun: bool,
    g: bool,
)
    requires
        gap.len() > 0,
        other_gap.len() > 0,
        forall|i: int| 0 <= i < gap.len() ==> white_space(#[trigger] gap[i]),
        forall|i: int| 0 <= i < other_gap.len() ==> white_space(#[trigger] other_gap[i]),
    ensures
        collapsed_from(front + (gap + back), begun, g) == collapsed_from(
            front + (other_gap + back),
            begun,
            g,
        ),
    decreases front.len(),
{
    let a = front + (gap + back);
    let b = front + (other_gap + back);
    if front.len() == 0 {
        assert(a =~= gap + back);
        assert(b =~= other_gap + back);
        lemma_collapsed_spaces(gap, back, begun, g);
        lemma_collapsed_spaces(other_gap, back, begun, g);
    } else {
        let rest = front.skip(1);
        assert(a.skip(1) =~= rest + (gap + back));
        assert(b.skip(1) =~= rest + (other_gap + back));
        assert(a[0] == front[0] && b[0] == front[0]);
        if white_space(front[0]) {
            lemma_same_gap(rest, gap, other_gap, back, begun, begun);
        } else {
            lemma_same_gap(rest, gap, other_gap, back, true, false);
        }
    }
}

} // verus!
