//! What the errors say to a reader.

use vstd::prelude::*;
use crate::appwrite_pull::AppwritePullError;
use crate::counter::CounterError;
use crate::crdt::OrSetError;
use crate::lsn::LsnParseError;
use crate::numbers::NumberFault;
use crate::numbers::{decimal, decimal_text};
use crate::predicate_compile::{BindError, BindErrorView, ParseError, ParseErrorView};
use crate::pull::{PullError, PullErrorView};
use crate::rules::{RulesError, RulesErrorView, RULES_VERSION};
use crate::scope::{ScopeError, ScopeErrorView};
use crate::text::{debug_quoted, quoted};

verus! {

/// A text, what stands in it, and the rest.
fn around(before: &str, inner: &str, after: &str) -> (r: String)
    ensures
        r@ == before@ + inner@ + after@,
{
    let mut out: String = before.to_owned();
    out.append(inner);
    out.append(after);
    out
}

/// Two texts, one after the other.
fn followed(before: &str, after: &str) -> (r: String)
    ensures
        r@ == before@ + after@,
{
    let mut out: String = before.to_owned();
    out.append(after);
    out
}

// ---- predicates ----

/// What is said of a text that is no predicate.
pub open spec fn parse_error_text(e: ParseErrorView) -> Seq<char> {
    match e {
        ParseErrorView::Empty => "empty predicate"@,
        ParseErrorView::UnexpectedEof { expected } => "unexpected end of input; expected "@
            + expected,
        ParseErrorView::UnexpectedToken { found, expected } => "unexpected token "@ + debug_quoted(
            found,
        ) + "; expected "@ + expected,
        ParseErrorView::UnbalancedParens => "unbalanced parentheses"@,
        ParseErrorView::TrailingInput(s) => "trailing input after predicate: "@ + s,
        ParseErrorView::InvalidNumber(s) => "invalid number literal: "@ + s,
        ParseErrorView::TooDeep { max } => "predicate nests deeper than "@ + decimal(max as nat),
        ParseErrorView::TooLarge { max } => "predicate is longer than "@ + decimal(max as nat),
    }
}

impl ParseError {
    /// The error as text.
    pub fn to_text(&self) -> (r: String)
        ensures
            r@ == parse_error_text(self@),
    {
        match self {
            ParseError::Empty => "empty predicate".to_owned(),
            ParseError::UnexpectedEof { expected } => followed(
                "unexpected end of input; expected ",
                expected,
            ),
            ParseError::UnexpectedToken { found, expected } => {
                let start = around("unexpected token ", quoted(found.as_str()).as_str(), "; expected ");
                followed(start.as_str(), expected)
            },
            ParseError::UnbalancedParens => "unbalanced parentheses".to_owned(),
            ParseError::TrailingInput(s) => followed("trailing input after predicate: ", s.as_str()),
            ParseError::InvalidNumber(s) => followed("invalid number literal: ", s.as_str()),
            ParseError::TooDeep { max } => followed(
                "predicate nests deeper than ",
                decimal_text(*max as u64).as_str(),
            ),
            ParseError::TooLarge { max } => followed(
                "predicate is longer than ",
                decimal_text(*max as u64).as_str(),
            ),
        }
    }
}

/// What is said of parameters that do not fit their template.
pub open spec fn bind_error_text(e: BindErrorView) -> Seq<char> {
    match e {
        BindErrorView::MissingParam { name } => "missing value for placeholder :"@ + name,
        BindErrorView::ExtraParam { name } => "unexpected param "@ + debug_quoted(name)
            + ": no placeholder :"@ + name + " in the template"@,
        BindErrorView::NestedParam { name } => "param "@ + debug_quoted(name)
            + " is itself a placeholder; params must bind to concrete values"@,
    }
}

impl BindError {
    /// The error as text.
    pub fn to_text(&self) -> (r: String)
        ensures
            r@ == bind_error_text(self@),
    {
        match self {
            BindError::MissingParam { name } => followed(
                "missing value for placeholder :",
                name.as_str(),
            ),
            BindError::ExtraParam { name } => {
                let start = around(
                    "unexpected param ",
                    quoted(name.as_str()).as_str(),
                    ": no placeholder :",
                );
                around(start.as_str(), name.as_str(), " in the template")
            },
            BindError::NestedParam { name } => around(
                "param ",
                quoted(name.as_str()).as_str(),
                " is itself a placeholder; params must bind to concrete values",
            ),
        }
    }
}

// ---- scopes and rules ----

/// What is said of a text that is no scope.
pub open spec fn scope_error_text(e: ScopeErrorView) -> Seq<char> {
    match e {
        ScopeErrorView::Empty => "empty scope expression"@,
        ScopeErrorView::UnexpectedToken(s) => "unexpected token `"@ + s + "`"@,
        ScopeErrorView::Unsupported(s) => "`"@ + s
            + "` is not supported in a v1 rules scope (AND-composition only)"@,
        ScopeErrorView::MissingOperator(s) => "expected a comparison operator after `"@ + s + "`"@,
        ScopeErrorView::MissingValue(s) => "expected a value after `"@ + s + "`"@,
    }
}

impl ScopeError {
    /// The error as text.
    pub fn to_text(&self) -> (r: String)
        ensures
            r@ == scope_error_text(self@),
    {
        match self {
            ScopeError::Empty => "empty scope expression".to_owned(),
            ScopeError::UnexpectedToken(s) => around("unexpected token `", s.as_str(), "`"),
            ScopeError::Unsupported(s) => around(
                "`",
                s.as_str(),
                "` is not supported in a v1 rules scope (AND-composition only)",
            ),
            ScopeError::MissingOperator(s) => around(
                "expected a comparison operator after `",
                s.as_str(),
                "`",
            ),
            ScopeError::MissingValue(s) => around("expected a value after `", s.as_str(), "`"),
        }
    }
}

/// What is said of rules that are not valid.
pub open spec fn rules_error_text(e: RulesErrorView) -> Seq<char> {
    match e {
        RulesErrorView::UnsupportedVersion(v) => "unsupported rules version "@ + decimal(v as nat)
            + " (this server understands "@ + decimal(RULES_VERSION as nat) + ")"@,
        RulesErrorView::UnknownMode(s) => "unknown sync_mode `"@ + s
            + "` (expected all|toggles|hand)"@,
        RulesErrorView::Scope { table, source } => "table `"@ + table + "`: "@ + scope_error_text(
            source,
        ),
        RulesErrorView::DuplicateTable(s) => "duplicate table `"@ + s + "`"@,
        RulesErrorView::InvalidTableName(s) => "table name `"@ + s
            + "` contains a control character (tab, newline, or similar); `canonical()`'s line format uses these as delimiters, so such a name is indistinguishable from a different rule set with an ordinary name"@,
        RulesErrorView::DuplicateStream(s) => "duplicate stream `"@ + s + "`"@,
        RulesErrorView::InvalidStreamName(s) => "stream name `"@ + s
            + "` contains a control character (tab, newline, or similar); `canonical()`'s line format uses these as delimiters"@,
        RulesErrorView::StreamTemplate { name, source } => "stream `"@ + name
            + "`: template parse error: "@ + parse_error_text(source),
    }
}

impl RulesError {
    /// The error as text.
    pub fn to_text(&self) -> (r: String)
        ensures
            r@ == rules_error_text(self@),
    {
        match self {
            RulesError::UnsupportedVersion(v) => {
                let start = around(
                    "unsupported rules version ",
                    decimal_text(*v as u64).as_str(),
                    " (this server understands ",
                );
                around(start.as_str(), decimal_text(RULES_VERSION as u64).as_str(), ")")
            },
            RulesError::UnknownMode(s) => around(
                "unknown sync_mode `",
                s.as_str(),
                "` (expected all|toggles|hand)",
            ),
            RulesError::Scope { table, source } => {
                let start = around("table `", table.as_str(), "`: ");
                followed(start.as_str(), source.to_text().as_str())
            },
            RulesError::DuplicateTable(s) => around("duplicate table `", s.as_str(), "`"),
            RulesError::InvalidTableName(s) => around(
                "table name `",
                s.as_str(),
                "` contains a control character (tab, newline, or similar); `canonical()`'s line format uses these as delimiters, so such a name is indistinguishable from a different rule set with an ordinary name",
            ),
            RulesError::DuplicateStream(s) => around("duplicate stream `", s.as_str(), "`"),
            RulesError::InvalidStreamName(s) => around(
                "stream name `",
                s.as_str(),
                "` contains a control character (tab, newline, or similar); `canonical()`'s line format uses these as delimiters",
            ),
            RulesError::StreamTemplate { name, source } => {
                let start = around("stream `", name.as_str(), "`: template parse error: ");
                followed(start.as_str(), source.to_text().as_str())
            },
        }
    }
}

// ---- pulling ----

/// What is said of a page that was not applied.
pub open spec fn pull_error_text(e: PullErrorView) -> Seq<char> {
    match e {
        PullErrorView::Decode(s) => "malformed pull response: "@ + s,
        PullErrorView::UnknownOp { op, table, pk } => "unknown op "@ + debug_quoted(op) + " on "@
            + table + "/"@ + pk,
        PullErrorView::BadXid(s) => "xid "@ + debug_quoted(s)
            + " is not a u64 — cannot group the transaction it belongs to"@,
        PullErrorView::PageTooSmall { xid, max_rows } => "transaction "@ + xid
            + " exceeds a page of "@ + decimal(max_rows as nat) + " rows — raise max_rows"@,
        PullErrorView::Storage(e) => "storage backend error: "@ + e->Backend_0@,
    }
}

impl PullError {
    /// The error as text. An error of the store speaks for itself.
    pub fn to_text(&self) -> (r: String)
        ensures
            r@ == pull_error_text(self@),
    {
        match self {
            PullError::Decode(s) => followed("malformed pull response: ", s.as_str()),
            PullError::UnknownOp { op, table, pk } => {
                let start = around("unknown op ", quoted(op.as_str()).as_str(), " on ");
                let row = around(start.as_str(), table.as_str(), "/");
                followed(row.as_str(), pk.as_str())
            },
            PullError::BadXid(s) => around(
                "xid ",
                quoted(s.as_str()).as_str(),
                " is not a u64 — cannot group the transaction it belongs to",
            ),
            PullError::PageTooSmall { xid, max_rows } => {
                let start = around("transaction ", xid.as_str(), " exceeds a page of ");
                around(
                    start.as_str(),
                    decimal_text(*max_rows as u64).as_str(),
                    " rows — raise max_rows",
                )
            },
            PullError::Storage(e) => e.to_text(),
        }
    }
}

impl AppwritePullError {
    /// The error as text. An error of the store speaks for itself.
    pub fn to_text(&self) -> (r: String)
        ensures
            match *self {
                AppwritePullError::Decode(s) => r@ == "invalid Appwrite feed: "@ + s@,
                AppwritePullError::Protocol(s) => r@ == "invalid Appwrite cursor: "@ + s@,
                AppwritePullError::Storage(e) => r@ == "storage backend error: "@ + e->Backend_0@,
            },
    {
        match self {
            AppwritePullError::Decode(s) => followed("invalid Appwrite feed: ", s.as_str()),
            AppwritePullError::Protocol(s) => followed("invalid Appwrite cursor: ", s.as_str()),
            AppwritePullError::Storage(e) => e.to_text(),
        }
    }
}

// ---- positions and payloads ----

/// What is said of a text that is no number.
pub open spec fn number_fault_text(cause: NumberFault) -> Seq<char> {
    match cause {
        NumberFault::Empty => "cannot parse integer from empty string"@,
        NumberFault::InvalidDigit => "invalid digit found in string"@,
        NumberFault::TooLarge => "number too large to fit in target type"@,
    }
}

impl NumberFault {
    /// The fault as text.
    pub fn as_text(self) -> (r: &'static str)
        ensures
            r@ == number_fault_text(self),
    {
        match self {
            NumberFault::Empty => "cannot parse integer from empty string",
            NumberFault::InvalidDigit => "invalid digit found in string",
            NumberFault::TooLarge => "number too large to fit in target type",
        }
    }
}

impl LsnParseError {
    /// The error as text.
    pub fn to_text(&self) -> (r: String)
        ensures
            r@ == (match *self {
                LsnParseError::MissingSeparator => "LSN must be of the form HI/LO"@,
                LsnParseError::InvalidHex(cause) => "invalid hex component: "@ + number_fault_text(
                    cause,
                ),
            }),
    {
        match self {
            LsnParseError::MissingSeparator => "LSN must be of the form HI/LO".to_owned(),
            LsnParseError::InvalidHex(cause) => {
                let mut out: String = "invalid hex component: ".to_owned();
                out.append(cause.as_text());
                out
            },
        }
    }
}

impl OrSetError {
    /// The error as text.
    pub fn to_text(&self) -> (r: String)
        ensures
            r@ == (match *self {
                OrSetError::InvalidJson(said) => "or-set payload is not valid JSON: "@ + said@,
                OrSetError::Malformed =>
                    "or-set payload has the wrong shape (expected {\"elements\":[…]})"@,
            }),
    {
        match self {
            OrSetError::InvalidJson(said) => {
                let mut out: String = "or-set payload is not valid JSON: ".to_owned();
                out.append(said.as_str());
                out
            },
            OrSetError::Malformed => "or-set payload has the wrong shape (expected {\"elements\":[…]})".to_owned(),
        }
    }
}

impl CounterError {
    /// The error as text.
    pub fn to_text(&self) -> (r: String)
        ensures
            r@ == (match *self {
                CounterError::InvalidJson(said) => "counter payload is not valid JSON: "@ + said@,
                CounterError::Malformed =>
                    "counter payload has the wrong shape (expected {\"entries\":[…]})"@,
            }),
    {
        match self {
            CounterError::InvalidJson(said) => {
                let mut out: String = "counter payload is not valid JSON: ".to_owned();
                out.append(said.as_str());
                out
            },
            CounterError::Malformed => "counter payload has the wrong shape (expected {\"entries\":[…]})".to_owned(),
        }
    }
}

} // verus!
