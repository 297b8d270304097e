//! What the errors say, each one raised by the input that causes it.

use nostos::apply::ApplyEngine;
use nostos::appwrite_pull::{AppwriteCursor, AppwritePullError};
use nostos::counter::{counter_value, CounterError};
use nostos::crdt::{present_elements, OrSetError};
use nostos::in_memory::InMemoryStorage;
use nostos::lsn::{Lsn, LsnParseError};
use nostos::numbers::NumberFault;
use nostos::ordered::OrderedMap;
use nostos::predicate::{ColumnValue, FloatReadings};
use nostos::predicate_compile::{bind_params, parse_predicate_expr, ParseError};
use nostos::pull::{Horizon, PullCursor, PullError};
use nostos::rules::{RulesError, StreamRule, SyncMode, SyncRules, TableRule, RULES_VERSION};
use nostos::scope::{ScopeError, ScopeExpr};
use nostos::storage::StorageError;

fn parse_error(input: &str) -> ParseError {
    parse_predicate_expr(input, &FloatReadings::new()).expect_err("no predicate")
}

fn scope_error(input: &str) -> ScopeError {
    ScopeExpr::parse(input, &FloatReadings::new()).expect_err("no scope")
}

#[test]
fn parse_errors_speak() {
    assert_eq!(parse_error("").to_text(), "empty predicate");
    assert_eq!(
        parse_error("a = 'x"),
        ParseError::UnexpectedEof { expected: "closing '" }
    );
    assert_eq!(
        parse_error("a = 'x").to_text(),
        "unexpected end of input; expected closing '"
    );
    assert_eq!(
        parse_error("a b").to_text(),
        r#"unexpected token "Some(Ident(\"b\"))"; expected a comparison operator (=, !=, <, >, <=, >=)"#
    );
    assert_eq!(parse_error("(a = 1").to_text(), "unbalanced parentheses");
    assert!(parse_error("a = 1 b")
        .to_text()
        .starts_with("trailing input after predicate: "));
    assert_eq!(
        parse_error("a = 99999999999999999999"),
        ParseError::InvalidNumber("99999999999999999999".into())
    );
    assert_eq!(
        parse_error("a = 99999999999999999999").to_text(),
        "invalid number literal: 99999999999999999999"
    );
    assert_eq!(
        parse_error(&"(".repeat(65)).to_text(),
        "predicate nests deeper than 64"
    );
    assert_eq!(
        parse_error(&" ".repeat(65_537)).to_text(),
        "predicate is longer than 65536"
    );
}

#[test]
fn bind_errors_speak() {
    let template = parse_predicate_expr("a = :x", &FloatReadings::new()).unwrap();
    let none: OrderedMap<String, ColumnValue> = OrderedMap::new();
    assert_eq!(
        bind_params(&template, &none).unwrap_err().to_text(),
        "missing value for placeholder :x"
    );
    let mut extra = OrderedMap::new();
    extra.insert("x".to_string(), ColumnValue::number(1));
    extra.insert("y".to_string(), ColumnValue::number(2));
    assert_eq!(
        bind_params(&template, &extra).unwrap_err().to_text(),
        "unexpected param \"y\": no placeholder :y in the template"
    );
    let mut nested = OrderedMap::new();
    nested.insert("x".to_string(), ColumnValue::param("z"));
    assert_eq!(
        bind_params(&template, &nested).unwrap_err().to_text(),
        "param \"x\" is itself a placeholder; params must bind to concrete values"
    );
}

#[test]
fn scope_errors_speak() {
    assert_eq!(scope_error("  ").to_text(), "empty scope expression");
    assert_eq!(scope_error("a ! 1").to_text(), "unexpected token `!`");
    assert_eq!(
        scope_error("a = 1 OR b = 2").to_text(),
        "`OR` is not supported in a v1 rules scope (AND-composition only)"
    );
    assert_eq!(
        scope_error("a").to_text(),
        "expected a comparison operator after `a`"
    );
    assert_eq!(scope_error("a =").to_text(), "expected a value after `=`");
}

fn table(name: &str, scope: Option<&str>) -> TableRule {
    TableRule {
        table: name.to_string(),
        sync: true,
        scope: scope.map(str::to_string),
    }
}

fn stream(name: &str, template: &str) -> StreamRule {
    StreamRule {
        name: name.to_string(),
        table: "t".to_string(),
        template: template.to_string(),
    }
}

fn rules(tables: Vec<TableRule>, streams: Vec<StreamRule>) -> SyncRules {
    SyncRules {
        version: RULES_VERSION,
        mode: SyncMode::Toggles,
        tables,
        hand: vec![],
        streams,
    }
}

fn fault(r: &SyncRules) -> RulesError {
    r.validate(&FloatReadings::new()).expect_err("not valid")
}

#[test]
fn rules_errors_speak() {
    let mut old = rules(vec![], vec![]);
    old.version = RULES_VERSION + 1;
    assert_eq!(
        fault(&old).to_text(),
        format!(
            "unsupported rules version {} (this server understands {RULES_VERSION})",
            RULES_VERSION + 1
        )
    );
    assert_eq!(
        RulesError::UnknownMode("some".into()).to_text(),
        "unknown sync_mode `some` (expected all|toggles|hand)"
    );
    assert_eq!(
        fault(&rules(vec![table("t", Some("a"))], vec![])).to_text(),
        "table `t`: expected a comparison operator after `a`"
    );
    assert_eq!(
        fault(&rules(vec![table("t", None), table("t", None)], vec![])).to_text(),
        "duplicate table `t`"
    );
    let name = fault(&rules(vec![table("a\tb", None)], vec![]));
    assert_eq!(name, RulesError::InvalidTableName("a\tb".into()));
    assert!(name
        .to_text()
        .starts_with("table name `a\tb` contains a control character (tab, newline, or similar); "));
    let twice = fault(&rules(vec![], vec![stream("s", "a = 1"), stream("s", "a = 1")]));
    assert_eq!(twice, RulesError::DuplicateStream("s".into()));
    assert_eq!(twice.to_text(), "duplicate stream `s`");
    let odd = fault(&rules(vec![], vec![stream("s\n", "a = 1")]));
    assert_eq!(odd, RulesError::InvalidStreamName("s\n".into()));
    assert_eq!(
        odd.to_text(),
        "stream name `s\n` contains a control character (tab, newline, or similar); `canonical()`'s line format uses these as delimiters"
    );
    let broken = fault(&rules(vec![], vec![stream("s", "(a = 1")]));
    assert_eq!(
        broken,
        RulesError::StreamTemplate {
            name: "s".into(),
            source: ParseError::UnbalancedParens,
        }
    );
    assert_eq!(
        broken.to_text(),
        "stream `s`: template parse error: unbalanced parentheses"
    );
}

fn pull_error(body: &str, max_rows: usize) -> PullError {
    let mut engine = ApplyEngine::new(InMemoryStorage::new());
    PullCursor::resume(Horizon::fresh(), max_rows)
        .apply(&mut engine, body)
        .expect_err("not applied")
}

#[test]
fn pull_errors_speak() {
    for (body, said) in [
        ("", "EOF while parsing a value at line 1 column 0"),
        ("{}", "not a list"),
        ("[1]", "not a log row"),
    ] {
        assert_eq!(
            pull_error(body, 10).to_text(),
            format!("malformed pull response: {said}")
        );
    }
    let row = |xid: &str, op: &str| {
        format!(
            r#"[{{"horizon":"9","seq":1,"xid":"{xid}","table_name":"t","pk":"p","op":"{op}","row":{{}}}}]"#
        )
    };
    assert_eq!(
        pull_error(&row("5", "merge"), 10).to_text(),
        "unknown op \"merge\" on t/p"
    );
    assert_eq!(
        pull_error(&row("five", "insert"), 10).to_text(),
        "xid \"five\" is not a u64 — cannot group the transaction it belongs to"
    );
    assert_eq!(
        pull_error(&row("5", "insert"), 1).to_text(),
        "transaction 5 exceeds a page of 1 rows — raise max_rows"
    );
    assert_eq!(
        PullError::Storage(StorageError::Backend("disk full".into())).to_text(),
        "storage backend error: disk full"
    );
}

fn feed_error(body: &str) -> AppwritePullError {
    let mut engine = ApplyEngine::new(InMemoryStorage::new());
    AppwriteCursor::resume(4)
        .apply(&mut engine, body)
        .expect_err("not applied")
}

#[test]
fn feed_errors_speak() {
    assert_eq!(
        feed_error("nothing").to_text(),
        "invalid Appwrite feed: expected ident at line 1 column 2"
    );
    assert_eq!(
        feed_error("[]").to_text(),
        "invalid Appwrite feed: not a feed page"
    );
    let page = |head: &str, scanned: &str, changes: &str, more: bool| {
        format!(
            r#"{{"head":"{head}","scanned_through":"{scanned}","changes":[{changes}],"has_more":{more}}}"#
        )
    };
    assert_eq!(
        feed_error(&page("five", "5", "", false)).to_text(),
        "invalid Appwrite cursor: invalid decimal sequence \"five\""
    );
    assert_eq!(
        feed_error(&page("9", "3", "", true)).to_text(),
        "invalid Appwrite cursor: after 4, scanned 3, head 9"
    );
    assert_eq!(
        feed_error(&page(
            "5",
            "5",
            r#"{"seq":"3","table":"t","pk":"p","op":"delete"}"#,
            false
        ))
        .to_text(),
        "invalid Appwrite cursor: visible sequence 3 outside (4, 5]"
    );
    assert_eq!(
        feed_error(&page("9", "9", "", true)).to_text(),
        "invalid Appwrite cursor: inconsistent has_more or no progress"
    );
    let change = |op: &str, pk: &str, row: &str| {
        format!(r#"{{"seq":"5","table":"t","pk":"{pk}","op":"{op}"{row}}}"#)
    };
    assert_eq!(
        feed_error(&page("5", "5", &change("merge", "p", ""), false)).to_text(),
        "invalid Appwrite cursor: unknown op merge"
    );
    assert_eq!(
        feed_error(&page("5", "5", &change("insert", "", r#","row":{}"#), false)).to_text(),
        "invalid Appwrite cursor: empty table or primary key"
    );
    assert_eq!(
        feed_error(&page("5", "5", &change("insert", "p", ""), false)).to_text(),
        "invalid Appwrite cursor: row image missing"
    );
    assert_eq!(
        AppwritePullError::Storage(StorageError::Backend("disk full".into())).to_text(),
        "storage backend error: disk full"
    );
}

#[test]
fn position_and_payload_errors_speak() {
    let missing = Lsn::parse("16").unwrap_err();
    assert!(matches!(missing, LsnParseError::MissingSeparator));
    assert_eq!(missing.to_text(), "LSN must be of the form HI/LO");
    let odd = Lsn::parse("x/16").unwrap_err();
    assert!(matches!(odd, LsnParseError::InvalidHex(NumberFault::InvalidDigit)));
    assert_eq!(odd.to_text(), "invalid hex component: invalid digit found in string");
    for half in ["", "+", "-", "-1", "+ 1", "x", "1x", "123456789", "fffffffffx", "12345678x9", "\u{e9}"] {
        let said = u32::from_str_radix(half.trim(), 16).unwrap_err().to_string();
        for text in [format!("{half}/1"), format!("1/{half}")] {
            assert_eq!(
                Lsn::parse(&text).unwrap_err().to_text(),
                format!("invalid hex component: {said}")
            );
        }
    }

    let garbled = present_elements(b"{").unwrap_err();
    assert!(matches!(garbled, OrSetError::InvalidJson(_)));
    assert_eq!(
        garbled.to_text(),
        "or-set payload is not valid JSON: EOF while parsing an object at line 1 column 1"
    );
    assert!(matches!(present_elements(br#"{"elements":5}"#), Err(OrSetError::Malformed)));
    assert!(matches!(present_elements(br#"{"elements":[5]}"#), Err(OrSetError::Malformed)));
    let shapeless = present_elements(b"7").unwrap_err();
    assert!(matches!(shapeless, OrSetError::Malformed));
    assert_eq!(
        shapeless.to_text(),
        "or-set payload has the wrong shape (expected {\"elements\":[…]})"
    );

    let garbled = counter_value(b"{").unwrap_err();
    assert!(matches!(garbled, CounterError::InvalidJson(_)));
    assert_eq!(
        garbled.to_text(),
        "counter payload is not valid JSON: EOF while parsing an object at line 1 column 1"
    );
    assert!(matches!(counter_value(br#"{"entries":5}"#), Err(CounterError::Malformed)));
    let shapeless = counter_value(b"7").unwrap_err();
    assert!(matches!(shapeless, CounterError::Malformed));
    assert_eq!(
        shapeless.to_text(),
        "counter payload has the wrong shape (expected {\"entries\":[…]})"
    );
}
