//! Sync rules.

use nostos::predicate::FloatReadings;
use nostos::rules::{HandRule, RulesError, SyncMode, SyncRules, TableRule, RULES_VERSION};

fn table(name: &str, sync: bool, scope: Option<&str>) -> TableRule {
    TableRule {
        table: name.to_string(),
        sync,
        scope: scope.map(str::to_string),
    }
}

fn hand(name: &str, scope: Option<&str>) -> HandRule {
    HandRule {
        table: name.to_string(),
        scope: scope.map(str::to_string),
    }
}

#[test]
fn checksum_ignores_whitespace_and_order() {
    let a = SyncRules {
        version: RULES_VERSION,
        mode: SyncMode::Toggles,
        tables: vec![
            table("b", true, Some("x = 1 AND y = 2")),
            table("a", true, Some("p = 3")),
        ],
        hand: vec![],

        streams: vec![],
    };
    let b = SyncRules {
        version: RULES_VERSION,
        mode: SyncMode::Toggles,
        tables: vec![
            table("a", true, Some("  p = 3  ")),
            table("b", true, Some("y=2   AND   x=1")),
        ],
        hand: vec![],

        streams: vec![],
    };
    assert_eq!(a.checksum(&FloatReadings::new()), b.checksum(&FloatReadings::new()));
}

#[test]
fn checksum_changes_with_mode() {
    let tables = vec![table("t", true, None)];
    let hand_rules = vec![hand("t", None)];

    let all = SyncRules {
        version: RULES_VERSION,
        mode: SyncMode::All,
        tables: tables.clone(),
        hand: hand_rules.clone(),

        streams: vec![],
    };
    let toggles = SyncRules {
        mode: SyncMode::Toggles,
        ..all.clone()
    };
    let hand_mode = SyncRules {
        mode: SyncMode::Hand,
        ..all.clone()
    };

    let checksums = [all.checksum(&FloatReadings::new()), toggles.checksum(&FloatReadings::new()), hand_mode.checksum(&FloatReadings::new())];
    assert_ne!(checksums[0], checksums[1]);
    assert_ne!(checksums[1], checksums[2]);
    assert_ne!(checksums[0], checksums[2]);
}

#[test]
fn all_mode_checksum_ignores_sections() {
    let base = SyncRules {
        version: RULES_VERSION,
        mode: SyncMode::All,
        tables: vec![],
        hand: vec![],

        streams: vec![],
    };
    let with_table = SyncRules {
        tables: vec![table("t", true, Some("a = 1"))],
        ..base.clone()
    };
    assert_eq!(base.checksum(&FloatReadings::new()), with_table.checksum(&FloatReadings::new()));
}

#[test]
fn validate_rejects_bad_scope() {
    let rules = SyncRules {
        version: RULES_VERSION,
        mode: SyncMode::Toggles,
        tables: vec![table("t", true, Some("a = 1 OR b = 2"))],
        hand: vec![],

        streams: vec![],
    };
    assert!(matches!(
        rules.validate(&FloatReadings::new()),
        Err(RulesError::Scope { table, .. }) if table == "t"
    ));
}

#[test]
fn validate_ignores_inactive_section() {
    let rules = SyncRules {
        version: RULES_VERSION,
        mode: SyncMode::Toggles,
        tables: vec![table("t", true, None)],
        hand: vec![hand("t", Some("a = 1 OR b = 2"))],

        streams: vec![],
    };
    assert_eq!(rules.validate(&FloatReadings::new()), Ok(()));
}

#[test]
fn validate_rejects_duplicate_table() {
    let rules = SyncRules {
        version: RULES_VERSION,
        mode: SyncMode::Toggles,
        tables: vec![table("t", true, None), table("t", false, None)],
        hand: vec![],

        streams: vec![],
    };
    assert_eq!(
        rules.validate(&FloatReadings::new()),
        Err(RulesError::DuplicateTable("t".to_string()))
    );
}

#[test]
fn validate_rejects_future_version() {
    let rules = SyncRules {
        version: RULES_VERSION + 1,
        mode: SyncMode::All,
        tables: vec![],
        hand: vec![],

        streams: vec![],
    };
    assert_eq!(
        rules.validate(&FloatReadings::new()),
        Err(RulesError::UnsupportedVersion(RULES_VERSION + 1))
    );
}

#[test]
fn validate_ok_for_well_formed_rules() {
    let rules = SyncRules {
        version: RULES_VERSION,
        mode: SyncMode::Hand,
        tables: vec![],
        hand: vec![hand("t", Some("org_id = claims.org_id"))],

        streams: vec![],
    };
    assert_eq!(rules.validate(&FloatReadings::new()), Ok(()));
}

#[test]
fn sync_mode_round_trips_through_str() {
    for mode in [SyncMode::All, SyncMode::Toggles, SyncMode::Hand] {
        assert_eq!(SyncMode::parse(mode.as_str()), Some(mode));
    }
    assert_eq!(SyncMode::parse("bogus"), None);
}

#[test]
fn validate_rejects_control_characters_in_table_name() {
    let z = SyncRules {
        version: RULES_VERSION,
        mode: SyncMode::Toggles,
        tables: vec![table("a", true, None), table("b", false, None)],
        hand: vec![],

        streams: vec![],
    };
    let x2 = SyncRules {
        version: RULES_VERSION,
        mode: SyncMode::Toggles,
        tables: vec![table("a\ttrue\t\nb", false, None)],
        hand: vec![],

        streams: vec![],
    };

    assert_eq!(z.validate(&FloatReadings::new()), Ok(()));
    assert_eq!(
        x2.validate(&FloatReadings::new()),
        Err(RulesError::InvalidTableName("a\ttrue\t\nb".to_string()))
    );

    let cr_table = SyncRules {
        version: RULES_VERSION,
        mode: SyncMode::Toggles,
        tables: vec![table("t\rable", true, None)],
        hand: vec![],

        streams: vec![],
    };
    assert_eq!(
        cr_table.validate(&FloatReadings::new()),
        Err(RulesError::InvalidTableName("t\rable".to_string()))
    );

    let hand_bad = SyncRules {
        version: RULES_VERSION,
        mode: SyncMode::Hand,
        tables: vec![],
        hand: vec![hand("ta\nble", None)],

        streams: vec![],
    };
    assert_eq!(
        hand_bad.validate(&FloatReadings::new()),
        Err(RulesError::InvalidTableName("ta\nble".to_string()))
    );
}

#[test]
fn none_and_empty_scope_are_equivalent() {
    let none_scope = SyncRules {
        version: RULES_VERSION,
        mode: SyncMode::Toggles,
        tables: vec![table("t", true, None)],
        hand: vec![],

        streams: vec![],
    };
    let empty_scope = SyncRules {
        tables: vec![table("t", true, Some("   "))],
        ..none_scope.clone()
    };
    assert_eq!(none_scope.checksum(&FloatReadings::new()), empty_scope.checksum(&FloatReadings::new()));
}

#[test]
fn rules_start_empty() {
    let rules = SyncRules::default();
    assert_eq!(rules.version, 0);
    assert!(matches!(rules.mode, SyncMode::All));
    assert!(rules.tables.is_empty() && rules.hand.is_empty() && rules.streams.is_empty());
}
