use csv_validator_core::config::{
    build_validator_from_args, build_validators_from_config, CommonConfig, ConfigError,
    ConfigFile, ValidatorKind, ValidatorSpec as ConfigEntry,
};
use csv_validator_core::validator_spec::borrow_all;
use csv_validator_core::{
    BuiltinValidator, PatternSetError, ValidationIssue, Validator, ValidatorSpec,
};

fn issues_of(validator: &BuiltinValidator, line: &[u8]) -> Vec<ValidationIssue> {
    let mut issues = Vec::new();
    validator.validate(line, 1, &mut issues);
    issues
}

fn with_separator(separator: char) -> Option<CommonConfig> {
    Some(CommonConfig { quote_char: None, separator: Some(separator), has_header: None })
}

#[test]
fn spec_constructors_enable_the_rule() {
    match ValidatorSpec::new_illegal_chars(vec!["@".to_string()]) {
        ValidatorSpec::IllegalChars { illegal_chars, enabled } => {
            assert_eq!(illegal_chars, vec!["@".to_string()]);
            assert!(enabled);
        }
        other => panic!("unexpected {:?}", other),
    }
    assert!(matches!(
        ValidatorSpec::new_field_count(4),
        ValidatorSpec::FieldCount { expected: 4, enabled: true }
    ));
    assert!(matches!(
        ValidatorSpec::new_line_length(80),
        ValidatorSpec::LineLength { max_length: 80, enabled: true }
    ));
}

#[test]
fn into_validator_builds_the_rule_it_describes() {
    let illegal = ValidatorSpec::new_illegal_chars(vec!["@".to_string(), "!!".to_string()])
        .into_validator(b',')
        .expect("small pattern set");
    assert_eq!(illegal.name(), "illegal_characters");
    let found = issues_of(&illegal, b"a!!b@");
    assert_eq!(found.len(), 2);
    assert_eq!(found[0].position, Some(1));
    assert_eq!(found[1].position, Some(4));

    let fields = ValidatorSpec::new_field_count(2).into_validator(b'|').expect("always built");
    assert_eq!(fields.name(), "field_count");
    assert!(issues_of(&fields, b"a,b|c,d").is_empty());
    assert_eq!(issues_of(&fields, b"a,b").len(), 1);

    let length = ValidatorSpec::new_line_length(3).into_validator(b',').expect("always built");
    assert_eq!(length.name(), "line_length");
    assert!(issues_of(&length, b"abc").is_empty());
    assert_eq!(issues_of(&length, b"abcd").len(), 1);
}

#[test]
fn into_validator_skips_a_disabled_rule() {
    let disabled = ValidatorSpec::LineLength { enabled: false, max_length: 0 };
    let validator = disabled.into_validator(b',').expect("nothing to build");
    assert!(issues_of(&validator, b"abc").is_empty());
    assert!(issues_of(&validator, b"").is_empty());
    assert_eq!(validator.name(), "line_length");

    let disabled = ValidatorSpec::FieldCount { expected: 9, enabled: false };
    let validator = disabled.into_validator(b',').expect("nothing to build");
    assert!(issues_of(&validator, b"a,b").is_empty());
    assert_eq!(validator.name(), "field_count");

    let disabled =
        ValidatorSpec::IllegalChars { illegal_chars: vec!["@".to_string()], enabled: false };
    let validator = disabled.into_validator(b',').expect("nothing to build");
    assert!(issues_of(&validator, b"a@b").is_empty());
    assert_eq!(validator.name(), "illegal_characters");

    let enabled = ValidatorSpec::LineLength { enabled: true, max_length: 0 };
    let validator = enabled.into_validator(b',').expect("always built");
    assert_eq!(issues_of(&validator, b"abc").len(), 1);
}

#[test]
fn into_validator_does_not_build_the_matcher_of_a_disabled_rule() {
    let huge = String::from_utf8(vec![0u8; i32::MAX as usize]).expect("zero bytes are text");
    let disabled = ValidatorSpec::IllegalChars { illegal_chars: vec![huge], enabled: false };
    let validator = disabled.into_validator(b',').expect("nothing to build");
    assert!(issues_of(&validator, b"\0\0").is_empty());
}

#[test]
fn into_validator_reports_a_pattern_beyond_the_limit() {
    let huge = String::from_utf8(vec![0u8; i32::MAX as usize]).expect("zero bytes are text");
    let made = ValidatorSpec::new_illegal_chars(vec![huge]).into_validator(b',');
    assert_eq!(made.err(), Some(PatternSetError::LimitExceeded));
}

#[test]
fn config_builds_the_enabled_rules_in_order() {
    let config = ConfigFile {
        common: None,
        validators: vec![
            ConfigEntry::FieldCount { expected: 2, enabled: true, common: None },
            ConfigEntry::IllegalChars {
                illegal_chars: vec!["@".to_string()],
                enabled: false,
                common: None,
            },
            ConfigEntry::LineLength { max_length: 4, enabled: true, common: None },
            ConfigEntry::IllegalChars {
                illegal_chars: vec!["#".to_string()],
                enabled: true,
                common: with_separator(','),
            },
            ConfigEntry::FieldCount { expected: 1, enabled: false, common: None },
        ],
    };
    let validators = build_validators_from_config(config).expect("small pattern sets");
    let names: Vec<&str> = validators.iter().map(|validator| validator.name()).collect();
    assert_eq!(names, vec!["field_count", "line_length", "illegal_characters"]);
    assert!(issues_of(&validators[2], b"a@b").is_empty());
    assert_eq!(issues_of(&validators[2], b"a#b").len(), 1);
    assert_eq!(issues_of(&validators[1], b"12345")[0].message, "Line length 5 exceeds maximum 4");
}

#[test]
fn config_separator_defaults_to_a_semicolon() {
    let config = ConfigFile {
        common: None,
        validators: vec![
            ConfigEntry::FieldCount { expected: 3, enabled: true, common: None },
            ConfigEntry::FieldCount { expected: 3, enabled: true, common: with_separator('|') },
            ConfigEntry::FieldCount {
                expected: 3,
                enabled: true,
                common: Some(CommonConfig {
                    quote_char: Some('\''),
                    separator: None,
                    has_header: Some(true),
                }),
            },
        ],
    };
    let validators = build_validators_from_config(config).expect("always built");
    assert_eq!(validators.len(), 3);
    assert!(issues_of(&validators[0], b"a;b;c").is_empty());
    assert_eq!(issues_of(&validators[0], b"a,b,c")[0].message, "Expected 3 fields, found 1");
    assert!(issues_of(&validators[1], b"a|b|c").is_empty());
    assert_eq!(issues_of(&validators[1], b"a;b;c").len(), 1);
    assert!(issues_of(&validators[2], b"a;b;c").is_empty());

    let settings_without_separator = ConfigFile {
        common: Some(CommonConfig { quote_char: None, separator: None, has_header: None }),
        validators: vec![ConfigEntry::FieldCount { expected: 2, enabled: true, common: None }],
    };
    let validators = build_validators_from_config(settings_without_separator).expect("built");
    assert!(issues_of(&validators[0], b"a;b").is_empty());
}

#[test]
fn config_separator_comes_from_the_shared_section() {
    let config = ConfigFile {
        common: with_separator(','),
        validators: vec![
            ConfigEntry::FieldCount { expected: 3, enabled: true, common: None },
            ConfigEntry::FieldCount { expected: 3, enabled: true, common: with_separator('|') },
            ConfigEntry::FieldCount {
                expected: 3,
                enabled: true,
                common: Some(CommonConfig {
                    quote_char: Some('\''),
                    separator: None,
                    has_header: Some(true),
                }),
            },
        ],
    };
    let validators = build_validators_from_config(config).expect("always built");
    assert_eq!(validators.len(), 3);
    assert!(issues_of(&validators[0], b"a,b,c").is_empty());
    assert_eq!(issues_of(&validators[0], b"a;b;c")[0].message, "Expected 3 fields, found 1");
    assert!(issues_of(&validators[1], b"a|b|c").is_empty());
    assert_eq!(issues_of(&validators[1], b"a,b,c").len(), 1);
    assert!(issues_of(&validators[2], b"a,b,c").is_empty());
    assert_eq!(issues_of(&validators[2], b"a;b;c").len(), 1);
}

#[test]
fn config_separator_is_cut_to_one_byte() {
    let config = ConfigFile {
        common: None,
        validators: vec![ConfigEntry::FieldCount {
            expected: 2,
            enabled: true,
            common: with_separator('\u{12c}'),
        }],
    };
    let validators = build_validators_from_config(config).expect("always built");
    assert!(issues_of(&validators[0], b"a,b").is_empty());
    assert_eq!(issues_of(&validators[0], b"a;b").len(), 1);
}

#[test]
fn config_without_enabled_rules_builds_nothing() {
    let config = ConfigFile {
        common: None,
        validators: vec![ConfigEntry::LineLength { max_length: 1, enabled: false, common: None }],
    };
    assert!(build_validators_from_config(config).expect("nothing to build").is_empty());
    let empty = ConfigFile { common: None, validators: Vec::new() };
    assert!(build_validators_from_config(empty).expect("nothing to build").is_empty());
}

#[test]
fn config_reports_an_enabled_rule_that_cannot_be_built() {
    let huge = String::from_utf8(vec![0u8; i32::MAX as usize]).expect("zero bytes are text");
    let config = ConfigFile {
        common: None,
        validators: vec![
            ConfigEntry::FieldCount { expected: 2, enabled: true, common: None },
            ConfigEntry::IllegalChars { illegal_chars: vec![huge], enabled: true, common: None },
        ],
    };
    assert_eq!(
        build_validators_from_config(config).err(),
        Some(ConfigError::PatternSet(PatternSetError::LimitExceeded))
    );
}

#[test]
fn config_skips_a_disabled_rule_that_could_not_be_built() {
    let huge = String::from_utf8(vec![0u8; i32::MAX as usize]).expect("zero bytes are text");
    let config = ConfigFile {
        common: None,
        validators: vec![
            ConfigEntry::IllegalChars { illegal_chars: vec![huge], enabled: false, common: None },
            ConfigEntry::FieldCount { expected: 2, enabled: true, common: None },
        ],
    };
    let validators = build_validators_from_config(config).expect("the bad rule is disabled");
    assert_eq!(validators.len(), 1);
}

#[test]
fn args_split_the_list_at_commas_and_trim_the_pieces() {
    let kind = ValidatorKind {
        illegal_chars: Some(" @ ,\t!!\u{a0},#\u{3000}".to_string()),
        field_count: Some(3),
        max_line_length: Some(1),
    };
    let validator = build_validator_from_args(&kind, b',').expect("small pattern set");
    assert_eq!(validator.name(), "illegal_characters");
    let found = issues_of(&validator, b"a @b!c!!d #");
    let spans: Vec<(Option<usize>, &str)> =
        found.iter().map(|issue| (issue.position, issue.message.as_str())).collect();
    assert_eq!(
        spans,
        vec![
            (Some(2), "Illegal character(s) '@'"),
            (Some(6), "Illegal character(s) '!!'"),
            (Some(10), "Illegal character(s) '#'"),
        ]
    );
}

#[test]
fn args_keep_white_space_inside_a_piece() {
    let kind = ValidatorKind {
        illegal_chars: Some("a b, c".to_string()),
        field_count: None,
        max_line_length: None,
    };
    let validator = build_validator_from_args(&kind, b',').expect("small pattern set");
    let found = issues_of(&validator, b"ab a b c");
    let positions: Vec<Option<usize>> = found.iter().map(|issue| issue.position).collect();
    assert_eq!(positions, vec![Some(3), Some(7)]);
}

#[test]
fn args_choose_the_field_count_before_the_length() {
    let kind = ValidatorKind { illegal_chars: None, field_count: Some(2), max_line_length: Some(1) };
    let validator = build_validator_from_args(&kind, b'|').expect("always built");
    assert_eq!(validator.name(), "field_count");
    assert!(issues_of(&validator, b"a|b").is_empty());
    assert_eq!(issues_of(&validator, b"a,b")[0].message, "Expected 2 fields, found 1");

    let kind = ValidatorKind { illegal_chars: None, field_count: None, max_line_length: Some(1) };
    let validator = build_validator_from_args(&kind, b'|').expect("always built");
    assert_eq!(validator.name(), "line_length");
    assert_eq!(issues_of(&validator, b"ab").len(), 1);
}

#[test]
fn args_without_a_rule_are_refused() {
    let kind = ValidatorKind { illegal_chars: None, field_count: None, max_line_length: None };
    assert_eq!(build_validator_from_args(&kind, b',').err(), Some(ConfigError::NoValidator));
}

#[test]
fn args_report_a_pattern_beyond_the_limit() {
    let huge = String::from_utf8(vec![0u8; i32::MAX as usize]).expect("zero bytes are text");
    let kind = ValidatorKind { illegal_chars: Some(huge), field_count: None, max_line_length: None };
    assert_eq!(
        build_validator_from_args(&kind, b',').err(),
        Some(ConfigError::PatternSet(PatternSetError::LimitExceeded))
    );
}

#[test]
fn entry_splits_into_rule_separator_and_switch() {
    let shared = with_separator(',');
    let entry =
        ConfigEntry::FieldCount { expected: 7, enabled: false, common: with_separator('\t') };
    let (rule, separator, enabled) = entry.into_rule(&shared);
    assert!(matches!(rule, ValidatorSpec::FieldCount { expected: 7, enabled: false }));
    assert_eq!(separator, b'\t');
    assert!(!enabled);

    let entry = ConfigEntry::IllegalChars {
        illegal_chars: vec!["x".to_string(), "yz".to_string()],
        enabled: true,
        common: None,
    };
    let (rule, separator, enabled) = entry.into_rule(&None);
    match rule {
        ValidatorSpec::IllegalChars { illegal_chars, enabled } => {
            assert_eq!(illegal_chars, vec!["x".to_string(), "yz".to_string()]);
            assert!(enabled);
        }
        other => panic!("unexpected {:?}", other),
    }
    assert_eq!(separator, b';');
    assert!(enabled);

    let entry = ConfigEntry::LineLength { max_length: 9, enabled: true, common: None };
    let (rule, separator, _) = entry.into_rule(&shared);
    assert!(matches!(rule, ValidatorSpec::LineLength { max_length: 9, enabled: true }));
    assert_eq!(separator, b',');
}

#[test]
fn borrowed_strings_keep_their_order() {
    let strings = vec!["b".to_string(), String::new(), "a\u{e9}".to_string()];
    assert_eq!(borrow_all(&strings), vec!["b", "", "a\u{e9}"]);
    assert!(borrow_all(&Vec::new()).is_empty());
}
