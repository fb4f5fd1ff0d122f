use csv_validator_core::validators::report_matches;
use csv_validator_core::{
    BuiltinValidator, DisabledValidator, FieldCountValidator, IllegalCharactersValidator, LineLengthValidator,
    PatternSetError, ValidationContext, ValidationIssue, ValidationResult, Validator,
};

fn issues_of(validator: &dyn Validator, line: &[u8], line_number: usize) -> Vec<ValidationIssue> {
    let mut issues = Vec::new();
    validator.validate(line, line_number, &mut issues);
    issues
}

#[test]
fn illegal_characters_are_reported_and_the_line_is_left_alone() {
    let validator = IllegalCharactersValidator::new(&["@"]).expect("small pattern set");
    let mut context = ValidationContext::new();

    let input = "hello@world";
    validator.validate(input.as_bytes(), 1, &mut context.issues);
    let result = ValidationResult::new(input);

    assert_eq!(context.issues.len(), 1);
    assert_eq!(result.line, "hello@world");
    assert!(!context.is_valid());
}

#[test]
fn illegal_characters_reports_each_match_with_its_offset() {
    let validator = IllegalCharactersValidator::new(&["@", "!"]).expect("small pattern set");
    let issues = issues_of(&validator, b"a@b!c", 1);
    assert_eq!(issues.len(), 2);
    assert_eq!(issues[0].position, Some(1));
    assert_eq!(issues[1].position, Some(3));
    assert_eq!(issues[0].message, "Illegal character(s) '@'");
    assert_eq!(issues[1].message, "Illegal character(s) '!'");
    assert_eq!(issues[0].validator, "illegal_characters");
    assert_eq!(issues[1].validator, "illegal_characters");
    assert_eq!(issues[0].line_number, 1);
    assert_eq!(issues[1].line_number, 1);
}

#[test]
fn illegal_characters_from_two_validators_add_up() {
    let at = IllegalCharactersValidator::new(&["@"]).expect("small pattern set");
    let bang = IllegalCharactersValidator::new(&["!"]).expect("small pattern set");
    let validators: Vec<&dyn Validator> = vec![&at, &bang];
    let mut context = ValidationContext::new();
    for validator in validators {
        validator.validate("hello@world!".as_bytes(), 1, &mut context.issues);
    }
    assert_eq!(context.issues.len(), 2);
    assert_eq!(context.issues[0].position, Some(5));
    assert_eq!(context.issues[1].position, Some(11));
}

#[test]
fn illegal_characters_is_silent_on_a_clean_record() {
    let validator = IllegalCharactersValidator::new(&["@", "!"]).expect("small pattern set");
    assert!(issues_of(&validator, b"a,b,c", 3).is_empty());
    assert!(issues_of(&validator, b"", 4).is_empty());
}

#[test]
fn illegal_characters_matches_substrings_of_several_bytes() {
    let validator = IllegalCharactersValidator::new(&["@@", "Zzzzz"]).expect("small pattern set");
    let issues = issues_of(&validator, b"x@y,Zzzzz,@@", 5);
    assert_eq!(issues.len(), 2);
    assert_eq!(issues[0].position, Some(4));
    assert_eq!(issues[0].message, "Illegal character(s) 'Zzzzz'");
    assert_eq!(issues[1].position, Some(10));
    assert_eq!(issues[1].message, "Illegal character(s) '@@'");
    assert_eq!(issues[1].line_number, 5);
}

#[test]
fn illegal_characters_counts_every_occurrence() {
    let validator = IllegalCharactersValidator::new(&["ab"]).expect("small pattern set");
    let issues = issues_of(&validator, b"ababab", 1);
    let positions: Vec<Option<usize>> = issues.iter().map(|issue| issue.position).collect();
    assert_eq!(positions, vec![Some(0), Some(2), Some(4)]);
}

#[test]
fn illegal_characters_shows_text_of_more_than_one_byte() {
    let pattern = "\u{e9}";
    let validator = IllegalCharactersValidator::new(&[&pattern[..]]).expect("small pattern set");
    let issues = issues_of(&validator, "caf\u{e9}".as_bytes(), 2);
    assert_eq!(issues.len(), 1);
    assert_eq!(issues[0].position, Some(3));
    assert_eq!(issues[0].message, "Illegal character(s) '\u{e9}'");
}

#[test]
fn illegal_characters_matches_the_empty_pattern_everywhere() {
    let empty = IllegalCharactersValidator::new(&[""]).expect("small pattern set");
    let issues = issues_of(&empty, &[0xff], 1);
    let positions: Vec<Option<usize>> = issues.iter().map(|issue| issue.position).collect();
    assert_eq!(positions, vec![Some(0), Some(1)]);
    assert_eq!(issues[0].message, "Illegal character(s) ''");
}

#[test]
fn reported_spans_that_are_not_text_get_a_placeholder() {
    let mut issues = vec![ValidationIssue {
        validator: "line_length",
        line_number: 1,
        position: None,
        message: String::from("kept"),
    }];
    let line = [b'a', 0xff, 0xfe, b'b', b'c'];
    report_matches(&line, 3, &[(1, 3), (3, 5), (0, 2), (5, 5)], &mut issues);
    assert_eq!(issues.len(), 5);
    assert_eq!(issues[0].message, "kept");
    assert_eq!(issues[1].message, "Illegal character(s) '<invalid utf8>'");
    assert_eq!(issues[1].position, Some(1));
    assert_eq!(issues[1].line_number, 3);
    assert_eq!(issues[1].validator, "illegal_characters");
    assert_eq!(issues[2].message, "Illegal character(s) 'bc'");
    assert_eq!(issues[2].position, Some(3));
    assert_eq!(issues[3].message, "Illegal character(s) '<invalid utf8>'");
    assert_eq!(issues[3].position, Some(0));
    assert_eq!(issues[4].message, "Illegal character(s) ''");
    assert_eq!(issues[4].position, Some(5));
}

#[test]
fn illegal_characters_with_no_pattern_finds_nothing() {
    let none: [&str; 0] = [];
    let validator = IllegalCharactersValidator::new(&none).expect("empty pattern set");
    assert!(issues_of(&validator, b"anything @ all!", 1).is_empty());
}

#[test]
fn illegal_characters_refuses_a_pattern_beyond_the_limit() {
    let length = i32::MAX as usize;
    let huge = String::from_utf8(vec![0u8; length]).expect("zero bytes are text");
    let made = IllegalCharactersValidator::new(&[huge.as_str()]);
    assert_eq!(made.err(), Some(PatternSetError::LimitExceeded));
}

#[test]
fn field_count_states_expected_and_actual() {
    let validator = FieldCountValidator::new(3, b',');
    assert!(issues_of(&validator, b"a,b,c", 7).is_empty());
    let issues = issues_of(&validator, b"a,b", 8);
    assert_eq!(issues.len(), 1);
    assert_eq!(issues[0].message, "Expected 3 fields, found 2");
    assert_eq!(issues[0].position, None);
    assert_eq!(issues[0].line_number, 8);
    assert_eq!(issues[0].validator, "field_count");
    let issues = issues_of(&validator, b"a,b,c,d,e,f,g,h,i,j,k,l", 9);
    assert_eq!(issues.len(), 1);
    assert_eq!(issues[0].message, "Expected 3 fields, found 12");
}

#[test]
fn field_count_of_an_empty_record_is_one() {
    let one = FieldCountValidator::new(1, b';');
    assert!(issues_of(&one, b"", 1).is_empty());
    let zero = FieldCountValidator::new(0, b';');
    let issues = issues_of(&zero, b"", 1);
    assert_eq!(issues.len(), 1);
    assert_eq!(issues[0].message, "Expected 0 fields, found 1");
}

#[test]
fn field_count_counts_its_own_delimiter_only() {
    let semicolons = FieldCountValidator::new(2, b';');
    assert!(issues_of(&semicolons, b"a,b;c,d", 1).is_empty());
    let long: Vec<u8> = std::iter::repeat(b';').take(99).collect();
    let hundred = FieldCountValidator::new(100, b';');
    assert!(issues_of(&hundred, &long, 1).is_empty());
    let issues = issues_of(&semicolons, &long, 1);
    assert_eq!(issues[0].message, "Expected 2 fields, found 100");
}

#[test]
fn line_length_allows_the_maximum_and_no_more() {
    let validator = LineLengthValidator::new(5);
    assert!(issues_of(&validator, b"", 1).is_empty());
    assert!(issues_of(&validator, b"12345", 1).is_empty());
    let issues = issues_of(&validator, b"123456", 2);
    assert_eq!(issues.len(), 1);
    assert_eq!(issues[0].message, "Line length 6 exceeds maximum 5");
    assert_eq!(issues[0].validator, "line_length");
    assert_eq!(issues[0].position, None);
    assert_eq!(issues[0].line_number, 2);
}

#[test]
fn line_length_counts_bytes_not_characters() {
    let validator = LineLengthValidator::new(4);
    let issues = issues_of(&validator, "caf\u{e9}s".as_bytes(), 1);
    assert_eq!(issues.len(), 1);
    assert_eq!(issues[0].message, "Line length 6 exceeds maximum 4");
}

#[test]
fn validators_carry_their_names() {
    let illegal = IllegalCharactersValidator::new(&["x"]).expect("small pattern set");
    assert_eq!(illegal.name(), "illegal_characters");
    assert_eq!(FieldCountValidator::new(1, b',').name(), "field_count");
    assert_eq!(LineLengthValidator::new(1).name(), "line_length");
    assert_eq!(BuiltinValidator::LineLength(LineLengthValidator::new(1)).name(), "line_length");
    assert_eq!(BuiltinValidator::FieldCount(FieldCountValidator::new(1, b',')).name(), "field_count");
    assert_eq!(BuiltinValidator::IllegalCharacters(illegal).name(), "illegal_characters");
}

#[test]
fn builtin_validator_reports_what_its_rule_reports() {
    let rule = BuiltinValidator::FieldCount(FieldCountValidator::new(2, b','));
    let issues = issues_of(&rule, b"a,b,c", 4);
    assert_eq!(issues.len(), 1);
    assert_eq!(issues[0].message, "Expected 2 fields, found 3");
    let rule = BuiltinValidator::LineLength(LineLengthValidator::new(2));
    assert_eq!(issues_of(&rule, b"abc", 4)[0].message, "Line length 3 exceeds maximum 2");
    let rule = BuiltinValidator::IllegalCharacters(
        IllegalCharactersValidator::new(&["b"]).expect("small pattern set"),
    );
    assert_eq!(issues_of(&rule, b"abc", 4)[0].position, Some(1));
}

#[test]
fn validate_appends_behind_what_is_there() {
    let validator = LineLengthValidator::new(0);
    let mut issues = Vec::new();
    validator.validate(b"a", 1, &mut issues);
    validator.validate(b"", 2, &mut issues);
    validator.validate(b"bc", 3, &mut issues);
    assert_eq!(issues.len(), 2);
    assert_eq!(issues[0].line_number, 1);
    assert_eq!(issues[1].line_number, 3);
}

#[test]
fn a_disabled_validator_reports_nothing() {
    let silent = DisabledValidator::new("field_count");
    assert_eq!(silent.name(), "field_count");
    let mut issues = issues_of(&silent, b"a,b,c,d", 1);
    assert!(issues.is_empty());
    issues.push(ValidationIssue {
        validator: "line_length",
        line_number: 1,
        position: None,
        message: String::from("kept"),
    });
    silent.validate(b"anything", 2, &mut issues);
    assert_eq!(issues.len(), 1);
    assert_eq!(issues[0].message, "kept");
    let wrapped = BuiltinValidator::Disabled(silent.clone());
    assert_eq!(wrapped.name(), "field_count");
    assert!(issues_of(&wrapped, b"a,b,c,d", 1).is_empty());
}

#[test]
fn cloned_validators_report_what_the_first_reports() {
    let illegal = IllegalCharactersValidator::new(&["@", "!!"]).expect("small pattern set");
    let copy = illegal.clone();
    let first = issues_of(&illegal, b"a@b!!c", 3);
    let second = issues_of(&copy, b"a@b!!c", 3);
    assert_eq!(first.len(), 2);
    assert_eq!(second.len(), 2);
    for (left, right) in first.iter().zip(second.iter()) {
        assert_eq!(left.position, right.position);
        assert_eq!(left.message, right.message);
    }
    let fields = FieldCountValidator::new(2, b',').clone();
    assert_eq!(issues_of(&fields, b"a,b,c", 1)[0].message, "Expected 2 fields, found 3");
    let length = LineLengthValidator::new(2).clone();
    assert_eq!(issues_of(&length, b"abc", 1)[0].message, "Line length 3 exceeds maximum 2");
}

#[test]
fn illegal_character_positions_go_up_and_spans_do_not_overlap() {
    let validator = IllegalCharactersValidator::new(&["aa", "ab", "b"]).expect("small set");
    let issues = issues_of(&validator, b"aaabbaab", 1);
    let positions: Vec<usize> = issues.iter().map(|issue| issue.position.unwrap()).collect();
    assert_eq!(positions, vec![0, 2, 4, 5, 7]);
    let texts: Vec<&str> = issues.iter().map(|issue| issue.message.as_str()).collect();
    assert_eq!(
        texts,
        vec![
            "Illegal character(s) 'aa'",
            "Illegal character(s) 'ab'",
            "Illegal character(s) 'b'",
            "Illegal character(s) 'aa'",
            "Illegal character(s) 'b'",
        ]
    );
}
