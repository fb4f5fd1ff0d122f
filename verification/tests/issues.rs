use csv_validator_core::text::{push_decimal, push_text_or_placeholder};
use csv_validator_core::{ValidationContext, ValidationIssue, ValidationResult};

#[test]
fn context_starts_valid_and_keeps_issues_in_order() {
    let mut context = ValidationContext::new();
    assert!(context.is_valid());
    assert!(context.issues.is_empty());
    context.add_issue(ValidationIssue {
        validator: "field_count",
        line_number: 3,
        position: None,
        message: String::from("first"),
    });
    context.add_issue(ValidationIssue {
        validator: "line_length",
        line_number: 4,
        position: Some(2),
        message: String::from("second"),
    });
    assert!(!context.is_valid());
    assert_eq!(context.issues.len(), 2);
    assert_eq!(context.issues[0].message, "first");
    assert_eq!(context.issues[1].message, "second");
    assert_eq!(context.issues[1].position, Some(2));
}

#[test]
fn result_borrows_the_line() {
    let line = String::from("a;b;c");
    let result = ValidationResult::new(&line);
    assert_eq!(result.line, "a;b;c");
    assert!(matches!(result.line, std::borrow::Cow::Borrowed(_)));
}

#[test]
fn issue_line_has_the_output_format() {
    let with_position = ValidationIssue {
        validator: "illegal_characters",
        line_number: 12,
        position: Some(3),
        message: String::from("Illegal character(s) '@'"),
    };
    assert_eq!(
        with_position.to_line(),
        "[illegal_characters] Line 12, Position Some(3): Illegal character(s) '@'"
    );
    let without_position = ValidationIssue {
        validator: "field_count",
        line_number: 1,
        position: None,
        message: String::from("Expected 3 fields, found 2"),
    };
    assert_eq!(
        without_position.to_line(),
        "[field_count] Line 1, Position None: Expected 3 fields, found 2"
    );
    assert_eq!(
        without_position.to_line(),
        format!(
            "[{}] Line {}, Position {:?}: {}",
            without_position.validator,
            without_position.line_number,
            without_position.position,
            without_position.message
        )
    );
}

#[test]
fn decimal_numerals_are_exact() {
    let cases: Vec<u128> = vec![0, 7, 9, 10, 11, 99, 100, 101, 12345, 1_000_000, u64::MAX as u128, u128::MAX];
    for n in cases {
        let mut text = String::from("n=");
        push_decimal(&mut text, n);
        assert_eq!(text, format!("n={}", n));
    }
}

#[test]
fn text_is_shown_where_the_bytes_are_text() {
    let mut shown = String::from("<");
    push_text_or_placeholder(&mut shown, "gr\u{fc}n".as_bytes());
    push_text_or_placeholder(&mut shown, b"");
    push_text_or_placeholder(&mut shown, &[0xc3]);
    push_text_or_placeholder(&mut shown, &[0xed, 0xa0, 0x80]);
    assert_eq!(shown, "<gr\u{fc}n<invalid utf8><invalid utf8>");
}
