use csv_validator_core::{
    all_delivered, execute_validators, must_wait, process_batch, validate_bytes, validate_record, BatchDispatcher,
    BuiltinValidator, FieldCountValidator, IllegalCharactersValidator, IssueCollector,
    LineLengthValidator, ValidationIssue, ValidationOptions, ValidatorSpec, WorkerPool,
};

fn key(issue: &ValidationIssue) -> (usize, String, Option<usize>, String) {
    (issue.line_number, issue.validator.to_string(), issue.position, issue.message.clone())
}

fn keys(issues: &[ValidationIssue]) -> Vec<(usize, String, Option<usize>, String)> {
    issues.iter().map(key).collect()
}

fn sorted_keys(issues: &[ValidationIssue]) -> Vec<(usize, String, Option<usize>, String)> {
    let mut all = keys(issues);
    all.sort();
    all
}

fn three_rules() -> Vec<BuiltinValidator> {
    vec![
        BuiltinValidator::IllegalCharacters(
            IllegalCharactersValidator::new(&["@@", "Zzzzz"]).expect("small pattern set"),
        ),
        BuiltinValidator::FieldCount(FieldCountValidator::new(3, b',')),
        BuiltinValidator::LineLength(LineLengthValidator::new(80)),
    ]
}

fn options(batch_size: usize, preserve_order: bool) -> ValidationOptions {
    ValidationOptions { threads: 2, batch_size, buffer_size: 1024 * 1024, preserve_order }
}

const BAD_CSV: &[u8] = b"id,name,comment\n\
1,Alice,fine\n\
2,Bob,\"spans\ntwo lines\"\n\
3,Carol\n\
4,Dave,Zzzzz\n\
5,Eve,a@@b,extra\n\
6,Frank,0123456789012345678901234567890123456789012345678901234567890123456789012345678901234567890\n";

#[test]
fn bad_csv_has_issues_and_one_of_them_names_the_forbidden_word() {
    let specs = vec![
        ValidatorSpec::new_illegal_chars(vec!["@@".to_string(), "Zzzzz".to_string()]),
        ValidatorSpec::new_field_count(3),
        ValidatorSpec::LineLength { enabled: true, max_length: 80 },
    ];
    let validators: Vec<BuiltinValidator> = specs
        .into_iter()
        .map(|spec| spec.into_validator(b',').expect("small pattern set"))
        .collect();
    let options =
        ValidationOptions { threads: 2, batch_size: 100, buffer_size: 1024 * 1024, preserve_order: false };

    let issues = validate_bytes(BAD_CSV, &validators, &options);

    assert!(!issues.is_empty(), "Expected validation issues");
    for issue in &issues {
        println!(
            "[{}] Line {}, Pos {:?}: {}",
            issue.validator, issue.line_number, issue.position, issue.message
        );
    }
    assert!(issues.iter().any(|i| i.line_number == 5 && i.message.contains("Zzzzz")));
}

#[test]
fn run_reports_every_issue_of_every_record() {
    let issues = validate_bytes(BAD_CSV, &three_rules(), &options(100, true));
    let expected: Vec<(usize, String, Option<usize>, String)> = vec![
        (4, "field_count".to_string(), None, "Expected 3 fields, found 2".to_string()),
        (5, "illegal_characters".to_string(), Some(7), "Illegal character(s) 'Zzzzz'".to_string()),
        (6, "illegal_characters".to_string(), Some(7), "Illegal character(s) '@@'".to_string()),
        (6, "field_count".to_string(), None, "Expected 3 fields, found 4".to_string()),
        (7, "line_length".to_string(), None, "Line length 99 exceeds maximum 80".to_string()),
    ];
    assert_eq!(keys(&issues), expected);
}

#[test]
fn batch_size_does_not_change_the_issues() {
    let validators = three_rules();
    let reference = sorted_keys(&validate_bytes(BAD_CSV, &validators, &options(100_000, false)));
    assert_eq!(reference.len(), 5);
    for batch_size in [0usize, 1, 2, 3, 4, 5, 6, 7, 8, 1000] {
        for preserve_order in [false, true] {
            let issues = validate_bytes(BAD_CSV, &validators, &options(batch_size, preserve_order));
            assert_eq!(sorted_keys(&issues), reference);
        }
    }
}

#[test]
fn issues_come_sorted_by_record_and_then_by_validator() {
    let validators = vec![
        BuiltinValidator::LineLength(LineLengthValidator::new(0)),
        BuiltinValidator::FieldCount(FieldCountValidator::new(9, b',')),
    ];
    for batch_size in [1usize, 2, 3, 10] {
        let issues = validate_bytes(b"a\nbb\nccc\n", &validators, &options(batch_size, true));
        let order: Vec<(usize, &str)> =
            issues.iter().map(|issue| (issue.line_number, issue.validator)).collect();
        assert_eq!(
            order,
            vec![
                (1, "line_length"),
                (1, "field_count"),
                (2, "line_length"),
                (2, "field_count"),
                (3, "line_length"),
                (3, "field_count"),
            ]
        );
    }
}

#[test]
fn thread_count_does_not_change_the_issues() {
    let validators = three_rules();
    let reference = keys(&validate_bytes(BAD_CSV, &validators, &options(2, true)));
    let mut reference_set = reference.clone();
    reference_set.sort();
    for threads in [0usize, 1, 2, 5] {
        let ordered =
            ValidationOptions { threads, batch_size: 2, buffer_size: 16, preserve_order: true };
        assert_eq!(keys(&validate_bytes(BAD_CSV, &validators, &ordered)), reference);
        let unordered =
            ValidationOptions { threads, batch_size: 2, buffer_size: 16, preserve_order: false };
        assert_eq!(sorted_keys(&validate_bytes(BAD_CSV, &validators, &unordered)), reference_set);
    }
}

#[test]
fn worker_pool_keeps_to_the_number_of_threads() {
    for threads in [1usize, 2, 3, 7] {
        let workers = WorkerPool::new(threads);
        let started = workers.thread_count();
        assert!(started <= threads);
        assert!(started == threads || started == 0);
    }
    let workers = WorkerPool::new(0);
    let lines = vec![(1usize, b"a,b".to_vec())];
    let validators = three_rules();
    assert_eq!(workers.run_batch(&lines, &validators).len(), 1);
}

#[test]
fn run_over_nothing_finds_nothing() {
    assert!(validate_bytes(b"", &three_rules(), &ValidationOptions::default()).is_empty());
    let none: Vec<BuiltinValidator> = Vec::new();
    assert!(validate_bytes(BAD_CSV, &none, &ValidationOptions::default()).is_empty());
}

#[test]
fn default_options_are_the_documented_ones() {
    let options = ValidationOptions::default();
    assert_eq!(options.threads, 8);
    assert_eq!(options.batch_size, 100_000);
    assert_eq!(options.buffer_size, 8 * 1024 * 1024);
    assert!(!options.preserve_order);
}

#[test]
fn record_issues_follow_the_order_of_the_validators() {
    let validators = vec![
        BuiltinValidator::LineLength(LineLengthValidator::new(1)),
        BuiltinValidator::IllegalCharacters(
            IllegalCharactersValidator::new(&["x"]).expect("small pattern set"),
        ),
        BuiltinValidator::FieldCount(FieldCountValidator::new(1, b',')),
    ];
    let issues = validate_record(&validators, b"x,x", 9);
    let order: Vec<(&str, Option<usize>)> =
        issues.iter().map(|issue| (issue.validator, issue.position)).collect();
    assert_eq!(
        order,
        vec![
            ("line_length", None),
            ("illegal_characters", Some(0)),
            ("illegal_characters", Some(2)),
            ("field_count", None),
        ]
    );
    assert!(issues.iter().all(|issue| issue.line_number == 9));
}

#[test]
fn parallel_and_sequential_batches_agree() {
    let validators = three_rules();
    let mut lines: Vec<(usize, Vec<u8>)> = Vec::new();
    for number in 1..=500usize {
        let text = match number % 4 {
            0 => format!("{},a,b", number),
            1 => format!("{},a", number),
            2 => format!("{},Zzzzz,@@", number),
            _ => format!("{},a,b,c", number),
        };
        lines.push((number, text.into_bytes()));
    }
    let sequential = process_batch(&lines, &validators);
    let parallel = execute_validators(&lines, &validators);
    assert_eq!(keys(&parallel), keys(&sequential));
    for threads in [0usize, 1, 3] {
        let pooled = WorkerPool::new(threads).run_batch(&lines, &validators);
        assert_eq!(keys(&pooled), keys(&sequential));
    }
    assert_eq!(sequential.len(), 125 + 250 + 125);
    assert_eq!(sequential[0].line_number, 1);
    assert_eq!(sequential[0].message, "Expected 3 fields, found 2");
    let empty: Vec<(usize, Vec<u8>)> = Vec::new();
    assert!(execute_validators(&empty, &validators).is_empty());
    assert!(process_batch(&empty, &validators).is_empty());
}

#[test]
fn dispatcher_numbers_records_and_fills_batches() {
    let mut dispatcher = BatchDispatcher::new(2);
    assert_eq!(dispatcher.records_taken(), 0);
    assert!(dispatcher.push(b"a".to_vec()).is_none());
    assert_eq!(dispatcher.records_taken(), 1);
    let first = dispatcher.push(b"b".to_vec()).expect("second record fills the batch");
    assert_eq!(first.sequence, 0);
    assert_eq!(first.lines, vec![(1, b"a".to_vec()), (2, b"b".to_vec())]);
    assert!(dispatcher.push(b"c".to_vec()).is_none());
    let second = dispatcher.push(b"d".to_vec()).expect("fourth record fills the batch");
    assert_eq!(second.sequence, 1);
    assert_eq!(second.lines, vec![(3, b"c".to_vec()), (4, b"d".to_vec())]);
    assert!(dispatcher.push(b"e".to_vec()).is_none());
    assert_eq!(dispatcher.records_taken(), 5);
    let last = dispatcher.finish().expect("one record waits");
    assert_eq!(last.sequence, 2);
    assert_eq!(last.lines, vec![(5, b"e".to_vec())]);
    assert!(dispatcher.finish().is_none());
}

#[test]
fn dispatcher_takes_zero_as_one() {
    let mut dispatcher = BatchDispatcher::new(0);
    let first = dispatcher.push(b"a".to_vec()).expect("every record is a batch");
    assert_eq!((first.sequence, first.lines.len()), (0, 1));
    let second = dispatcher.push(b"b".to_vec()).expect("every record is a batch");
    assert_eq!(second.sequence, 1);
    assert_eq!(second.lines, vec![(2, b"b".to_vec())]);
    assert!(dispatcher.finish().is_none());
    let mut untouched = BatchDispatcher::new(3);
    assert!(untouched.finish().is_none());
}

fn issue(line_number: usize, message: &str) -> ValidationIssue {
    ValidationIssue {
        validator: "line_length",
        line_number,
        position: None,
        message: message.to_string(),
    }
}

#[test]
fn collector_preserves_the_order_of_the_batches_on_request() {
    let mut collector = IssueCollector::new(true);
    collector.accept(2, vec![issue(5, "e"), issue(6, "f")]);
    collector.accept(0, vec![issue(1, "a")]);
    collector.accept(3, vec![]);
    collector.accept(1, vec![issue(3, "c"), issue(4, "d")]);
    let issues = collector.finish();
    let order: Vec<usize> = issues.iter().map(|issue| issue.line_number).collect();
    assert_eq!(order, vec![1, 3, 4, 5, 6]);
    let messages: Vec<&str> = issues.iter().map(|issue| issue.message.as_str()).collect();
    assert_eq!(messages, vec!["a", "c", "d", "e", "f"]);
}

#[test]
fn collector_keeps_the_order_of_arrival_otherwise() {
    let mut collector = IssueCollector::new(false);
    collector.accept(2, vec![issue(5, "e"), issue(6, "f")]);
    collector.accept(0, vec![issue(1, "a")]);
    collector.accept(1, vec![issue(3, "c"), issue(4, "d")]);
    let issues = collector.finish();
    let order: Vec<usize> = issues.iter().map(|issue| issue.line_number).collect();
    assert_eq!(order, vec![5, 6, 1, 3, 4]);
    assert!(IssueCollector::new(false).finish().is_empty());
    assert!(IssueCollector::new(true).finish().is_empty());
}

#[test]
fn reading_waits_only_at_the_limit() {
    assert!(!must_wait(0, 0, None));
    assert!(!must_wait(100, 0, None));
    assert!(!must_wait(0, 0, Some(1)));
    assert!(must_wait(1, 0, Some(1)));
    assert!(!must_wait(5, 3, Some(3)));
    assert!(must_wait(6, 3, Some(3)));
    assert!(must_wait(7, 3, Some(3)));
    assert!(!must_wait(0, 0, Some(0)));
    assert!(must_wait(4, 3, Some(0)));
    assert!(!must_wait(3, 4, Some(1)));
    assert!(must_wait(usize::MAX, 0, Some(usize::MAX)));
    assert!(!must_wait(usize::MAX - 1, 0, Some(usize::MAX)));
}

#[test]
fn a_run_is_complete_when_every_result_is_in() {
    assert!(all_delivered(0, 0));
    assert!(all_delivered(7, 7));
    assert!(!all_delivered(7, 6));
    assert!(!all_delivered(6, 7));
}
