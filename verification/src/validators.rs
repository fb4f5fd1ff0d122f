//! The built-in rules: forbidden substrings, field count, record length.

use crate::bytes::{count_byte, count_occurrences};
use crate::issue::{issue_views, lemma_issue_views_push, IssueView, ValidationIssue};
use crate::text::{decimal, push_decimal, push_text_or_placeholder, text_or_placeholder};
use crate::validator::Validator;
use aho_corasick::AhoCorasick;
use aho_corasick::BuildError;
use vstd::prelude::*;
use vstd::string::StringExecFns;
use vstd::string::StringSliceAdditionalSpecFns;

verus! {

/// `aho_corasick::AhoCorasick`, a matcher for a fixed list of patterns.
/// Nothing inside it is visible to proofs.
#[verifier::external_type_specification]
#[verifier::external_body]
pub struct ExAhoCorasick(AhoCorasick);

/// `aho_corasick::BuildError`, the reason for which no matcher was built.
#[verifier::external_type_specification]
#[verifier::external_body]
pub struct ExBuildError(BuildError);

/// The patterns that `matcher` searches for, in the order in which they were
/// given when it was built.
pub uninterp spec fn matcher_patterns(matcher: AhoCorasick) -> Seq<Seq<u8>>;

/// Whether a matcher can be built for `patterns`: it cannot where their
/// number or their lengths exceed the limits of the automaton.
pub uninterp spec fn matcher_builds(patterns: Seq<Seq<u8>>) -> bool;

/// The spans `(start, end)` that a search for `patterns` reports in
/// `haystack`: non-overlapping, each reported as soon as the scan has
/// seen its last byte.
pub uninterp spec fn pattern_matches(patterns: Seq<Seq<u8>>, haystack: Seq<u8>) -> Seq<
    (usize, usize),
>;

/// The byte strings of a list of patterns.
pub open spec fn pattern_bytes(patterns: Seq<&str>) -> Seq<Seq<u8>> {
    patterns.map_values(|pattern: &str| pattern.spec_bytes())
}

/// `pattern` stands in `haystack` at offset `at`.
pub open spec fn occurs_at(haystack: Seq<u8>, pattern: Seq<u8>, at: int) -> bool {
    &&& 0 <= at
    &&& at + pattern.len() <= haystack.len()
    &&& haystack.subrange(at, at + pattern.len()) == pattern
}

/// Some pattern stands somewhere in `haystack`.
pub open spec fn any_occurs(patterns: Seq<Seq<u8>>, haystack: Seq<u8>) -> bool {
    exists|k: int, at: int|
        0 <= k < patterns.len() && #[trigger] occurs_at(haystack, patterns[k], at)
}

/// `span` lies within `haystack` and the bytes it covers are one of the patterns.
pub open spec fn is_occurrence(patterns: Seq<Seq<u8>>, haystack: Seq<u8>, span: (usize, usize))
    -> bool {
    &&& span.0 <= span.1 <= haystack.len()
    &&& exists|k: int|
        0 <= k < patterns.len() && #[trigger] patterns[k] == haystack.subrange(
            span.0 as int,
            span.1 as int,
        )
}

/// Every span lies within a record of `len` bytes.
pub open spec fn spans_within(spans: Seq<(usize, usize)>, len: nat) -> bool {
    forall|i: int| 0 <= i < spans.len() ==> (#[trigger] spans[i]).0 <= spans[i].1 <= len
}

/// The spans come in ascending order and do not overlap: each starts behind
/// the start of the one before it, and not before its end.
pub open spec fn spans_ascend(spans: Seq<(usize, usize)>) -> bool {
    forall|i: int, j: int|
        0 <= i < j < spans.len() ==> (#[trigger] spans[i]).1 <= (#[trigger] spans[j]).0
            && spans[i].0 < spans[j].0
}

/// `AhoCorasick::new`: builds the automaton for `patterns` with the default
/// configuration, or fails where a limit is exceeded. Whether it fails
/// depends on the patterns alone.
#[verifier::external_body]
fn build_matcher(patterns: &[&str]) -> (built: Result<AhoCorasick, BuildError>)
    ensures
        built is Ok <==> matcher_builds(pattern_bytes(patterns@)),
        built is Ok ==> matcher_patterns(built->Ok_0) == pattern_bytes(patterns@),
{
    AhoCorasick::new(patterns)
}

/// `AhoCorasick::find_iter`: the non-overlapping matches in `haystack`, as
/// `(start, end)` offsets, in the order in which the scan finds them. Each
/// match covers an occurrence of one of the patterns, each begins where the
/// match before it ended or later, and where some pattern occurs at least
/// one match is reported.
#[verifier::external_body]
fn find_matches(matcher: &AhoCorasick, haystack: &[u8]) -> (spans: Vec<(usize, usize)>)
    ensures
        spans@ == pattern_matches(matcher_patterns(*matcher), haystack@),
        forall|i: int|
            0 <= i < spans.len() ==> is_occurrence(
                matcher_patterns(*matcher),
                haystack@,
                #[trigger] spans[i],
            ),
        spans_ascend(spans@),
        any_occurs(matcher_patterns(*matcher), haystack@) ==> spans.len() > 0,
{
    matcher.find_iter(haystack).map(|found| (found.start(), found.end())).collect()
}

/// `AhoCorasick::clone`: a matcher for the same patterns.
#[verifier::external_body]
fn clone_matcher(matcher: &AhoCorasick) -> (copy: AhoCorasick)
    ensures
        matcher_patterns(copy) == matcher_patterns(*matcher),
{
    matcher.clone()
}

/// The pattern set given to [`IllegalCharactersValidator::new`] exceeds what
/// a matcher can hold.
#[derive(Debug, Clone, Copy, PartialEq, Eq, Structural)]
pub enum PatternSetError {
    /// There are too many patterns, or they are too long.
    LimitExceeded,
}

/// The issue reported for one match of a forbidden pattern.
pub open spec fn illegal_issue(line: Seq<u8>, line_number: usize, span: (usize, usize))
    -> IssueView {
    IssueView {
        validator: "illegal_characters"@,
        line_number,
        position: Some(span.0),
        message: "Illegal character(s) '"@ + text_or_placeholder(
            line.subrange(span.0 as int, span.1 as int),
        ) + "'"@,
    }
}

/// Every issue has a position, and the positions go up from one issue to the
/// next.
pub open spec fn positions_ascend(issues: Seq<IssueView>) -> bool {
    &&& forall|i: int| 0 <= i < issues.len() ==> (#[trigger] issues[i]).position is Some
    &&& forall|i: int, j: int|
        0 <= i < j < issues.len() ==> (#[trigger] issues[i]).position->Some_0 < (
        #[trigger] issues[j]).position->Some_0
}

/// One issue per match, in the order of the matches.
pub open spec fn illegal_issues(line: Seq<u8>, line_number: usize, spans: Seq<(usize, usize)>)
    -> Seq<IssueView> {
    spans.map_values(|span: (usize, usize)| illegal_issue(line, line_number, span))
}

/// Appends one issue for each span of `spans`: its start as the position,
/// the bytes it covers as the offending text.
pub fn report_matches(
    line: &[u8],
    line_number: usize,
    spans: &[(usize, usize)],
    issues: &mut Vec<ValidationIssue>,
)
    requires
        spans_within(spans@, line@.len()),
    ensures
        issue_views(final(issues)@) == issue_views(old(issues)@) + illegal_issues(
            line@,
            line_number,
            spans@,
        ),
{
    let mut i: usize = 0;
    assert(illegal_issues(line@, line_number, spans@.take(0)) =~= Seq::<IssueView>::empty());
    while i < spans.len()
        invariant
            i <= spans.len(),
            spans_within(spans@, line@.len()),
            issue_views(issues@) == issue_views(old(issues)@) + illegal_issues(
                line@,
                line_number,
                spans@.take(i as int),
            ),
        decreases spans.len() - i,
    {
        let span = spans[i];
        assert(spans@[i as int].0 <= spans@[i as int].1 <= line@.len());
        let covered = vstd::slice::slice_subrange(line, span.0, span.1);
        let mut message = String::from_str("Illegal character(s) '");
        push_text_or_placeholder(&mut message, covered);
        message.append("'");
        let issue = ValidationIssue {
            validator: "illegal_characters",
            line_number,
            position: Some(span.0),
            message,
        };
        proof {
            lemma_issue_views_push(issues@, issue);
            assert(issue@ == illegal_issue(line@, line_number, span));
            assert(spans@.take(i as int + 1) =~= spans@.take(i as int).push(span));
            assert(illegal_issues(line@, line_number, spans@.take(i as int + 1))
                =~= illegal_issues(line@, line_number, spans@.take(i as int)).push(issue@));
        }
        issues.push(issue);
        i += 1;
    }
    assert(spans@.take(spans.len() as int) =~= spans@);
}

/// Reports every occurrence of a forbidden substring.
pub struct IllegalCharactersValidator {
    matcher: AhoCorasick,
}

impl IllegalCharactersValidator {
    /// The forbidden byte strings, in the order in which they were given.
    pub closed spec fn patterns(&self) -> Seq<Seq<u8>> {
        matcher_patterns(self.matcher)
    }

    /// A validator for the given forbidden substrings. Fails where no
    /// matcher can be built for them.
    pub fn new(patterns: &[&str]) -> (made: Result<Self, PatternSetError>)
        ensures
            made is Ok <==> matcher_builds(pattern_bytes(patterns@)),
            made is Ok ==> made->Ok_0.patterns() == pattern_bytes(patterns@),
    {
        match build_matcher(patterns) {
            Ok(matcher) => Ok(Self { matcher }),
            Err(_) => Err(PatternSetError::LimitExceeded),
        }
    }
}

impl Clone for IllegalCharactersValidator {
    /// A validator for the same forbidden substrings.
    fn clone(&self) -> (copy: Self)
        ensures
            copy.patterns() == self.patterns(),
    {
        Self { matcher: clone_matcher(&self.matcher) }
    }
}

impl Validator for IllegalCharactersValidator {
    open spec fn name_spec(&self) -> Seq<char> {
        "illegal_characters"@
    }

    open spec fn issues_for(&self, line: Seq<u8>, line_number: usize) -> Seq<IssueView> {
        illegal_issues(line, line_number, pattern_matches(self.patterns(), line))
    }

    /// One issue per match. Beyond the trait's contract: each issue points
    /// at an occurrence of a forbidden pattern, the issues come in the order
    /// of their positions and their occurrences do not overlap, and a record
    /// in which some pattern occurs gets at least one issue.
    fn validate(&self, line: &[u8], line_number: usize, issues: &mut Vec<ValidationIssue>)
        ensures
            forall|i: int|
                0 <= i < pattern_matches(self.patterns(), line@).len() ==> is_occurrence(
                    self.patterns(),
                    line@,
                    #[trigger] pattern_matches(self.patterns(), line@)[i],
                ),
            spans_ascend(pattern_matches(self.patterns(), line@)),
            positions_ascend(self.issues_for(line@, line_number)),
            self.issues_for(line@, line_number).len() == 0 <==> !any_occurs(
                self.patterns(),
                line@,
            ),
    {
        let spans = find_matches(&self.matcher, line);
        proof {
            if spans@.len() > 0 {
                let span = spans@[0];
                assert(is_occurrence(self.patterns(), line@, span));
                let k = choose|k: int|
                    0 <= k < self.patterns().len() && #[trigger] self.patterns()[k]
                        == line@.subrange(span.0 as int, span.1 as int);
                assert(occurs_at(line@, self.patterns()[k], span.0 as int));
            }
        }
        report_matches(line, line_number, spans.as_slice(), issues);
    }

    fn name(&self) -> (name: &'static str) {
        "illegal_characters"
    }

    proof fn lemma_issues_tagged(&self, line: Seq<u8>, line_number: usize) {
    }
}

/// The number of fields of `line`: one more than the number of delimiters.
pub open spec fn field_count(line: Seq<u8>, delimiter: u8) -> nat {
    count_byte(line, delimiter) + 1
}

/// The issue reported for a record with the wrong number of fields.
pub open spec fn field_count_issue(line_number: usize, expected: nat, actual: nat) -> IssueView {
    IssueView {
        validator: "field_count"@,
        line_number,
        position: None,
        message: "Expected "@ + decimal(expected) + " fields, found "@ + decimal(actual),
    }
}

/// Reports a record whose number of fields differs from the expected one.
#[derive(Clone)]
pub struct FieldCountValidator {
    expected_fields: usize,
    delimiter: u8,
}

impl FieldCountValidator {
    /// The number of fields that a record must have.
    pub closed spec fn expected(&self) -> usize {
        self.expected_fields
    }

    /// The byte that separates fields.
    pub closed spec fn separator(&self) -> u8 {
        self.delimiter
    }

    /// A validator that asks for `expected_fields` fields, separated by
    /// `delimiter`, in every record.
    pub fn new(expected_fields: usize, delimiter: u8) -> (made: Self)
        ensures
            made.expected() == expected_fields,
            made.separator() == delimiter,
    {
        Self { expected_fields, delimiter }
    }
}

impl Validator for FieldCountValidator {
    open spec fn name_spec(&self) -> Seq<char> {
        "field_count"@
    }

    open spec fn issues_for(&self, line: Seq<u8>, line_number: usize) -> Seq<IssueView> {
        if field_count(line, self.separator()) == self.expected() {
            Seq::empty()
        } else {
            seq![
                field_count_issue(
                    line_number,
                    self.expected() as nat,
                    field_count(line, self.separator()),
                ),
            ]
        }
    }

    fn validate(&self, line: &[u8], line_number: usize, issues: &mut Vec<ValidationIssue>) {
        let actual_fields: u128 = count_occurrences(line, self.delimiter) as u128 + 1;
        if actual_fields != self.expected_fields as u128 {
            let mut message = String::from_str("Expected ");
            push_decimal(&mut message, self.expected_fields as u128);
            message.append(" fields, found ");
            push_decimal(&mut message, actual_fields);
            let issue = ValidationIssue {
                validator: "field_count",
                line_number,
                position: None,
                message,
            };
            proof {
                lemma_issue_views_push(issues@, issue);
            }
            issues.push(issue);
            assert(issue_views(issues@) =~= issue_views(old(issues)@) + self.issues_for(
                line@,
                line_number,
            ));
        } else {
            assert(issue_views(issues@) =~= issue_views(old(issues)@) + self.issues_for(
                line@,
                line_number,
            ));
        }
    }

    fn name(&self) -> (name: &'static str) {
        "field_count"
    }

    proof fn lemma_issues_tagged(&self, line: Seq<u8>, line_number: usize) {
    }
}

/// A record with exactly the expected number of fields raises no issue; any
/// other number of fields raises exactly one issue, which has no position
/// and states both the expected and the actual number.
pub proof fn lemma_field_count_rule(
    validator: FieldCountValidator,
    line: Seq<u8>,
    line_number: usize,
)
    ensures
        field_count(line, validator.separator()) == validator.expected()
            ==> validator.issues_for(line, line_number).len() == 0,
        field_count(line, validator.separator()) != validator.expected() ==> {
            &&& validator.issues_for(line, line_number).len() == 1
            &&& validator.issues_for(line, line_number)[0].position is None
            &&& validator.issues_for(line, line_number)[0].line_number == line_number
            &&& validator.issues_for(line, line_number)[0].message == "Expected "@ + decimal(
                validator.expected() as nat,
            ) + " fields, found "@ + decimal(count_byte(line, validator.separator()) + 1)
        },
{
}

/// The issue reported for a record that is too long.
pub open spec fn line_length_issue(line_number: usize, length: nat, max_length: nat)
    -> IssueView {
    IssueView {
        validator: "line_length"@,
        line_number,
        position: None,
        message: "Line length "@ + decimal(length) + " exceeds maximum "@ + decimal(max_length),
    }
}

/// Reports a record that is longer than a maximum number of bytes.
#[derive(Clone)]
pub struct LineLengthValidator {
    max_length: usize,
}

impl LineLengthValidator {
    /// The greatest length, in bytes, that a record may have.
    pub closed spec fn max(&self) -> usize {
        self.max_length
    }

    /// A validator that allows records of up to `max_length` bytes.
    pub fn new(max_length: usize) -> (made: Self)
        ensures
            made.max() == max_length,
    {
        Self { max_length }
    }
}

impl Validator for LineLengthValidator {
    open spec fn name_spec(&self) -> Seq<char> {
        "line_length"@
    }

    open spec fn issues_for(&self, line: Seq<u8>, line_number: usize) -> Seq<IssueView> {
        if line.len() > self.max() {
            seq![line_length_issue(line_number, line.len(), self.max() as nat)]
        } else {
            Seq::empty()
        }
    }

    fn validate(&self, line: &[u8], line_number: usize, issues: &mut Vec<ValidationIssue>) {
        if line.len() > self.max_length {
            let mut message = String::from_str("Line length ");
            push_decimal(&mut message, line.len() as u128);
            message.append(" exceeds maximum ");
            push_decimal(&mut message, self.max_length as u128);
            let issue = ValidationIssue {
                validator: "line_length",
                line_number,
                position: None,
                message,
            };
            proof {
                lemma_issue_views_push(issues@, issue);
            }
            issues.push(issue);
            assert(issue_views(issues@) =~= issue_views(old(issues)@) + self.issues_for(
                line@,
                line_number,
            ));
        } else {
            assert(issue_views(issues@) =~= issue_views(old(issues)@) + self.issues_for(
                line@,
                line_number,
            ));
        }
    }

    fn name(&self) -> (name: &'static str) {
        "line_length"
    }

    proof fn lemma_issues_tagged(&self, line: Seq<u8>, line_number: usize) {
    }
}

/// A record of at most the maximum length raises no issue, so one of
/// exactly the maximum length raises none; a longer one, so one that is a
/// single byte over, raises exactly one issue, which has no position.
pub proof fn lemma_line_length_rule(
    validator: LineLengthValidator,
    line: Seq<u8>,
    line_number: usize,
)
    ensures
        line.len() <= validator.max() ==> validator.issues_for(line, line_number).len() == 0,
        line.len() > validator.max() ==> {
            &&& validator.issues_for(line, line_number).len() == 1
            &&& validator.issues_for(line, line_number)[0].position is None
            &&& validator.issues_for(line, line_number)[0].line_number == line_number
            &&& validator.issues_for(line, line_number)[0].message == "Line length "@
                + decimal(line.len()) + " exceeds maximum "@ + decimal(validator.max() as nat)
        },
{
}

/// Stands for a rule that is switched off: it reports nothing, whatever the
/// record.
#[derive(Clone)]
pub struct DisabledValidator {
    rule: &'static str,
}

impl DisabledValidator {
    /// The identifier of the rule that is switched off.
    pub closed spec fn rule(&self) -> Seq<char> {
        self.rule@
    }

    /// A silent stand-in for the rule with the identifier `rule`.
    pub fn new(rule: &'static str) -> (made: Self)
        ensures
            made.rule() == rule@,
    {
        Self { rule }
    }
}

impl Validator for DisabledValidator {
    open spec fn name_spec(&self) -> Seq<char> {
        self.rule()
    }

    open spec fn issues_for(&self, line: Seq<u8>, line_number: usize) -> Seq<IssueView> {
        Seq::empty()
    }

    fn validate(&self, line: &[u8], line_number: usize, issues: &mut Vec<ValidationIssue>) {
        assert(issue_views(issues@) =~= issue_views(old(issues)@) + self.issues_for(
            line@,
            line_number,
        ));
    }

    fn name(&self) -> (name: &'static str) {
        self.rule
    }

    proof fn lemma_issues_tagged(&self, line: Seq<u8>, line_number: usize) {
    }
}

/// Any one of the built-in rules, or the silent stand-in for one that is
/// switched off.
pub enum BuiltinValidator {
    IllegalCharacters(IllegalCharactersValidator),
    FieldCount(FieldCountValidator),
    LineLength(LineLengthValidator),
    Disabled(DisabledValidator),
}

impl Validator for BuiltinValidator {
    open spec fn name_spec(&self) -> Seq<char> {
        match self {
            BuiltinValidator::IllegalCharacters(rule) => rule.name_spec(),
            BuiltinValidator::FieldCount(rule) => rule.name_spec(),
            BuiltinValidator::LineLength(rule) => rule.name_spec(),
            BuiltinValidator::Disabled(rule) => rule.name_spec(),
        }
    }

    open spec fn issues_for(&self, line: Seq<u8>, line_number: usize) -> Seq<IssueView> {
        match self {
            BuiltinValidator::IllegalCharacters(rule) => rule.issues_for(line, line_number),
            BuiltinValidator::FieldCount(rule) => rule.issues_for(line, line_number),
            BuiltinValidator::LineLength(rule) => rule.issues_for(line, line_number),
            BuiltinValidator::Disabled(rule) => rule.issues_for(line, line_number),
        }
    }

    fn validate(&self, line: &[u8], line_number: usize, issues: &mut Vec<ValidationIssue>) {
        match self {
            BuiltinValidator::IllegalCharacters(rule) => rule.validate(line, line_number, issues),
            BuiltinValidator::FieldCount(rule) => rule.validate(line, line_number, issues),
            BuiltinValidator::LineLength(rule) => rule.validate(line, line_number, issues),
            BuiltinValidator::Disabled(rule) => rule.validate(line, line_number, issues),
        }
    }

    fn name(&self) -> (name: &'static str) {
        match self {
            BuiltinValidator::IllegalCharacters(rule) => rule.name(),
            BuiltinValidator::FieldCount(rule) => rule.name(),
            BuiltinValidator::LineLength(rule) => rule.name(),
            BuiltinValidator::Disabled(rule) => rule.name(),
        }
    }

    proof fn lemma_issues_tagged(&self, line: Seq<u8>, line_number: usize) {
        match self {
            BuiltinValidator::IllegalCharacters(rule) => rule.lemma_issues_tagged(
                line,
                line_number,
            ),
            BuiltinValidator::FieldCount(rule) => rule.lemma_issues_tagged(line, line_number),
            BuiltinValidator::LineLength(rule) => rule.lemma_issues_tagged(line, line_number),
            BuiltinValidator::Disabled(rule) => rule.lemma_issues_tagged(line, line_number),
        }
    }
}

} // verus!
