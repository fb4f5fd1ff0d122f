//! Issues reported by validators, and the collector they are gathered in.

use crate::text::{decimal, push_decimal};
use std::borrow::Cow;
use vstd::prelude::*;
use vstd::string::StringExecFns;

verus! {

/// One reported rule violation.
#[derive(Debug)]
pub struct ValidationIssue {
    /// Identifier of the validator that raised the issue.
    pub validator: &'static str,
    /// One-based number of the record the issue was found in.
    pub line_number: usize,
    /// Byte offset within the record, where the validator tracks one.
    pub position: Option<usize>,
    /// Human-readable description.
    pub message: String,
}

/// The mathematical content of a [`ValidationIssue`].
pub struct IssueView {
    pub validator: Seq<char>,
    pub line_number: usize,
    pub position: Option<usize>,
    pub message: Seq<char>,
}

impl View for ValidationIssue {
    type V = IssueView;

    open spec fn view(&self) -> IssueView {
        IssueView {
            validator: self.validator@,
            line_number: self.line_number,
            position: self.position,
            message: self.message@,
        }
    }
}

/// How a position is written in a line of output: `Some(` offset `)`, or `None`.
pub open spec fn position_text(position: Option<usize>) -> Seq<char> {
    match position {
        Some(offset) => "Some("@ + decimal(offset as nat) + ")"@,
        None => "None"@,
    }
}

/// The line of output for one issue:
/// `[` validator `] Line ` number `, Position ` position `: ` message.
pub open spec fn issue_line(issue: IssueView) -> Seq<char> {
    "["@ + issue.validator + "] Line "@ + decimal(issue.line_number as nat) + ", Position "@
        + position_text(issue.position) + ": "@ + issue.message
}

impl ValidationIssue {
    /// The issue as one line of output, without a line terminator.
    pub fn to_line(&self) -> (line: String)
        ensures
            line@ == issue_line(self@),
    {
        let mut line = String::from_str("[");
        line.append(self.validator);
        line.append("] Line ");
        push_decimal(&mut line, self.line_number as u128);
        line.append(", Position ");
        match self.position {
            Some(offset) => {
                line.append("Some(");
                push_decimal(&mut line, offset as u128);
                line.append(")");
            },
            None => {
                line.append("None");
            },
        }
        line.append(": ");
        line.append(self.message.as_str());
        assert(line@ =~= issue_line(self@));
        line
    }
}

/// The contents of a list of issues, element by element.
pub open spec fn issue_views(issues: Seq<ValidationIssue>) -> Seq<IssueView> {
    issues.map_values(|issue: ValidationIssue| issue@)
}

/// Appending one issue to a list appends its view to the list's contents.
pub proof fn lemma_issue_views_push(issues: Seq<ValidationIssue>, issue: ValidationIssue)
    ensures
        issue_views(issues.push(issue)) == issue_views(issues).push(issue@),
{
    assert(issue_views(issues.push(issue)) =~= issue_views(issues).push(issue@));
}

/// The contents of two lists laid end to end are the two contents laid end to end.
pub proof fn lemma_issue_views_concat(left: Seq<ValidationIssue>, right: Seq<ValidationIssue>)
    ensures
        issue_views(left + right) == issue_views(left) + issue_views(right),
{
    assert(issue_views(left + right) =~= issue_views(left) + issue_views(right));
}

/// Collects the issues found while a record, or a run, is validated.
pub struct ValidationContext {
    pub issues: Vec<ValidationIssue>,
}

impl View for ValidationContext {
    type V = Seq<IssueView>;

    open spec fn view(&self) -> Seq<IssueView> {
        issue_views(self.issues@)
    }
}

impl ValidationContext {
    /// A context that holds no issue.
    pub fn new() -> (context: Self)
        ensures
            context@ == Seq::<IssueView>::empty(),
    {
        let context = Self { issues: Vec::new() };
        assert(context@ =~= Seq::<IssueView>::empty());
        context
    }

    /// Records `issue` after the issues already held.
    pub fn add_issue(&mut self, issue: ValidationIssue)
        ensures
            final(self)@ == old(self)@.push(issue@),
    {
        proof {
            lemma_issue_views_push(self.issues@, issue);
        }
        self.issues.push(issue);
    }

    /// True exactly when no issue has been recorded.
    pub fn is_valid(&self) -> (valid: bool)
        ensures
            valid == (self@.len() == 0),
    {
        self.issues.is_empty()
    }
}

/// A record's text as it stands after validation. Validation only reports,
/// so the text is always the text that went in.
pub struct ValidationResult<'a> {
    pub line: Cow<'a, str>,
}

impl<'a> ValidationResult<'a> {
    /// Wraps `line` without copying it.
    pub fn new(line: &'a str) -> (result: Self)
        ensures
            result.line@ == line@,
            result.line == Cow::<'a, str>::Borrowed(line),
    {
        Self { line: Cow::Borrowed(line) }
    }
}

} // verus!
