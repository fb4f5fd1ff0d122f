//! The contract that every validation rule meets.

use crate::issue::{issue_views, IssueView, ValidationIssue};
use vstd::prelude::*;

verus! {

/// A stateless rule that inspects one record at a time.
///
/// What a validator reports is a function of the record and its number
/// alone, so any number of threads may share one validator.
pub trait Validator: Send + Sync {
    /// The identifier that every issue of this validator carries.
    spec fn name_spec(&self) -> Seq<char>;

    /// The issues that this validator reports for record `line`, numbered
    /// `line_number`, in the order in which it reports them.
    spec fn issues_for(&self, line: Seq<u8>, line_number: usize) -> Seq<IssueView>;

    /// Appends to `issues` what this validator finds in `line`. Nothing is
    /// appended for a record that satisfies the rule.
    fn validate(&self, line: &[u8], line_number: usize, issues: &mut Vec<ValidationIssue>)
        ensures
            issue_views(final(issues)@) == issue_views(old(issues)@) + self.issues_for(
                line@,
                line_number,
            ),
    ;

    /// The validator's identifier.
    fn name(&self) -> (name: &'static str)
        ensures
            name@ == self.name_spec(),
    ;

    /// Every issue carries the number of the record it was found in and the
    /// identifier of the validator that found it.
    proof fn lemma_issues_tagged(&self, line: Seq<u8>, line_number: usize)
        ensures
            forall|i: int|
                0 <= i < self.issues_for(line, line_number).len() ==> {
                    &&& (#[trigger] self.issues_for(line, line_number)[i]).line_number
                        == line_number
                    &&& self.issues_for(line, line_number)[i].validator == self.name_spec()
                },
    ;
}

} // verus!
