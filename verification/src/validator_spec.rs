//! Declarative descriptions of validators, and how they become validators.

use crate::issue::IssueView;
use crate::validator::Validator;
use crate::validators::{
    matcher_builds, pattern_bytes, BuiltinValidator, DisabledValidator, FieldCountValidator,
    IllegalCharactersValidator, LineLengthValidator, PatternSetError,
};
use vstd::prelude::*;
use vstd::string::StringSliceAdditionalSpecFns;
use vstd::utf8::*;

verus! {

/// What is needed to build one validator.
#[derive(Debug, Clone)]
pub enum ValidatorSpec {
    IllegalChars { illegal_chars: Vec<String>, enabled: bool },
    FieldCount { expected: usize, enabled: bool },
    LineLength { enabled: bool, max_length: usize },
}

/// The UTF-8 byte strings of a list of strings.
pub open spec fn string_bytes(strings: Seq<String>) -> Seq<Seq<u8>> {
    strings.map_values(|s: String| encode_utf8(s@))
}

/// The strings of `strings` as borrowed string slices, in the same order.
pub fn borrow_all(strings: &Vec<String>) -> (borrowed: Vec<&str>)
    ensures
        borrowed@.len() == strings@.len(),
        forall|i: int| 0 <= i < strings@.len() ==> (#[trigger] borrowed@[i])@ == strings@[i]@,
        pattern_bytes(borrowed@) == string_bytes(strings@),
{
    let mut borrowed: Vec<&str> = Vec::new();
    let mut i: usize = 0;
    while i < strings.len()
        invariant
            i <= strings.len(),
            borrowed@.len() == i,
            forall|j: int| 0 <= j < i ==> (#[trigger] borrowed@[j])@ == strings@[j]@,
        decreases strings.len() - i,
    {
        borrowed.push(strings[i].as_str());
        i += 1;
    }
    assert(pattern_bytes(borrowed@) =~= string_bytes(strings@));
    borrowed
}

impl ValidatorSpec {
    /// An enabled rule that forbids the given substrings.
    pub fn new_illegal_chars(chars: Vec<String>) -> (spec: Self)
        ensures
            spec == (ValidatorSpec::IllegalChars { illegal_chars: chars, enabled: true }),
    {
        Self::IllegalChars { illegal_chars: chars, enabled: true }
    }

    /// An enabled rule that asks for `expected` fields in every record.
    pub fn new_field_count(expected: usize) -> (spec: Self)
        ensures
            spec == (ValidatorSpec::FieldCount { expected, enabled: true }),
    {
        Self::FieldCount { expected, enabled: true }
    }

    /// An enabled rule that limits every record to `max_length` bytes.
    pub fn new_line_length(max_length: usize) -> (spec: Self)
        ensures
            spec == (ValidatorSpec::LineLength { max_length, enabled: true }),
    {
        Self::LineLength { max_length, enabled: true }
    }

    /// Whether the rule takes part in a run.
    pub open spec fn is_enabled(&self) -> bool {
        match self {
            ValidatorSpec::IllegalChars { enabled, .. } => *enabled,
            ValidatorSpec::FieldCount { enabled, .. } => *enabled,
            ValidatorSpec::LineLength { enabled, .. } => *enabled,
        }
    }

    /// The identifier of the validator that the description stands for.
    pub open spec fn rule_name(&self) -> Seq<char> {
        match self {
            ValidatorSpec::IllegalChars { .. } => "illegal_characters"@,
            ValidatorSpec::FieldCount { .. } => "field_count"@,
            ValidatorSpec::LineLength { .. } => "line_length"@,
        }
    }

    /// Whether the rule that is described can be built.
    pub open spec fn buildable(&self) -> bool {
        match self {
            ValidatorSpec::IllegalChars { illegal_chars, .. } => matcher_builds(
                string_bytes(illegal_chars@),
            ),
            _ => true,
        }
    }

    /// Whether `validator` is the validator that this description, with
    /// `separator` as the field delimiter, stands for: the rule where it is
    /// enabled, a silent stand-in under the rule's name where it is not.
    pub open spec fn describes(&self, separator: u8, validator: BuiltinValidator) -> bool {
        if !self.is_enabled() {
            &&& validator matches BuiltinValidator::Disabled(rule)
            &&& rule.rule() == self.rule_name()
        } else {
            match self {
                ValidatorSpec::IllegalChars { illegal_chars, .. } => {
                    &&& validator matches BuiltinValidator::IllegalCharacters(rule)
                    &&& rule.patterns() == string_bytes(illegal_chars@)
                },
                ValidatorSpec::FieldCount { expected, .. } => {
                    &&& validator matches BuiltinValidator::FieldCount(rule)
                    &&& rule.expected() == *expected
                    &&& rule.separator() == separator
                },
                ValidatorSpec::LineLength { max_length, .. } => {
                    &&& validator matches BuiltinValidator::LineLength(rule)
                    &&& rule.max() == *max_length
                },
            }
        }
    }

    /// Builds the validator that this description stands for. The field
    /// delimiter is used by the field-count rule alone.
    ///
    /// A rule that is not enabled is skipped entirely: nothing is built for
    /// it, and the validator that stands for it reports nothing on any
    /// record. An enabled rule fails to build only where its forbidden
    /// substrings exceed what a matcher can hold.
    pub fn into_validator(self, separator: u8) -> (made: Result<BuiltinValidator, PatternSetError>)
        ensures
            made is Ok <==> !self.is_enabled() || self.buildable(),
            made is Ok ==> self.describes(separator, made->Ok_0),
            !self.is_enabled() ==> made is Ok && forall|line: Seq<u8>, n: usize|
                #[trigger] made->Ok_0.issues_for(line, n) == Seq::<IssueView>::empty(),
    {
        match self {
            ValidatorSpec::IllegalChars { illegal_chars, enabled } => {
                if !enabled {
                    return Ok(
                        BuiltinValidator::Disabled(DisabledValidator::new("illegal_characters")),
                    );
                }
                let refs = borrow_all(&illegal_chars);
                match IllegalCharactersValidator::new(refs.as_slice()) {
                    Ok(rule) => Ok(BuiltinValidator::IllegalCharacters(rule)),
                    Err(e) => Err(e),
                }
            },
            ValidatorSpec::FieldCount { expected, enabled } => {
                if !enabled {
                    return Ok(BuiltinValidator::Disabled(DisabledValidator::new("field_count")));
                }
                Ok(BuiltinValidator::FieldCount(FieldCountValidator::new(expected, separator)))
            },
            ValidatorSpec::LineLength { max_length, enabled } => {
                if !enabled {
                    return Ok(BuiltinValidator::Disabled(DisabledValidator::new("line_length")));
                }
                Ok(BuiltinValidator::LineLength(LineLengthValidator::new(max_length)))
            },
        }
    }
}

} // verus!
