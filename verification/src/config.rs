//! Building validators from a configuration file's entries or from
//! command-line choices.

use crate::text::{split_commas, split_on, str_views, trim, trimmed};
use crate::validator_spec::ValidatorSpec as Rule;
use crate::validators::{
    matcher_builds, pattern_bytes, BuiltinValidator, FieldCountValidator,
    IllegalCharactersValidator, LineLengthValidator, PatternSetError,
};
use vstd::prelude::*;
use vstd::string::StringSliceAdditionalSpecFns;
use vstd::utf8::*;

verus! {

/// The field delimiter that is used where none is configured: `;`.
pub const DEFAULT_SEPARATOR: u8 = 59;

/// Settings that rules share.
#[derive(Debug, Clone)]
pub struct CommonConfig {
    pub quote_char: Option<char>,
    pub separator: Option<char>,
    pub has_header: Option<bool>,
}

/// One rule of a configuration file.
#[derive(Debug)]
pub enum ValidatorSpec {
    IllegalChars { illegal_chars: Vec<String>, enabled: bool, common: Option<CommonConfig> },
    FieldCount { expected: usize, enabled: bool, common: Option<CommonConfig> },
    LineLength { max_length: usize, enabled: bool, common: Option<CommonConfig> },
}

/// A configuration file: settings for all rules, and the rules.
#[derive(Debug)]
pub struct ConfigFile {
    pub common: Option<CommonConfig>,
    pub validators: Vec<ValidatorSpec>,
}

/// Why no validator could be built.
#[derive(Debug, Clone, Copy, PartialEq, Eq, Structural)]
pub enum ConfigError {
    /// None of the rules was chosen.
    NoValidator,
    /// The forbidden substrings of a rule exceed what a matcher can hold.
    PatternSet(PatternSetError),
}

/// The byte that a configured separator character stands for: its code
/// point, cut to eight bits.
pub open spec fn separator_byte(separator: char) -> u8 {
    (separator as u32 % 256) as u8
}

/// The separator that a section of settings names, if it names one.
pub open spec fn section_separator(section: Option<CommonConfig>) -> Option<char> {
    match section {
        Some(settings) => settings.separator,
        None => None,
    }
}

/// The field delimiter of a rule: the separator of the rule's own settings
/// where they name one, else the separator of the settings that all rules
/// share where those name one, else `;`.
pub open spec fn configured_separator(own: Option<CommonConfig>, shared: Option<CommonConfig>)
    -> u8 {
    match section_separator(own) {
        Some(separator) => separator_byte(separator),
        None => match section_separator(shared) {
            Some(separator) => separator_byte(separator),
            None => DEFAULT_SEPARATOR,
        },
    }
}

fn separator_in(section: &Option<CommonConfig>) -> (separator: Option<char>)
    ensures
        separator == section_separator(*section),
{
    match section {
        Some(settings) => settings.separator,
        None => None,
    }
}

fn separator_of(own: &Option<CommonConfig>, shared: &Option<CommonConfig>) -> (separator: u8)
    ensures
        separator == configured_separator(*own, *shared),
{
    match separator_in(own) {
        Some(separator) => (separator as u32 % 256) as u8,
        None => match separator_in(shared) {
            Some(separator) => (separator as u32 % 256) as u8,
            None => DEFAULT_SEPARATOR,
        },
    }
}

impl ValidatorSpec {
    /// Whether the rule takes part in a run.
    pub open spec fn is_enabled(&self) -> bool {
        match self {
            ValidatorSpec::IllegalChars { enabled, .. } => *enabled,
            ValidatorSpec::FieldCount { enabled, .. } => *enabled,
            ValidatorSpec::LineLength { enabled, .. } => *enabled,
        }
    }

    /// The rule without its settings.
    pub open spec fn rule(&self) -> Rule {
        match self {
            ValidatorSpec::IllegalChars { illegal_chars, enabled, .. } => Rule::IllegalChars {
                illegal_chars: *illegal_chars,
                enabled: *enabled,
            },
            ValidatorSpec::FieldCount { expected, enabled, .. } => Rule::FieldCount {
                expected: *expected,
                enabled: *enabled,
            },
            ValidatorSpec::LineLength { max_length, enabled, .. } => Rule::LineLength {
                max_length: *max_length,
                enabled: *enabled,
            },
        }
    }

    /// The rule's own settings.
    pub open spec fn own_settings(&self) -> Option<CommonConfig> {
        match self {
            ValidatorSpec::IllegalChars { common, .. } => *common,
            ValidatorSpec::FieldCount { common, .. } => *common,
            ValidatorSpec::LineLength { common, .. } => *common,
        }
    }

    /// The field delimiter of the rule in a file whose shared settings are
    /// `shared`.
    pub open spec fn separator(&self, shared: Option<CommonConfig>) -> u8 {
        configured_separator(self.own_settings(), shared)
    }

    /// Splits the entry of a file whose shared settings are `shared` into the
    /// rule, the field delimiter to build it with, and whether it is enabled.
    pub fn into_rule(self, shared: &Option<CommonConfig>) -> (parts: (Rule, u8, bool))
        ensures
            parts.0 == self.rule(),
            parts.1 == self.separator(*shared),
            parts.2 == self.is_enabled(),
    {
        match self {
            ValidatorSpec::IllegalChars { illegal_chars, enabled, common } => {
                let separator = separator_of(&common, shared);
                (Rule::IllegalChars { illegal_chars, enabled }, separator, enabled)
            },
            ValidatorSpec::FieldCount { expected, enabled, common } => {
                let separator = separator_of(&common, shared);
                (Rule::FieldCount { expected, enabled }, separator, enabled)
            },
            ValidatorSpec::LineLength { max_length, enabled, common } => {
                let separator = separator_of(&common, shared);
                (Rule::LineLength { max_length, enabled }, separator, enabled)
            },
        }
    }
}

/// Every enabled rule can be built.
pub open spec fn all_buildable(specs: Seq<ValidatorSpec>) -> bool {
    forall|i: int|
        0 <= i < specs.len() && (#[trigger] specs[i]).is_enabled() ==> specs[i].rule().buildable()
}

/// `validators` holds one validator for each enabled rule of `specs`, in the
/// order of the rules, and none for a disabled rule. `shared` are the
/// settings that the rules of the file share.
pub open spec fn built_from(
    specs: Seq<ValidatorSpec>,
    shared: Option<CommonConfig>,
    validators: Seq<BuiltinValidator>,
) -> bool
    decreases specs.len(),
{
    if specs.len() == 0 {
        validators.len() == 0
    } else if !specs.last().is_enabled() {
        built_from(specs.drop_last(), shared, validators)
    } else {
        &&& validators.len() > 0
        &&& specs.last().rule().describes(specs.last().separator(shared), validators.last())
        &&& built_from(specs.drop_last(), shared, validators.drop_last())
    }
}

/// Builds the validators of a configuration: one for each enabled rule, in
/// the order of the rules. A disabled rule is skipped entirely. The field
/// delimiter of a rule is the separator of the rule's own settings where
/// they name one, else the separator of the file's shared settings, else
/// `;`. Fails where an enabled rule cannot be built.
pub fn build_validators_from_config(config: ConfigFile) -> (made: Result<
    Vec<BuiltinValidator>,
    ConfigError,
>)
    ensures
        made is Ok <==> all_buildable(config.validators@),
        made is Ok ==> built_from(config.validators@, config.common, made->Ok_0@),
        made is Err ==> made->Err_0 == ConfigError::PatternSet(PatternSetError::LimitExceeded),
{
    let mut out: Vec<BuiltinValidator> = Vec::new();
    let shared = config.common;
    let mut specs = config.validators;
    let ghost all = specs@;
    let mut i: usize = 0;
    assert(all.take(0) =~= Seq::<ValidatorSpec>::empty());
    while i < specs.len()
        invariant
            i <= specs.len(),
            all == config.validators@,
            shared == config.common,
            specs@.len() == all.len(),
            forall|j: int| i <= j < all.len() ==> specs@[j] == all[j],
            all_buildable(all.take(i as int)),
            built_from(all.take(i as int), shared, out@),
        decreases specs.len() - i,
    {
        let mut spec = ValidatorSpec::LineLength { max_length: 0, enabled: false, common: None };
        std::mem::swap(&mut spec, &mut specs[i]);
        let ghost before = out@;
        let (rule, separator, enabled) = spec.into_rule(&shared);
        proof {
            assert(all.take(i as int + 1).drop_last() =~= all.take(i as int));
            assert(all.take(i as int + 1).last() == all[i as int]);
        }
        if enabled {
            match rule.into_validator(separator) {
                Ok(validator) => {
                    out.push(validator);
                    assert(out@.drop_last() =~= before);
                },
                Err(e) => {
                    assert(all[i as int].is_enabled() && !all[i as int].rule().buildable());
                    return Err(ConfigError::PatternSet(e));
                },
            }
        }
        proof {
            let done = all.take(i as int + 1);
            assert forall|j: int|
                0 <= j < done.len() && (#[trigger] done[j]).is_enabled() implies done[j].rule(
            ).buildable() by {
                if j < i {
                    assert(all.take(i as int)[j] == done[j]);
                }
            }
        }
        i += 1;
    }
    assert(all.take(all.len() as int) =~= all);
    Ok(out)
}

/// The rule chosen on the command line: the first of the three that is given.
pub struct ValidatorKind {
    /// Forbidden substrings, separated by commas.
    pub illegal_chars: Option<String>,
    /// Expected number of fields.
    pub field_count: Option<usize>,
    /// Maximum record length in bytes.
    pub max_line_length: Option<usize>,
}

/// The forbidden byte strings that a comma-separated list stands for: the
/// pieces between the commas, each without the white space around it.
pub open spec fn listed_patterns(list: Seq<char>) -> Seq<Seq<u8>> {
    split_on(list, ',').map_values(|piece: Seq<char>| encode_utf8(trimmed(piece)))
}

/// Whether `validator` is the validator that `kind` asks for, with
/// `separator` as the field delimiter.
pub open spec fn chosen(kind: ValidatorKind, separator: u8, validator: BuiltinValidator) -> bool {
    if kind.illegal_chars is Some {
        &&& validator matches BuiltinValidator::IllegalCharacters(rule)
        &&& rule.patterns() == listed_patterns(kind.illegal_chars->Some_0@)
    } else if kind.field_count is Some {
        &&& validator matches BuiltinValidator::FieldCount(rule)
        &&& rule.expected() == kind.field_count->Some_0
        &&& rule.separator() == separator
    } else {
        &&& kind.max_line_length is Some
        &&& validator matches BuiltinValidator::LineLength(rule)
        &&& rule.max() == kind.max_line_length->Some_0
    }
}

/// The error, if any, with which building the validator for `kind` fails.
pub open spec fn refusal(kind: ValidatorKind) -> Option<ConfigError> {
    if kind.illegal_chars is Some {
        if matcher_builds(listed_patterns(kind.illegal_chars->Some_0@)) {
            None
        } else {
            Some(ConfigError::PatternSet(PatternSetError::LimitExceeded))
        }
    } else if kind.field_count is Some || kind.max_line_length is Some {
        None
    } else {
        Some(ConfigError::NoValidator)
    }
}

/// Builds the validator chosen on the command line. Forbidden substrings
/// come first, then the field count, then the record length; the others are
/// ignored. Fails where nothing was chosen, or where the forbidden
/// substrings exceed what a matcher can hold.
pub fn build_validator_from_args(kind: &ValidatorKind, separator: u8) -> (made: Result<
    BuiltinValidator,
    ConfigError,
>)
    ensures
        match made {
            Ok(validator) => refusal(*kind) is None && chosen(*kind, separator, validator),
            Err(e) => refusal(*kind) == Some(e),
        },
{
    if let Some(chars) = &kind.illegal_chars {
        let pieces = split_commas(chars.as_str());
        let mut list: Vec<&str> = Vec::new();
        let mut i: usize = 0;
        while i < pieces.len()
            invariant
                i <= pieces.len(),
                list@.len() == i,
                forall|j: int| 0 <= j < i ==> (#[trigger] list@[j])@ == trimmed(pieces@[j]@),
            decreases pieces.len() - i,
        {
            list.push(trim(pieces[i]));
            i += 1;
        }
        proof {
            assert forall|j: int| 0 <= j < pieces@.len() implies pieces@[j]@ == split_on(
                chars@,
                ',',
            )[j] by {
                assert(str_views(pieces@)[j] == pieces@[j]@);
            }
            assert(pattern_bytes(list@) =~= listed_patterns(chars@));
        }
        match IllegalCharactersValidator::new(list.as_slice()) {
            Ok(rule) => Ok(BuiltinValidator::IllegalCharacters(rule)),
            Err(e) => Err(ConfigError::PatternSet(e)),
        }
    } else if let Some(count) = kind.field_count {
        Ok(BuiltinValidator::FieldCount(FieldCountValidator::new(count, separator)))
    } else if let Some(max) = kind.max_line_length {
        Ok(BuiltinValidator::LineLength(LineLengthValidator::new(max)))
    } else {
        Err(ConfigError::NoValidator)
    }
}

} // verus!
