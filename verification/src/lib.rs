//! Quote-aware record reading and record validation for delimited text.
//!
//! A byte stream is split into logical records: a line feed ends a record
//! only where the number of quote bytes seen since the record began is even,
//! so a quoted field may hold line breaks. Every record is numbered from one
//! and handed to a set of stateless validators, each of which reports zero or
//! more issues.

pub mod batching;
pub mod bytes;
pub mod config;
pub mod engine;
pub mod executor;
pub mod issue;
pub mod reader;
pub mod records;
pub mod text;
pub mod validator;
pub mod validator_spec;
pub mod validators;

pub use engine::{
    all_delivered, must_wait, validate_bytes, Batch, BatchDispatcher, IssueCollector,
    ValidationOptions,
};
pub use executor::{execute_validators, process_batch, validate_record, WorkerPool};
pub use issue::{ValidationContext, ValidationIssue, ValidationResult};
pub use reader::{
    read_records, BufferedLineReader, FastBufferedReader, InvalidUtf8, MemoryBufferedReader,
    MmapBufferedReader, OptimizedQuoteAwareReader, QuoteAwareBufferedReader, RecordAssembler,
};
pub use validator::Validator;
pub use validator_spec::ValidatorSpec;
pub use validators::{
    BuiltinValidator, DisabledValidator, FieldCountValidator, IllegalCharactersValidator,
    LineLengthValidator, PatternSetError,
};
