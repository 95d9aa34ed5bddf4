use vstd::prelude::*;

verus! {

/// The parse error of `chrono`, carried through as it came.
#[verifier::external_type_specification]
#[verifier::external_body]
pub struct ExParseError(chrono::ParseError);

/// What an operation on tasks can fail with.
#[derive(Debug, PartialEq, Eq)]
pub enum TaskError {
    /// A text that is no RFC 3339 timestamp.
    ChronoParse(chrono::ParseError),
    /// No task has this id.
    NotFound(usize),
    /// A time that breaks a rule; the text says which.
    InvalidTime(String),
    /// A text that is no sequence of task records.
    Serialization,
    /// Every id has been handed out.
    IdsExhausted,
}

} // verus!
