//! The error type of the library.
use vstd::prelude::*;

verus! {

/// What went wrong, in the two classes that callers tell apart.
#[derive(Clone, Copy, Debug, PartialEq, Eq, Structural)]
pub enum ErrorKind {
    /// The caller supplied something that cannot be used.
    InvalidInput,
    /// Something failed while the work was under way.
    Other,
}

/// A class of failure and the message that is shown to the user.
#[derive(Debug)]
pub struct Error {
    pub kind: ErrorKind,
    pub message: String,
}

impl Error {
    /// The error holds exactly this class and this message.
    pub open spec fn says(self, kind: ErrorKind, message: Seq<char>) -> bool {
        self.kind == kind && self.message@ == message
    }
}

/// The result is an error about the input, with this message.
pub open spec fn refused<T>(result: Result<T, Error>, message: Seq<char>) -> bool {
    result matches Err(e) && e.says(ErrorKind::InvalidInput, message)
}

/// The result is an error about the work, with this message.
pub open spec fn failed<T>(result: Result<T, Error>, message: Seq<char>) -> bool {
    result matches Err(e) && e.says(ErrorKind::Other, message)
}

/// The result is the expected value, or an error about the input with the expected message.
pub open spec fn answers<T>(result: Result<T, Error>, expected: Result<T, Seq<char>>) -> bool {
    match expected {
        Ok(value) => result == Ok::<T, Error>(value),
        Err(message) => refused(result, message),
    }
}

/// An error about the input with the given message.
pub fn invalid_input(message: &str) -> (error: Error)
    ensures
        error.says(ErrorKind::InvalidInput, message@),
{
    Error { kind: ErrorKind::InvalidInput, message: message.to_owned() }
}

/// An error about the work with the given message.
pub fn other(message: &str) -> (error: Error)
    ensures
        error.says(ErrorKind::Other, message@),
{
    Error { kind: ErrorKind::Other, message: message.to_owned() }
}

/// A refusal is an error about the input and a failure one about the work, each with its message;
/// an answer is the value that is expected, or the refusal.
pub proof fn law_errors<T>(r: Result<T, Error>, value: T, message: Seq<char>)
    ensures
        refused(r, message) <==> (r matches Err(e) && e.kind == ErrorKind::InvalidInput
            && e.message@ == message),
        failed(r, message) <==> (r matches Err(e) && e.kind == ErrorKind::Other && e.message@
            == message),
        answers(r, Ok::<T, Seq<char>>(value)) <==> (r matches Ok(v) && v == value),
        answers(r, Err::<T, Seq<char>>(message)) <==> (r matches Err(e) && e.kind
            == ErrorKind::InvalidInput && e.message@ == message),
{
}

} // verus!
