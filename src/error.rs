//! The one error that decoding can report.
use vstd::prelude::*;

verus! {

/// What kind of failure an `Error` reports.
#[derive(Clone, Copy, Debug, PartialEq, Eq, Structural)]
pub enum ErrorType {
    ConversionError,
}

/// A failure to convert a text tree, with a fixed message.
#[derive(Clone, Copy, Debug)]
pub struct Error {
    pub message: &'static str,
    pub err_type: ErrorType,
}

impl Error {
    /// A conversion error carrying `message`.
    pub fn coversion_error(message: &'static str) -> (r: Error)
        ensures
            r.message@ == message@,
            r.err_type == ErrorType::ConversionError,
    {
        Error { message: message, err_type: ErrorType::ConversionError }
    }

    /// The message this error carries.
    pub fn description(&self) -> (r: &'static str)
        ensures
            r@ == self.message@,
    {
        self.message
    }
}

} // verus!
