//! Errors of a run.

use vstd::prelude::*;

verus! {

/// What can make a run fail.
#[derive(Debug)]
pub enum FlattenError {
    /// Reading or writing a file failed; holds the system's message.
    Io(String),
    /// A glob pattern could not be compiled.
    Pattern(String),
    /// The configuration or the processing was invalid.
    Processing(String),
}

/// The message that describes an error.
pub open spec fn error_message(e: FlattenError) -> Seq<char> {
    match e {
        FlattenError::Io(m) => "IO error: "@ + m@,
        FlattenError::Pattern(m) => "Pattern error: "@ + m@,
        FlattenError::Processing(m) => "Processing error: "@ + m@,
    }
}

impl FlattenError {
    /// The human-readable message of the error.
    pub fn message(&self) -> (r: String)
        ensures
            r@ == error_message(*self),
    {
        match self {
            FlattenError::Io(m) => "IO error: ".to_owned().concat(m.as_str()),
            FlattenError::Pattern(m) => "Pattern error: ".to_owned().concat(m.as_str()),
            FlattenError::Processing(m) => "Processing error: ".to_owned().concat(m.as_str()),
        }
    }
}

} // verus!
