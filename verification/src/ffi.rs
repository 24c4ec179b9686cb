//! The error type of the foreign-function interface: every failure crosses the
//! boundary as a runtime error carrying its message.
use vstd::prelude::*;

verus! {

/// An error reported to foreign callers.
pub enum NcpError {
    Runtime { message: String },
}

impl NcpError {
    /// The text shown for the error: its message.
    pub fn message(&self) -> (s: &str)
        ensures
            match self {
                NcpError::Runtime { message } => s@ == message@,
            },
    {
        match self {
            NcpError::Runtime { message } => message.as_str(),
        }
    }
}

/// Wraps the text of a failure (its `Display` output) as a runtime error.
pub fn map_err(message: String) -> (e: NcpError)
    ensures
        e == (NcpError::Runtime { message }),
{
    NcpError::Runtime { message }
}

} // verus!
