//! The error type handed across the command boundary: one message
//! string, whatever failed underneath.
use vstd::prelude::*;

verus! {

/// A command-level error carrying a human-readable message.
pub struct CommandError {
    message: String,
}

impl CommandError {
    /// The message this error carries.
    pub closed spec fn spec_message(&self) -> Seq<char> {
        self.message@
    }

    /// Wrap a message as a command error.
    pub fn new(message: String) -> (r: CommandError)
        ensures
            r.spec_message() == message@,
    {
        CommandError { message }
    }

    /// The error's message.
    pub fn message(&self) -> (r: &str)
        ensures
            r@ == self.spec_message(),
    {
        self.message.as_str()
    }
}

} // verus!
