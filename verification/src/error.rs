//! The crate-wide error type.

use vstd::prelude::*;

use crate::text::owned;

verus! {

/// HyperGate's single error type: a message for callers and logs.
#[derive(Debug)]
pub struct HyperError {
    /// Message shown to callers and written to logs.
    pub message: String,
}

impl HyperError {
    /// Creates an error carrying `message`.
    pub fn new(message: &str) -> (e: HyperError)
        ensures
            e.message@ == message@,
    {
        HyperError { message: owned(message) }
    }

    /// Creates an error that takes ownership of an already built message.
    pub fn from_message(message: String) -> (e: HyperError)
        ensures
            e.message@ == message@,
    {
        HyperError { message }
    }

    /// The text `Display` writes: the message itself.
    pub fn to_text(&self) -> (s: String)
        ensures
            s@ == self.message@,
    {
        self.message.clone()
    }
}

impl Clone for HyperError {
    fn clone(&self) -> (e: Self)
        ensures
            e.message@ == self.message@,
    {
        HyperError { message: self.message.clone() }
    }
}

} // verus!
