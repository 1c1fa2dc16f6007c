//! What can go wrong inside the log's core.

use vstd::prelude::*;

verus! {

/// Why the core could not produce a record.
#[derive(Clone, Copy, Debug, PartialEq, Eq, Structural)]
pub enum WalError {
    /// The counter stands at `u64::MAX`: no sequence number is left.
    SequenceExhausted,
    /// The system clock gave no time since the Unix epoch.
    Clock,
    /// The entry could not be written as one line of JSON.
    Serialization,
}

impl WalError {
    /// A sentence that tells the host what went wrong.
    pub fn message(&self) -> (text: &'static str)
        ensures
            text@ == match *self {
                WalError::SequenceExhausted => "no sequence number is left"@,
                WalError::Clock => "the system clock gave no time since the Unix epoch"@,
                WalError::Serialization => "the entry could not be written as one line of JSON"@,
            },
    {
        match self {
            WalError::SequenceExhausted => "no sequence number is left",
            WalError::Clock => "the system clock gave no time since the Unix epoch",
            WalError::Serialization => "the entry could not be written as one line of JSON",
        }
    }
}

} // verus!
