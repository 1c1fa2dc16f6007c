//! The unit of durable record.

use crate::clock::seconds_since_epoch;
use crate::error::WalError;
use crate::json::{json_of, Json};
use serde_json::{Number, Value};
use vstd::prelude::*;

verus! {

/// The kind of mutation that an entry records.
#[derive(Clone, Copy, Debug, PartialEq, Eq, Structural)]
pub enum OperationType {
    INSERT,
    UPDATE,
    DELETE,
}

impl OperationType {
    /// The word that stands for the operation in a record.
    pub open spec fn name(self) -> Seq<char> {
        match self {
            OperationType::INSERT => "INSERT"@,
            OperationType::UPDATE => "UPDATE"@,
            OperationType::DELETE => "DELETE"@,
        }
    }

    /// The word that stands for the operation in a record.
    pub fn as_str(&self) -> (word: &'static str)
        ensures
            word@ == self.name(),
    {
        match self {
            OperationType::INSERT => "INSERT",
            OperationType::UPDATE => "UPDATE",
            OperationType::DELETE => "DELETE",
        }
    }
}

/// One mutation as the log records it.
#[derive(Clone, Debug)]
pub struct LogEntry {
    /// The entry's place in the log, given by the log and never by the caller.
    pub sequence_number: u64,
    /// The caller's name for the transaction; the log does not read it.
    pub transaction_id: String,
    pub operation_type: OperationType,
    /// The record that the mutation is about. Callers name a record by a
    /// key that is not empty; the log takes the key as it is given.
    pub key: String,
    /// The state before the mutation, where the caller gave one.
    pub old_value: Option<Value>,
    /// The state after the mutation, where the caller gave one.
    pub new_value: Option<Value>,
    /// Seconds since the Unix epoch at which the entry was made.
    pub timestamp: Number,
}

/// What an entry holds.
pub struct LogEntryView {
    pub sequence_number: u64,
    pub transaction_id: Seq<char>,
    pub operation_type: OperationType,
    pub key: Seq<char>,
    pub old_value: Option<Json>,
    pub new_value: Option<Json>,
    pub timestamp: Number,
}

/// What an optional value holds.
pub open spec fn payload_of(value: Option<Value>) -> Option<Json> {
    match value {
        Some(v) => Some(json_of(v)),
        None => None,
    }
}

impl View for LogEntry {
    type V = LogEntryView;

    open spec fn view(&self) -> LogEntryView {
        LogEntryView {
            sequence_number: self.sequence_number,
            transaction_id: self.transaction_id@,
            operation_type: self.operation_type,
            key: self.key@,
            old_value: payload_of(self.old_value),
            new_value: payload_of(self.new_value),
            timestamp: self.timestamp,
        }
    }
}

/// What each entry of a list holds, in the list's order.
pub open spec fn views(entries: Seq<LogEntry>) -> Seq<LogEntryView> {
    entries.map_values(|entry: LogEntry| entry@)
}

impl LogEntry {
    /// Puts an entry together from its parts.
    pub fn with_timestamp(
        sequence_number: u64,
        transaction_id: String,
        operation_type: OperationType,
        key: String,
        old_value: Option<Value>,
        new_value: Option<Value>,
        timestamp: Number,
    ) -> (entry: Self)
        ensures
            entry@ == (LogEntryView {
                sequence_number,
                transaction_id: transaction_id@,
                operation_type,
                key: key@,
                old_value: payload_of(old_value),
                new_value: payload_of(new_value),
                timestamp,
            }),
    {
        LogEntry {
            sequence_number,
            transaction_id,
            operation_type,
            key,
            old_value,
            new_value,
            timestamp,
        }
    }

    /// Makes the entry for a mutation that is accepted now: the parts as
    /// given, and as its timestamp what the system clock shows. Fails with
    /// `WalError::Clock`, and only with it, where the clock cannot be read.
    pub fn new(
        sequence_number: u64,
        transaction_id: String,
        operation_type: OperationType,
        key: String,
        old_value: Option<Value>,
        new_value: Option<Value>,
    ) -> (r: Result<Self, WalError>)
        ensures
            match r {
                Ok(entry) => entry@ == (LogEntryView {
                    sequence_number,
                    transaction_id: transaction_id@,
                    operation_type,
                    key: key@,
                    old_value: payload_of(old_value),
                    new_value: payload_of(new_value),
                    timestamp: entry@.timestamp,
                }),
                Err(e) => e == WalError::Clock,
            },
    {
        match seconds_since_epoch() {
            Some(timestamp) => Ok(
                LogEntry::with_timestamp(
                    sequence_number,
                    transaction_id,
                    operation_type,
                    key,
                    old_value,
                    new_value,
                    timestamp,
                ),
            ),
            None => Err(WalError::Clock),
        }
    }
}

} // verus!
