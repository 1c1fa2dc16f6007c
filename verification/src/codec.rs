//! How an entry is written as one line, and how a line is read as an entry.
//!
//! A record is one JSON object on one line. Its members are written in a
//! fixed order; what stands for a string, a payload or the timestamp is what
//! `serde_json` writes for it. A line is read by `serde_json` as one value,
//! and the entry is taken from that value's members.

use crate::entry::{payload_of, LogEntry, LogEntryView, OperationType};
use crate::error::WalError;
use crate::framing::{contains_line_feed, has_line_feed, trimmed, LINE_FEED};
use crate::json::{
    as_number, as_str, as_u64, is_null, json_of, member, member_of, number_u64, number_value,
    parse, parsed, render, rendered, text_value, Json,
};
use crate::text::{append, append_decimal, decimal, same_bytes, same_text};
use serde_json::{Number, Value};
use vstd::prelude::*;
use vstd::slice::slice_to_vec;
use vstd::utf8::encode_utf8;

verus! {

/// The names of a record's members, in the order in which they are written.
pub const SEQUENCE_NUMBER: &'static str = "sequence_number";

pub const TRANSACTION_ID: &'static str = "transaction_id";

pub const OPERATION_TYPE: &'static str = "operation_type";

pub const KEY: &'static str = "key";

pub const OLD_VALUE: &'static str = "old_value";

pub const NEW_VALUE: &'static str = "new_value";

pub const TIMESTAMP: &'static str = "timestamp";

/// What is written for a payload that is absent.
pub const NULL: &'static str = "null";

/// `{`
pub const BRACE_OPEN: u8 = 0x7B;

/// `}`
pub const BRACE_CLOSE: u8 = 0x7D;

/// `"`
pub const QUOTE: u8 = 0x22;

/// `:`
pub const COLON: u8 = 0x3A;

/// `,`
pub const COMMA: u8 = 0x2C;

/// A word between quotes. The words of a record need no escaping.
pub open spec fn quoted(word: Seq<char>) -> Seq<u8> {
    seq![QUOTE] + encode_utf8(word) + seq![QUOTE]
}

/// A member's name between quotes, and the colon after it.
pub open spec fn label(name: Seq<char>) -> Seq<u8> {
    quoted(name) + seq![COLON]
}

/// The line of a record, given the text of each member: an object with the
/// seven members in their order, and no white space.
pub open spec fn record_layout(
    sequence_number: u64,
    transaction_id: Seq<u8>,
    operation_type: OperationType,
    key: Seq<u8>,
    old_value: Seq<u8>,
    new_value: Seq<u8>,
    timestamp: Seq<u8>,
) -> Seq<u8> {
    seq![BRACE_OPEN]
        + label(SEQUENCE_NUMBER@) + decimal(sequence_number as nat)
        + seq![COMMA] + label(TRANSACTION_ID@) + transaction_id
        + seq![COMMA] + label(OPERATION_TYPE@) + quoted(operation_type.name())
        + seq![COMMA] + label(KEY@) + key
        + seq![COMMA] + label(OLD_VALUE@) + old_value
        + seq![COMMA] + label(NEW_VALUE@) + new_value
        + seq![COMMA] + label(TIMESTAMP@) + timestamp
        + seq![BRACE_CLOSE]
}

/// The text of a payload: `null` for an absent one.
pub open spec fn payload_text(payload: Option<Json>) -> Seq<u8> {
    match payload {
        Some(json) => rendered(json),
        None => encode_utf8(NULL@),
    }
}

/// The line that records `entry`.
pub open spec fn record_text(entry: LogEntryView) -> Seq<u8> {
    record_layout(
        entry.sequence_number,
        rendered(Json::Text(entry.transaction_id)),
        entry.operation_type,
        rendered(Json::Text(entry.key)),
        payload_text(entry.old_value),
        payload_text(entry.new_value),
        rendered(Json::Number(entry.timestamp)),
    )
}

/// Whether two entries record the same mutation under the same number: they
/// agree in the number, the transaction, the operation and the key, and
/// their payloads are written the same. So a payload that is JSON `null`
/// agrees with an absent one, and the time of making is left out.
pub open spec fn same_mutation(a: LogEntryView, b: LogEntryView) -> bool {
    &&& a.sequence_number == b.sequence_number
    &&& a.transaction_id == b.transaction_id
    &&& a.operation_type == b.operation_type
    &&& a.key == b.key
    &&& payload_text(a.old_value) == payload_text(b.old_value)
    &&& payload_text(a.new_value) == payload_text(b.new_value)
}

/// A line as `record_layout` gives it has no white space around it: it
/// starts with a brace and ends with one.
pub proof fn lemma_layout_is_trimmed(
    sequence_number: u64,
    transaction_id: Seq<u8>,
    operation_type: OperationType,
    key: Seq<u8>,
    old_value: Seq<u8>,
    new_value: Seq<u8>,
    timestamp: Seq<u8>,
)
    ensures
        ({
            let line = record_layout(
                sequence_number,
                transaction_id,
                operation_type,
                key,
                old_value,
                new_value,
                timestamp,
            );
            line.len() > 0 && trimmed(line) == line
        }),
{
}

/// Puts a word between quotes at the end of `out`.
fn append_quoted(out: &mut Vec<u8>, word: &str)
    ensures
        final(out)@ == old(out)@ + quoted(word@),
{
    out.push(QUOTE);
    append(out, word.as_bytes());
    out.push(QUOTE);
}

/// Puts a member's name and its colon at the end of `out`.
fn append_label(out: &mut Vec<u8>, name: &str)
    ensures
        final(out)@ == old(out)@ + label(name@),
{
    append_quoted(out, name);
    out.push(COLON);
}

/// Puts a comma and a member at the end of `out`.
fn append_member(out: &mut Vec<u8>, name: &str, text: &[u8])
    ensures
        final(out)@ == old(out)@ + seq![COMMA] + label(name@) + text@,
{
    out.push(COMMA);
    append_label(out, name);
    append(out, text);
}

/// Writes the line of a record from the text of each member.
fn lay_out(
    sequence_number: u64,
    transaction_id: &[u8],
    operation_type: OperationType,
    key: &[u8],
    old_value: &[u8],
    new_value: &[u8],
    timestamp: &[u8],
) -> (line: Vec<u8>)
    ensures
        line@ == record_layout(
            sequence_number,
            transaction_id@,
            operation_type,
            key@,
            old_value@,
            new_value@,
            timestamp@,
        ),
{
    let mut line: Vec<u8> = Vec::new();
    line.push(BRACE_OPEN);
    append_label(&mut line, SEQUENCE_NUMBER);
    append_decimal(&mut line, sequence_number);
    append_member(&mut line, TRANSACTION_ID, transaction_id);
    let mut operation: Vec<u8> = Vec::new();
    append_quoted(&mut operation, operation_type.as_str());
    append_member(&mut line, OPERATION_TYPE, operation.as_slice());
    append_member(&mut line, KEY, key);
    append_member(&mut line, OLD_VALUE, old_value);
    append_member(&mut line, NEW_VALUE, new_value);
    append_member(&mut line, TIMESTAMP, timestamp);
    line.push(BRACE_CLOSE);
    line
}

/// Makes the record of an entry from the text that was written for each of
/// its members: the line and the line feed that ends it. A line that would
/// hold a line feed is no record, and is refused.
pub fn record_from_texts(
    sequence_number: u64,
    transaction_id: &[u8],
    operation_type: OperationType,
    key: &[u8],
    old_value: &[u8],
    new_value: &[u8],
    timestamp: &[u8],
) -> (r: Result<Vec<u8>, WalError>)
    ensures
        ({
            let line = record_layout(
                sequence_number,
                transaction_id@,
                operation_type,
                key@,
                old_value@,
                new_value@,
                timestamp@,
            );
            match r {
                Ok(record) => !has_line_feed(line) && record@ == line + seq![LINE_FEED],
                Err(e) => has_line_feed(line) && e == WalError::Serialization,
            }
        }),
{
    let mut record = lay_out(
        sequence_number,
        transaction_id,
        operation_type,
        key,
        old_value,
        new_value,
        timestamp,
    );
    if contains_line_feed(record.as_slice()) {
        return Err(WalError::Serialization);
    }
    record.push(LINE_FEED);
    Ok(record)
}

/// Has `serde_json` write a string.
fn render_text(text: &str) -> (r: Result<Vec<u8>, WalError>)
    ensures
        r matches Ok(bytes) && bytes@ == rendered(Json::Text(text@)),
{
    match render(&text_value(text)) {
        Ok(bytes) => Ok(bytes),
        Err(_) => Err(WalError::Serialization),
    }
}

/// Has `serde_json` write a payload, or writes `null` for an absent one.
fn render_payload(payload: &Option<Value>) -> (r: Result<Vec<u8>, WalError>)
    ensures
        r matches Ok(bytes) && bytes@ == payload_text(payload_of(*payload)),
{
    match payload {
        Some(value) => match render(value) {
            Ok(bytes) => Ok(bytes),
            Err(_) => Err(WalError::Serialization),
        },
        None => Ok(slice_to_vec(NULL.as_bytes())),
    }
}

/// Has `serde_json` write a number.
fn render_number(number: &Number) -> (r: Result<Vec<u8>, WalError>)
    ensures
        r matches Ok(bytes) && bytes@ == rendered(Json::Number(*number)),
{
    match render(&number_value(number.clone())) {
        Ok(bytes) => Ok(bytes),
        Err(_) => Err(WalError::Serialization),
    }
}

/// Writes the record of an entry: its line, as `record_text` gives it, and
/// the line feed that ends it. It fails exactly where the line would hold a
/// line feed, and then with `WalError::Serialization`.
pub fn encode(entry: &LogEntry) -> (r: Result<Vec<u8>, WalError>)
    ensures
        match r {
            Ok(record) => !has_line_feed(record_text(entry@)) && record@ == record_text(entry@)
                + seq![LINE_FEED],
            Err(e) => has_line_feed(record_text(entry@)) && e == WalError::Serialization,
        },
{
    let transaction_id = match render_text(entry.transaction_id.as_str()) {
        Ok(bytes) => bytes,
        Err(e) => {
            return Err(e);
        },
    };
    let key = match render_text(entry.key.as_str()) {
        Ok(bytes) => bytes,
        Err(e) => {
            return Err(e);
        },
    };
    let old_value = match render_payload(&entry.old_value) {
        Ok(bytes) => bytes,
        Err(e) => {
            return Err(e);
        },
    };
    let new_value = match render_payload(&entry.new_value) {
        Ok(bytes) => bytes,
        Err(e) => {
            return Err(e);
        },
    };
    let timestamp = match render_number(&entry.timestamp) {
        Ok(bytes) => bytes,
        Err(e) => {
            return Err(e);
        },
    };
    record_from_texts(
        entry.sequence_number,
        transaction_id.as_slice(),
        entry.operation_type,
        key.as_slice(),
        old_value.as_slice(),
        new_value.as_slice(),
        timestamp.as_slice(),
    )
}

/// The number under `key`, where it is one that fits `u64`.
pub open spec fn u64_member(json: Json, key: Seq<char>) -> Option<u64> {
    match member_of(json, key) {
        Some(Json::Number(number)) => number_u64(number),
        _ => None,
    }
}

/// The string under `key`.
pub open spec fn text_member(json: Json, key: Seq<char>) -> Option<Seq<char>> {
    match member_of(json, key) {
        Some(Json::Text(text)) => Some(text),
        _ => None,
    }
}

/// The number under `key`.
pub open spec fn number_member(json: Json, key: Seq<char>) -> Option<Number> {
    match member_of(json, key) {
        Some(Json::Number(number)) => Some(number),
        _ => None,
    }
}

/// The payload under `key`: absent where the object has no such member or
/// has `null` there.
pub open spec fn payload_member(json: Json, key: Seq<char>) -> Option<Json> {
    match member_of(json, key) {
        Some(Json::Null) => None,
        other => other,
    }
}

/// The operation that a word stands for.
pub open spec fn operation_named(word: Seq<char>) -> Option<OperationType> {
    if word == OperationType::INSERT.name() {
        Some(OperationType::INSERT)
    } else if word == OperationType::UPDATE.name() {
        Some(OperationType::UPDATE)
    } else if word == OperationType::DELETE.name() {
        Some(OperationType::DELETE)
    } else {
        None
    }
}

/// The operation under `operation_type`.
pub open spec fn operation_member(json: Json) -> Option<OperationType> {
    match text_member(json, OPERATION_TYPE@) {
        Some(word) => operation_named(word),
        None => None,
    }
}

/// The entry that a JSON value stands for. It is an object with a sequence
/// number that fits `u64`, a transaction id and a key that are strings, an
/// operation type that is one of the three words, and a timestamp that is a
/// number. The two payloads may be missing or `null`. Other members are
/// ignored.
pub open spec fn entry_of(json: Json) -> Option<LogEntryView> {
    match (
        u64_member(json, SEQUENCE_NUMBER@),
        text_member(json, TRANSACTION_ID@),
        operation_member(json),
        text_member(json, KEY@),
        number_member(json, TIMESTAMP@),
    ) {
        (
            Some(sequence_number),
            Some(transaction_id),
            Some(operation_type),
            Some(key),
            Some(timestamp),
        ) => Some(
            LogEntryView {
                sequence_number,
                transaction_id,
                operation_type,
                key,
                old_value: payload_member(json, OLD_VALUE@),
                new_value: payload_member(json, NEW_VALUE@),
                timestamp,
            },
        ),
        _ => None,
    }
}

/// The entry that a line stands for: the line is one JSON value, and the
/// value stands for an entry.
pub open spec fn decoded(line: Seq<u8>) -> Option<LogEntryView> {
    match parsed(line) {
        Some(json) => entry_of(json),
        None => None,
    }
}

/// Reads the operation that a word stands for.
pub fn operation_from(word: &str) -> (r: Option<OperationType>)
    ensures
        r == operation_named(word@),
{
    if same_text(word, OperationType::INSERT.as_str()) {
        Some(OperationType::INSERT)
    } else if same_text(word, OperationType::UPDATE.as_str()) {
        Some(OperationType::UPDATE)
    } else if same_text(word, OperationType::DELETE.as_str()) {
        Some(OperationType::DELETE)
    } else {
        None
    }
}

/// Reads the member under `key` as a number that fits `u64`.
fn read_u64(value: &Value, key: &str) -> (r: Option<u64>)
    ensures
        r == u64_member(json_of(*value), key@),
{
    match member(value, key) {
        Some(found) => as_u64(found),
        None => None,
    }
}

/// Reads the member under `key` as a string.
fn read_text(value: &Value, key: &str) -> (r: Option<String>)
    ensures
        match r {
            Some(text) => text_member(json_of(*value), key@) == Some(text@),
            None => text_member(json_of(*value), key@) is None,
        },
{
    match member(value, key) {
        Some(found) => match as_str(found) {
            Some(text) => Some(text.to_owned()),
            None => None,
        },
        None => None,
    }
}

/// Reads the member under `key` as a number.
fn read_number(value: &Value, key: &str) -> (r: Option<Number>)
    ensures
        r == number_member(json_of(*value), key@),
{
    match member(value, key) {
        Some(found) => as_number(found),
        None => None,
    }
}

/// Reads the member under `key` as a payload.
fn read_payload(value: &Value, key: &str) -> (r: Option<Value>)
    ensures
        payload_of(r) == payload_member(json_of(*value), key@),
{
    match member(value, key) {
        Some(found) => if is_null(found) {
            None
        } else {
            Some(found.clone())
        },
        None => None,
    }
}

/// Takes the entry from a JSON value that stands for one.
pub fn entry_from_json(value: &Value) -> (r: Option<LogEntry>)
    ensures
        match r {
            Some(entry) => entry_of(json_of(*value)) == Some(entry@),
            None => entry_of(json_of(*value)) is None,
        },
{
    let sequence_number = match read_u64(value, SEQUENCE_NUMBER) {
        Some(n) => n,
        None => {
            return None;
        },
    };
    let transaction_id = match read_text(value, TRANSACTION_ID) {
        Some(text) => text,
        None => {
            return None;
        },
    };
    let operation_type = match read_text(value, OPERATION_TYPE) {
        Some(word) => match operation_from(word.as_str()) {
            Some(operation) => operation,
            None => {
                return None;
            },
        },
        None => {
            return None;
        },
    };
    let key = match read_text(value, KEY) {
        Some(text) => text,
        None => {
            return None;
        },
    };
    let timestamp = match read_number(value, TIMESTAMP) {
        Some(number) => number,
        None => {
            return None;
        },
    };
    let old_value = read_payload(value, OLD_VALUE);
    let new_value = read_payload(value, NEW_VALUE);
    Some(
        LogEntry {
            sequence_number,
            transaction_id,
            operation_type,
            key,
            old_value,
            new_value,
            timestamp,
        },
    )
}

/// Tells whether two payloads are written the same.
fn same_payload(a: &Option<Value>, b: &Option<Value>) -> (r: bool)
    ensures
        r == (payload_text(payload_of(*a)) == payload_text(payload_of(*b))),
{
    match (render_payload(a), render_payload(b)) {
        (Ok(first), Ok(second)) => same_bytes(first.as_slice(), second.as_slice()),
        _ => false,
    }
}

/// Tells whether two entries record the same mutation under the same
/// number.
pub fn records_same_mutation(a: &LogEntry, b: &LogEntry) -> (r: bool)
    ensures
        r == same_mutation(a@, b@),
{
    a.sequence_number == b.sequence_number && same_text(
        a.transaction_id.as_str(),
        b.transaction_id.as_str(),
    ) && a.operation_type == b.operation_type && same_text(a.key.as_str(), b.key.as_str())
        && same_payload(&a.old_value, &b.old_value) && same_payload(&a.new_value, &b.new_value)
}

/// Reads a line as an entry; `None` where the line is not JSON or the JSON
/// does not stand for an entry.
pub fn decode(line: &[u8]) -> (r: Option<LogEntry>)
    ensures
        match r {
            Some(entry) => decoded(line@) == Some(entry@),
            None => decoded(line@) is None,
        },
{
    match parse(line) {
        Ok(value) => entry_from_json(&value),
        Err(_) => None,
    }
}

} // verus!
