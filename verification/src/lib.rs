//! The core of a write-ahead log for a key-value store.
//!
//! A write-ahead log records each mutation of the store, in the order in
//! which the store accepts them, before the mutation is applied. After a
//! crash the store reads the log back and applies the entries again.
//!
//! This crate performs no I/O. It holds what has to be right: the numbering
//! of the entries, the bytes of each record, and the reading of a log that a
//! crash may have left with a torn or garbled line. A host keeps a
//! [`WriteAheadLog`] behind one lock and does the rest:
//!
//! - to open the log, it makes the file where it is missing, reads it, and
//!   hands the bytes to [`WriteAheadLog::new`];
//! - to record a mutation, it calls [`WriteAheadLog::write_log_entry`], puts
//!   the record it gets at the end of the file, and syncs the file before it
//!   lets go of the lock; where the write or the sync fails, it calls
//!   [`WriteAheadLog::note_failed_write`];
//! - to replay, it reads the file and hands the bytes to
//!   [`WriteAheadLog::read_log_entries`].
//!
//! The log is a text file with one JSON object on each line.

pub mod clock;
pub mod codec;
pub mod entry;
pub mod error;
pub mod framing;
pub mod json;
pub mod replay;
pub mod text;
pub mod wal;

pub use entry::{LogEntry, LogEntryView, OperationType};
pub use error::WalError;
pub use replay::Replay;
pub use wal::{Appended, WriteAheadLog};
