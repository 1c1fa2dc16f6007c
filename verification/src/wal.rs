//! The log itself: the path it is bound to and the counter that numbers its
//! entries.
//!
//! A `WriteAheadLog` is the state that a host keeps behind one lock. The host
//! reads the file and hands its bytes in; it takes the bytes of each record
//! out, puts them at the end of the file and syncs the file before it tells
//! its caller that the write is done.
//!
//! A crash or a failed write can leave half a record at the end of the file.
//! The log remembers that the file may end in the middle of a line, and
//! starts the next record with a line feed: the half record stays a line of
//! its own, which replay passes over, and the next record is not lost in it.

use crate::codec::{encode, record_text, same_mutation};
use crate::clock::seconds_since_epoch;
use crate::entry::{payload_of, views, LogEntry, LogEntryView, OperationType};
use crate::error::WalError;
use crate::framing::{has_line_feed, LINE_FEED};
use crate::json::Json;
use crate::text::append;
use crate::replay::{
    corrupt_lines, ends_lines, lemma_replay_after_appends, reads_back, record_after,
    record_lines, replay, replayed, with_records, Replay,
};
use serde_json::{Number, Value};
use vstd::prelude::*;

verus! {

/// A log bound to a file, with the counter that numbers its entries.
#[derive(Debug)]
pub struct WriteAheadLog {
    log_file_path: String,
    /// The last sequence number that was given out; 0 before the first.
    sequence_counter: u64,
    /// Whether the file may end in the middle of a line: it did when the
    /// log was opened, or a write to it has failed since.
    mid_line: bool,
}

/// What a log is: its path, the last sequence number it gave out, and
/// whether its file may end in the middle of a line.
pub struct WalView {
    pub path: Seq<char>,
    pub counter: u64,
    pub mid_line: bool,
}

/// What one accepted mutation adds to the log.
#[must_use]
#[derive(Debug)]
pub struct Appended {
    /// The entry as it is recorded, with the sequence number it was given.
    pub entry: LogEntry,
    /// The bytes to put at the end of the log file: the entry's line and the
    /// line feed that ends it, and before them a line feed where the file
    /// may end in the middle of a line.
    pub record: Vec<u8>,
}

impl View for WriteAheadLog {
    type V = WalView;

    closed spec fn view(&self) -> WalView {
        WalView {
            path: self.log_file_path@,
            counter: self.sequence_counter,
            mid_line: self.mid_line,
        }
    }
}

/// The highest sequence number among the entries; 0 where there are none.
pub open spec fn highest_sequence(entries: Seq<LogEntryView>) -> u64
    decreases entries.len(),
{
    if entries.len() == 0 {
        0
    } else {
        let earlier = highest_sequence(entries.drop_last());
        if entries.last().sequence_number > earlier {
            entries.last().sequence_number
        } else {
            earlier
        }
    }
}

/// One step of the counter: the log gives out the number after the last one
/// and keeps it as the last one. The record that goes with the number ends
/// its line, so after it the file ends where a line ends.
pub open spec fn assigns(before: WalView, after: WalView, sequence_number: u64) -> bool {
    &&& after.path == before.path
    &&& sequence_number == before.counter + 1
    &&& after.counter == sequence_number
    &&& !after.mid_line
}

/// A log as it is opened on what a file holds: the counter stands at the
/// highest sequence number among the file's entries, and the file is taken
/// to end in the middle of a line exactly where it does.
pub open spec fn opened_on(wal: WalView, contents: Seq<u8>) -> bool {
    &&& wal.counter == highest_sequence(replayed(contents))
    &&& wal.mid_line == !ends_lines(contents)
}

/// The entry that a log makes of a mutation at a given time: the parts as
/// given, under the number after the last one.
pub open spec fn entry_made(
    before: WalView,
    transaction_id: Seq<char>,
    operation_type: OperationType,
    key: Seq<char>,
    old_value: Option<Json>,
    new_value: Option<Json>,
    timestamp: Number,
) -> LogEntryView {
    LogEntryView {
        sequence_number: (before.counter + 1) as u64,
        transaction_id,
        operation_type,
        key,
        old_value,
        new_value,
        timestamp,
    }
}

/// The file after a log has accepted some mutations and the record of each
/// was put at its end: `states` holds the log before each mutation.
pub open spec fn file_after(
    contents: Seq<u8>,
    states: Seq<WalView>,
    entries: Seq<LogEntryView>,
) -> Seq<u8> {
    with_records(
        contents,
        Seq::new(entries.len(), |i: int| states[i].mid_line),
        record_lines(entries),
    )
}

/// No entry has a sequence number above the highest, and where there are
/// entries one of them has it.
pub proof fn lemma_highest_sequence(entries: Seq<LogEntryView>)
    ensures
        forall|i: int|
            0 <= i < entries.len() ==> (#[trigger] entries[i]).sequence_number
                <= highest_sequence(entries),
        entries.len() > 0 ==> exists|i: int|
            0 <= i < entries.len() && (#[trigger] entries[i]).sequence_number
                == highest_sequence(entries),
        entries.len() == 0 ==> highest_sequence(entries) == 0,
    decreases entries.len(),
{
    if entries.len() > 0 {
        let earlier = entries.drop_last();
        lemma_highest_sequence(earlier);
        assert forall|i: int| 0 <= i < entries.len() implies (#[trigger] entries[i]).sequence_number
            <= highest_sequence(entries) by {
            if i < earlier.len() {
                assert(earlier[i] == entries[i]);
            }
        }
        if entries.last().sequence_number > highest_sequence(earlier) {
            assert(entries[entries.len() - 1].sequence_number == highest_sequence(entries));
        } else if earlier.len() > 0 {
            let i = choose|i: int|
                0 <= i < earlier.len() && (#[trigger] earlier[i]).sequence_number
                    == highest_sequence(earlier);
            assert(entries[i] == earlier[i]);
        } else {
            assert(entries[0].sequence_number == highest_sequence(entries));
        }
    }
}

/// The numbers that a log gives out one after another are consecutive:
/// the first is one above the counter at the start, each next one is one
/// above the one before it. So they rise, and none comes twice or is left
/// out. `states` holds the log before the first number and after each
/// number. A call that fails leaves the log as it was, and so does not show
/// between two states.
pub proof fn lemma_sequence_numbers_are_consecutive(states: Seq<WalView>, numbers: Seq<u64>)
    requires
        states.len() == numbers.len() + 1,
        forall|i: int|
            0 <= i < numbers.len() ==> assigns(states[i], states[i + 1], #[trigger] numbers[i]),
    ensures
        forall|i: int|
            0 <= i < numbers.len() ==> #[trigger] numbers[i] == states[0].counter + i + 1,
        forall|i: int, j: int|
            0 <= i < j < numbers.len() ==> #[trigger] numbers[i] < #[trigger] numbers[j],
        forall|i: int| 0 <= i < states.len() ==> (#[trigger] states[i]).path == states[0].path,
    decreases numbers.len(),
{
    if numbers.len() > 0 {
        let n = numbers.len() as int;
        let earlier_states = states.drop_last();
        let earlier_numbers = numbers.drop_last();
        assert forall|i: int| 0 <= i < earlier_numbers.len() implies assigns(
            earlier_states[i],
            earlier_states[i + 1],
            #[trigger] earlier_numbers[i],
        ) by {
            assert(assigns(states[i], states[i + 1], numbers[i]));
        }
        lemma_sequence_numbers_are_consecutive(earlier_states, earlier_numbers);
        assert(assigns(states[n - 1], states[n], numbers[n - 1]));
        if n > 1 {
            assert(assigns(states[n - 2], states[n - 1], numbers[n - 2]));
            assert(earlier_numbers[n - 2] == numbers[n - 2]);
        }
        assert forall|i: int| 0 <= i < numbers.len() implies #[trigger] numbers[i]
            == states[0].counter + i + 1 by {
            if i < n - 1 {
                assert(earlier_numbers[i] == numbers[i]);
            }
        }
        assert forall|i: int| 0 <= i < states.len() implies (#[trigger] states[i]).path
            == states[0].path by {
            if i < n {
                assert(earlier_states[i] == states[i]);
            } else {
                assert(earlier_states[n - 1] == states[n - 1]);
            }
        }
    }
}

/// A log that is opened on what a file holds gives out, as its next number,
/// one that is above the number of every entry in the file.
pub proof fn lemma_number_after_reopening(
    contents: Seq<u8>,
    reopened: WalView,
    after: WalView,
    sequence_number: u64,
)
    requires
        opened_on(reopened, contents),
        assigns(reopened, after, sequence_number),
    ensures
        forall|i: int|
            0 <= i < replayed(contents).len() ==> (#[trigger] replayed(
                contents,
            )[i]).sequence_number < sequence_number,
{
    lemma_highest_sequence(replayed(contents));
}

/// From opening to replay. A log is opened on what a file holds, whatever
/// that is, and accepts some mutations; the record of each is put at the
/// end of the file. Then the file gives the entries it gave before, and
/// after them one entry for each mutation, in the order in which they were
/// accepted, each with the mutation as it was given and with its number.
/// The numbers of the new entries are consecutive and lie above the number
/// of every entry that the file held before. This holds of entries whose
/// lines are read back as written, which `record_reads_back` tests.
pub proof fn lemma_appends_are_replayed_in_order(
    contents: Seq<u8>,
    states: Seq<WalView>,
    entries: Seq<LogEntryView>,
)
    requires
        states.len() == entries.len() + 1,
        opened_on(states[0], contents),
        forall|i: int|
            0 <= i < entries.len() ==> assigns(
                states[i],
                states[i + 1],
                (#[trigger] entries[i]).sequence_number,
            ),
        forall|i: int| 0 <= i < entries.len() ==> reads_back(#[trigger] entries[i]),
    ensures
        ({
            let before = replayed(contents);
            let after = replayed(file_after(contents, states, entries));
            let held = before.len() as int;
            &&& after.len() == held + entries.len()
            &&& after.take(held) == before
            &&& forall|i: int|
                0 <= i < entries.len() ==> same_mutation(#[trigger] after[held + i], entries[i])
            &&& forall|i: int|
                0 <= i < entries.len() ==> (#[trigger] after[held + i]).sequence_number
                    == states[0].counter + i + 1
            &&& forall|i: int, j: int|
                0 <= i < held <= j < after.len() ==> (#[trigger] after[i]).sequence_number
                    < (#[trigger] after[j]).sequence_number
        }),
{
    let before = replayed(contents);
    let after = replayed(file_after(contents, states, entries));
    let held = before.len() as int;
    let numbers = entries.map_values(|entry: LogEntryView| entry.sequence_number);
    let mid_line = Seq::new(entries.len(), |i: int| states[i].mid_line);
    lemma_replay_after_appends(contents, mid_line, entries);
    assert forall|i: int| 0 <= i < numbers.len() implies assigns(
        states[i],
        states[i + 1],
        #[trigger] numbers[i],
    ) by {
        assert(numbers[i] == entries[i].sequence_number);
    }
    lemma_sequence_numbers_are_consecutive(states, numbers);
    lemma_highest_sequence(before);
    assert forall|i: int| 0 <= i < entries.len() implies (#[trigger] after[held
        + i]).sequence_number == states[0].counter + i + 1 by {
        assert(same_mutation(after[held + i], entries[i]));
        assert(numbers[i] == entries[i].sequence_number);
    }
    assert forall|i: int, j: int| 0 <= i < held <= j < after.len() implies (#[trigger] after[i])
        .sequence_number < (#[trigger] after[j]).sequence_number by {
        assert(after.take(held)[i] == after[i]);
        assert(before[i].sequence_number <= highest_sequence(before));
        assert(after[held + (j - held)].sequence_number == states[0].counter + (j - held) + 1);
    }
}

impl WriteAheadLog {
    /// Opens the log on what its file holds. The counter starts at the
    /// highest sequence number among the file's entries, so that the next
    /// number is one past it; on a file without entries it starts at 0.
    /// Where the file ends in the middle of a line, as a crash during a
    /// write leaves it, the log remembers that.
    pub fn new(log_file_path: &str, contents: &[u8]) -> (wal: Self)
        ensures
            wal@.path == log_file_path@,
            opened_on(wal@, contents@),
    {
        let found = replay(contents);
        let mut highest: u64 = 0;
        let mut i: usize = 0;
        while i < found.entries.len()
            invariant
                i <= found.entries@.len(),
                highest == highest_sequence(views(found.entries@).take(i as int)),
            decreases found.entries@.len() - i,
        {
            let ghost seen = views(found.entries@).take(i as int);
            let ghost next = views(found.entries@).take(i + 1);
            assert(next.drop_last() =~= seen);
            assert(next.last() == found.entries@[i as int]@);
            if found.entries[i].sequence_number > highest {
                highest = found.entries[i].sequence_number;
            }
            i = i + 1;
        }
        assert(views(found.entries@).take(i as int) =~= views(found.entries@));
        let len: usize = contents.len();
        let mid_line = len > 0 && contents[len - 1] != LINE_FEED;
        WriteAheadLog {
            log_file_path: log_file_path.to_owned(),
            sequence_counter: highest,
            mid_line,
        }
    }

    /// The path of the file that the log is bound to.
    pub fn log_file_path(&self) -> (path: &str)
        ensures
            path@ == self@.path,
    {
        self.log_file_path.as_str()
    }

    /// The last sequence number that was given out; 0 before the first.
    pub fn sequence_counter(&self) -> (counter: u64)
        ensures
            counter == self@.counter,
    {
        self.sequence_counter
    }

    /// Whether the file may end in the middle of a line, so that the next
    /// record starts with a line feed.
    pub fn ends_mid_line(&self) -> (mid_line: bool)
        ensures
            mid_line == self@.mid_line,
    {
        self.mid_line
    }

    /// Takes note that a write to the file has failed: the file may now end
    /// in the middle of a line, and the next record starts with a line
    /// feed. Nothing else changes.
    pub fn note_failed_write(&mut self)
        ensures
            final(self)@ == (WalView { mid_line: true, ..old(self)@ }),
    {
        self.mid_line = true;
    }

    /// The number that the next entry gets: one past the last. There is
    /// none once the counter stands at `u64::MAX`.
    pub fn next_sequence_number(&self) -> (r: Result<u64, WalError>)
        ensures
            r == (if self@.counter < u64::MAX {
                Ok::<u64, WalError>((self@.counter + 1) as u64)
            } else {
                Err::<u64, WalError>(WalError::SequenceExhausted)
            }),
    {
        if self.sequence_counter < u64::MAX {
            Ok(self.sequence_counter + 1)
        } else {
            Err(WalError::SequenceExhausted)
        }
    }

    /// Accepts a mutation at a given time: gives it the next sequence
    /// number, makes its entry, and writes the entry's record.
    ///
    /// The call succeeds exactly where a number is left and the entry's
    /// line holds no line feed. Then the counter has moved to the entry's
    /// number. Where the call fails the log is as it was; the failure is
    /// `SequenceExhausted` where no number is left, and `Serialization`
    /// otherwise.
    pub fn append_at(
        &mut self,
        transaction_id: String,
        operation_type: OperationType,
        key: String,
        old_value: Option<Value>,
        new_value: Option<Value>,
        timestamp: Number,
    ) -> (r: Result<Appended, WalError>)
        ensures
            ({
                let entry = entry_made(
                    old(self)@,
                    transaction_id@,
                    operation_type,
                    key@,
                    payload_of(old_value),
                    payload_of(new_value),
                    timestamp,
                );
                match r {
                    Ok(appended) => {
                        &&& old(self)@.counter < u64::MAX
                        &&& !has_line_feed(record_text(entry))
                        &&& assigns(old(self)@, final(self)@, entry.sequence_number)
                        &&& appended.entry@ == entry
                        &&& appended.record@ == record_after(
                            old(self)@.mid_line,
                            record_text(entry),
                        )
                    },
                    Err(e) => {
                        &&& final(self)@ == old(self)@
                        &&& if old(self)@.counter == u64::MAX {
                            e == WalError::SequenceExhausted
                        } else {
                            e == WalError::Serialization && has_line_feed(record_text(entry))
                        }
                    },
                }
            }),
    {
        let sequence_number = match self.next_sequence_number() {
            Ok(n) => n,
            Err(e) => {
                return Err(e);
            },
        };
        let entry = LogEntry::with_timestamp(
            sequence_number,
            transaction_id,
            operation_type,
            key,
            old_value,
            new_value,
            timestamp,
        );
        let line = match encode(&entry) {
            Ok(line) => line,
            Err(e) => {
                return Err(e);
            },
        };
        let mut record: Vec<u8> = Vec::new();
        if self.mid_line {
            record.push(LINE_FEED);
        }
        append(&mut record, line.as_slice());
        assert(record@ =~= record_after(self.mid_line, record_text(entry@)));
        self.sequence_counter = sequence_number;
        self.mid_line = false;
        Ok(Appended { entry, record })
    }

    /// Accepts a mutation now: reads the clock and goes on as `append_at`
    /// does with the time that the clock shows. The host puts the record at
    /// the end of the file and syncs the file; only then is the write done.
    ///
    /// Where no number is left the call fails with `SequenceExhausted` and
    /// does not read the clock. Otherwise it fails with `Clock` where the
    /// clock gives no time, and with `Serialization` where the entry's line
    /// would hold a line feed. Where it fails the log is as it was.
    pub fn write_log_entry(
        &mut self,
        transaction_id: String,
        operation_type: OperationType,
        key: String,
        old_value: Option<Value>,
        new_value: Option<Value>,
    ) -> (r: Result<Appended, WalError>)
        ensures
            old(self)@.counter == u64::MAX ==> r == Err::<Appended, WalError>(
                WalError::SequenceExhausted,
            ),
            match r {
                Ok(appended) => {
                    let entry = entry_made(
                        old(self)@,
                        transaction_id@,
                        operation_type,
                        key@,
                        payload_of(old_value),
                        payload_of(new_value),
                        appended.entry@.timestamp,
                    );
                    &&& assigns(old(self)@, final(self)@, entry.sequence_number)
                    &&& appended.entry@ == entry
                    &&& !has_line_feed(record_text(entry))
                    &&& appended.record@ == record_after(old(self)@.mid_line, record_text(entry))
                },
                Err(e) => {
                    &&& final(self)@ == old(self)@
                    &&& e == WalError::SequenceExhausted <==> old(self)@.counter == u64::MAX
                    &&& e == WalError::Serialization ==> exists|timestamp: Number|
                        has_line_feed(
                            record_text(
                                #[trigger] entry_made(
                                    old(self)@,
                                    transaction_id@,
                                    operation_type,
                                    key@,
                                    payload_of(old_value),
                                    payload_of(new_value),
                                    timestamp,
                                ),
                            ),
                        )
                },
            },
    {
        if self.sequence_counter == u64::MAX {
            return Err(WalError::SequenceExhausted);
        }
        match seconds_since_epoch() {
            Some(timestamp) => self.append_at(
                transaction_id,
                operation_type,
                key,
                old_value,
                new_value,
                timestamp,
            ),
            None => Err(WalError::Clock),
        }
    }

    /// Reads the log back from what its file holds; `None` stands for a
    /// file that does not exist, and gives no entries. The entries come in
    /// the order of the file. A line that is no entry is passed over and
    /// counted; it never makes the reading fail.
    pub fn read_log_entries(&self, contents: Option<&[u8]>) -> (r: Replay)
        ensures
            match contents {
                Some(bytes) => views(r.entries@) == replayed(bytes@) && r.skipped == corrupt_lines(
                    bytes@,
                ),
                None => r.entries@.len() == 0 && r.skipped == 0,
            },
    {
        match contents {
            Some(bytes) => replay(bytes),
            None => Replay { entries: Vec::new(), skipped: 0 },
        }
    }
}

} // verus!
