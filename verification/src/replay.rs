//! Reading a log back.
//!
//! The log is read line by line, from the start. A blank line is passed over.
//! A line that is no entry is passed over too, and counted: it is what a
//! crash in the middle of a write leaves behind. Nothing in the bytes makes
//! the reading fail.

use crate::codec::{
    decode, decoded, encode, lemma_layout_is_trimmed, payload_text, record_text,
    records_same_mutation, same_mutation,
};
use crate::entry::{views, LogEntry, LogEntryView};
use crate::framing::{
    has_line_feed, lemma_line_length, lemma_line_length_of_joined, line_end, line_length, trim,
    trimmed, LINE_FEED,
};
use crate::json::{rendered, Json};
use crate::text::same_bytes;
use vstd::prelude::*;
use vstd::slice::slice_subrange;

verus! {

/// What reading a log gives.
#[derive(Debug)]
pub struct Replay {
    /// The entries, in the order in which the log holds them.
    pub entries: Vec<LogEntry>,
    /// How many lines were not blank and yet no entry.
    pub skipped: usize,
}

/// The first line of a log, without its line feed.
pub open spec fn first_line(contents: Seq<u8>) -> Seq<u8> {
    contents.take(line_length(contents) as int)
}

/// What follows the first line and its line feed.
pub open spec fn after_first_line(contents: Seq<u8>) -> Seq<u8> {
    if line_length(contents) < contents.len() {
        contents.skip(line_length(contents) as int + 1)
    } else {
        Seq::empty()
    }
}

/// The entries that one line gives: the entry that the line stands for once
/// the white space around it is gone, and nothing for a blank line or for a
/// line that stands for no entry.
pub open spec fn line_entries(line: Seq<u8>) -> Seq<LogEntryView> {
    let record = trimmed(line);
    if record.len() == 0 {
        Seq::empty()
    } else {
        match decoded(record) {
            Some(entry) => seq![entry],
            None => Seq::empty(),
        }
    }
}

/// Whether a line is neither blank nor an entry.
pub open spec fn is_corrupt(line: Seq<u8>) -> bool {
    trimmed(line).len() > 0 && decoded(trimmed(line)) is None
}

/// The entries of a log: those of its lines, in order.
pub open spec fn replayed(contents: Seq<u8>) -> Seq<LogEntryView>
    decreases contents.len(),
{
    if contents.len() == 0 {
        Seq::empty()
    } else {
        line_entries(first_line(contents)) + replayed(after_first_line(contents))
    }
}

/// How many lines of a log are corrupt.
pub open spec fn corrupt_lines(contents: Seq<u8>) -> nat
    decreases contents.len(),
{
    if contents.len() == 0 {
        0
    } else {
        (if is_corrupt(first_line(contents)) {
            1nat
        } else {
            0nat
        }) + corrupt_lines(after_first_line(contents))
    }
}

/// Whether a log ends where a line ends: it is empty, or its last byte is a
/// line feed.
pub open spec fn ends_lines(contents: Seq<u8>) -> bool {
    contents.len() == 0 || contents.last() == LINE_FEED
}

/// A record as it is put at the end of a log: the line and the line feed
/// that ends it, and before them a line feed where the log may end in the
/// middle of a line.
pub open spec fn record_after(mid_line: bool, line: Seq<u8>) -> Seq<u8> {
    (if mid_line {
        seq![LINE_FEED]
    } else {
        Seq::<u8>::empty()
    }) + line + seq![LINE_FEED]
}

/// A log with more records at its end, one for each line, in order;
/// `mid_line` tells of each record whether it starts with a line feed.
pub open spec fn with_records(
    contents: Seq<u8>,
    mid_line: Seq<bool>,
    lines: Seq<Seq<u8>>,
) -> Seq<u8>
    decreases lines.len(),
{
    if lines.len() == 0 {
        contents
    } else {
        with_records(contents, mid_line.drop_last(), lines.drop_last()) + record_after(
            mid_line.last(),
            lines.last(),
        )
    }
}

/// The entries that the lines give, in order.
pub open spec fn entries_of_lines(lines: Seq<Seq<u8>>) -> Seq<LogEntryView>
    decreases lines.len(),
{
    if lines.len() == 0 {
        Seq::empty()
    } else {
        entries_of_lines(lines.drop_last()) + line_entries(lines.last())
    }
}

/// A log that starts with a whole line gives that line's entries and then
/// those of the rest.
pub proof fn lemma_replay_first_line(line: Seq<u8>, rest: Seq<u8>)
    requires
        !has_line_feed(line),
    ensures
        replayed(line + seq![LINE_FEED] + rest) == line_entries(line) + replayed(rest),
        corrupt_lines(line + seq![LINE_FEED] + rest) == (if is_corrupt(line) {
            1nat
        } else {
            0nat
        }) + corrupt_lines(rest),
{
    let contents = line + seq![LINE_FEED] + rest;
    lemma_line_length_of_joined(line, rest);
    assert(first_line(contents) =~= line);
    assert(after_first_line(contents) =~= rest);
}

/// A log made of two parts with a line feed between them gives the entries
/// of the first part and then those of the second, whatever the parts hold.
pub proof fn lemma_replay_joined(first: Seq<u8>, second: Seq<u8>)
    ensures
        replayed(first + seq![LINE_FEED] + second) == replayed(first) + replayed(second),
        corrupt_lines(first + seq![LINE_FEED] + second) == corrupt_lines(first) + corrupt_lines(
            second,
        ),
    decreases first.len(),
{
    let contents = first + seq![LINE_FEED] + second;
    let empty = Seq::<u8>::empty();
    lemma_line_length(first);
    let k = line_length(first) as int;
    assert(replayed(empty) =~= Seq::<LogEntryView>::empty());
    assert(corrupt_lines(empty) == 0);
    if k == first.len() {
        // The first part is one line, or nothing.
        lemma_replay_first_line(first, second);
        if first.len() > 0 {
            assert(first_line(first) =~= first);
            assert(replayed(first) =~= line_entries(first));
        }
    } else {
        // The first part is a line, a line feed and a shorter first part.
        let head = first.take(k);
        let tail = first.skip(k + 1);
        assert(contents =~= head + seq![LINE_FEED] + (tail + seq![LINE_FEED] + second));
        lemma_replay_first_line(head, tail + seq![LINE_FEED] + second);
        lemma_replay_first_line(head, tail);
        lemma_replay_joined(tail, second);
    }
}

/// What a log that ends where a line ends gives, it goes on giving, first
/// and in the same order, whatever bytes are put at its end: the longer log
/// gives the entries of the log and then those of what was put.
pub proof fn lemma_replay_is_kept(contents: Seq<u8>, more: Seq<u8>)
    requires
        ends_lines(contents),
    ensures
        replayed(contents + more) == replayed(contents) + replayed(more),
        corrupt_lines(contents + more) == corrupt_lines(contents) + corrupt_lines(more),
{
    if contents.len() > 0 {
        let empty = Seq::<u8>::empty();
        let body = contents.drop_last();
        assert(contents =~= body + seq![LINE_FEED] + empty);
        lemma_replay_joined(body, empty);
        lemma_replay_joined(body, more);
        assert(replayed(body) + replayed(empty) =~= replayed(body));
    }
}

/// A record put at the end of a log adds its line's entries at the end of
/// the log's entries, and the log then ends where a line ends. This holds
/// where the log ends where a line ends, and of every log where the record
/// starts with a line feed.
pub proof fn lemma_replay_with_record(contents: Seq<u8>, mid_line: bool, line: Seq<u8>)
    requires
        !has_line_feed(line),
        mid_line || ends_lines(contents),
    ensures
        replayed(contents + record_after(mid_line, line)) == replayed(contents) + line_entries(
            line,
        ),
        corrupt_lines(contents + record_after(mid_line, line)) == corrupt_lines(contents) + (
        if is_corrupt(line) {
            1nat
        } else {
            0nat
        }),
        ends_lines(contents + record_after(mid_line, line)),
{
    let ended = line + seq![LINE_FEED];
    lemma_replay_first_line(line, Seq::<u8>::empty());
    assert(ended + Seq::<u8>::empty() =~= ended);
    assert(line_entries(line) + replayed(Seq::<u8>::empty()) =~= line_entries(line));
    if mid_line {
        lemma_replay_joined(contents, ended);
        assert(contents + record_after(mid_line, line) =~= contents + seq![LINE_FEED] + ended);
    } else {
        lemma_replay_is_kept(contents, ended);
        assert(record_after(mid_line, line) =~= ended);
    }
}

/// Records put one after another at the end of a log add their lines'
/// entries, in that order, at the end of the log's entries. The first
/// record starts with a line feed where the log does not end where a line
/// ends; after a record the log always does.
pub proof fn lemma_replay_with_records(
    contents: Seq<u8>,
    mid_line: Seq<bool>,
    lines: Seq<Seq<u8>>,
)
    requires
        mid_line.len() == lines.len(),
        lines.len() > 0 ==> mid_line[0] || ends_lines(contents),
        forall|i: int| 0 <= i < lines.len() ==> !has_line_feed(#[trigger] lines[i]),
    ensures
        replayed(with_records(contents, mid_line, lines)) == replayed(contents)
            + entries_of_lines(lines),
        lines.len() > 0 ==> ends_lines(with_records(contents, mid_line, lines)),
    decreases lines.len(),
{
    if lines.len() > 0 {
        let earlier = with_records(contents, mid_line.drop_last(), lines.drop_last());
        lemma_replay_with_records(contents, mid_line.drop_last(), lines.drop_last());
        lemma_replay_with_record(earlier, mid_line.last(), lines.last());
    }
}

/// A line that is blank or no entry, between what comes before it and what
/// comes after it, leaves no trace in the entries: the log gives the entries
/// before the line and then those after it, in their order, as it would
/// without the line. The line is counted where it is not blank.
pub proof fn lemma_replay_skips_line(before: Seq<u8>, line: Seq<u8>, after: Seq<u8>)
    requires
        ends_lines(before),
        !has_line_feed(line),
        line_entries(line).len() == 0,
    ensures
        replayed(before + line + seq![LINE_FEED] + after) == replayed(before) + replayed(after),
        replayed(before + line + seq![LINE_FEED] + after) == replayed(before + after),
        corrupt_lines(before + line + seq![LINE_FEED] + after) == corrupt_lines(before + after)
            + (if is_corrupt(line) {
            1nat
        } else {
            0nat
        }),
{
    let rest = line + seq![LINE_FEED] + after;
    lemma_replay_first_line(line, after);
    assert(line_entries(line) + replayed(after) =~= replayed(after));
    lemma_replay_is_kept(before, rest);
    lemma_replay_is_kept(before, after);
    assert(before + line + seq![LINE_FEED] + after =~= before + rest);
}

/// The lines that record the entries, in order.
pub open spec fn record_lines(entries: Seq<LogEntryView>) -> Seq<Seq<u8>> {
    entries.map_values(|entry: LogEntryView| record_text(entry))
}

/// Whether the line that records an entry is read back as that entry: the
/// line holds no line feed, and stands for an entry with the same number
/// and the same mutation.
pub open spec fn reads_back(entry: LogEntryView) -> bool {
    &&& !has_line_feed(record_text(entry))
    &&& decoded(record_text(entry)) is Some
    &&& same_mutation(decoded(record_text(entry))->0, entry)
}

/// Whether the bytes are the record of an entry, with or without a line
/// feed before the line.
pub open spec fn is_record_of(record: Seq<u8>, entry: LogEntryView) -> bool {
    record == record_after(false, record_text(entry)) || record == record_after(
        true,
        record_text(entry),
    )
}

/// The line that records an entry gives what it is read back as, and
/// nothing else.
pub proof fn lemma_record_line_entries(entry: LogEntryView)
    ensures
        line_entries(record_text(entry)) == match decoded(record_text(entry)) {
            Some(read) => seq![read],
            None => Seq::empty(),
        },
{
    lemma_layout_is_trimmed(
        entry.sequence_number,
        rendered(Json::Text(entry.transaction_id)),
        entry.operation_type,
        rendered(Json::Text(entry.key)),
        payload_text(entry.old_value),
        payload_text(entry.new_value),
        rendered(Json::Number(entry.timestamp)),
    );
}

/// After the records of some entries were put, one after another, at the
/// end of a log, the log gives the entries it gave before and then one
/// entry for each record, in the order in which they were put, each with
/// the number and the mutation of the entry that was recorded. The first
/// record starts with a line feed where the log does not end where a line
/// ends. This holds of entries whose lines are read back as written, which
/// `record_reads_back` tests.
pub proof fn lemma_replay_after_appends(
    contents: Seq<u8>,
    mid_line: Seq<bool>,
    entries: Seq<LogEntryView>,
)
    requires
        mid_line.len() == entries.len(),
        entries.len() > 0 ==> mid_line[0] || ends_lines(contents),
        forall|i: int| 0 <= i < entries.len() ==> reads_back(#[trigger] entries[i]),
    ensures
        ({
            let before = replayed(contents);
            let after = replayed(with_records(contents, mid_line, record_lines(entries)));
            &&& after.len() == before.len() + entries.len()
            &&& after.take(before.len() as int) == before
            &&& forall|i: int|
                0 <= i < entries.len() ==> same_mutation(
                    #[trigger] after[before.len() + i],
                    entries[i],
                )
        }),
        entries.len() > 0 ==> ends_lines(
            with_records(contents, mid_line, record_lines(entries)),
        ),
    decreases entries.len(),
{
    if entries.len() > 0 {
        let n = entries.len() as int;
        let lines = record_lines(entries);
        let before = replayed(contents);
        let after = replayed(with_records(contents, mid_line, lines));
        let earlier = entries.drop_last();
        let last = entries[n - 1];
        let log = with_records(contents, mid_line.drop_last(), record_lines(earlier));
        let middle = replayed(log);
        assert(lines.drop_last() =~= record_lines(earlier));
        assert(lines[n - 1] == record_text(last));
        assert(reads_back(last));
        if n > 1 {
            assert(mid_line.drop_last()[0] == mid_line[0]);
        }
        assert forall|i: int| 0 <= i < earlier.len() implies reads_back(
            #[trigger] earlier[i],
        ) by {
            assert(earlier[i] == entries[i]);
        }
        lemma_replay_after_appends(contents, mid_line.drop_last(), earlier);
        assert(line_entries(record_text(last)) == seq![decoded(record_text(last))->0]) by {
            lemma_record_line_entries(last);
        }
        lemma_replay_with_record(log, mid_line[n - 1], record_text(last));
        assert(after == middle + seq![decoded(record_text(last))->0]);
        assert(after.take(before.len() as int) =~= middle.take(before.len() as int));
        assert forall|i: int| 0 <= i < entries.len() implies same_mutation(
            #[trigger] after[before.len() + i],
            entries[i],
        ) by {
            if i < earlier.len() {
                assert(earlier[i] == entries[i]);
                assert(after[before.len() + i] == middle[before.len() + i]);
            }
        }
    }
}

/// Tells whether the bytes are the record of the entry and the record is
/// read back as the entry: it writes the entry again, holds the bytes
/// against what it wrote, reads the line and compares.
pub fn record_reads_back(entry: &LogEntry, record: &[u8]) -> (r: bool)
    ensures
        r == (is_record_of(record@, entry@) && reads_back(entry@)),
{
    let written = match encode(entry) {
        Ok(written) => written,
        Err(_) => {
            return false;
        },
    };
    let ghost line = record_text(entry@);
    let len: usize = record.len();
    let plain = same_bytes(record, written.as_slice());
    let led = len > 0 && record[0] == LINE_FEED && same_bytes(
        slice_subrange(record, 1, len),
        written.as_slice(),
    );
    proof {
        assert(record_after(false, line) =~= written@);
        assert(record_after(true, line) =~= seq![LINE_FEED] + written@);
        if len > 0 && record@[0] == LINE_FEED {
            assert(record@ =~= seq![LINE_FEED] + record@.subrange(1, len as int));
        }
        if record@ == seq![LINE_FEED] + written@ {
            assert(record@.subrange(1, len as int) =~= written@);
        }
    }
    if !plain && !led {
        return false;
    }
    let text = slice_subrange(written.as_slice(), 0, written.len() - 1);
    assert(text@ =~= line);
    match decode(text) {
        Some(read) => records_same_mutation(&read, entry),
        None => false,
    }
}

/// Reads a log back: its entries in order, and the number of corrupt lines.
pub fn replay(contents: &[u8]) -> (r: Replay)
    ensures
        views(r.entries@) == replayed(contents@),
        r.skipped == corrupt_lines(contents@),
{
    let len: usize = contents.len();
    let mut entries: Vec<LogEntry> = Vec::new();
    let mut skipped: usize = 0;
    let mut pos: usize = 0;
    assert(contents@.skip(0) =~= contents@);
    while pos < len
        invariant
            len == contents@.len(),
            pos <= len,
            skipped <= pos,
            replayed(contents@) == views(entries@) + replayed(contents@.skip(pos as int)),
            corrupt_lines(contents@) == skipped + corrupt_lines(contents@.skip(pos as int)),
        decreases len - pos,
    {
        let ghost rest = contents@.skip(pos as int);
        let end: usize = line_end(contents, pos);
        let line = slice_subrange(contents, pos, end);
        let record = trim(line);
        assert(first_line(rest) =~= line@);
        if record.len() > 0 {
            match decode(record) {
                Some(entry) => {
                    entries.push(entry);
                },
                None => {
                    skipped = skipped + 1;
                },
            }
        }
        if end < len {
            pos = end + 1;
        } else {
            pos = len;
        }
        assert(after_first_line(rest) =~= contents@.skip(pos as int));
    }
    Replay { entries, skipped }
}

} // verus!
