//! Records as lines: where a line ends, and what surrounds a record on its
//! line.
//!
//! A log is a sequence of bytes. A line feed ends a line; what stands between
//! two line feeds, without the white space around it, is a record. White space
//! is any character that Unicode marks as `White_Space`, recognised here by
//! its UTF-8 encoding.

use vstd::prelude::*;
use vstd::slice::slice_subrange;

verus! {

/// The byte that ends a line.
pub const LINE_FEED: u8 = 0x0A;

/// One-byte white space: U+0009 to U+000D and U+0020.
pub open spec fn space_byte(b: u8) -> bool {
    (0x09 <= b && b <= 0x0D) || b == 0x20
}

/// Two-byte white space: U+0085 and U+00A0.
pub open spec fn space_pair(a: u8, b: u8) -> bool {
    a == 0xC2 && (b == 0x85 || b == 0xA0)
}

/// Three-byte white space: U+1680, U+2000 to U+200A, U+2028, U+2029, U+202F,
/// U+205F and U+3000.
pub open spec fn space_triple(a: u8, b: u8, c: u8) -> bool {
    ||| (a == 0xE1 && b == 0x9A && c == 0x80)
    ||| (a == 0xE2 && b == 0x80 && ((0x80 <= c && c <= 0x8A) || c == 0xA8 || c == 0xA9 || c
        == 0xAF))
    ||| (a == 0xE2 && b == 0x81 && c == 0x9F)
    ||| (a == 0xE3 && b == 0x80 && c == 0x80)
}

/// How many bytes the white-space character at the front of `bytes` takes;
/// 0 where `bytes` does not start with one.
pub open spec fn space_at_front(bytes: Seq<u8>) -> nat {
    if bytes.len() >= 1 && space_byte(bytes[0]) {
        1
    } else if bytes.len() >= 2 && space_pair(bytes[0], bytes[1]) {
        2
    } else if bytes.len() >= 3 && space_triple(bytes[0], bytes[1], bytes[2]) {
        3
    } else {
        0
    }
}

/// How many bytes the white-space character at the back of `bytes` takes;
/// 0 where `bytes` does not end with one.
pub open spec fn space_at_back(bytes: Seq<u8>) -> nat {
    let n = bytes.len() as int;
    if n >= 1 && space_byte(bytes[n - 1]) {
        1
    } else if n >= 2 && space_pair(bytes[n - 2], bytes[n - 1]) {
        2
    } else if n >= 3 && space_triple(bytes[n - 3], bytes[n - 2], bytes[n - 1]) {
        3
    } else {
        0
    }
}

/// `bytes` without the white space at its front.
pub open spec fn trim_front(bytes: Seq<u8>) -> Seq<u8>
    decreases bytes.len(),
{
    let width = space_at_front(bytes);
    if width == 0 {
        bytes
    } else {
        trim_front(bytes.skip(width as int))
    }
}

/// `bytes` without the white space at its back.
pub open spec fn trim_back(bytes: Seq<u8>) -> Seq<u8>
    decreases bytes.len(),
{
    let width = space_at_back(bytes);
    if width == 0 {
        bytes
    } else {
        trim_back(bytes.take(bytes.len() - width))
    }
}

/// `bytes` without the white space around it.
pub open spec fn trimmed(bytes: Seq<u8>) -> Seq<u8> {
    trim_back(trim_front(bytes))
}

/// The length of the first line of `bytes`: the index of its first line
/// feed, or its length where it has none.
pub open spec fn line_length(bytes: Seq<u8>) -> nat
    decreases bytes.len(),
{
    if bytes.len() == 0 || bytes[0] == LINE_FEED {
        0
    } else {
        1 + line_length(bytes.drop_first())
    }
}

/// Whether a line feed occurs in `bytes`.
pub open spec fn has_line_feed(bytes: Seq<u8>) -> bool {
    exists|i: int| 0 <= i < bytes.len() && bytes[i] == LINE_FEED
}

/// The first line ends at or before the end, on a line feed or at the end,
/// and holds no line feed.
pub proof fn lemma_line_length(bytes: Seq<u8>)
    ensures
        line_length(bytes) <= bytes.len(),
        line_length(bytes) < bytes.len() ==> bytes[line_length(bytes) as int] == LINE_FEED,
        !has_line_feed(bytes.take(line_length(bytes) as int)),
        !has_line_feed(bytes) <==> line_length(bytes) == bytes.len(),
    decreases bytes.len(),
{
    if bytes.len() == 0 || bytes[0] == LINE_FEED {
    } else {
        let rest = bytes.drop_first();
        lemma_line_length(rest);
        let k = line_length(rest) as int;
        let first = bytes.take(k + 1);
        assert forall|i: int| 0 <= i < first.len() implies first[i] != LINE_FEED by {
            if i > 0 {
                assert(rest.take(k)[i - 1] == bytes[i]);
            }
        }
        if has_line_feed(bytes) {
            let i = choose|i: int| 0 <= i < bytes.len() && bytes[i] == LINE_FEED;
            assert(rest[i - 1] == LINE_FEED);
        }
        if has_line_feed(rest) {
            let i = choose|i: int| 0 <= i < rest.len() && rest[i] == LINE_FEED;
            assert(bytes[i + 1] == LINE_FEED);
        }
    }
}

/// A line that is followed by more bytes has the length it has alone,
/// whatever follows its line feed.
pub proof fn lemma_line_length_of_joined(line: Seq<u8>, rest: Seq<u8>)
    requires
        !has_line_feed(line),
    ensures
        line_length(line + seq![LINE_FEED] + rest) == line.len(),
    decreases line.len(),
{
    let joined = line + seq![LINE_FEED] + rest;
    if line.len() == 0 {
        assert(joined[0] == LINE_FEED);
    } else {
        assert(joined[0] == line[0]);
        assert(line[0] != LINE_FEED);
        let tail = line.drop_first();
        assert forall|i: int| 0 <= i < tail.len() implies tail[i] != LINE_FEED by {
            assert(line[i + 1] == tail[i]);
        }
        assert(joined.drop_first() =~= tail + seq![LINE_FEED] + rest);
        lemma_line_length_of_joined(tail, rest);
    }
}

/// Tells whether a byte is a white-space character of one byte.
pub fn is_space_byte(b: u8) -> (r: bool)
    ensures
        r == space_byte(b),
{
    (0x09 <= b && b <= 0x0D) || b == 0x20
}

/// Tells whether two bytes are a white-space character of two bytes.
pub fn is_space_pair(a: u8, b: u8) -> (r: bool)
    ensures
        r == space_pair(a, b),
{
    a == 0xC2 && (b == 0x85 || b == 0xA0)
}

/// Tells whether three bytes are a white-space character of three bytes.
pub fn is_space_triple(a: u8, b: u8, c: u8) -> (r: bool)
    ensures
        r == space_triple(a, b, c),
{
    (a == 0xE1 && b == 0x9A && c == 0x80) || (a == 0xE2 && b == 0x80 && ((0x80 <= c && c
        <= 0x8A) || c == 0xA8 || c == 0xA9 || c == 0xAF)) || (a == 0xE2 && b == 0x81 && c
        == 0x9F) || (a == 0xE3 && b == 0x80 && c == 0x80)
}

/// The width of the white-space character at the front of
/// `bytes[from..to]`.
fn front_space(bytes: &[u8], from: usize, to: usize) -> (width: usize)
    requires
        from <= to <= bytes@.len(),
    ensures
        width == space_at_front(bytes@.subrange(from as int, to as int)),
        from + width <= to,
{
    let len: usize = to - from;
    if len >= 1 && is_space_byte(bytes[from]) {
        1
    } else if len >= 2 && is_space_pair(bytes[from], bytes[from + 1]) {
        2
    } else if len >= 3 && is_space_triple(bytes[from], bytes[from + 1], bytes[from + 2]) {
        3
    } else {
        0
    }
}

/// The width of the white-space character at the back of
/// `bytes[from..to]`.
fn back_space(bytes: &[u8], from: usize, to: usize) -> (width: usize)
    requires
        from <= to <= bytes@.len(),
    ensures
        width == space_at_back(bytes@.subrange(from as int, to as int)),
        from + width <= to,
{
    let len: usize = to - from;
    if len >= 1 && is_space_byte(bytes[to - 1]) {
        1
    } else if len >= 2 && is_space_pair(bytes[to - 2], bytes[to - 1]) {
        2
    } else if len >= 3 && is_space_triple(bytes[to - 3], bytes[to - 2], bytes[to - 1]) {
        3
    } else {
        0
    }
}

/// Removes the white space around `bytes`.
pub fn trim(bytes: &[u8]) -> (r: &[u8])
    ensures
        r@ == trimmed(bytes@),
{
    let len: usize = bytes.len();
    let mut start: usize = 0;
    assert(bytes@.subrange(0, len as int) =~= bytes@);
    loop
        invariant
            len == bytes@.len(),
            start <= len,
            trim_front(bytes@) == trim_front(bytes@.subrange(start as int, len as int)),
        ensures
            trim_front(bytes@) == bytes@.subrange(start as int, len as int),
        decreases len - start,
    {
        let width: usize = front_space(bytes, start, len);
        if width == 0 {
            break ;
        }
        assert(bytes@.subrange(start as int, len as int).skip(width as int) =~= bytes@.subrange(
            start + width,
            len as int,
        ));
        start = start + width;
    }
    let mut end: usize = len;
    loop
        invariant
            len == bytes@.len(),
            start <= end <= len,
            trimmed(bytes@) == trim_back(bytes@.subrange(start as int, end as int)),
        ensures
            start <= end <= len,
            trimmed(bytes@) == bytes@.subrange(start as int, end as int),
        decreases end - start,
    {
        let width: usize = back_space(bytes, start, end);
        if width == 0 {
            break ;
        }
        assert(bytes@.subrange(start as int, end as int).take(end - start - width)
            =~= bytes@.subrange(start as int, end - width));
        end = end - width;
    }
    slice_subrange(bytes, start, end)
}

/// Finds where the line that starts at `from` ends: at the next line feed,
/// or at the end of `bytes`.
pub fn line_end(bytes: &[u8], from: usize) -> (end: usize)
    requires
        from <= bytes@.len(),
    ensures
        from <= end <= bytes@.len(),
        end - from == line_length(bytes@.skip(from as int)),
{
    let len: usize = bytes.len();
    let mut end: usize = from;
    while end < len && bytes[end] != LINE_FEED
        invariant
            len == bytes@.len(),
            from <= end <= len,
            line_length(bytes@.skip(from as int)) == (end - from) + line_length(
                bytes@.skip(end as int),
            ),
        decreases len - end,
    {
        assert(bytes@.skip(end as int).drop_first() =~= bytes@.skip(end + 1));
        end = end + 1;
    }
    end
}

/// Tells whether a line feed occurs in `bytes`.
pub fn contains_line_feed(bytes: &[u8]) -> (r: bool)
    ensures
        r == has_line_feed(bytes@),
{
    proof {
        lemma_line_length(bytes@);
        assert(bytes@.skip(0) =~= bytes@);
    }
    line_end(bytes, 0) < bytes.len()
}

} // verus!
