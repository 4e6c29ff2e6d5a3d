//! The chunks of a Standard MIDI File, as far as they decide whether the
//! frame rate of a header can be read.
//!
//! A file is a chain of chunks: four bytes of name, four bytes of length,
//! then the data. A header chunk that gives its timing as a time code holds
//! the frame rate negated in one byte. The byte 0x80 has no negation in 8
//! bits, so a file whose chain leads to such a header is not handed to the
//! decoder.

use vstd::prelude::*;

verus! {

/// The four bytes at `at` are `a`, `b`, `c`, `d`.
pub open spec fn named(data: Seq<u8>, at: int, a: u8, b: u8, c: u8, d: u8) -> bool {
    data[at] == a && data[at + 1] == b && data[at + 2] == c && data[at + 3] == d
}

/// The bytes `MThd` stand at `at`: a header chunk.
pub open spec fn is_header(data: Seq<u8>, at: int) -> bool {
    named(data, at, 0x4D, 0x54, 0x68, 0x64)
}

/// The bytes `MTrk` stand at `at`: a track chunk.
pub open spec fn is_track(data: Seq<u8>, at: int) -> bool {
    named(data, at, 0x4D, 0x54, 0x72, 0x6B)
}

/// The bytes `RIFF` stand at `at`: the wrapper of a wrapped file.
pub open spec fn is_riff(data: Seq<u8>, at: int) -> bool {
    named(data, at, 0x52, 0x49, 0x46, 0x46)
}

/// The bytes `RMID` stand at `at`: the wrapper holds a MIDI file.
pub open spec fn is_rmid(data: Seq<u8>, at: int) -> bool {
    named(data, at, 0x52, 0x4D, 0x49, 0x44)
}

/// The bytes `data` stand at `at`: the chunk of a wrapper that holds the file.
pub open spec fn is_data(data: Seq<u8>, at: int) -> bool {
    named(data, at, 0x64, 0x61, 0x74, 0x61)
}

/// The four bytes at `at` as a number, highest byte first.
pub open spec fn big_endian(data: Seq<u8>, at: int) -> int {
    data[at] * 0x100_0000 + data[at + 1] * 0x1_0000 + data[at + 2] * 0x100 + data[at + 3]
}

/// The four bytes at `at` as a number, lowest byte first.
pub open spec fn little_endian(data: Seq<u8>, at: int) -> int {
    data[at + 3] * 0x100_0000 + data[at + 2] * 0x1_0000 + data[at + 1] * 0x100 + data[at]
}

/// Where the data of a chunk ends that begins at `body` and is `len` bytes
/// long by its own word: there, or at `end` if the bytes run out before.
pub open spec fn data_end(body: int, len: int, end: int) -> int {
    if body + len <= end {
        body + len
    } else {
        end
    }
}

/// The header data from `body` to `stop` holds a format that is known.
/// Reading a header stops with an error where it does not.
pub open spec fn format_known(data: Seq<u8>, body: int, stop: int) -> bool {
    stop - body >= 2 && data[body] * 0x100 + data[body + 1] <= 2
}

/// The header data from `body` to `stop` holds the frame rate byte 0x80, and
/// reading the header gets as far as that byte.
pub open spec fn header_overflows(data: Seq<u8>, body: int, stop: int) -> bool {
    format_known(data, body, stop) && stop - body >= 6 && data[body + 4] == 0x80
}

/// The header data from `body` to `stop` is read without an error: the
/// format is known, and the timing is in ticks per beat or a time code of
/// 24, 25, 29 or 30 frames.
pub open spec fn header_reads(data: Seq<u8>, body: int, stop: int) -> bool {
    &&& format_known(data, body, stop)
    &&& stop - body >= 6
    &&& {
        let rate = data[body + 4];
        rate < 0x80 || rate == 0xE8 || rate == 0xE7 || rate == 0xE3 || rate == 0xE2
    }
}

/// Reading the chain of chunks from `at` to `end` comes to a header chunk
/// with the frame rate byte 0x80.
///
/// The chain ends where fewer than eight bytes are left, at a header that
/// cannot be read, and at a track chunk that comes before any header
/// (`first`). Chunks of other names are passed over.
pub open spec fn chain_overflows(data: Seq<u8>, at: int, end: int, first: bool) -> bool
    decreases end - at,
{
    if at < 0 || at + 8 > end {
        false
    } else {
        let body = at + 8;
        let stop = data_end(body, big_endian(data, at + 4), end);
        if is_header(data, at) {
            header_overflows(data, body, stop) || (header_reads(data, body, stop)
                && chain_overflows(data, stop, end, false))
        } else if is_track(data, at) {
            !first && chain_overflows(data, stop, end, false)
        } else {
            chain_overflows(data, stop, end, first)
        }
    }
}

/// The data of the first chunk named `data` in the chunks of a wrapper from
/// `at` to `end`, as its first index and the index behind its last. A chunk
/// of odd length is followed by one byte of padding.
pub open spec fn wrapped_file(data: Seq<u8>, at: int, end: int) -> Option<(int, int)>
    decreases end - at,
{
    if at < 0 || at + 8 > end {
        None
    } else {
        let len = little_endian(data, at + 4);
        let body = at + 8;
        let stop = data_end(body, len, end);
        if is_data(data, at) {
            Some((body, stop))
        } else if len % 2 == 1 && stop < end {
            wrapped_file(data, stop + 1, end)
        } else {
            wrapped_file(data, stop, end)
        }
    }
}

/// The part of the bytes that holds the chain of chunks: all of them where
/// they begin with a header chunk, the wrapped file where they begin with a
/// wrapper, and nothing else.
pub open spec fn chunk_range(data: Seq<u8>) -> Option<(int, int)> {
    if data.len() < 4 {
        None
    } else if is_riff(data, 0) {
        if data.len() < 8 {
            None
        } else {
            let end = data_end(8, little_endian(data, 4), data.len() as int);
            if end - 8 >= 4 && is_rmid(data, 8) {
                wrapped_file(data, 12, end)
            } else {
                None
            }
        }
    } else if is_header(data, 0) {
        Some((0, data.len() as int))
    } else {
        None
    }
}

/// Reading the bytes as a file comes to a header chunk with the frame rate
/// byte 0x80.
pub open spec fn frame_rate_overflows(data: Seq<u8>) -> bool {
    match chunk_range(data) {
        Some((from, to)) => chain_overflows(data, from, to, true),
        None => false,
    }
}

/// Whether the four bytes at `at` are `a`, `b`, `c`, `d`.
fn has_name(data: &[u8], at: usize, a: u8, b: u8, c: u8, d: u8) -> (yes: bool)
    requires
        at + 4 <= data.len(),
    ensures
        yes == named(data@, at as int, a, b, c, d),
{
    data[at] == a && data[at + 1] == b && data[at + 2] == c && data[at + 3] == d
}

/// The four bytes at `at` as a number, highest byte first.
fn read_big_endian(data: &[u8], at: usize) -> (value: u32)
    requires
        at + 4 <= data.len(),
    ensures
        value == big_endian(data@, at as int),
{
    data[at] as u32 * 0x100_0000 + data[at + 1] as u32 * 0x1_0000 + data[at + 2] as u32 * 0x100
        + data[at + 3] as u32
}

/// The four bytes at `at` as a number, lowest byte first.
fn read_little_endian(data: &[u8], at: usize) -> (value: u32)
    requires
        at + 4 <= data.len(),
    ensures
        value == little_endian(data@, at as int),
{
    data[at + 3] as u32 * 0x100_0000 + data[at + 2] as u32 * 0x1_0000 + data[at + 1] as u32
        * 0x100 + data[at] as u32
}

/// Where the data of a chunk ends.
fn end_of_data(body: usize, len: u32, end: usize) -> (stop: usize)
    requires
        body <= end,
    ensures
        stop == data_end(body as int, len as int, end as int),
        body <= stop <= end,
{
    if len as usize <= end - body {
        body + len as usize
    } else {
        end
    }
}

/// Whether the header data from `body` to `stop` holds the frame rate byte
/// 0x80 where it is read, and whether the header is read without an error.
fn look_at_header(data: &[u8], body: usize, stop: usize) -> (found: (bool, bool))
    requires
        body <= stop <= data.len(),
    ensures
        found.0 == header_overflows(data@, body as int, stop as int),
        found.1 == header_reads(data@, body as int, stop as int),
{
    if stop - body < 6 {
        return (false, false);
    }
    let format: u16 = data[body] as u16 * 0x100 + data[body + 1] as u16;
    if format > 2 {
        return (false, false);
    }
    let rate = data[body + 4];
    (rate == 0x80, rate < 0x80 || rate == 0xE8 || rate == 0xE7 || rate == 0xE3 || rate == 0xE2)
}

/// The wrapped file among the chunks of a wrapper from `start` to `end`.
fn find_wrapped_file(data: &[u8], start: usize, end: usize) -> (range: Option<(usize, usize)>)
    requires
        start <= end <= data.len(),
    ensures
        match range {
            Some((from, to)) => wrapped_file(data@, start as int, end as int) == Some(
                (from as int, to as int),
            ) && from <= to <= data.len(),
            None => wrapped_file(data@, start as int, end as int) is None,
        },
{
    let mut at = start;
    while end - at >= 8
        invariant
            at <= end <= data.len(),
            wrapped_file(data@, at as int, end as int) == wrapped_file(
                data@,
                start as int,
                end as int,
            ),
        decreases end - at,
    {
        let len = read_little_endian(data, at + 4);
        let body = at + 8;
        let stop = end_of_data(body, len, end);
        if has_name(data, at, 0x64, 0x61, 0x74, 0x61) {
            return Some((body, stop));
        }
        at = if len % 2 == 1 && stop < end {
            stop + 1
        } else {
            stop
        };
    }
    None
}

/// The part of the bytes that holds the chain of chunks.
fn find_chunk_range(data: &[u8]) -> (range: Option<(usize, usize)>)
    ensures
        match range {
            Some((from, to)) => chunk_range(data@) == Some((from as int, to as int)) && from <= to
                <= data.len(),
            None => chunk_range(data@) is None,
        },
{
    if data.len() < 4 {
        return None;
    }
    if has_name(data, 0, 0x52, 0x49, 0x46, 0x46) {
        if data.len() < 8 {
            return None;
        }
        let end = end_of_data(8, read_little_endian(data, 4), data.len());
        if end - 8 >= 4 && has_name(data, 8, 0x52, 0x4D, 0x49, 0x44) {
            find_wrapped_file(data, 12, end)
        } else {
            None
        }
    } else if has_name(data, 0, 0x4D, 0x54, 0x68, 0x64) {
        Some((0, data.len()))
    } else {
        None
    }
}

/// Whether reading the bytes as a file comes to a header chunk with the
/// frame rate byte 0x80.
pub fn has_frame_rate_overflow(data: &[u8]) -> (found: bool)
    ensures
        found == frame_rate_overflows(data@),
{
    let (from, end) = match find_chunk_range(data) {
        Some(range) => range,
        None => {
            return false;
        },
    };
    let mut at = from;
    let mut first = true;
    while end - at >= 8
        invariant
            at <= end <= data.len(),
            chunk_range(data@) == Some((from as int, end as int)),
            chain_overflows(data@, at as int, end as int, first) == chain_overflows(
                data@,
                from as int,
                end as int,
                true,
            ),
        decreases end - at,
    {
        let body = at + 8;
        let stop = end_of_data(body, read_big_endian(data, at + 4), end);
        if has_name(data, at, 0x4D, 0x54, 0x68, 0x64) {
            let (overflows, reads) = look_at_header(data, body, stop);
            if overflows {
                return true;
            }
            if !reads {
                return false;
            }
            first = false;
        } else if has_name(data, at, 0x4D, 0x54, 0x72, 0x6B) {
            if first {
                return false;
            }
        }
        at = stop;
    }
    false
}

} // verus!
