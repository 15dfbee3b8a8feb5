//! Frames on bytes: reading one from what the source has yielded so far, and
//! writing one around a body.
//!
//! Reading follows the source line by line while it is in the header block,
//! and takes the declared number of bytes once the block has ended:
//!
//! ```text
//! ReadingHeaders --"\r\n"--> ReadingBody --declared bytes--> Done
//! ```

use vstd::prelude::*;
use vstd::slice::{slice_subrange, slice_to_vec};
use crate::error::{IoFailure, LspError};
use crate::header::{classify, classify_line, HeaderLine, CR, LF, ZERO};

verus! {

/// What the bytes that the source has yielded amount to.
pub enum Outcome {
    /// Nothing can be said yet: the source must yield more.
    Incomplete,
    /// A frame. It takes up the first `consumed` bytes, and `body` is what
    /// goes to the JSON parser.
    Frame { consumed: nat, body: Seq<u8> },
    /// No frame. The first `consumed` bytes are lost with the error.
    Failed { consumed: nat, error: LspError },
}

impl Outcome {
    /// How many bytes leave the buffer with this outcome.
    pub open spec fn consumed(self) -> nat {
        match self {
            Outcome::Incomplete => 0,
            Outcome::Frame { consumed, .. } => consumed,
            Outcome::Failed { consumed, .. } => consumed,
        }
    }

    /// The same outcome for an input that has `by` more bytes in front, which
    /// are consumed with it.
    pub open spec fn shifted(self, by: nat) -> Outcome {
        match self {
            Outcome::Incomplete => Outcome::Incomplete,
            Outcome::Frame { consumed, body } => Outcome::Frame { consumed: consumed + by, body },
            Outcome::Failed { consumed, error } => Outcome::Failed {
                consumed: consumed + by,
                error,
            },
        }
    }
}

/// What [`decode_frame`] found.
#[derive(Debug)]
pub enum Decoded {
    /// See [`Outcome::Incomplete`].
    Incomplete,
    /// See [`Outcome::Frame`].
    Frame { consumed: usize, body: Vec<u8> },
    /// See [`Outcome::Failed`].
    Failed { consumed: usize, error: LspError },
}

impl View for Decoded {
    type V = Outcome;

    open spec fn view(&self) -> Outcome {
        match *self {
            Decoded::Incomplete => Outcome::Incomplete,
            Decoded::Frame { consumed, body } => Outcome::Frame {
                consumed: consumed as nat,
                body: body@,
            },
            Decoded::Failed { consumed, error } => Outcome::Failed {
                consumed: consumed as nat,
                error,
            },
        }
    }
}

/// The index just past the first line feed at or after `from`, or the length
/// of the input where no line feed follows.
pub open spec fn line_end(input: Seq<u8>, from: int) -> int
    decreases input.len() - from,
{
    if from >= input.len() {
        input.len() as int
    } else if input[from] == LF {
        from + 1
    } else {
        line_end(input, from + 1)
    }
}

/// Whether a line can be read at `from`: one that ends in a line feed, or,
/// once the source is closed, the bytes that are left, if there are any.
pub open spec fn has_line(input: Seq<u8>, closed: bool, from: int) -> bool {
    let end = line_end(input, from);
    0 <= from < end <= input.len() && (input[end - 1] == LF || closed)
}

/// The header block from `from` on, with `length` the last length that a
/// `Content-Length` header declared before `from`.
///
/// Each line is read and judged in turn. The terminator hands over to the
/// body. A length that cannot be read fails at once, and the lines up to and
/// with the bad one are consumed. Where no line can be read, a closed source
/// is an error that consumes everything, and an open one must yield more.
pub open spec fn read_headers(input: Seq<u8>, closed: bool, from: int, length: usize) -> Outcome
    decreases input.len() - from,
{
    let end = line_end(input, from);
    if has_line(input, closed, from) {
        match classify_line(input.subrange(from, end)) {
            HeaderLine::Terminator => read_body(input, closed, end, length),
            HeaderLine::Length(declared) => read_headers(input, closed, end, declared),
            HeaderLine::BadLength(error) => Outcome::Failed {
                consumed: end as nat,
                error: LspError::Protocol(error),
            },
            HeaderLine::Other => read_headers(input, closed, end, length),
        }
    } else if closed {
        Outcome::Failed { consumed: input.len(), error: LspError::Io(IoFailure::EndInHeaders) }
    } else {
        Outcome::Incomplete
    }
}

/// The body behind a header block that ended at `start`: exactly `length`
/// bytes, never fewer. Where fewer are there, a closed source is an error
/// that consumes everything, and an open one must yield more.
pub open spec fn read_body(input: Seq<u8>, closed: bool, start: int, length: usize) -> Outcome {
    if start + length <= input.len() {
        Outcome::Frame {
            consumed: (start + length) as nat,
            body: input.subrange(start, start + length),
        }
    } else if closed {
        Outcome::Failed { consumed: input.len(), error: LspError::Io(IoFailure::EndInBody) }
    } else {
        Outcome::Incomplete
    }
}

/// What the bytes that the source has yielded amount to, read from their
/// start. Without a `Content-Length` header the body is empty.
pub open spec fn decode(input: Seq<u8>, closed: bool) -> Outcome {
    read_headers(input, closed, 0, 0)
}

/// The bytes `Content-Length: `, as a frame that this library writes starts.
pub open spec fn content_length_prefix() -> Seq<u8> {
    seq![
        0x43u8, 0x6fu8, 0x6eu8, 0x74u8, 0x65u8, 0x6eu8, 0x74u8, 0x2du8,
        0x4cu8, 0x65u8, 0x6eu8, 0x67u8, 0x74u8, 0x68u8, 0x3au8, 0x20u8,
    ]
}

/// The decimal digits of a number, most significant first, with no leading
/// zero but for zero itself.
pub open spec fn decimal_digits(number: nat) -> Seq<u8>
    decreases number,
{
    if number < 10 {
        seq![(ZERO + number) as u8]
    } else {
        decimal_digits(number / 10).push((ZERO + number % 10) as u8)
    }
}

/// The header line that declares `length`: `Content-Length: <length>\r\n`.
pub open spec fn header_line(length: nat) -> Seq<u8> {
    content_length_prefix() + decimal_digits(length) + seq![CR, LF]
}

/// The header block of a frame whose body has `length` bytes: the header
/// line and the empty line, `Content-Length: <length>\r\n\r\n`.
pub open spec fn frame_header(length: nat) -> Seq<u8> {
    header_line(length) + seq![CR, LF]
}

/// The frame around a body.
pub open spec fn frame(body: Seq<u8>) -> Seq<u8> {
    frame_header(body.len()) + body
}

/// The line that starts at `from` ends just past `end - 1` when a line feed
/// stands there and none before.
pub proof fn lemma_line_ends_at(input: Seq<u8>, from: int, end: int)
    requires
        0 <= from < end <= input.len(),
        input[end - 1] == LF,
        forall|i: int| from <= i < end - 1 ==> input[i] != LF,
    ensures
        line_end(input, from) == end,
    decreases end - from,
{
    if from < end - 1 {
        lemma_line_ends_at(input, from + 1, end);
    }
}

/// A line end lies behind its start, within the input, and no line feed
/// stands before the last byte of the line.
pub proof fn lemma_line_end_bounds(input: Seq<u8>, from: int)
    requires
        0 <= from <= input.len(),
    ensures
        from <= line_end(input, from) <= input.len(),
        from < input.len() ==> from < line_end(input, from),
        forall|i: int| from <= i < line_end(input, from) - 1 ==> input[i] != LF,
        line_end(input, from) < input.len() ==> input[line_end(input, from) - 1] == LF,
    decreases input.len() - from,
{
    if from < input.len() && input[from] != LF {
        lemma_line_end_bounds(input, from + 1);
    }
}

/// Decoding consumes no more than there is.
pub proof fn lemma_consumed_within(input: Seq<u8>, closed: bool)
    ensures
        decode(input, closed).consumed() <= input.len(),
{
    lemma_headers_consumed_within(input, closed, 0, 0);
}

/// Reading the header block from `from` on consumes no more than there is.
pub proof fn lemma_headers_consumed_within(input: Seq<u8>, closed: bool, from: int, length: usize)
    requires
        0 <= from <= input.len(),
    ensures
        read_headers(input, closed, from, length).consumed() <= input.len(),
    decreases input.len() - from,
{
    let end = line_end(input, from);
    if has_line(input, closed, from) {
        match classify_line(input.subrange(from, end)) {
            HeaderLine::Length(declared) => {
                lemma_headers_consumed_within(input, closed, end, declared);
            },
            HeaderLine::Other => {
                lemma_headers_consumed_within(input, closed, end, length);
            },
            _ => {},
        }
    }
}

/// Finds the end of the line that starts at `from`.
pub fn find_line_end(input: &[u8], from: usize) -> (end: usize)
    ensures
        end == line_end(input@, from as int),
        end <= input@.len(),
        from <= input@.len() ==> from <= end,
{
    if from >= input.len() {
        return input.len();
    }
    let mut at: usize = from;
    while at < input.len()
        invariant
            from <= at <= input@.len(),
            line_end(input@, from as int) == line_end(input@, at as int),
        decreases input@.len() - at,
    {
        if input[at] == LF {
            return at + 1;
        }
        at += 1;
    }
    at
}

/// Takes the body that follows a header block.
pub fn take_body(input: &[u8], closed: bool, start: usize, length: usize) -> (decoded: Decoded)
    ensures
        decoded@ == read_body(input@, closed, start as int, length),
{
    if start <= input.len() && length <= input.len() - start {
        let body = slice_to_vec(slice_subrange(input, start, start + length));
        Decoded::Frame { consumed: start + length, body }
    } else if closed {
        Decoded::Failed { consumed: input.len(), error: LspError::Io(IoFailure::EndInBody) }
    } else {
        Decoded::Incomplete
    }
}

/// Reads one frame from the start of `input`, the bytes that the source has
/// yielded and that no earlier frame took. `closed` says that the source will
/// yield no more.
pub fn decode_frame(input: &[u8], closed: bool) -> (decoded: Decoded)
    ensures
        decoded@ == decode(input@, closed),
        decoded@.consumed() <= input@.len(),
{
    proof {
        lemma_consumed_within(input@, closed);
    }
    let mut from: usize = 0;
    let mut length: usize = 0;
    loop
        invariant
            from <= input@.len(),
            decode(input@, closed) == read_headers(input@, closed, from as int, length),
        decreases input@.len() - from,
    {
        let end = find_line_end(input, from);
        if end == from || (input[end - 1] != LF && !closed) {
            return if closed {
                Decoded::Failed {
                    consumed: input.len(),
                    error: LspError::Io(IoFailure::EndInHeaders),
                }
            } else {
                Decoded::Incomplete
            };
        }
        match classify(slice_subrange(input, from, end)) {
            HeaderLine::Terminator => {
                return take_body(input, closed, end, length);
            },
            HeaderLine::Length(declared) => {
                length = declared;
            },
            HeaderLine::BadLength(error) => {
                return Decoded::Failed { consumed: end, error: LspError::Protocol(error) };
            },
            HeaderLine::Other => {},
        }
        from = end;
    }
}

/// Appends the decimal digits of `number`.
pub fn push_decimal(out: &mut Vec<u8>, number: usize)
    ensures
        final(out)@ == old(out)@ + decimal_digits(number as nat),
    decreases number,
{
    if number >= 10 {
        push_decimal(out, number / 10);
    }
    let digit: u8 = (number % 10) as u8;
    out.push(ZERO + digit);
    proof {
        let digits = decimal_digits((number / 10) as nat);
        let last = (ZERO + number % 10) as u8;
        if number >= 10 {
            assert((old(out)@ + digits).push(last) == old(out)@ + digits.push(last));
        } else {
            assert(old(out)@.push(last) == old(out)@ + seq![last]);
        }
    }
}

/// The bytes that a frame written by this library starts with.
fn prefix_bytes() -> (prefix: &'static [u8])
    ensures
        prefix@ == content_length_prefix(),
{
    let text = "Content-Length: ";
    let prefix = text.as_bytes();
    proof {
        reveal_strlit("Content-Length: ");
        broadcast use vstd::string::is_ascii_spec_bytes;
        assert(vstd::string::is_ascii(text));
        assert(prefix@ =~= content_length_prefix());
    }
    prefix
}

/// Writes the frame around a body: the `Content-Length` header with the
/// body's length in bytes, the empty line, and the body.
pub fn encode_frame(body: &[u8]) -> (bytes: Vec<u8>)
    ensures
        bytes@ == frame(body@),
{
    let mut bytes: Vec<u8> = Vec::new();
    bytes.extend_from_slice(prefix_bytes());
    assert(bytes@ == content_length_prefix());
    push_decimal(&mut bytes, body.len());
    bytes.push(CR);
    bytes.push(LF);
    bytes.push(CR);
    bytes.push(LF);
    assert(bytes@ == header_line(body@.len()) + seq![CR, LF]);
    bytes.extend_from_slice(body);
    assert(bytes@ == frame(body@));
    bytes
}

} // verus!
