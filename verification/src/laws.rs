//! Laws of the framing, proved once for all inputs.

use vstd::prelude::*;
use crate::error::{IoFailure, LengthError, LspError};
use crate::frame::{
    content_length_prefix, decimal_digits, decode, frame, frame_header, has_line, header_line,
    lemma_line_end_bounds, lemma_line_ends_at, line_end, read_body, read_headers, Outcome,
};
use crate::transport::received;
use crate::header::{
    all_digits, ascii_lower, classify_line, content_length_name, decimal_value, header_value,
    is_content_length, is_digit, is_space, lemma_trimmed_is_core, length_of, lowercase, trimmed,
    without_plus, HeaderLine, CR, LF,
};

verus! {

/// Writing a number in decimal and reading the digits back gives the number:
/// the digits are digits, at least one, and their value is the number.
pub proof fn lemma_decimal_digits_read_back(number: nat)
    ensures
        decimal_digits(number).len() >= 1,
        all_digits(decimal_digits(number)),
        decimal_value(decimal_digits(number)) == number,
    decreases number,
{
    let digits = decimal_digits(number);
    if number < 10 {
        assert(digits.drop_last() == Seq::<u8>::empty());
        assert(decimal_value(digits.drop_last()) == 0);
    } else {
        let front = decimal_digits(number / 10);
        lemma_decimal_digits_read_back(number / 10);
        assert(digits.drop_last() == front);
        assert forall|i: int| 0 <= i < digits.len() implies is_digit(#[trigger] digits[i]) by {
            if i < front.len() {
                assert(digits[i] == front[i]);
            }
        }
    }
}

/// The header line that this library writes for a length is one line, and
/// what it declares is that length.
pub proof fn lemma_written_line_declares(length: usize)
    ensures
        header_line(length as nat).len() > 2,
        header_line(length as nat).last() == LF,
        forall|i: int|
            0 <= i < header_line(length as nat).len() - 1 ==> header_line(length as nat)[i] != LF,
        classify_line(header_line(length as nat)) == HeaderLine::Length(length),
{
    let prefix = content_length_prefix();
    let digits = decimal_digits(length as nat);
    let line = header_line(length as nat);
    let count = digits.len() as int;
    lemma_decimal_digits_read_back(length as nat);
    assert(prefix.len() == 16);
    assert(line.len() == 16 + count + 2);
    assert forall|i: int| 0 <= i < 16 implies line[i] == #[trigger] prefix[i] by {}
    assert forall|i: int| 0 <= i < count implies line[16 + i] == #[trigger] digits[i] by {}
    assert(line[16 + count] == CR);
    assert(line[16 + count + 1] == LF);
    assert forall|i: int| 0 <= i < line.len() - 1 implies line[i] != LF by {
        if i < 16 {
            assert(line[i] == prefix[i]);
        } else if i < 16 + count {
            assert(is_digit(digits[i - 16]));
        }
    }
    assert(is_content_length(line)) by {
        let name = content_length_name();
        let lower = lowercase(line);
        assert forall|i: int| 0 <= i < 15 implies name[i] == lower.subrange(0, 15)[i] by {
            assert(lower[i] == ascii_lower(line[i]));
            assert(line[i] == prefix[i]);
        }
        assert(name == lower.subrange(0, 15));
    }
    // The value is a space, the digits, and the end of the line.
    let value = header_value(line);
    assert(value.len() == 1 + count + 2);
    assert forall|i: int| 0 <= i < value.len() implies value[i] == #[trigger] line[15 + i] by {}
    assert(trimmed(value) == digits) by {
        assert(is_space(value[0]));
        assert(is_space(value[1 + count]));
        assert(is_space(value[1 + count + 1]));
        assert(is_digit(digits[0]) && value[1] == digits[0]);
        assert(is_digit(digits[count - 1]) && value[count] == digits[count - 1]);
        lemma_trimmed_is_core(value, 1, 1 + count);
        assert(value.subrange(1, 1 + count) == digits);
    }
    assert(length_of(digits) == Ok::<usize, LengthError>(length)) by {
        assert(is_digit(digits[0]));
        assert(without_plus(digits) == digits);
    }
    assert(seq![CR, LF].len() == 2);
}

/// The header block that this library writes for a length is read as two
/// lines, the header and the terminator, and hands over to the body with
/// that length, whatever follows the block.
pub proof fn lemma_header_block_declares(length: usize, tail: Seq<u8>, closed: bool)
    ensures
        read_headers(frame_header(length as nat) + tail, closed, 0, 0) == read_body(
            frame_header(length as nat) + tail,
            closed,
            frame_header(length as nat).len() as int,
            length,
        ),
{
    let line = header_line(length as nat);
    let input = frame_header(length as nat) + tail;
    let first_end = line.len() as int;
    lemma_written_line_declares(length);
    assert forall|i: int| 0 <= i < first_end implies input[i] == line[i] by {}
    lemma_line_ends_at(input, 0, first_end);
    assert(input.subrange(0, first_end) == line);
    assert(input[first_end] == CR);
    assert(input[first_end + 1] == LF);
    lemma_line_ends_at(input, first_end, first_end + 2);
    assert(input.subrange(first_end, first_end + 2) == seq![CR, LF]);
    assert(has_line(input, closed, 0));
    assert(read_headers(input, closed, 0, 0) == read_headers(input, closed, first_end, length));
    assert(has_line(input, closed, first_end));
}

/// Round trip. A body framed by this library, followed by anything at all,
/// decodes to exactly that body, and exactly the frame is consumed: what
/// follows stays pending, however much of it has arrived and whether or not
/// the source is closed. The JSON parser is therefore handed the very bytes
/// that were framed.
pub proof fn lemma_round_trip(body: Seq<u8>, rest: Seq<u8>, closed: bool)
    requires
        body.len() <= usize::MAX,
    ensures
        decode(frame(body) + rest, closed) == (Outcome::Frame {
            consumed: frame(body).len(),
            body,
        }),
        (frame(body) + rest).skip(frame(body).len() as int) == rest,
{
    let header = frame_header(body.len());
    let input = frame(body) + rest;
    assert(input == header + (body + rest));
    lemma_header_block_declares(body.len() as usize, body + rest, closed);
    assert(input.subrange(header.len() as int, header.len() as int + body.len()) == body);
    assert(input.skip(frame(body).len() as int) == rest);
}

/// Two frames back to back. The first receive yields the first body and
/// leaves the second frame and what follows it; the second receive yields
/// the second body and leaves what follows. No byte of one frame reaches the
/// other.
pub proof fn lemma_back_to_back(first: Seq<u8>, second: Seq<u8>, rest: Seq<u8>, closed: bool)
    requires
        first.len() <= usize::MAX,
        second.len() <= usize::MAX,
    ensures
        decode(frame(first) + frame(second) + rest, closed) == (Outcome::Frame {
            consumed: frame(first).len(),
            body: first,
        }),
        (frame(first) + frame(second) + rest).skip(frame(first).len() as int) == frame(second)
            + rest,
        decode(frame(second) + rest, closed) == (Outcome::Frame {
            consumed: frame(second).len(),
            body: second,
        }),
        (frame(second) + rest).skip(frame(second).len() as int) == rest,
{
    assert(frame(first) + frame(second) + rest == frame(first) + (frame(second) + rest));
    lemma_round_trip(first, frame(second) + rest, closed);
    lemma_round_trip(second, rest, closed);
}

/// Exact body length. Behind a header block that declares a length, the
/// body is the next `length` bytes and no more, however many follow.
pub proof fn lemma_body_is_exactly_declared(length: usize, tail: Seq<u8>, closed: bool)
    requires
        length <= tail.len(),
    ensures
        decode(frame_header(length as nat) + tail, closed) == (Outcome::Frame {
            consumed: frame_header(length as nat).len() + length as nat,
            body: tail.take(length as int),
        }),
        (frame_header(length as nat) + tail).skip(frame_header(length as nat).len() + length)
            == tail.skip(length as int),
{
    let header = frame_header(length as nat);
    let input = header + tail;
    lemma_header_block_declares(length, tail, closed);
    assert(input.subrange(header.len() as int, header.len() + length) == tail.take(
        length as int,
    ));
    assert(input.skip(header.len() + length) == tail.skip(length as int));
}

/// Premature end. Behind a header block that declares more bytes than
/// follow, there is never a frame: a closed source is an end-of-stream error
/// that consumes everything, and an open one must yield more.
pub proof fn lemma_short_body_is_no_frame(length: usize, partial: Seq<u8>, closed: bool)
    requires
        partial.len() < length,
    ensures
        closed ==> decode(frame_header(length as nat) + partial, closed) == (Outcome::Failed {
            consumed: (frame_header(length as nat) + partial).len(),
            error: LspError::Io(IoFailure::EndInBody),
        }),
        !closed ==> decode(frame_header(length as nat) + partial, closed) == Outcome::Incomplete,
{
    lemma_header_block_declares(length, partial, closed);
}

/// Missing header. Where the terminator comes first, the body is empty and
/// two bytes are consumed, whatever follows: the JSON parser is handed
/// nothing, and what follows stays pending.
pub proof fn lemma_no_header_means_empty_body(rest: Seq<u8>, closed: bool)
    ensures
        decode(seq![CR, LF] + rest, closed) == (Outcome::Frame {
            consumed: 2,
            body: Seq::<u8>::empty(),
        }),
        (seq![CR, LF] + rest).skip(2) == rest,
{
    let input = seq![CR, LF] + rest;
    assert(input[0] == CR);
    assert(input[1] == LF);
    lemma_line_ends_at(input, 0, 2);
    assert(input.subrange(0, 2) == seq![CR, LF]);
    assert(input.subrange(2, 2) == Seq::<u8>::empty());
    assert(input.skip(2) == rest);
}

/// Case of the header name. Two lines that differ only in the case of ASCII
/// letters among their first fourteen bytes, where the name `Content-Length`
/// stands, mean the same: the name is matched in any mix of cases, and the
/// value is read as it is.
pub proof fn lemma_header_name_ignores_case(line: Seq<u8>, other: Seq<u8>)
    requires
        line.len() == other.len(),
        forall|i: int|
            0 <= i < line.len() && i < 14 ==> ascii_lower(line[i]) == ascii_lower(other[i]),
        forall|i: int| 14 <= i < line.len() ==> line[i] == other[i],
    ensures
        is_content_length(line) == is_content_length(other),
        classify_line(line) == classify_line(other),
{
    let name = content_length_name();
    assert(name.len() == 15);
    assert(lowercase(line) == lowercase(other)) by {
        assert forall|i: int| 0 <= i < line.len() implies lowercase(line)[i] == lowercase(
            other,
        )[i] by {
            if i >= 14 {
                assert(line[i] == other[i]);
            }
        }
    }
    if line.len() >= 15 {
        assert(header_value(line) == header_value(other)) by {
            assert forall|i: int| 0 <= i < line.len() - 15 implies header_value(line)[i]
                == header_value(other)[i] by {
                assert(line[15 + i] == other[15 + i]);
            }
        }
    }
    assert((line == seq![CR, LF]) == (other == seq![CR, LF])) by {
        assert(seq![CR, LF].len() == 2);
        if line.len() == 2 {
            assert(ascii_lower(line[0]) == ascii_lower(other[0]));
            assert(ascii_lower(line[1]) == ascii_lower(other[1]));
            if line == seq![CR, LF] {
                assert(line[0] == CR && line[1] == LF);
                assert(other == seq![CR, LF]);
            }
            if other == seq![CR, LF] {
                assert(other[0] == CR && other[1] == LF);
                assert(line == seq![CR, LF]);
            }
        }
    }
}

/// Invalid length. A first line that is a `Content-Length` header with a
/// value that is no length fails the receive with a protocol error that says
/// why, consumes that line, and neither waits for more nor falls back to a
/// length of zero.
pub proof fn lemma_bad_length_is_protocol_error(
    line: Seq<u8>,
    error: LengthError,
    rest: Seq<u8>,
    closed: bool,
)
    requires
        line.len() > 0,
        line.last() == LF,
        forall|i: int| 0 <= i < line.len() - 1 ==> line[i] != LF,
        classify_line(line) == HeaderLine::BadLength(error),
    ensures
        decode(line + rest, closed) == (Outcome::Failed {
            consumed: line.len(),
            error: LspError::Protocol(error),
        }),
{
    let input = line + rest;
    assert forall|i: int| 0 <= i < line.len() implies input[i] == line[i] by {}
    lemma_line_ends_at(input, 0, line.len() as int);
    assert(input.subrange(0, line.len() as int) == line);
}

/// The line that starts behind some bytes ends where it would end without
/// them, moved by their number.
proof fn lemma_line_end_moves(skipped: Seq<u8>, rest: Seq<u8>, from: int)
    requires
        0 <= from <= rest.len(),
    ensures
        line_end(skipped + rest, skipped.len() + from) == skipped.len() + line_end(rest, from),
    decreases rest.len() - from,
{
    let input = skipped + rest;
    if from < rest.len() {
        assert(input[skipped.len() + from] == rest[from]);
        if rest[from] != LF {
            lemma_line_end_moves(skipped, rest, from + 1);
        }
    }
}

/// Reading looks only ahead. What is read from some place on does not depend
/// on the bytes before it: with `skipped` in front of `rest`, reading behind
/// `skipped` gives what reading `rest` alone gives, and `skipped` is consumed
/// with it.
pub proof fn lemma_reading_looks_only_ahead(
    skipped: Seq<u8>,
    rest: Seq<u8>,
    closed: bool,
    from: int,
    length: usize,
)
    requires
        0 <= from <= rest.len(),
    ensures
        read_headers(skipped + rest, closed, skipped.len() + from, length) == read_headers(
            rest,
            closed,
            from,
            length,
        ).shifted(skipped.len()),
    decreases rest.len() - from,
{
    let input = skipped + rest;
    let by = skipped.len() as int;
    let end = line_end(rest, from);
    lemma_line_end_moves(skipped, rest, from);
    lemma_line_end_bounds(rest, from);
    if has_line(rest, closed, from) {
        assert(input[by + end - 1] == rest[end - 1]);
        assert(has_line(input, closed, by + from));
        assert(input.subrange(by + from, by + end) == rest.subrange(from, end));
        match classify_line(rest.subrange(from, end)) {
            HeaderLine::Terminator => {
                if end + length <= rest.len() {
                    assert(input.subrange(by + end, by + end + length) == rest.subrange(
                        end,
                        end + length,
                    ));
                }
            },
            HeaderLine::Length(declared) => {
                lemma_reading_looks_only_ahead(skipped, rest, closed, end, declared);
            },
            HeaderLine::BadLength(_) => {},
            HeaderLine::Other => {
                lemma_reading_looks_only_ahead(skipped, rest, closed, end, length);
            },
        }
    } else {
        if from < end {
            assert(input[by + end - 1] == rest[end - 1]);
        }
        assert(!has_line(input, closed, by + from));
    }
}

/// Unknown headers. A first line that is neither the terminator nor a
/// `Content-Length` header changes nothing but the count of consumed bytes:
/// the outcome is that of the input behind the line.
pub proof fn lemma_unknown_header_is_skipped(line: Seq<u8>, rest: Seq<u8>, closed: bool)
    requires
        line.len() > 0,
        line.last() == LF,
        forall|i: int| 0 <= i < line.len() - 1 ==> line[i] != LF,
        classify_line(line) == HeaderLine::Other,
    ensures
        decode(line + rest, closed) == decode(rest, closed).shifted(line.len()),
{
    let input = line + rest;
    assert forall|i: int| 0 <= i < line.len() implies input[i] == line[i] by {}
    lemma_line_ends_at(input, 0, line.len() as int);
    assert(input.subrange(0, line.len() as int) == line);
    lemma_reading_looks_only_ahead(line, rest, closed, 0, 0);
}

/// A bare line feed ends no header block: as a first line it is skipped like
/// any unknown header, and reading goes on behind it.
pub proof fn lemma_bare_line_feed_is_skipped(rest: Seq<u8>, closed: bool)
    ensures
        decode(seq![LF] + rest, closed) == decode(rest, closed).shifted(1),
{
    let line = seq![LF];
    assert(line.len() == 1);
    assert(seq![CR, LF].len() == 2);
    assert(!is_content_length(line));
    lemma_unknown_header_is_skipped(line, rest, closed);
}

/// Framing and payload. A receive reports a JSON error only for a frame
/// that was delimited and consumed whole; an I/O or protocol error only
/// where no frame was delimited. An error of decoding itself is never a JSON
/// error.
pub proof fn lemma_errors_tell_framing_from_payload(input: Seq<u8>, closed: bool)
    ensures
        decode(input, closed) matches Outcome::Failed { error, .. } ==> error is Io
            || error is Protocol,
        received(decode(input, closed)) matches Err(LspError::Json(_)) ==> decode(
            input,
            closed,
        ) is Frame,
        received(decode(input, closed)) matches Err(error) && !(error is Json) ==> decode(
            input,
            closed,
        ) is Failed,
{
    lemma_header_errors_are_framing_errors(input, closed, 0, 0);
}

/// [`lemma_errors_tell_framing_from_payload`] for a header block read from
/// `from`.
proof fn lemma_header_errors_are_framing_errors(
    input: Seq<u8>,
    closed: bool,
    from: int,
    length: usize,
)
    requires
        0 <= from <= input.len(),
    ensures
        read_headers(input, closed, from, length) matches Outcome::Failed { error, .. }
            ==> error is Io || error is Protocol,
    decreases input.len() - from,
{
    let end = line_end(input, from);
    if has_line(input, closed, from) {
        match classify_line(input.subrange(from, end)) {
            HeaderLine::Length(declared) => {
                lemma_header_errors_are_framing_errors(input, closed, end, declared);
            },
            HeaderLine::Other => {
                lemma_header_errors_are_framing_errors(input, closed, end, length);
            },
            _ => {},
        }
    }
}

/// Split reads. Once the bytes that have arrived decide the outcome, bytes
/// that arrive later change nothing: a frame or an error found in an open
/// stream is the same frame or error however the stream goes on, and whether
/// or not it is closed afterwards. The outcome of a receive therefore does
/// not depend on how the source cut the stream into reads.
pub proof fn lemma_decided_outcome_is_stable(input: Seq<u8>, more: Seq<u8>, closed: bool)
    requires
        decode(input, false) != Outcome::Incomplete,
    ensures
        decode(input + more, closed) == decode(input, false),
{
    lemma_decided_headers_are_stable(input, more, closed, 0, 0);
}

/// [`lemma_decided_outcome_is_stable`] for a header block read from `from`.
proof fn lemma_decided_headers_are_stable(
    input: Seq<u8>,
    more: Seq<u8>,
    closed: bool,
    from: int,
    length: usize,
)
    requires
        0 <= from <= input.len(),
        read_headers(input, false, from, length) != Outcome::Incomplete,
    ensures
        read_headers(input + more, closed, from, length) == read_headers(
            input,
            false,
            from,
            length,
        ),
    decreases input.len() - from,
{
    let longer = input + more;
    let end = line_end(input, from);
    // An open stream decides nothing without a whole line.
    assert(has_line(input, false, from));
    lemma_line_end_bounds(input, from);
    assert forall|i: int| 0 <= i < input.len() implies longer[i] == input[i] by {}
    lemma_line_ends_at(longer, from, end);
    assert(longer.subrange(from, end) == input.subrange(from, end));
    assert(has_line(longer, closed, from));
    match classify_line(input.subrange(from, end)) {
        HeaderLine::Terminator => {
            assert(read_body(input, false, end, length) != Outcome::Incomplete);
            assert(longer.subrange(end, end + length) == input.subrange(end, end + length));
        },
        HeaderLine::Length(declared) => {
            lemma_decided_headers_are_stable(input, more, closed, end, declared);
        },
        HeaderLine::BadLength(_) => {},
        HeaderLine::Other => {
            lemma_decided_headers_are_stable(input, more, closed, end, length);
        },
    }
}

/// A closed source always decides: once no more bytes can come, decoding
/// never asks for more.
pub proof fn lemma_closed_source_decides(input: Seq<u8>)
    ensures
        decode(input, true) != Outcome::Incomplete,
{
    lemma_closed_headers_decide(input, 0, 0);
}

/// [`lemma_closed_source_decides`] for a header block read from `from`.
proof fn lemma_closed_headers_decide(input: Seq<u8>, from: int, length: usize)
    requires
        0 <= from <= input.len(),
    ensures
        read_headers(input, true, from, length) != Outcome::Incomplete,
    decreases input.len() - from,
{
    let end = line_end(input, from);
    if has_line(input, true, from) {
        match classify_line(input.subrange(from, end)) {
            HeaderLine::Length(declared) => {
                lemma_closed_headers_decide(input, end, declared);
            },
            HeaderLine::Other => {
                lemma_closed_headers_decide(input, end, length);
            },
            _ => {},
        }
    }
}

} // verus!
