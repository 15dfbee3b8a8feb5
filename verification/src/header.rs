//! The grammar of one header line, on bytes.
//!
//! A line is whatever the source yields up to and with a line feed. Three
//! kinds of line matter to the transport: the empty line `\r\n` that ends the
//! header block, a `Content-Length` header, and everything else, which is
//! skipped so that unknown headers do no harm.
//!
//! Header lines are ASCII on the wire. A line is judged byte by byte and
//! need not be UTF-8: letters are the ASCII letters, whitespace is ASCII
//! whitespace, and digits are the ASCII digits.

use vstd::prelude::*;
use vstd::slice::slice_subrange;
use crate::error::LengthError;

verus! {

/// Line feed.
pub const LF: u8 = 0x0a;

/// Carriage return.
pub const CR: u8 = 0x0d;

/// The plus sign.
pub const PLUS: u8 = 0x2b;

/// The digit zero.
pub const ZERO: u8 = 0x30;

/// The digit nine.
pub const NINE: u8 = 0x39;

/// The colon.
pub const COLON: u8 = 0x3a;

/// How many bytes the header's name takes up, its colon counted.
pub const NAME_LEN: usize = 15;

/// What one header line means to the transport.
#[derive(Clone, Copy, Debug, PartialEq, Eq, Structural)]
pub enum HeaderLine {
    /// The line `\r\n` and nothing else: the header block ends here.
    Terminator,
    /// A `Content-Length` header with the length it declares.
    Length(usize),
    /// A `Content-Length` header whose value is not a length.
    BadLength(LengthError),
    /// Any other line.
    Other,
}

/// The bytes `content-length:`, the header's name in lower case with the
/// colon that ends it.
pub open spec fn content_length_name() -> Seq<u8> {
    seq![
        0x63u8, 0x6fu8, 0x6eu8, 0x74u8, 0x65u8, 0x6eu8, 0x74u8, 0x2du8,
        0x6cu8, 0x65u8, 0x6eu8, 0x67u8, 0x74u8, 0x68u8, 0x3au8,
    ]
}

/// An ASCII capital letter becomes its small letter; any other byte stays.
pub open spec fn ascii_lower(byte: u8) -> u8 {
    if 0x41 <= byte <= 0x5a {
        (byte + 0x20) as u8
    } else {
        byte
    }
}

/// The line with its ASCII capital letters made small.
pub open spec fn lowercase(line: Seq<u8>) -> Seq<u8> {
    line.map_values(|byte: u8| ascii_lower(byte))
}

/// Whether the lower-case form of the line starts with `content-length:`.
pub open spec fn is_content_length(line: Seq<u8>) -> bool {
    content_length_name().is_prefix_of(lowercase(line))
}

/// The value of a `Content-Length` line: what follows the colon that ends the
/// name. The name holds no other colon, so this is the first colon of the
/// line (see [`lemma_name_ends_at_first_colon`]).
pub open spec fn header_value(line: Seq<u8>) -> Seq<u8> {
    line.skip(content_length_name().len() as int)
}

/// ASCII whitespace: space, tab, line feed, vertical tab, form feed and
/// carriage return.
pub open spec fn is_space(byte: u8) -> bool {
    byte == 0x20 || 0x09 <= byte <= 0x0d
}

/// The text without the whitespace at its start.
pub open spec fn trim_start(text: Seq<u8>) -> Seq<u8>
    decreases text.len(),
{
    if text.len() > 0 && is_space(text.first()) {
        trim_start(text.drop_first())
    } else {
        text
    }
}

/// The text without the whitespace at its end.
pub open spec fn trim_end(text: Seq<u8>) -> Seq<u8>
    decreases text.len(),
{
    if text.len() > 0 && is_space(text.last()) {
        trim_end(text.drop_last())
    } else {
        text
    }
}

/// The text without the whitespace at either end.
pub open spec fn trimmed(text: Seq<u8>) -> Seq<u8> {
    trim_end(trim_start(text))
}

/// A decimal digit, `0` to `9`.
pub open spec fn is_digit(byte: u8) -> bool {
    ZERO <= byte <= NINE
}

/// Whether every byte of the text is a decimal digit.
pub open spec fn all_digits(text: Seq<u8>) -> bool {
    forall|i: int| 0 <= i < text.len() ==> is_digit(#[trigger] text[i])
}

/// The number that a run of decimal digits writes, most significant digit
/// first. The empty run writes zero.
pub open spec fn decimal_value(digits: Seq<u8>) -> nat
    decreases digits.len(),
{
    if digits.len() == 0 {
        0
    } else {
        (decimal_value(digits.drop_last()) * 10 + (digits.last() - ZERO)) as nat
    }
}

/// The text without the plus sign that may lead it.
pub open spec fn without_plus(text: Seq<u8>) -> Seq<u8> {
    if text.len() > 0 && text.first() == PLUS {
        text.drop_first()
    } else {
        text
    }
}

/// The length that a trimmed header value declares: decimal digits, at least
/// one, behind an optional plus sign, that write a number no larger than
/// `usize::MAX`. Anything else is an error, and says why.
pub open spec fn length_of(text: Seq<u8>) -> Result<usize, LengthError> {
    let digits = without_plus(text);
    if text.len() == 0 {
        Err(LengthError::Empty)
    } else if digits.len() == 0 || !all_digits(digits) {
        Err(LengthError::InvalidDigit)
    } else if decimal_value(digits) > usize::MAX {
        Err(LengthError::Overflow)
    } else {
        Ok(decimal_value(digits) as usize)
    }
}

/// What a line means: the terminator is exactly `\r\n`; a line whose name is
/// `content-length` in any mix of cases declares the length that its trimmed
/// value writes; every other line, a bare `\n` too, is skipped.
pub open spec fn classify_line(line: Seq<u8>) -> HeaderLine {
    if line == seq![CR, LF] {
        HeaderLine::Terminator
    } else if is_content_length(line) {
        match length_of(trimmed(header_value(line))) {
            Ok(length) => HeaderLine::Length(length),
            Err(error) => HeaderLine::BadLength(error),
        }
    } else {
        HeaderLine::Other
    }
}

/// A text between two runs of whitespace, with no whitespace at its own ends,
/// is what trimming leaves.
pub proof fn lemma_trimmed_is_core(text: Seq<u8>, start: int, end: int)
    requires
        0 <= start <= end <= text.len(),
        forall|i: int| 0 <= i < start ==> is_space(#[trigger] text[i]),
        forall|i: int| end <= i < text.len() ==> is_space(#[trigger] text[i]),
        start < end ==> !is_space(text[start]) && !is_space(text[end - 1]),
    ensures
        trimmed(text) == text.subrange(start, end),
{
    lemma_trim_start_skips(text, start, end);
    lemma_trim_end_drops(text.subrange(start, text.len() as int), end - start);
    assert(text.subrange(start, text.len() as int).subrange(0, end - start) == text.subrange(
        start,
        end,
    ));
}

/// Trimming at the start removes the leading run of whitespace. Where the
/// run ends before `end` the rest of the text is left; where it reaches
/// `end`, behind which all is whitespace too, nothing is left.
proof fn lemma_trim_start_skips(text: Seq<u8>, start: int, end: int)
    requires
        0 <= start <= end <= text.len(),
        forall|i: int| 0 <= i < start ==> is_space(#[trigger] text[i]),
        forall|i: int| end <= i < text.len() ==> is_space(#[trigger] text[i]),
        start < end ==> !is_space(text[start]),
    ensures
        start < end ==> trim_start(text) == text.subrange(start, text.len() as int),
        start == end ==> trim_start(text).len() == 0,
        start == end ==> trim_end(trim_start(text)).len() == 0,
    decreases text.len(),
{
    if text.len() > 0 && is_space(text.first()) {
        let rest = text.drop_first();
        if start > 0 {
            assert forall|i: int| 0 <= i < start - 1 implies is_space(#[trigger] rest[i]) by {
                assert(rest[i] == text[i + 1]);
            }
            assert forall|i: int| end - 1 <= i < rest.len() implies is_space(
                #[trigger] rest[i],
            ) by {
                assert(rest[i] == text[i + 1]);
            }
            assert(start < end ==> rest[start - 1] == text[start]);
            lemma_trim_start_skips(rest, start - 1, end - 1);
            assert(rest.subrange(start - 1, rest.len() as int) == text.subrange(
                start,
                text.len() as int,
            ));
        } else {
            // start == 0 and the first byte is whitespace: the whole text is.
            assert(start == end);
            assert forall|i: int| 0 <= i < rest.len() implies is_space(#[trigger] rest[i]) by {
                assert(rest[i] == text[i + 1]);
            }
            lemma_trim_start_skips(rest, 0, 0);
        }
    } else {
        if start < end {
            assert(start == 0);
            assert(text.subrange(0, text.len() as int) == text);
        } else {
            assert(text.len() == 0);
        }
    }
}

/// Trimming at the end removes a trailing run of whitespace that starts at
/// `end`, where a byte that is no whitespace stands just before.
proof fn lemma_trim_end_drops(text: Seq<u8>, end: int)
    requires
        0 <= end <= text.len(),
        forall|i: int| end <= i < text.len() ==> is_space(#[trigger] text[i]),
        end > 0 ==> !is_space(text[end - 1]),
    ensures
        trim_end(text) == text.subrange(0, end),
    decreases text.len(),
{
    if end < text.len() {
        let rest = text.drop_last();
        assert(is_space(text.last()));
        assert forall|i: int| end <= i < rest.len() implies is_space(#[trigger] rest[i]) by {
            assert(rest[i] == text[i]);
        }
        lemma_trim_end_drops(rest, end);
        assert(rest.subrange(0, end) == text.subrange(0, end));
    } else {
        assert(text.subrange(0, end) == text);
    }
}

/// In a line that names `Content-Length`, the colon that ends the name is the
/// first colon of the line.
pub proof fn lemma_name_ends_at_first_colon(line: Seq<u8>)
    requires
        is_content_length(line),
    ensures
        content_length_name().len() == NAME_LEN,
        line.len() >= NAME_LEN,
        line[NAME_LEN - 1] == COLON,
        forall|i: int| 0 <= i < NAME_LEN - 1 ==> line[i] != COLON,
{
    let name = content_length_name();
    let lower = lowercase(line);
    assert(name.len() == NAME_LEN);
    assert(name == lower.subrange(0, NAME_LEN as int));
    assert forall|i: int| 0 <= i < NAME_LEN implies ascii_lower(line[i]) == #[trigger] name[i] by {
        assert(lower.subrange(0, NAME_LEN as int)[i] == lower[i]);
    }
    assert(ascii_lower(line[NAME_LEN - 1]) == name[NAME_LEN - 1]);
    assert forall|i: int| 0 <= i < NAME_LEN - 1 implies line[i] != COLON by {
        assert(ascii_lower(line[i]) == name[i]);
    }
}

/// Makes an ASCII capital letter small.
pub fn to_ascii_lower(byte: u8) -> (lower: u8)
    ensures
        lower == ascii_lower(byte),
{
    if 0x41 <= byte && byte <= 0x5a {
        byte + 0x20
    } else {
        byte
    }
}

/// The header's name as bytes.
fn name_bytes() -> (name: &'static [u8])
    ensures
        name@ == content_length_name(),
{
    let text = "content-length:";
    let name = text.as_bytes();
    proof {
        reveal_strlit("content-length:");
        broadcast use vstd::string::is_ascii_spec_bytes;
        assert(vstd::string::is_ascii(text));
        assert(name@ =~= content_length_name());
    }
    name
}

/// Tells whether the line is a `Content-Length` header, whatever the case of
/// the letters in its name.
pub fn names_content_length(line: &[u8]) -> (yes: bool)
    ensures
        yes == is_content_length(line@),
{
    let name = name_bytes();
    if line.len() < name.len() {
        return false;
    }
    let mut i: usize = 0;
    while i < name.len()
        invariant
            name@ == content_length_name(),
            name@.len() <= line@.len(),
            i <= name@.len(),
            forall|j: int| 0 <= j < i ==> ascii_lower(#[trigger] line@[j]) == name@[j],
        decreases name@.len() - i,
    {
        if to_ascii_lower(line[i]) != name[i] {
            proof {
                let at = i as int;
                assert(lowercase(line@).subrange(0, name@.len() as int)[at] != name@[at]);
            }
            return false;
        }
        i += 1;
    }
    proof {
        assert(name@ =~= lowercase(line@).subrange(0, name@.len() as int));
    }
    true
}

/// Tells whether the byte is ASCII whitespace.
pub fn is_space_byte(byte: u8) -> (yes: bool)
    ensures
        yes == is_space(byte),
{
    byte == 0x20 || (0x09 <= byte && byte <= 0x0d)
}

/// Removes the whitespace at both ends of the text.
pub fn trim(text: &[u8]) -> (core: &[u8])
    ensures
        core@ == trimmed(text@),
{
    let mut start: usize = 0;
    while start < text.len() && is_space_byte(text[start])
        invariant
            start <= text@.len(),
            forall|i: int| 0 <= i < start ==> is_space(#[trigger] text@[i]),
        decreases text@.len() - start,
    {
        start += 1;
    }
    let mut end: usize = text.len();
    while end > start && is_space_byte(text[end - 1])
        invariant
            start <= end <= text@.len(),
            forall|i: int| end <= i < text@.len() ==> is_space(#[trigger] text@[i]),
        decreases end,
    {
        end -= 1;
    }
    proof {
        lemma_trimmed_is_core(text@, start as int, end as int);
    }
    slice_subrange(text, start, end)
}

/// Reads a trimmed header value as a length.
pub fn parse_length(text: &[u8]) -> (length: Result<usize, LengthError>)
    ensures
        length == length_of(text@),
{
    if text.len() == 0 {
        return Err(LengthError::Empty);
    }
    let first: usize = if text[0] == PLUS {
        1
    } else {
        0
    };
    let ghost digits = without_plus(text@);
    assert(digits == text@.skip(first as int));
    if first == text.len() {
        return Err(LengthError::InvalidDigit);
    }
    let mut value: usize = 0;
    let mut overflow = false;
    let mut i: usize = first;
    assert(digits.take(0) == Seq::<u8>::empty());
    while i < text.len()
        invariant
            first <= i <= text@.len(),
            first < text@.len(),
            digits == without_plus(text@),
            digits == text@.skip(first as int),
            all_digits(digits.take(i - first)),
            !overflow ==> value == decimal_value(digits.take(i - first)),
            overflow ==> decimal_value(digits.take(i - first)) > usize::MAX,
        decreases text@.len() - i,
    {
        let byte = text[i];
        let ghost seen = digits.take(i - first);
        let ghost more = digits.take(i - first + 1);
        proof {
            assert(more.drop_last() == seen);
            assert(more.last() == byte);
        }
        if !(ZERO <= byte && byte <= NINE) {
            proof {
                assert(digits[i - first] == byte);
            }
            return Err(LengthError::InvalidDigit);
        }
        proof {
            assert forall|j: int| 0 <= j < more.len() implies is_digit(#[trigger] more[j]) by {
                if j < seen.len() {
                    assert(more[j] == seen[j]);
                }
            }
        }
        let digit: usize = (byte - ZERO) as usize;
        if !overflow {
            if value > (usize::MAX - digit) / 10 {
                overflow = true;
            } else {
                value = value * 10 + digit;
            }
        }
        i += 1;
    }
    proof {
        assert(digits.take(i - first) == digits);
    }
    if overflow {
        Err(LengthError::Overflow)
    } else {
        Ok(value)
    }
}

/// Says what a header line means.
pub fn classify(line: &[u8]) -> (kind: HeaderLine)
    ensures
        kind == classify_line(line@),
{
    if line.len() == 2 && line[0] == CR && line[1] == LF {
        assert(line@ =~= seq![CR, LF]);
        return HeaderLine::Terminator;
    }
    assert(line@ != seq![CR, LF]) by {
        if line@ == seq![CR, LF] {
            assert(seq![CR, LF].len() == 2);
            assert(seq![CR, LF][0] == CR);
            assert(seq![CR, LF][1] == LF);
        }
    }
    if names_content_length(line) {
        proof {
            lemma_name_ends_at_first_colon(line@);
        }
        let value = slice_subrange(line, NAME_LEN, line.len());
        assert(value@ == header_value(line@));
        match parse_length(trim(value)) {
            Ok(length) => HeaderLine::Length(length),
            Err(error) => HeaderLine::BadLength(error),
        }
    } else {
        HeaderLine::Other
    }
}

} // verus!
