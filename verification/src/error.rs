//! What can go wrong while a frame is received.

use vstd::prelude::*;
use vstd::std_specs::convert::FromSpecImpl;

verus! {

/// Why the value of a `Content-Length` header is not a length.
#[derive(Clone, Copy, Debug, PartialEq, Eq, Structural)]
pub enum LengthError {
    /// Nothing is left of the value once the whitespace around it is gone.
    Empty,
    /// The value holds something other than decimal digits behind an
    /// optional plus sign, or a plus sign and nothing else.
    InvalidDigit,
    /// The value is a decimal number larger than `usize::MAX`.
    Overflow,
}

/// Where the source closed although the frame was not complete.
#[derive(Clone, Copy, Debug, PartialEq, Eq, Structural)]
pub enum IoFailure {
    /// Before the empty line that ends the header block.
    EndInHeaders,
    /// After the header block, with fewer body bytes than declared.
    EndInBody,
}

/// An error of the transport.
#[derive(Debug)]
pub enum LspError {
    /// The source failed; the connection is broken.
    Io(IoFailure),
    /// The framing is malformed; the stream is out of step.
    Protocol(LengthError),
    /// The frame was delimited correctly but its body is not JSON; the next
    /// frame can still be read.
    Json(serde_json::Error),
}

impl LengthError {
    /// The text that [`LengthError::message`] returns.
    pub open spec fn message_text(self) -> Seq<char> {
        match self {
            LengthError::Empty => {
                "Invalid Content-Length: cannot parse integer from empty string"@
            },
            LengthError::InvalidDigit => {
                "Invalid Content-Length: invalid digit found in string"@
            },
            LengthError::Overflow => {
                "Invalid Content-Length: number too large to fit in target type"@
            },
        }
    }

    /// A sentence that says what is wrong with the value.
    pub fn message(self) -> (text: &'static str)
        ensures
            text@ == self.message_text(),
    {
        match self {
            LengthError::Empty => {
                "Invalid Content-Length: cannot parse integer from empty string"
            },
            LengthError::InvalidDigit => {
                "Invalid Content-Length: invalid digit found in string"
            },
            LengthError::Overflow => {
                "Invalid Content-Length: number too large to fit in target type"
            },
        }
    }
}

impl From<serde_json::Error> for LspError {
    fn from(error: serde_json::Error) -> (converted: LspError) {
        LspError::Json(error)
    }
}

impl FromSpecImpl<serde_json::Error> for LspError {
    open spec fn obeys_from_spec() -> bool {
        true
    }

    open spec fn from_spec(error: serde_json::Error) -> LspError {
        LspError::Json(error)
    }
}

} // verus!
