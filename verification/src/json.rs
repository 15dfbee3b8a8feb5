//! The JSON parser that turns the body of a frame into a value.

use vstd::prelude::*;
use crate::error::LspError;

verus! {

/// `serde_json::Value`. The transport never looks inside one.
#[verifier::external_type_specification]
#[verifier::external_body]
pub struct ExJsonValue(serde_json::Value);

/// `serde_json::Error`. The transport never looks inside one.
#[verifier::external_type_specification]
#[verifier::external_body]
pub struct ExJsonError(serde_json::Error);

/// What `serde_json::from_slice` returns when it is asked to read `body` as a
/// `serde_json::Value`.
pub uninterp spec fn json_from_slice(body: Seq<u8>) -> Result<serde_json::Value, serde_json::Error>;

/// Calls `serde_json::from_slice::<serde_json::Value>` on `body`.
///
/// Not proved, but taken from the parser's source: the result is a function
/// of the bytes alone, and a body without a single byte is an error, since
/// the parser asks for a value and finds the end of its input.
#[verifier::external_body]
pub(crate) fn parse_json(body: &[u8]) -> (parsed: Result<serde_json::Value, serde_json::Error>)
    ensures
        parsed == json_from_slice(body@),
        body@.len() == 0 ==> parsed is Err,
{
    serde_json::from_slice::<serde_json::Value>(body)
}

/// What a call of `receive_raw` returns for a complete frame, given what the
/// JSON parser made of its body.
pub open spec fn delivered(parsed: Result<serde_json::Value, serde_json::Error>) -> Result<
    Option<serde_json::Value>,
    LspError,
> {
    match parsed {
        Ok(value) => Ok(Some(value)),
        Err(error) => Err(LspError::Json(error)),
    }
}

/// Turns what the parser made of a body into the result of a receive: the
/// value, or a JSON error that carries the parser's diagnostic.
pub fn deliver(parsed: Result<serde_json::Value, serde_json::Error>) -> (result: Result<
    Option<serde_json::Value>,
    LspError,
>)
    ensures
        result == delivered(parsed),
{
    match parsed {
        Ok(value) => Ok(Some(value)),
        Err(error) => Err(LspError::from(error)),
    }
}

} // verus!
