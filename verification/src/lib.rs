//! A sans-I/O core for the base framing of the Language Server Protocol.
//!
//! A message on the wire is a block of header lines, an empty line, and a
//! body of exactly as many bytes as the `Content-Length` header declares.
//! [`LspTransport`] keeps the bytes that arrived from the peer and the bytes
//! that wait to leave; the caller moves bytes between it and the pipes.

pub mod error;
pub mod frame;
pub mod header;
pub mod json;
pub mod laws;
pub mod transport;

pub use error::{IoFailure, LengthError, LspError};
pub use frame::{decode_frame, encode_frame, Decoded};
pub use header::{classify, HeaderLine};
pub use transport::LspTransport;
