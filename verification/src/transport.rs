//! The transport: bytes in, values out, and raw messages on their way to the
//! peer.
//!
//! The transport does no I/O of its own. Its owner writes what
//! [`LspTransport::take_outgoing`] hands out to the peer's input, and passes
//! what it reads from the peer's output to [`LspTransport::feed`], or calls
//! [`LspTransport::close`] when that output has ended.
//! [`LspTransport::receive_raw`] then reads one frame from what has arrived.

use vstd::prelude::*;
use vstd::utf8::encode_utf8;
use crate::error::LspError;
use crate::frame::{decode, decode_frame, Decoded, Outcome};
use crate::json::{deliver, delivered, json_from_slice, parse_json};

verus! {

/// The two halves of a connection to a language server, as byte queues.
#[derive(Debug)]
pub struct LspTransport {
    /// Bytes for the peer that the owner has not taken yet.
    outbound: Vec<u8>,
    /// Bytes from the peer that no frame has taken yet.
    inbound: Vec<u8>,
    /// Whether the peer's output has ended.
    closed: bool,
}

/// What a receive returns for an outcome of decoding: nothing yet while the
/// frame is incomplete, the framing error where there is one, and for a
/// complete frame whatever the JSON parser makes of exactly its body.
pub open spec fn received(outcome: Outcome) -> Result<Option<serde_json::Value>, LspError> {
    match outcome {
        Outcome::Incomplete => Ok(None),
        Outcome::Frame { body, .. } => delivered(json_from_slice(body)),
        Outcome::Failed { error, .. } => Err(error),
    }
}

impl LspTransport {
    /// The bytes that wait to be written to the peer, oldest first.
    pub closed spec fn outgoing(&self) -> Seq<u8> {
        self.outbound@
    }

    /// The bytes that have arrived from the peer and belong to no frame that
    /// was received, oldest first.
    pub closed spec fn pending(&self) -> Seq<u8> {
        self.inbound@
    }

    /// Whether the peer's output has ended.
    pub closed spec fn closed(&self) -> bool {
        self.closed
    }

    /// A transport with nothing to write, nothing read, and an open source.
    pub fn new() -> (transport: LspTransport)
        ensures
            transport.outgoing() == Seq::<u8>::empty(),
            transport.pending() == Seq::<u8>::empty(),
            !transport.closed(),
    {
        LspTransport { outbound: Vec::new(), inbound: Vec::new(), closed: false }
    }

    /// Queues a message for the peer, byte for byte as the caller framed it:
    /// its UTF-8 encoding goes behind what already waits.
    pub fn send_raw(&mut self, message: String)
        ensures
            final(self).outgoing() == old(self).outgoing() + encode_utf8(message@),
            final(self).pending() == old(self).pending(),
            final(self).closed() == old(self).closed(),
    {
        self.outbound.extend_from_slice(message.as_str().as_bytes());
        assert(self.outbound@ == old(self).outbound@ + encode_utf8(message@));
    }

    /// Hands out everything that waits to be written, and keeps none of it.
    pub fn take_outgoing(&mut self) -> (bytes: Vec<u8>)
        ensures
            bytes@ == old(self).outgoing(),
            final(self).outgoing() == Seq::<u8>::empty(),
            final(self).pending() == old(self).pending(),
            final(self).closed() == old(self).closed(),
    {
        let bytes = self.outbound.split_off(0);
        assert(bytes@ == old(self).outbound@);
        assert(self.outbound@ == Seq::<u8>::empty());
        bytes
    }

    /// Takes in bytes that the peer has sent, behind those that are pending.
    pub fn feed(&mut self, bytes: &[u8])
        ensures
            final(self).pending() == old(self).pending() + bytes@,
            final(self).outgoing() == old(self).outgoing(),
            final(self).closed() == old(self).closed(),
    {
        self.inbound.extend_from_slice(bytes);
        assert(self.inbound@ == old(self).inbound@ + bytes@);
    }

    /// Records that the peer's output has ended.
    pub fn close(&mut self)
        ensures
            final(self).closed(),
            final(self).pending() == old(self).pending(),
            final(self).outgoing() == old(self).outgoing(),
    {
        self.closed = true;
    }

    /// The pending bytes.
    pub fn buffered(&self) -> (bytes: &[u8])
        ensures
            bytes@ == self.pending(),
    {
        self.inbound.as_slice()
    }

    /// Whether [`LspTransport::close`] was called.
    pub fn is_closed(&self) -> (closed: bool)
        ensures
            closed == self.closed(),
    {
        self.closed
    }

    /// Drops the first `count` pending bytes.
    fn consume(&mut self, count: usize)
        requires
            count <= old(self).pending().len(),
        ensures
            final(self).pending() == old(self).pending().skip(count as int),
            final(self).outgoing() == old(self).outgoing(),
            final(self).closed() == old(self).closed(),
    {
        let rest = self.inbound.split_off(count);
        self.inbound = rest;
    }

    /// Reads one message from the pending bytes.
    ///
    /// The pending bytes are decoded as [`decode`] says. While the frame is
    /// incomplete nothing is consumed and `Ok(None)` asks for more bytes. A
    /// complete frame is consumed, header block and body, and its body goes
    /// to the JSON parser: the value comes back, or a JSON error with the
    /// parser's diagnostic. A frame without a body never yields a value. A
    /// framing error consumes what [`decode`] says and is returned.
    pub fn receive_raw(&mut self) -> (result: Result<Option<serde_json::Value>, LspError>)
        ensures
            result == received(decode(old(self).pending(), old(self).closed())),
            decode(old(self).pending(), old(self).closed()) matches Outcome::Frame { body, .. }
                && body.len() == 0 ==> result matches Err(LspError::Json(_)),
            final(self).pending() == old(self).pending().skip(
                decode(old(self).pending(), old(self).closed()).consumed() as int,
            ),
            final(self).outgoing() == old(self).outgoing(),
            final(self).closed() == old(self).closed(),
    {
        match decode_frame(self.inbound.as_slice(), self.closed) {
            Decoded::Incomplete => {
                assert(self.inbound@.skip(0) == self.inbound@);
                Ok(None)
            },
            Decoded::Frame { consumed, body } => {
                self.consume(consumed);
                deliver(parse_json(body.as_slice()))
            },
            Decoded::Failed { consumed, error } => {
                self.consume(consumed);
                Err(error)
            },
        }
    }
}

} // verus!
