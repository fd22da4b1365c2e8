//! Numbering of everything that goes out.

use crate::protocol::framing;
use crate::protocol::{Envelope, EnvelopeView};
use vstd::prelude::*;

verus! {

/// Numbers the envelopes of one connection. The number is assigned here so wire order
/// is exactly the write order, no matter who produced the envelope.
#[derive(Debug)]
pub struct Writer {
    seq: u32,
}

impl Writer {
    /// The number of the last envelope.
    pub closed spec fn seq(&self) -> u32 {
        self.seq
    }

    /// The writer of a new connection.
    pub fn new() -> (writer: Writer)
        ensures
            writer.seq() == 0,
    {
        Writer { seq: 0 }
    }

    /// Number an envelope; the bytes that go out.
    pub fn frame(&mut self, envelope: Envelope) -> (bytes: Vec<u8>)
        ensures
            final(self).seq() == old(self).seq().wrapping_add(1),
            bytes@ == framing::frame_of(
                EnvelopeView { seq: final(self).seq(), payload: envelope@.payload },
            ),
    {
        self.seq = self.seq.wrapping_add(1);
        let numbered = Envelope { seq: self.seq, payload: envelope.payload };
        framing::encode_frame(&numbered)
    }
}

} // verus!
