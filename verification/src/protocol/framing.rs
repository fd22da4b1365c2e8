//! Length-prefixed framing for `Envelope` messages.

use crate::protocol::envelope::{Envelope, EnvelopeView};
use crate::text;
use vstd::prelude::*;

verus! {

/// Hard cap so a corrupt peer cannot make us allocate unbounded memory.
pub const MAX_FRAME_BYTES: usize = 4 * 1024 * 1024;

/// How many bytes the length in front of a frame takes.
pub const HEADER_BYTES: usize = 4;

/// Why a frame cannot be read.
#[derive(Debug, Clone, Copy, PartialEq, Eq, Structural)]
pub enum FrameError {
    /// There are not even the bytes of the length.
    ShortHeader,
    /// There are fewer bytes than the length says.
    Truncated,
    /// The length is over [`MAX_FRAME_BYTES`].
    TooLong { len: u32 },
    /// The bytes hold no envelope. Which field is at fault is left out.
    Malformed,
    /// The stream ended within a payload.
    Ended,
}

impl FrameError {
    /// What the error says.
    pub open spec fn text(self) -> Seq<char> {
        match self {
            FrameError::ShortHeader => "frame shorter than 4-byte header"@,
            FrameError::Truncated => "truncated frame"@,
            FrameError::TooLong { len } => "frame of "@ + text::decimal_text(len as nat)
                + " bytes exceeds "@ + text::decimal_text(MAX_FRAME_BYTES as nat)
                + " byte limit"@,
            FrameError::Malformed => "failed to decode Protobuf message"@,
            FrameError::Ended => "early eof"@,
        }
    }

    /// What the error says.
    pub fn message(self) -> (text: String)
        ensures
            text@ == self.text(),
    {
        match self {
            FrameError::ShortHeader => "frame shorter than 4-byte header".to_string(),
            FrameError::Truncated => "truncated frame".to_string(),
            FrameError::TooLong { len } => {
                let mut out: String = "frame of ".to_string();
                out.append(text::decimal(len as u64).as_str());
                out.append(" bytes exceeds ");
                out.append(text::decimal(MAX_FRAME_BYTES as u64).as_str());
                out.append(" byte limit");
                out
            },
            FrameError::Malformed => "failed to decode Protobuf message".to_string(),
            FrameError::Ended => "early eof".to_string(),
        }
    }
}

// ---------------------------------------------------------------------------
// The format
// ---------------------------------------------------------------------------

/// A length as four bytes, the highest first.
pub open spec fn header_of(len: u32) -> Seq<u8> {
    seq![
        (len / 0x100_0000) as u8,
        (len / 0x1_0000 % 0x100) as u8,
        (len / 0x100 % 0x100) as u8,
        (len % 0x100) as u8,
    ]
}

/// The length that the first four bytes stand for.
pub open spec fn length_in(bytes: Seq<u8>) -> nat {
    (bytes[0] * 0x100_0000 + bytes[1] * 0x1_0000 + bytes[2] * 0x100 + bytes[3]) as nat
}

/// An envelope as a frame.
pub open spec fn frame_of(envelope: EnvelopeView) -> Seq<u8> {
    header_of((envelope.bytes().len() % 0x1_0000_0000) as u32) + envelope.bytes()
}

/// The envelope in a payload.
pub open spec fn payload_in(bytes: Seq<u8>) -> Result<EnvelopeView, FrameError> {
    match EnvelopeView::read(bytes) {
        Some(envelope) => Ok(envelope),
        None => Err(FrameError::Malformed),
    }
}

/// The envelope in the frame that `bytes` starts with.
pub open spec fn frame_in(bytes: Seq<u8>) -> Result<EnvelopeView, FrameError> {
    if bytes.len() < HEADER_BYTES {
        Err(FrameError::ShortHeader)
    } else if bytes.len() < HEADER_BYTES + length_in(bytes) {
        Err(FrameError::Truncated)
    } else {
        payload_in(bytes.subrange(HEADER_BYTES as int, HEADER_BYTES + length_in(bytes)))
    }
}

/// The model of what decoding returns.
pub open spec fn outcome(result: Result<Envelope, FrameError>) -> Result<EnvelopeView, FrameError> {
    match result {
        Ok(envelope) => Ok(envelope@),
        Err(error) => Err(error),
    }
}

// ---------------------------------------------------------------------------
// Encoding and decoding
// ---------------------------------------------------------------------------

/// Serialise `msg` into `[len: u32 be][payload]`.
pub fn encode_frame(msg: &Envelope) -> (out: Vec<u8>)
    ensures
        out@ == frame_of(msg@),
{
    let mut payload: Vec<u8> = msg.encode_to_vec();
    let len: u64 = payload.len() as u64 % 0x1_0000_0000;
    let mut out: Vec<u8> = Vec::new();
    out.push((len / 0x100_0000) as u8);
    out.push((len / 0x1_0000 % 0x100) as u8);
    out.push((len / 0x100 % 0x100) as u8);
    out.push((len % 0x100) as u8);
    assert(out@ =~= header_of(len as u32));
    out.append(&mut payload);
    out
}

/// The length that the first four bytes stand for.
fn read_length(bytes: &[u8]) -> (len: u32)
    requires
        bytes@.len() >= HEADER_BYTES,
    ensures
        len == length_in(bytes@),
{
    bytes[0] as u32 * 0x100_0000 + bytes[1] as u32 * 0x1_0000 + bytes[2] as u32 * 0x100
        + bytes[3] as u32
}

/// Decode a length-prefixed frame. What follows the frame is not looked at.
pub fn decode_frame(bytes: &[u8]) -> (result: Result<Envelope, FrameError>)
    ensures
        outcome(result) == frame_in(bytes@),
{
    if bytes.len() < HEADER_BYTES {
        return Err(FrameError::ShortHeader);
    }
    let len: u32 = read_length(bytes);
    if ((bytes.len() - HEADER_BYTES) as u64) < len as u64 {
        return Err(FrameError::Truncated);
    }
    let payload: &[u8] = vstd::slice::slice_subrange(
        bytes,
        HEADER_BYTES,
        HEADER_BYTES + len as usize,
    );
    decode_payload(payload)
}

/// How many bytes follow the header of a frame that arrives on a stream.
pub fn payload_length(header: &[u8]) -> (result: Result<usize, FrameError>)
    requires
        header@.len() == HEADER_BYTES,
    ensures
        match result {
            Ok(len) => len == length_in(header@) && len <= MAX_FRAME_BYTES,
            Err(error) => length_in(header@) > MAX_FRAME_BYTES && error == (FrameError::TooLong {
                len: length_in(header@) as u32,
            }),
        },
{
    let len: u32 = read_length(header);
    if len > MAX_FRAME_BYTES as u32 {
        Err(FrameError::TooLong { len })
    } else {
        Ok(len as usize)
    }
}

/// Decode the payload of a frame.
pub fn decode_payload(payload: &[u8]) -> (result: Result<Envelope, FrameError>)
    ensures
        outcome(result) == payload_in(payload@),
{
    match Envelope::decode(payload) {
        Some(envelope) => Ok(envelope),
        None => Err(FrameError::Malformed),
    }
}

// ---------------------------------------------------------------------------
// Reading off a stream
// ---------------------------------------------------------------------------

/// What reading one frame comes to: `None` where the peer closed the connection.
pub type ReadView = Result<Option<EnvelopeView>, FrameError>;

/// The model of what reading returns.
pub open spec fn read_view(result: Result<Option<Envelope>, FrameError>) -> ReadView {
    match result {
        Ok(Some(envelope)) => Ok(Some(envelope@)),
        Ok(None) => Ok(None),
        Err(error) => Err(error),
    }
}

/// Reads one frame after the other off a stream: first the header of each, then as many
/// bytes as it says.
#[derive(Debug, Clone, Copy, PartialEq, Eq, Structural)]
pub struct FrameReader {
    /// The length of the payload that comes next; `None` where a header comes next.
    payload: Option<usize>,
}

impl FrameReader {
    /// The length of the payload that comes next; `None` where a header comes next.
    pub closed spec fn awaited(&self) -> Option<nat> {
        match self.payload {
            Some(len) => Some(len as nat),
            None => None,
        }
    }

    /// How many bytes come next.
    pub open spec fn wants(&self) -> nat {
        match self.awaited() {
            Some(len) => len,
            None => HEADER_BYTES as nat,
        }
    }

    /// A reader at the start of a stream.
    pub fn new() -> (reader: FrameReader)
        ensures
            reader.awaited() is None,
    {
        FrameReader { payload: None }
    }

    /// How many bytes come next.
    pub fn needs(&self) -> (count: usize)
        ensures
            count == self.wants(),
    {
        match self.payload {
            Some(len) => len,
            None => HEADER_BYTES,
        }
    }

    /// The bytes that come next. `Ok(None)` where they were a header and the payload
    /// follows.
    pub fn filled(&mut self, bytes: &[u8]) -> (result: Result<Option<Envelope>, FrameError>)
        requires
            bytes@.len() == old(self).wants(),
        ensures
            match old(self).awaited() {
                None => if length_in(bytes@) > MAX_FRAME_BYTES {
                    &&& read_view(result) == ReadView::Err(
                        FrameError::TooLong { len: length_in(bytes@) as u32 },
                    )
                    &&& final(self).awaited() is None
                } else {
                    &&& read_view(result) == ReadView::Ok(None)
                    &&& final(self).awaited() == Some(length_in(bytes@))
                },
                Some(_) => {
                    &&& read_view(result) == match payload_in(bytes@) {
                        Ok(envelope) => ReadView::Ok(Some(envelope)),
                        Err(error) => ReadView::Err(error),
                    }
                    &&& final(self).awaited() is None
                },
            },
    {
        match self.payload {
            None => match payload_length(bytes) {
                Ok(len) => {
                    self.payload = Some(len);
                    Ok(None)
                },
                Err(error) => Err(error),
            },
            Some(_) => {
                self.payload = None;
                match decode_payload(bytes) {
                    Ok(envelope) => Ok(Some(envelope)),
                    Err(error) => Err(error),
                }
            },
        }
    }

    /// The stream ended before the bytes that come next were there. That closes the
    /// connection where a header was to come, and cuts a frame off otherwise.
    pub fn ended(&self) -> (result: Result<(), FrameError>)
        ensures
            result == if self.awaited() is None {
                Ok::<(), FrameError>(())
            } else {
                Err(FrameError::Ended)
            },
    {
        match self.payload {
            None => Ok(()),
            Some(_) => Err(FrameError::Ended),
        }
    }
}

/// What reading one frame off the stream `bytes`, which then ends, comes to, and the
/// bytes that are left on it.
pub open spec fn read_next(bytes: Seq<u8>) -> (ReadView, Seq<u8>) {
    let end = HEADER_BYTES + length_in(bytes);
    if bytes.len() < HEADER_BYTES {
        (Ok(None), Seq::empty())
    } else if length_in(bytes) > MAX_FRAME_BYTES {
        (
            Err(FrameError::TooLong { len: length_in(bytes) as u32 }),
            bytes.skip(HEADER_BYTES as int),
        )
    } else if bytes.len() < end {
        (Err(FrameError::Ended), Seq::empty())
    } else {
        (
            match payload_in(bytes.subrange(HEADER_BYTES as int, end)) {
                Ok(envelope) => Ok(Some(envelope)),
                Err(error) => Err(error),
            },
            bytes.skip(end),
        )
    }
}

/// Read exactly one frame off a stream of bytes. `Ok(None)` means that the peer closed
/// the connection.
pub fn read_frame(stream: &mut &[u8]) -> (result: Result<Option<Envelope>, FrameError>)
    ensures
        read_view(result) == read_next(old(stream)@).0,
        final(stream)@ == read_next(old(stream)@).1,
{
    let mut reader: FrameReader = FrameReader::new();
    let ghost all = stream@;
    match take(stream, reader.needs()) {
        Some(header) => match reader.filled(header) {
            Ok(_) => {},
            Err(error) => {
                return Err(error);
            },
        },
        None => {
            return match reader.ended() {
                Ok(_) => Ok(None),
                Err(error) => Err(error),
            };
        },
    }
    match take(stream, reader.needs()) {
        Some(payload) => {
            proof {
                let end = HEADER_BYTES + length_in(all);
                assert(payload@ =~= all.subrange(HEADER_BYTES as int, end));
                assert(stream@ =~= all.skip(end));
            }
            reader.filled(payload)
        },
        None => match reader.ended() {
            Ok(_) => Ok(None),
            Err(error) => Err(error),
        },
    }
}

/// Take `count` bytes off a stream, or all where there are fewer.
fn take<'a>(stream: &mut &'a [u8], count: usize) -> (bytes: Option<&'a [u8]>)
    ensures
        match bytes {
            Some(bytes) => {
                &&& count <= old(stream)@.len()
                &&& bytes@ == old(stream)@.take(count as int)
                &&& final(stream)@ == old(stream)@.skip(count as int)
            },
            None => count > old(stream)@.len() && final(stream)@ == Seq::<u8>::empty(),
        },
{
    let all: &'a [u8] = *stream;
    let len: usize = all.len();
    if len < count {
        *stream = vstd::slice::slice_subrange(all, len, len);
        assert(stream@ =~= Seq::empty());
        return None;
    }
    let bytes: &'a [u8] = vstd::slice::slice_subrange(all, 0, count);
    *stream = vstd::slice::slice_subrange(all, count, len);
    assert(bytes@ =~= all@.take(count as int));
    assert(stream@ =~= all@.skip(count as int));
    Some(bytes)
}

// ---------------------------------------------------------------------------
// Laws
// ---------------------------------------------------------------------------

/// The four bytes of a length stand for it.
pub proof fn law_header(len: u32, rest: Seq<u8>)
    ensures
        header_of(len).len() == HEADER_BYTES,
        length_in(header_of(len) + rest) == len,
{
}

/// What decoding reads back of an encoded frame is the envelope, whatever bytes
/// follow. A payload has to fit the length in the header, and the wire carries no
/// negative zero.
#[verifier::spinoff_prover]
#[verifier::rlimit(40)]
pub proof fn law_round_trip(envelope: EnvelopeView, rest: Seq<u8>)
    requires
        envelope.canonical(),
        envelope.bytes().len() < 0x1_0000_0000,
    ensures
        frame_in(frame_of(envelope) + rest) == Ok::<EnvelopeView, FrameError>(envelope),
{
    let payload = envelope.bytes();
    let len = payload.len() as u32;
    let all = frame_of(envelope) + rest;
    law_header(len, payload + rest);
    assert(all =~= header_of(len) + (payload + rest));
    assert(all.subrange(HEADER_BYTES as int, HEADER_BYTES + len) =~= payload);
    envelope.lemma_round_trip();
}

/// The length in front of a frame is that of what follows it.
pub proof fn law_length(envelope: EnvelopeView)
    requires
        envelope.bytes().len() < 0x1_0000_0000,
    ensures
        length_in(frame_of(envelope)) == frame_of(envelope).len() - HEADER_BYTES,
{
    law_header(envelope.bytes().len() as u32, envelope.bytes());
}

/// What arrives on a stream, first the header and then as many bytes as it says, gives
/// the envelope back where the payload keeps to the cap. A longer payload is refused by
/// its header alone.
#[verifier::spinoff_prover]
#[verifier::rlimit(40)]
pub proof fn law_stream(envelope: EnvelopeView)
    requires
        envelope.canonical(),
        envelope.bytes().len() < 0x1_0000_0000,
    ensures
        ({
            let frame = frame_of(envelope);
            let header = frame.take(HEADER_BYTES as int);
            &&& frame.len() == HEADER_BYTES + length_in(header)
            &&& length_in(header) <= MAX_FRAME_BYTES <==> envelope.bytes().len() <= MAX_FRAME_BYTES
            &&& payload_in(frame.skip(HEADER_BYTES as int)) == Ok::<EnvelopeView, FrameError>(
                envelope,
            )
        }),
{
    let frame = frame_of(envelope);
    let len = envelope.bytes().len() as u32;
    law_header(len, Seq::empty());
    assert(frame.take(HEADER_BYTES as int) =~= header_of(len) + Seq::empty());
    assert(frame.skip(HEADER_BYTES as int) =~= envelope.bytes());
    envelope.lemma_round_trip();
}

/// A frame that was cut off anywhere is refused.
pub proof fn law_truncated(envelope: EnvelopeView, n: int)
    requires
        envelope.bytes().len() < 0x1_0000_0000,
        0 <= n < frame_of(envelope).len(),
    ensures
        frame_in(frame_of(envelope).take(n)) == Err::<EnvelopeView, FrameError>(
            if n < HEADER_BYTES {
                FrameError::ShortHeader
            } else {
                FrameError::Truncated
            },
        ),
{
    let payload = envelope.bytes();
    let cut = frame_of(envelope).take(n);
    if n >= HEADER_BYTES {
        let part = payload.take(n - HEADER_BYTES);
        assert(cut =~= header_of(payload.len() as u32) + part);
        law_header(payload.len() as u32, part);
    }
}

/// Envelopes as frames, one after the other.
pub open spec fn frames_of(envelopes: Seq<EnvelopeView>) -> Seq<u8>
    decreases envelopes.len(),
{
    if envelopes.len() == 0 {
        Seq::empty()
    } else {
        frame_of(envelopes[0]) + frames_of(envelopes.skip(1))
    }
}

/// The envelopes that successive reads give, up to the first that gives none, and what
/// that one comes to.
pub open spec fn read_all(bytes: Seq<u8>) -> (Seq<EnvelopeView>, Result<(), FrameError>)
    decreases bytes.len(),
{
    let (read, rest) = read_next(bytes);
    match read {
        Ok(Some(envelope)) => if rest.len() < bytes.len() {
            let (envelopes, end) = read_all(rest);
            (seq![envelope] + envelopes, end)
        } else {
            (Seq::empty(), Ok(()))
        },
        Ok(None) => (Seq::empty(), Ok(())),
        Err(error) => (Seq::empty(), Err(error)),
    }
}

/// A frame at the front of a stream is read, and exactly its bytes are taken off.
#[verifier::spinoff_prover]
#[verifier::rlimit(40)]
pub proof fn law_read_next(envelope: EnvelopeView, rest: Seq<u8>)
    requires
        envelope.canonical(),
        envelope.bytes().len() <= MAX_FRAME_BYTES,
    ensures
        read_next(frame_of(envelope) + rest) == (ReadView::Ok(Some(envelope)), rest),
{
    let payload = envelope.bytes();
    let len = payload.len() as u32;
    let all = frame_of(envelope) + rest;
    law_header(len, payload + rest);
    assert(all =~= header_of(len) + (payload + rest));
    assert(all.subrange(HEADER_BYTES as int, HEADER_BYTES + len) =~= payload);
    assert(all.skip(HEADER_BYTES + len) =~= rest);
    envelope.lemma_round_trip();
}

/// Successive reads give concatenated frames back in order, and then whatever follows
/// them: nothing, where the stream ends there.
#[verifier::spinoff_prover]
#[verifier::rlimit(40)]
pub proof fn law_successive_reads(envelopes: Seq<EnvelopeView>, rest: Seq<u8>)
    requires
        forall|i: int| #![trigger envelopes[i]]
            0 <= i < envelopes.len() ==> envelopes[i].canonical() && envelopes[i].bytes().len()
                <= MAX_FRAME_BYTES,
    ensures
        read_all(frames_of(envelopes) + rest) == (
            envelopes + read_all(rest).0,
            read_all(rest).1,
        ),
        read_all(frames_of(envelopes)) == (envelopes, Ok::<(), FrameError>(())),
    decreases envelopes.len(),
{
    if envelopes.len() == 0 {
        assert(frames_of(envelopes) + rest =~= rest);
        assert(envelopes + read_all(rest).0 =~= read_all(rest).0);
        assert(envelopes =~= Seq::empty());
    } else {
        let first = envelopes[0];
        let others = envelopes.skip(1);
        assert forall|i: int| #![trigger others[i]] 0 <= i < others.len() implies {
            &&& others[i].canonical()
            &&& others[i].bytes().len() <= MAX_FRAME_BYTES
        } by {
            assert(others[i] == envelopes[i + 1]);
        }
        law_successive_reads(others, rest);
        let tail = frames_of(others) + rest;
        law_read_next(first, tail);
        assert(frames_of(envelopes) + rest =~= frame_of(first) + tail);
        assert(seq![first] + (others + read_all(rest).0) =~= envelopes + read_all(rest).0);
        law_read_next(first, frames_of(others));
        assert(seq![first] + others =~= envelopes);
    }
}

/// The header is the length in network order: the first byte weighs most.
pub proof fn law_network_order(len: u32)
    ensures
        header_of(len)[0] * 0x100_0000 + header_of(len)[1] * 0x1_0000 + header_of(len)[2] * 0x100
            + header_of(len)[3] == len,
{
}

/// A frame is read alone: what follows it changes nothing.
#[verifier::spinoff_prover]
#[verifier::rlimit(40)]
pub proof fn law_trailing(bytes: Seq<u8>, rest: Seq<u8>)
    requires
        bytes.len() >= HEADER_BYTES,
        bytes.len() >= HEADER_BYTES + length_in(bytes),
    ensures
        frame_in(bytes + rest) == frame_in(bytes),
        frame_in(bytes) == payload_in(
            bytes.skip(HEADER_BYTES as int).take(length_in(bytes) as int),
        ),
{
    let end = HEADER_BYTES + length_in(bytes);
    assert(length_in(bytes + rest) == length_in(bytes));
    assert((bytes + rest).subrange(HEADER_BYTES as int, end) =~= bytes.subrange(
        HEADER_BYTES as int,
        end,
    ));
    assert(bytes.subrange(HEADER_BYTES as int, end) =~= bytes.skip(HEADER_BYTES as int).take(
        length_in(bytes) as int,
    ));
}

/// A stream refuses a frame that announces more than four mebibytes, whatever follows the
/// header, and no other length; it ends quietly only before a whole header.
#[verifier::spinoff_prover]
#[verifier::rlimit(40)]
pub proof fn law_stream_limits(len: u32, rest: Seq<u8>, short: Seq<u8>)
    requires
        short.len() < HEADER_BYTES,
    ensures
        ({
            let read = read_next(header_of(len) + rest).0;
            &&& len > 4 * 1024 * 1024 <==> read is Err && read->Err_0 is TooLong
            &&& len > 4 * 1024 * 1024 ==> read == ReadView::Err(FrameError::TooLong { len })
            &&& len <= 4 * 1024 * 1024 && rest.len() < len ==> read == ReadView::Err(
                FrameError::Ended,
            )
            &&& len <= 4 * 1024 * 1024 && rest.len() >= len ==> {
                &&& read_next(header_of(len) + rest).1 == rest.skip(len as int)
                &&& read == match payload_in(rest.take(len as int)) {
                    Ok(envelope) => ReadView::Ok(Some(envelope)),
                    Err(error) => ReadView::Err(error),
                }
            }
            &&& read != ReadView::Ok(None)
        }),
        read_next(short) == (ReadView::Ok(None), Seq::<u8>::empty()),
{
    law_header(len, rest);
    let all = header_of(len) + rest;
    if rest.len() >= len {
        assert(all.subrange(HEADER_BYTES as int, HEADER_BYTES + len) =~= rest.take(len as int));
        assert(all.skip(HEADER_BYTES + len) =~= rest.skip(len as int));
    }
}

} // verus!
