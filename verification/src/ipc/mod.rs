//! Request dispatch.
//!
//! The connection is split so recognition never blocks it: a reader frames incoming
//! messages and routes them, a pipeline owns the session and a writer numbers
//! everything outbound.

pub mod pipeline;
pub mod reader;
pub mod transport;
pub mod writer;

pub use pipeline::{Outgoing, Pipeline, Turn, Work};
pub use reader::{Command, Reader, Route};
pub use writer::Writer;

use crate::error::Result;
use crate::protocol::{
    CoreStatus, Envelope, EnvelopeView, ErrorCode, ErrorEvent, ErrorEventView, Payload,
    PayloadView, StatusEvent, StatusEventView,
};
use vstd::prelude::*;

verus! {

/// How the core serves its clients.
#[derive(Debug)]
pub struct ServeOptions {
    /// Shut the process down once the controlling client goes away.
    pub exit_on_disconnect: bool,
    /// Sentences rotated by the mock recogniser. Empty means built-in defaults.
    pub mock_sentences: Vec<String>,
}

/// Audio frames buffered between the reader and the pipeline. Bounded on purpose: a full
/// queue backpressures the client instead of growing memory.
pub const AUDIO_QUEUE: usize = 128;

/// Session control commands buffered ahead of the pipeline.
pub const CONTROL_QUEUE: usize = 32;

/// Envelopes waiting for the socket writer.
pub const OUTBOUND_QUEUE: usize = 64;

// ---------------------------------------------------------------------------
// Envelopes
// ---------------------------------------------------------------------------

/// An envelope that the writer has not numbered yet.
pub open spec fn unnumbered(payload: PayloadView) -> EnvelopeView {
    EnvelopeView { seq: 0, payload: Some(payload) }
}

/// A report of an error.
pub open spec fn error_payload(code: ErrorCode, message: Seq<char>, fatal: bool) -> PayloadView {
    PayloadView::ErrorEvent(ErrorEventView { code: code.number(), message, fatal })
}

/// An envelope that the writer numbers right before the frame goes out.
pub fn env(payload: Payload) -> (envelope: Envelope)
    ensures
        envelope@ == unnumbered(payload@),
{
    Envelope { seq: 0, payload: Some(payload) }
}

/// A change of status, at `now_us`.
pub fn status_event(status: CoreStatus, detail: &str, now_us: u64) -> (envelope: Envelope)
    ensures
        envelope@ == unnumbered(
            PayloadView::StatusEvent(
                StatusEventView {
                    status: status.number(),
                    detail: detail@,
                    timestamp_us: now_us,
                },
            ),
        ),
{
    env(
        Payload::StatusEvent(
            StatusEvent {
                status: status.value(),
                detail: detail.to_string(),
                timestamp_us: now_us,
            },
        ),
    )
}

/// The payload of an error report.
pub fn error_report(code: ErrorCode, message: String, fatal: bool) -> (payload: Payload)
    ensures
        payload@ == error_payload(code, message@, fatal),
{
    Payload::ErrorEvent(ErrorEvent { code: code.value(), message, fatal })
}

/// A report of an error.
pub fn error_event(code: ErrorCode, message: &str, fatal: bool) -> (envelope: Envelope)
    ensures
        envelope@ == unnumbered(error_payload(code, message@, fatal)),
{
    env(error_report(code, message.to_string(), fatal))
}

/// The name of the message in a payload.
pub open spec fn name_of(payload: PayloadView) -> Seq<char> {
    match payload {
        PayloadView::HandshakeRequest(_) => "HandshakeRequest"@,
        PayloadView::HandshakeResponse(_) => "HandshakeResponse"@,
        PayloadView::StartSessionRequest(_) => "StartSessionRequest"@,
        PayloadView::StartSessionResponse(_) => "StartSessionResponse"@,
        PayloadView::StopSessionRequest(_) => "StopSessionRequest"@,
        PayloadView::StopSessionResponse(_) => "StopSessionResponse"@,
        PayloadView::SetPausedRequest(_) => "SetPausedRequest"@,
        PayloadView::SetPausedResponse(_) => "SetPausedResponse"@,
        PayloadView::AudioFrame(_) => "AudioFrame"@,
        PayloadView::SubtitleEvent(_) => "SubtitleEvent"@,
        PayloadView::StatusEvent(_) => "StatusEvent"@,
        PayloadView::MetricsEvent(_) => "MetricsEvent"@,
        PayloadView::ErrorEvent(_) => "ErrorEvent"@,
        PayloadView::HeartbeatRequest(_) => "HeartbeatRequest"@,
        PayloadView::HeartbeatResponse(_) => "HeartbeatResponse"@,
    }
}

/// The name of the message in a payload.
pub fn payload_name(payload: &Payload) -> (name: &'static str)
    ensures
        name@ == name_of(payload@),
{
    match payload {
        Payload::HandshakeRequest(_) => "HandshakeRequest",
        Payload::HandshakeResponse(_) => "HandshakeResponse",
        Payload::StartSessionRequest(_) => "StartSessionRequest",
        Payload::StartSessionResponse(_) => "StartSessionResponse",
        Payload::StopSessionRequest(_) => "StopSessionRequest",
        Payload::StopSessionResponse(_) => "StopSessionResponse",
        Payload::SetPausedRequest(_) => "SetPausedRequest",
        Payload::SetPausedResponse(_) => "SetPausedResponse",
        Payload::AudioFrame(_) => "AudioFrame",
        Payload::SubtitleEvent(_) => "SubtitleEvent",
        Payload::StatusEvent(_) => "StatusEvent",
        Payload::MetricsEvent(_) => "MetricsEvent",
        Payload::ErrorEvent(_) => "ErrorEvent",
        Payload::HeartbeatRequest(_) => "HeartbeatRequest",
        Payload::HeartbeatResponse(_) => "HeartbeatResponse",
    }
}

// ---------------------------------------------------------------------------
// The end of a connection
// ---------------------------------------------------------------------------

/// How a connection ended.
#[derive(Debug, Clone, Copy, PartialEq, Eq, Structural)]
pub enum Ending {
    /// The client closed it.
    Closed,
    /// The client is gone.
    Abrupt,
    /// Something went wrong.
    Failed,
}

/// How a connection with this result ended.
pub fn ending(result: &Result<()>) -> (ending: Ending)
    ensures
        match result {
            Ok(_) => ending == Ending::Closed,
            Err(error) => ending == if error@.disconnected() {
                Ending::Abrupt
            } else {
                Ending::Failed
            },
        },
{
    match result {
        Ok(_) => Ending::Closed,
        Err(error) => if error.is_disconnect() {
            Ending::Abrupt
        } else {
            Ending::Failed
        },
    }
}

/// What the core does once a connection has ended.
#[derive(Debug, Clone, Copy, PartialEq, Eq, Structural)]
pub enum Next {
    /// Shut down.
    Exit,
    /// Wait for the next client.
    Accept,
}

/// What the core does once a connection has ended, however it ended.
pub fn next_step(options: &ServeOptions, ending: Ending) -> (next: Next)
    ensures
        next == if options.exit_on_disconnect {
            Next::Exit
        } else {
            Next::Accept
        },
{
    if options.exit_on_disconnect {
        Next::Exit
    } else {
        Next::Accept
    }
}

/// The result of a connection from those of its parts. The failure of the reader comes
/// first; it is the one the client caused.
pub fn connection_result(read: Result<()>, work: Result<()>, write: Result<()>) -> (result: Result<
    (),
>)
    ensures
        result == if read is Err {
            read
        } else if work is Err {
            work
        } else {
            write
        },
{
    match read {
        Ok(_) => match work {
            Ok(_) => write,
            Err(error) => Err(error),
        },
        Err(error) => Err(error),
    }
}

} // verus!
