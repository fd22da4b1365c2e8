//! Wire types shared by the core and the native clients.
//!
//! Every transport frame is a 4-byte big-endian length followed by one [`Envelope`].

pub mod codec;
pub mod enums;
pub mod envelope;
pub mod framing;
pub mod messages;
pub mod wire;

pub use codec::Float64;
pub use enums::{CoreStatus, ErrorCode, SampleFormat, SubtitleKind};
pub use envelope::{Envelope, EnvelopeView, Payload, PayloadView};
pub use messages::config::{
    AsrConfig, AsrConfigView, AudioFormat, SubtitleConfig, TranslationConfig, TranslationConfigView,
};
pub use messages::control::{
    HandshakeRequest, HandshakeRequestView, HandshakeResponse, HandshakeResponseView,
    HeartbeatRequest, HeartbeatResponse, SetPausedRequest, SetPausedResponse,
    SetPausedResponseView, StartSessionRequest, StartSessionRequestView, StartSessionResponse,
    StartSessionResponseView, StopSessionRequest, StopSessionRequestView, StopSessionResponse,
    StopSessionResponseView,
};
pub use messages::events::{
    AudioFrame, AudioFrameView, ErrorEvent, ErrorEventView, MetricsEvent, StatusEvent,
    StatusEventView, SubtitleEvent, SubtitleEventView,
};

use vstd::prelude::*;

verus! {

/// Bumped on every breaking wire change. Clients and the core refuse to talk to
/// each other when this does not match.
pub const PROTOCOL_VERSION: u32 = 1;

/// The named pipe that the core listens on by default.
pub const DEFAULT_PIPE_NAME: &'static str = r"\\.\pipe\translator-core-v1";

/// The Unix socket that the core listens on by default.
pub const DEFAULT_SOCKET_PATH: &'static str = "/tmp/translator-core-v1.sock";

} // verus!
