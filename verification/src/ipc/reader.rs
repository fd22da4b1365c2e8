//! What happens to a message of the client.

use crate::ipc;
use crate::protocol::{
    AudioFrame, AudioFrameView, Envelope, EnvelopeView, ErrorCode, HandshakeRequest,
    HandshakeRequestView, HandshakeResponse, HandshakeResponseView, HeartbeatResponse, Payload,
    PayloadView, SetPausedRequest, StartSessionRequest, StartSessionRequestView, PROTOCOL_VERSION,
};
use crate::text;
use crate::VERSION;
use vstd::prelude::*;

verus! {

// ---------------------------------------------------------------------------
// Features
// ---------------------------------------------------------------------------

/// Features the core advertises during the handshake, the Whisper ones only where it
/// was built with an engine.
pub open spec fn features_of(engine: Option<Seq<char>>) -> Seq<Seq<char>> {
    match engine {
        Some(engine) => seq![
            "audio.pcm"@,
            "asr.mock"@,
            "asr.whisper"@,
            "translation.none"@,
            "translation.mock"@,
            "translation.apple-translate"@,
            "asr.whisper.engine."@ + engine,
        ],
        None => seq![
            "audio.pcm"@,
            "asr.mock"@,
            "translation.none"@,
            "translation.mock"@,
            "translation.apple-translate"@,
        ],
    }
}

/// Features the core advertises during the handshake.
pub fn features(engine: &Option<String>) -> (features: Vec<String>)
    ensures
        text::texts(features@) == features_of(text::optional(*engine)),
{
    let mut features: Vec<String> = Vec::new();
    features.push("audio.pcm".to_string());
    features.push("asr.mock".to_string());
    if engine.is_some() {
        features.push("asr.whisper".to_string());
    }
    features.push("translation.none".to_string());
    features.push("translation.mock".to_string());
    features.push("translation.apple-translate".to_string());
    if let Some(engine) = engine {
        features.push(text::appended("asr.whisper.engine.", engine.as_str()));
    }
    assert(text::texts(features@) =~= features_of(text::optional(*engine)));
    features
}

// ---------------------------------------------------------------------------
// Routes
// ---------------------------------------------------------------------------

/// Messages that must be handled in order with respect to the session.
#[derive(Debug, PartialEq)]
pub enum Command {
    Start(StartSessionRequest),
    SetPaused(SetPausedRequest),
    Stop,
}

/// The model of [`Command`].
#[verifier::ext_equal]
pub enum CommandView {
    Start(StartSessionRequestView),
    SetPaused(SetPausedRequest),
    Stop,
}

impl View for Command {
    type V = CommandView;

    open spec fn view(&self) -> CommandView {
        match self {
            Command::Start(request) => CommandView::Start(request@),
            Command::SetPaused(request) => CommandView::SetPaused(*request),
            Command::Stop => CommandView::Stop,
        }
    }
}

/// Where a message of the client goes.
#[derive(Debug, PartialEq)]
pub enum Route {
    /// It is answered at once. Heartbeats in particular must not wait behind a running
    /// decode.
    Reply(Envelope),
    /// It is audio for the pipeline.
    Audio(AudioFrame),
    /// It is a command for the pipeline.
    Control(Command),
}

/// The model of [`Route`].
#[verifier::ext_equal]
pub enum RouteView {
    Reply(EnvelopeView),
    Audio(AudioFrameView),
    Control(CommandView),
}

impl View for Route {
    type V = RouteView;

    open spec fn view(&self) -> RouteView {
        match self {
            Route::Reply(envelope) => RouteView::Reply(envelope@),
            Route::Audio(frame) => RouteView::Audio(frame@),
            Route::Control(command) => RouteView::Control(command@),
        }
    }
}

/// The answer that refuses a message.
pub open spec fn refusal(message: Seq<char>) -> RouteView {
    RouteView::Reply(
        ipc::unnumbered(ipc::error_payload(ErrorCode::BadRequest, message, false)),
    )
}

/// Whether a handshake is accepted: the protocol versions must match.
pub open spec fn accepts(request: HandshakeRequestView) -> bool {
    request.protocol_version == PROTOCOL_VERSION
}

/// The answer to a handshake.
pub open spec fn handshake_answer(
    request: HandshakeRequestView,
    engine: Option<Seq<char>>,
) -> HandshakeResponseView {
    HandshakeResponseView {
        accepted: accepts(request),
        server_version: VERSION@,
        negotiated_protocol_version: PROTOCOL_VERSION,
        features: if accepts(request) {
            features_of(engine)
        } else {
            Seq::empty()
        },
        error: if accepts(request) {
            Seq::empty()
        } else {
            "client speaks protocol v"@ + text::decimal_text(request.protocol_version as nat)
                + ", core speaks v"@ + text::decimal_text(PROTOCOL_VERSION as nat)
        },
    }
}

/// Where a message goes.
pub open spec fn routed(
    handshaked: bool,
    envelope: EnvelopeView,
    engine: Option<Seq<char>>,
) -> RouteView {
    match envelope.payload {
        None => refusal("empty envelope"@),
        Some(PayloadView::HandshakeRequest(request)) => RouteView::Reply(
            ipc::unnumbered(PayloadView::HandshakeResponse(handshake_answer(request, engine))),
        ),
        Some(PayloadView::HeartbeatRequest(request)) => RouteView::Reply(
            ipc::unnumbered(
                PayloadView::HeartbeatResponse(
                    HeartbeatResponse { timestamp_us: request.timestamp_us },
                ),
            ),
        ),
        Some(PayloadView::AudioFrame(frame)) => if handshaked {
            RouteView::Audio(frame)
        } else {
            refusal("handshake required"@)
        },
        Some(PayloadView::StartSessionRequest(request)) => if handshaked {
            RouteView::Control(CommandView::Start(request))
        } else {
            refusal("handshake required"@)
        },
        Some(PayloadView::SetPausedRequest(request)) => if handshaked {
            RouteView::Control(CommandView::SetPaused(request))
        } else {
            refusal("handshake required"@)
        },
        Some(PayloadView::StopSessionRequest(_)) => if handshaked {
            RouteView::Control(CommandView::Stop)
        } else {
            refusal("handshake required"@)
        },
        Some(other) => refusal("unexpected message from client: "@ + ipc::name_of(other)),
    }
}

/// Whether the handshake is done after a message.
pub open spec fn shaken(handshaked: bool, envelope: EnvelopeView) -> bool {
    handshaked || (envelope.payload matches Some(PayloadView::HandshakeRequest(request)) && accepts(
        request,
    ))
}

// ---------------------------------------------------------------------------
// The reader
// ---------------------------------------------------------------------------

/// Routes the messages of one connection.
#[derive(Debug)]
pub struct Reader {
    handshaked: bool,
    /// The recognition engine of this build, if it has one.
    engine: Option<String>,
}

impl Reader {
    /// Whether the handshake is done.
    pub closed spec fn handshaked(&self) -> bool {
        self.handshaked
    }

    /// The recognition engine of this build, if it has one.
    pub closed spec fn engine(&self) -> Option<Seq<char>> {
        text::optional(self.engine)
    }

    /// The reader of a new connection.
    pub fn new(engine: Option<String>) -> (reader: Reader)
        ensures
            !reader.handshaked(),
            reader.engine() == text::optional(engine),
    {
        Reader { handshaked: false, engine }
    }

    /// Decide where a message goes.
    pub fn route(&mut self, envelope: Envelope) -> (route: Route)
        ensures
            final(self).handshaked() == shaken(old(self).handshaked(), envelope@),
            final(self).engine() == old(self).engine(),
            route@ == routed(old(self).handshaked(), envelope@, old(self).engine()),
    {
        let payload: Payload = match envelope.payload {
            Some(payload) => payload,
            None => {
                return refuse("empty envelope");
            },
        };
        match payload {
            Payload::HandshakeRequest(request) => {
                if request.protocol_version != PROTOCOL_VERSION {
                    return Route::Reply(
                        ipc::env(Payload::HandshakeResponse(reject_handshake(&request))),
                    );
                }
                self.handshaked = true;
                let response = HandshakeResponse {
                    accepted: true,
                    server_version: VERSION.to_string(),
                    negotiated_protocol_version: PROTOCOL_VERSION,
                    features: features(&self.engine),
                    error: String::new(),
                };
                Route::Reply(ipc::env(Payload::HandshakeResponse(response)))
            },
            Payload::HeartbeatRequest(request) => {
                let response = HeartbeatResponse { timestamp_us: request.timestamp_us };
                Route::Reply(ipc::env(Payload::HeartbeatResponse(response)))
            },
            Payload::AudioFrame(frame) => {
                if self.handshaked {
                    Route::Audio(frame)
                } else {
                    refuse("handshake required")
                }
            },
            Payload::StartSessionRequest(request) => {
                if self.handshaked {
                    Route::Control(Command::Start(request))
                } else {
                    refuse("handshake required")
                }
            },
            Payload::SetPausedRequest(request) => {
                if self.handshaked {
                    Route::Control(Command::SetPaused(request))
                } else {
                    refuse("handshake required")
                }
            },
            Payload::StopSessionRequest(_) => {
                if self.handshaked {
                    Route::Control(Command::Stop)
                } else {
                    refuse("handshake required")
                }
            },
            other => {
                let message: String = text::appended(
                    "unexpected message from client: ",
                    ipc::payload_name(&other),
                );
                refuse(message.as_str())
            },
        }
    }
}

fn refuse(message: &str) -> (route: Route)
    ensures
        route@ == refusal(message@),
{
    Route::Reply(ipc::error_event(ErrorCode::BadRequest, message, false))
}

fn reject_handshake(request: &HandshakeRequest) -> (response: HandshakeResponse)
    requires
        !accepts(request@),
    ensures
        forall|engine: Option<Seq<char>>| #[trigger]
            handshake_answer(request@, engine) == response@,
{
    let mut error: String = text::appended(
        "client speaks protocol v",
        text::decimal(request.protocol_version as u64).as_str(),
    );
    error.append(", core speaks v");
    error.append(text::decimal(PROTOCOL_VERSION as u64).as_str());
    let features: Vec<String> = Vec::new();
    assert(text::texts(features@) =~= Seq::empty());
    HandshakeResponse {
        accepted: false,
        server_version: VERSION.to_string(),
        negotiated_protocol_version: PROTOCOL_VERSION,
        features,
        error,
    }
}

// ---------------------------------------------------------------------------
// Laws
// ---------------------------------------------------------------------------

/// Whether the handshake is done after several messages.
pub open spec fn all_shaken(envelopes: Seq<EnvelopeView>) -> bool
    decreases envelopes.len(),
{
    if envelopes.len() == 0 {
        false
    } else {
        shaken(all_shaken(envelopes.drop_last()), envelopes.last())
    }
}

/// Whether a message is one that the pipeline handles.
pub open spec fn for_pipeline(payload: PayloadView) -> bool {
    ||| payload is AudioFrame
    ||| payload is StartSessionRequest
    ||| payload is SetPausedRequest
    ||| payload is StopSessionRequest
}

/// Nothing of a client reaches the pipeline before a handshake with the protocol
/// version of the core; what would, is answered that a handshake is required.
pub proof fn law_handshake_first(envelopes: Seq<EnvelopeView>, next: EnvelopeView, engine: Option<
    Seq<char>,
>)
    requires
        forall|i: int| #![trigger envelopes[i]]
            0 <= i < envelopes.len() ==> !(envelopes[i].payload matches Some(
                PayloadView::HandshakeRequest(request),
            ) && accepts(request)),
    ensures
        !all_shaken(envelopes),
        routed(all_shaken(envelopes), next, engine) is Reply,
        next.payload matches Some(payload) && for_pipeline(payload) ==> routed(
            all_shaken(envelopes),
            next,
            engine,
        ) == refusal("handshake required"@),
    decreases envelopes.len(),
{
    if envelopes.len() > 0 {
        let before = envelopes.drop_last();
        assert forall|i: int| #![trigger before[i]] 0 <= i < before.len() implies !(
        before[i].payload matches Some(PayloadView::HandshakeRequest(request)) && accepts(
            request,
        )) by {
            assert(before[i] == envelopes[i]);
        }
        law_handshake_first(before, next, engine);
        assert(envelopes.last() == envelopes[envelopes.len() - 1]);
    }
}

/// A heartbeat is answered at once with its own timestamp, before the handshake too.
pub proof fn law_heartbeat(handshaked: bool, seq: u32, timestamp_us: u64, engine: Option<Seq<char>>)
    ensures
        routed(
            handshaked,
            EnvelopeView {
                seq,
                payload: Some(
                    PayloadView::HeartbeatRequest(
                        crate::protocol::HeartbeatRequest { timestamp_us },
                    ),
                ),
            },
            engine,
        ) == RouteView::Reply(
            ipc::unnumbered(PayloadView::HeartbeatResponse(HeartbeatResponse { timestamp_us })),
        ),
{
}

/// A client that speaks another protocol version is told so and gains nothing.
pub proof fn law_mismatch(handshaked: bool, request: HandshakeRequestView, seq: u32)
    requires
        request.protocol_version != PROTOCOL_VERSION,
    ensures
        shaken(
            handshaked,
            EnvelopeView { seq, payload: Some(PayloadView::HandshakeRequest(request)) },
        ) == handshaked,
        forall|engine: Option<Seq<char>>| !(#[trigger] handshake_answer(request, engine)).accepted,
{
}

/// Behind a handshake what is meant for the pipeline arrives there as it was sent.
pub proof fn law_passed_on(envelope: EnvelopeView, engine: Option<Seq<char>>)
    ensures
        envelope.payload matches Some(PayloadView::AudioFrame(frame)) ==> routed(
            true,
            envelope,
            engine,
        ) == RouteView::Audio(frame),
        envelope.payload matches Some(PayloadView::StartSessionRequest(request)) ==> routed(
            true,
            envelope,
            engine,
        ) == RouteView::Control(CommandView::Start(request)),
        envelope.payload matches Some(PayloadView::SetPausedRequest(request)) ==> routed(
            true,
            envelope,
            engine,
        ) == RouteView::Control(CommandView::SetPaused(request)),
        envelope.payload matches Some(PayloadView::StopSessionRequest(request)) ==> routed(
            true,
            envelope,
            engine,
        ) == RouteView::Control(CommandView::Stop),
        !(routed(true, envelope, engine) is Reply) <==> (envelope.payload matches Some(payload)
            && for_pipeline(payload)),
{
}

/// The number of an envelope plays no part, a handshake is never taken back, and only an
/// accepted request gives one.
pub proof fn law_handshake_kept(
    handshaked: bool,
    envelope: EnvelopeView,
    seq: u32,
    engine: Option<Seq<char>>,
)
    ensures
        routed(handshaked, EnvelopeView { seq, ..envelope }, engine) == routed(
            handshaked,
            envelope,
            engine,
        ),
        shaken(handshaked, EnvelopeView { seq, ..envelope }) == shaken(handshaked, envelope),
        shaken(true, envelope),
        shaken(false, envelope) <==> {
            &&& routed(false, envelope, engine) matches RouteView::Reply(reply)
            &&& reply.payload matches Some(PayloadView::HandshakeResponse(answer))
            &&& answer.accepted
        },
{
}

/// A handshake answer always names this side's versions; it is accepted exactly where the
/// client speaks the same protocol, then tells no error and some features, else an error
/// and no features.
pub proof fn law_handshake_answer(request: HandshakeRequestView, engine: Option<Seq<char>>)
    ensures
        ({
            let answer = handshake_answer(request, engine);
            &&& answer.negotiated_protocol_version == PROTOCOL_VERSION
            &&& answer.server_version == VERSION@
            &&& answer.accepted <==> request.protocol_version == answer.negotiated_protocol_version
            &&& answer.accepted <==> answer.error.len() == 0
            &&& answer.accepted <==> answer.features.len() > 0
        }),
{
    reveal_strlit("client speaks protocol v");
}

/// The features without a speech engine are told with one too, in the same order; the
/// engine adds the recognizer behind the mock and its own name at the end.
pub proof fn law_features(engine: Seq<char>)
    ensures
        ({
            let less = features_of(None);
            let more = features_of(Some(engine));
            &&& more.len() == less.len() + 2
            &&& more.take(2) == less.take(2)
            &&& more.subrange(3, 6) == less.skip(2)
            &&& more[2] == "asr.whisper"@
            &&& more[6] == more[2] + ".engine."@ + engine
        }),
{
    reveal_strlit("asr.whisper");
    reveal_strlit(".engine.");
    reveal_strlit("asr.whisper.engine.");
    let less = features_of(None);
    let more = features_of(Some(engine));
    assert("asr.whisper.engine."@ =~= "asr.whisper"@ + ".engine."@);
    assert(more[6] =~= more[2] + ".engine."@ + engine);
    assert(more.take(2) =~= less.take(2));
    assert(more.subrange(3, 6) =~= less.skip(2));
}

/// Every refusal is a bad request that leaves the connection open, and says in full what
/// was wrong.
pub proof fn law_refusal(message: Seq<char>)
    ensures
        refusal(message) matches RouteView::Reply(reply) && reply.payload matches Some(
            PayloadView::ErrorEvent(event),
        ) && event.code == ErrorCode::BadRequest.number() && !event.fatal && event.message
            == message,
{
}

/// A message that is not for a client to send is refused by its name, before a handshake
/// and behind one.
pub proof fn law_refused(
    handshaked: bool,
    payload: PayloadView,
    seq: u32,
    engine: Option<Seq<char>>,
)
    requires
        !for_pipeline(payload),
        !(payload is HandshakeRequest),
        !(payload is HeartbeatRequest),
    ensures
        routed(handshaked, EnvelopeView { seq, payload: Some(payload) }, engine) matches
            RouteView::Reply(reply) && reply.payload matches Some(PayloadView::ErrorEvent(event))
            && {
            &&& event.code == ErrorCode::BadRequest.number()
            &&& !event.fatal
            &&& event.message.len() > ipc::name_of(payload).len()
            &&& event.message.skip(event.message.len() - ipc::name_of(payload).len())
                == ipc::name_of(payload)
        },
{
    reveal_strlit("unexpected message from client: ");
    let name = ipc::name_of(payload);
    let message = "unexpected message from client: "@ + name;
    assert(message.skip(message.len() - name.len()) =~= name);
}

} // verus!
