//! The pipeline of one connection: it owns the session and handles audio and session
//! control in order.
//!
//! The pipeline drains every audio frame already queued as one batch and lets only the
//! newest frame trigger a partial decode, merging stale mid-utterance inference into a
//! single pass.
//!
//! A call returns a [`Turn`]: what goes out to the client, and the [`Work`] that has to
//! be done outside before the pipeline can go on.

use std::collections::VecDeque;

use crate::asr::whisper;
use crate::asr::whisper::{DecodedSegment, DecodedView, Pending, WhisperView};
use crate::asr::{EventView, RecognizerView};
use crate::error::{CoreError, ErrorView, Result};
use crate::ipc;
use crate::ipc::reader::{Command, CommandView};
use crate::protocol::{
    AudioFrame, AudioFrameView, CoreStatus, Envelope, ErrorCode, Float64,
    MetricsEvent, Payload, PayloadView, SetPausedResponse, SetPausedResponseView,
    StartSessionRequest, StartSessionRequestView, StartSessionResponse, StartSessionResponseView,
    StatusEventView, StopSessionResponse, StopSessionResponseView, SubtitleEvent,
    SubtitleEventView, SubtitleKind,
};
use crate::session;
use crate::session::{
    FlushStep, FramePlan, FramePlanView, FrameSignal, FrameSignalView, FrameStep, Metrics,
    OutputView, Session, SessionOutput, SessionView,
};
use crate::subtitle;
use crate::text;
use vstd::prelude::*;

verus! {

// ---------------------------------------------------------------------------
// What goes out
// ---------------------------------------------------------------------------

/// Something for the client. A status still lacks its time, and metrics what only
/// signal processing knows.
#[derive(Debug, PartialEq)]
pub enum Outgoing {
    Message(Payload),
    Status { status: CoreStatus, detail: String },
    Metrics(Metrics),
}

/// The model of [`Outgoing`].
#[verifier::ext_equal]
pub enum OutgoingView {
    Message(PayloadView),
    Status { status: CoreStatus, detail: Seq<char> },
    Metrics(Metrics),
}

impl View for Outgoing {
    type V = OutgoingView;

    open spec fn view(&self) -> OutgoingView {
        match self {
            Outgoing::Message(payload) => OutgoingView::Message(payload@),
            Outgoing::Status { status, detail } => OutgoingView::Status {
                status: *status,
                detail: detail@,
            },
            Outgoing::Metrics(metrics) => OutgoingView::Metrics(*metrics),
        }
    }
}

/// The models of several things for the client.
pub open spec fn out_views(out: Seq<Outgoing>) -> Seq<OutgoingView> {
    Seq::new(out.len(), |i: int| out[i]@)
}

/// The models of several frames.
pub open spec fn frame_views(frames: Seq<AudioFrame>) -> Seq<AudioFrameView> {
    Seq::new(frames.len(), |i: int| frames[i]@)
}

/// The payload that goes out, once what lacked is known.
pub open spec fn completed(
    outgoing: OutgoingView,
    now_us: u64,
    audio_ms: u64,
    ratio: Float64,
) -> PayloadView {
    match outgoing {
        OutgoingView::Message(payload) => payload,
        OutgoingView::Status { status, detail } => PayloadView::StatusEvent(
            StatusEventView { status: status.number(), detail, timestamp_us: now_us },
        ),
        OutgoingView::Metrics(metrics) => PayloadView::MetricsEvent(
            MetricsEvent {
                audio_frames: metrics.audio_frames,
                audio_bytes: metrics.audio_bytes,
                audio_ms,
                dropped_frames: metrics.dropped_frames,
                speech_ratio: if metrics.total_frames == 0 {
                    Float64 { bits: 0 }
                } else {
                    ratio
                },
                subtitle_events: metrics.subtitle_events,
            },
        ),
    }
}

impl Outgoing {
    /// The envelope that goes out. `now_us` is the time, `audio_ms` the audio time of
    /// the session, and `ratio` its share of speech.
    pub fn envelope(self, now_us: u64, audio_ms: u64, ratio: Float64) -> (envelope: Envelope)
        ensures
            envelope@ == ipc::unnumbered(completed(self@, now_us, audio_ms, ratio)),
    {
        match self {
            Outgoing::Message(payload) => ipc::env(payload),
            Outgoing::Status { status, detail } => ipc::status_event(
                status,
                detail.as_str(),
                now_us,
            ),
            Outgoing::Metrics(metrics) => ipc::env(
                Payload::MetricsEvent(metrics.event(audio_ms, ratio)),
            ),
        }
    }
}

/// Work that has to be done outside before the pipeline can go on.
#[derive(Debug, PartialEq)]
pub enum Work {
    /// None: the pipeline waits for a command or for audio.
    Idle,
    /// Turn the frame into a signal for [`Pipeline::measured`].
    Measure(FramePlan),
    /// Decode the audio of the recogniser for [`Pipeline::decoded`].
    Decode,
    /// Load the model of the recogniser for [`Pipeline::loaded`].
    Load,
}

/// The model of [`Work`].
#[verifier::ext_equal]
pub enum WorkView {
    Idle,
    Measure(FramePlanView),
    Decode,
    Load,
}

impl View for Work {
    type V = WorkView;

    open spec fn view(&self) -> WorkView {
        match self {
            Work::Idle => WorkView::Idle,
            Work::Measure(plan) => WorkView::Measure(plan@),
            Work::Decode => WorkView::Decode,
            Work::Load => WorkView::Load,
        }
    }
}

/// What a call came to.
#[derive(Debug, PartialEq)]
pub struct Turn {
    pub out: Vec<Outgoing>,
    pub work: Work,
}

/// What a call comes to: the pipeline after it, what goes out, and the work to do.
#[verifier::ext_equal]
pub struct TurnView {
    pub pipeline: PipelineView,
    pub out: Seq<OutgoingView>,
    pub work: WorkView,
}

impl TurnView {
    /// The same with something that goes out before.
    pub open spec fn behind(self, out: Seq<OutgoingView>) -> TurnView {
        TurnView { out: out + self.out, ..self }
    }
}

impl Turn {
    /// The call came to what it should.
    pub open spec fn is(self, pipeline: PipelineView, wanted: TurnView) -> bool {
        &&& pipeline == wanted.pipeline
        &&& out_views(self.out@) == wanted.out
        &&& self.work@ == wanted.work
    }
}

/// A report of an error.
pub open spec fn error_out(error: ErrorView) -> OutgoingView {
    OutgoingView::Message(ipc::error_payload(error.code(), error.text(), false))
}

/// The report where there is no session.
pub open spec fn no_session() -> OutgoingView {
    OutgoingView::Message(
        ipc::error_payload(ErrorCode::InvalidSession, "no active session"@, false),
    )
}

/// What goes out where a session was started.
pub open spec fn accept_out(id: Seq<char>) -> Seq<OutgoingView> {
    seq![
        OutgoingView::Message(
            PayloadView::StartSessionResponse(
                StartSessionResponseView { accepted: true, session_id: id, error: Seq::empty() },
            ),
        ),
        OutgoingView::Status { status: CoreStatus::Listening, detail: "session started"@ },
    ]
}

/// What goes out where a session was not started.
pub open spec fn reject_out(requested_id: Seq<char>, error: ErrorView) -> Seq<OutgoingView> {
    seq![
        OutgoingView::Message(
            PayloadView::StartSessionResponse(
                StartSessionResponseView {
                    accepted: false,
                    session_id: requested_id,
                    error: error.text(),
                },
            ),
        ),
        error_out(error),
    ]
}

/// What goes out where the session was paused or resumed.
pub open spec fn paused_out(paused: bool) -> Seq<OutgoingView> {
    seq![
        OutgoingView::Message(
            PayloadView::SetPausedResponse(
                SetPausedResponseView { ok: true, error: Seq::empty() },
            ),
        ),
        OutgoingView::Status {
            status: if paused {
                CoreStatus::Paused
            } else {
                CoreStatus::Listening
            },
            detail: "pause state updated"@,
        },
    ]
}

/// What goes out where the session was stopped.
pub open spec fn stopped_out() -> Seq<OutgoingView> {
    seq![
        OutgoingView::Message(
            PayloadView::StopSessionResponse(
                StopSessionResponseView { ok: true, error: Seq::empty() },
            ),
        ),
        OutgoingView::Status { status: CoreStatus::Idle, detail: "session stopped"@ },
    ]
}

/// Subtitles go out one by one.
pub open spec fn captions_out(subtitles: Seq<SubtitleEventView>) -> Seq<OutgoingView> {
    Seq::new(
        subtitles.len(),
        |i: int| OutgoingView::Message(PayloadView::SubtitleEvent(subtitles[i])),
    )
}

/// What goes out of a frame: its subtitles, then its metrics.
pub open spec fn frame_out(output: OutputView) -> Seq<OutgoingView> {
    captions_out(output.subtitles) + match output.metrics {
        Some(metrics) => seq![OutgoingView::Metrics(metrics)],
        None => Seq::empty(),
    }
}

// ---------------------------------------------------------------------------
// The pipeline
// ---------------------------------------------------------------------------

/// What the pipeline waits for.
pub enum Stage {
    /// A command or audio.
    Idle,
    /// The model of a session that is being started; the client called it
    /// `requested_id`.
    Loading { starting: Session, requested_id: String },
    /// The signal of a frame.
    Measuring,
    /// The text of a frame.
    Decoding,
    /// The text of a session that is being stopped.
    Flushing { stopping: Session },
}

/// The model of [`Stage`].
#[verifier::ext_equal]
pub enum StageView {
    Idle,
    Loading { starting: SessionView, requested_id: Seq<char> },
    Measuring,
    Decoding,
    Flushing { stopping: SessionView },
}

impl View for Stage {
    type V = StageView;

    open spec fn view(&self) -> StageView {
        match self {
            Stage::Idle => StageView::Idle,
            Stage::Loading { starting, requested_id } => StageView::Loading {
                starting: starting@,
                requested_id: requested_id@,
            },
            Stage::Measuring => StageView::Measuring,
            Stage::Decoding => StageView::Decoding,
            Stage::Flushing { stopping } => StageView::Flushing { stopping: stopping@ },
        }
    }
}

/// The model of [`Pipeline`].
#[verifier::ext_equal]
pub struct PipelineView {
    pub session: Option<SessionView>,
    pub stage: StageView,
    /// Frames of the current batch that have not been looked at.
    pub backlog: Seq<AudioFrameView>,
    pub sentences: Seq<Seq<char>>,
    pub process_id: u32,
    pub whisper_built: bool,
}

/// What comes back of a decoding.
pub enum DecodedOutcome {
    Segments(Seq<DecodedView>),
    Failed(ErrorView),
}

impl PipelineView {
    /// Sessions are in order, a batch is open only while one of its frames is in work,
    /// and what is waited for is there.
    pub open spec fn wf(self) -> bool {
        &&& self.session matches Some(session) ==> session.wf()
        &&& match self.stage {
            StageView::Idle => self.backlog.len() == 0,
            StageView::Loading { starting, .. } => starting.wf() && self.backlog.len() == 0,
            StageView::Measuring => self.session is Some,
            StageView::Decoding => self.session is Some,
            StageView::Flushing { stopping } => stopping.wf() && self.session is None
                && self.backlog.len() == 0,
        }
    }

    /// The pipeline waits for the outcome of this work.
    pub open spec fn waits_for(self, work: WorkView) -> bool {
        match work {
            WorkView::Idle => self.stage is Idle,
            WorkView::Measure(_) => self.stage is Measuring,
            WorkView::Decode => self.stage is Decoding || self.stage is Flushing,
            WorkView::Load => self.stage is Loading,
        }
    }

    /// The pipeline waits for nothing.
    pub open spec fn idle(self) -> PipelineView {
        PipelineView { stage: StageView::Idle, ..self }
    }

    /// Nothing is left to do, and `out` goes out.
    pub open spec fn rests(self, out: Seq<OutgoingView>) -> TurnView {
        TurnView { pipeline: self.idle(), out, work: WorkView::Idle }
    }

    /// The frames of the batch up to the first that is worth a signal: a frame without
    /// a session and one that is refused are reported, and a paused session only counts.
    pub open spec fn advanced(self) -> TurnView
        decreases self.backlog.len(),
    {
        if self.backlog.len() == 0 {
            self.rests(Seq::empty())
        } else {
            let frame = self.backlog[0];
            let rest = PipelineView { backlog: self.backlog.skip(1), ..self };
            match self.session {
                None => rest.advanced().behind(seq![no_session()]),
                Some(session) => {
                    let rest = PipelineView { session: Some(session.after_push(frame)), ..rest };
                    if session.paused {
                        rest.advanced()
                    } else {
                        match session.checked(frame) {
                            Ok(plan) => TurnView {
                                pipeline: PipelineView { stage: StageView::Measuring, ..rest },
                                out: Seq::empty(),
                                work: WorkView::Measure(plan),
                            },
                            Err(error) => rest.advanced().behind(seq![error_out(error)]),
                        }
                    }
                },
            }
        }
    }

    /// What a batch of frames comes to.
    pub open spec fn with_batch(self, frames: Seq<AudioFrameView>) -> TurnView {
        PipelineView { backlog: frames, ..self }.advanced()
    }

    /// What the signal of a frame comes to. Only the newest frame of a batch may ask
    /// for a partial decode.
    pub open spec fn with_signal(self, signal: FrameSignalView) -> TurnView {
        let session = self.session->0;
        let infer_partial = self.backlog.len() == 0;
        let sounded = session.sounded(signal, infer_partial);
        if sounded.recognizer.needs_model() {
            TurnView {
                pipeline: PipelineView {
                    session: Some(sounded),
                    stage: StageView::Decoding,
                    ..self
                },
                out: Seq::empty(),
                work: WorkView::Decode,
            }
        } else {
            let events = session.sound_events(signal, infer_partial);
            PipelineView { session: Some(sounded.frame_finished(events)), ..self }.advanced(

            ).behind(frame_out(sounded.output(events)))
        }
    }

    /// What a decoding comes to: of a frame, or of a session that is being stopped.
    pub open spec fn with_decoded(self, outcome: DecodedOutcome) -> TurnView {
        match (self.stage, outcome) {
            (StageView::Flushing { stopping }, DecodedOutcome::Segments(decoded)) => {
                let events = stopping.recognizer.decoded_events(decoded);
                self.rests(
                    captions_out(stopping.model_finished().captions(events)) + stopped_out(),
                )
            },
            (StageView::Flushing { .. }, DecodedOutcome::Failed(_)) => self.rests(stopped_out()),
            (_, DecodedOutcome::Segments(decoded)) => {
                let session = self.session->0;
                let events = session.recognizer.decoded_events(decoded);
                let finished = session.model_finished();
                PipelineView { session: Some(finished.frame_finished(events)), ..self }.advanced(

                ).behind(frame_out(finished.output(events)))
            },
            (_, DecodedOutcome::Failed(error)) => {
                PipelineView {
                    session: Some((self.session->0).model_failed()),
                    ..self
                }.advanced().behind(seq![error_out(error)])
            },
        }
    }

    /// What the end of loading a model comes to; `failure` says why it failed.
    pub open spec fn with_model(self, failure: Option<ErrorView>) -> TurnView {
        match self.stage {
            StageView::Loading { starting, requested_id } => match failure {
                None => PipelineView { session: Some(starting), ..self }.rests(
                    accept_out(starting.id),
                ),
                Some(error) => self.rests(reject_out(requested_id, error)),
            },
            _ => self.rests(Seq::empty()),
        }
    }

    /// What a request for a session comes to.
    pub open spec fn with_start(self, request: StartSessionRequestView) -> TurnView {
        match session::started(request, self.sentences, self.process_id, self.whisper_built) {
            Ok(starting) => if starting.recognizer is Whisper {
                TurnView {
                    pipeline: PipelineView {
                        stage: StageView::Loading { starting, requested_id: request.session_id },
                        ..self
                    },
                    out: Seq::empty(),
                    work: WorkView::Load,
                }
            } else {
                PipelineView { session: Some(starting), ..self }.rests(accept_out(starting.id))
            },
            Err(error) => self.rests(reject_out(request.session_id, error)),
        }
    }

    /// What pausing or resuming comes to.
    pub open spec fn with_paused(self, paused: bool) -> TurnView {
        match self.session {
            Some(session) => PipelineView {
                session: Some(SessionView { paused, ..session }),
                ..self
            }.rests(paused_out(paused)),
            None => self.rests(seq![no_session()]),
        }
    }

    /// What stopping comes to.
    pub open spec fn with_stop(self) -> TurnView {
        let without = PipelineView { session: None, ..self };
        match self.session {
            Some(session) => {
                let stopping = session.stopping();
                if stopping.recognizer.needs_model() {
                    TurnView {
                        pipeline: PipelineView {
                            stage: StageView::Flushing { stopping },
                            ..without
                        },
                        out: Seq::empty(),
                        work: WorkView::Decode,
                    }
                } else {
                    let events = session.recognizer.stopping_events();
                    without.rests(captions_out(stopping.captions(events)) + stopped_out())
                }
            },
            None => without.rests(stopped_out()),
        }
    }

    /// What a command comes to.
    pub open spec fn with_command(self, command: CommandView) -> TurnView {
        match command {
            CommandView::Start(request) => self.with_start(request),
            CommandView::SetPaused(request) => self.with_paused(request.paused),
            CommandView::Stop => self.with_stop(),
        }
    }
}

/// Owns the session and processes audio batches plus session control in order.
pub struct Pipeline {
    session: Option<Session>,
    stage: Stage,
    backlog: VecDeque<AudioFrame>,
    sentences: Vec<String>,
    process_id: u32,
    whisper_built: bool,
}

/// The model of a session that may be there.
pub open spec fn session_view(session: Option<Session>) -> Option<SessionView> {
    match session {
        Some(session) => Some(session@),
        None => None,
    }
}

/// The model of what comes back of a decoding.
pub open spec fn outcome_view(result: Result<Vec<DecodedSegment>>) -> DecodedOutcome {
    match result {
        Ok(segments) => DecodedOutcome::Segments(whisper::decoded_views(segments@)),
        Err(error) => DecodedOutcome::Failed(error@),
    }
}

impl View for Pipeline {
    type V = PipelineView;

    closed spec fn view(&self) -> PipelineView {
        PipelineView {
            session: session_view(self.session),
            stage: self.stage@,
            backlog: frame_views(self.backlog@),
            sentences: text::texts(self.sentences@),
            process_id: self.process_id,
            whisper_built: self.whisper_built,
        }
    }
}

fn error_outgoing(error: &CoreError) -> (outgoing: Outgoing)
    ensures
        outgoing@ == error_out(error@),
{
    Outgoing::Message(ipc::error_report(error.code(), error.message(), false))
}

fn no_session_outgoing() -> (outgoing: Outgoing)
    ensures
        outgoing@ == no_session(),
{
    Outgoing::Message(
        ipc::error_report(ErrorCode::InvalidSession, "no active session".to_string(), false),
    )
}

fn status_outgoing(status: CoreStatus, detail: &str) -> (outgoing: Outgoing)
    ensures
        outgoing@ == (OutgoingView::Status { status, detail: detail@ }),
{
    Outgoing::Status { status, detail: detail.to_string() }
}

fn accepted(id: &str) -> (out: Vec<Outgoing>)
    ensures
        out_views(out@) == accept_out(id@),
{
    let mut out: Vec<Outgoing> = Vec::new();
    out.push(
        Outgoing::Message(
            Payload::StartSessionResponse(
                StartSessionResponse {
                    accepted: true,
                    session_id: id.to_string(),
                    error: String::new(),
                },
            ),
        ),
    );
    out.push(status_outgoing(CoreStatus::Listening, "session started"));
    assert(out_views(out@) =~= accept_out(id@));
    out
}

fn rejected(requested_id: String, error: &CoreError) -> (out: Vec<Outgoing>)
    ensures
        out_views(out@) == reject_out(requested_id@, error@),
{
    let mut out: Vec<Outgoing> = Vec::new();
    out.push(
        Outgoing::Message(
            Payload::StartSessionResponse(
                StartSessionResponse {
                    accepted: false,
                    session_id: requested_id,
                    error: error.message(),
                },
            ),
        ),
    );
    out.push(error_outgoing(error));
    assert(out_views(out@) =~= reject_out(requested_id@, error@));
    out
}

fn pause_answer(paused: bool) -> (out: Vec<Outgoing>)
    ensures
        out_views(out@) == paused_out(paused),
{
    let mut out: Vec<Outgoing> = Vec::new();
    out.push(
        Outgoing::Message(
            Payload::SetPausedResponse(SetPausedResponse { ok: true, error: String::new() }),
        ),
    );
    let status: CoreStatus = if paused {
        CoreStatus::Paused
    } else {
        CoreStatus::Listening
    };
    out.push(status_outgoing(status, "pause state updated"));
    assert(out_views(out@) =~= paused_out(paused));
    out
}

/// Put the answer to a stop behind what goes out.
fn push_stopped(out: &mut Vec<Outgoing>)
    ensures
        out_views(final(out)@) == out_views(old(out)@) + stopped_out(),
{
    let ghost before = out_views(out@);
    out.push(
        Outgoing::Message(
            Payload::StopSessionResponse(StopSessionResponse { ok: true, error: String::new() }),
        ),
    );
    out.push(status_outgoing(CoreStatus::Idle, "session stopped"));
    assert(out_views(out@) =~= before + stopped_out());
}

/// Put subtitles behind what goes out.
fn push_captions(out: &mut Vec<Outgoing>, subtitles: Vec<SubtitleEvent>)
    ensures
        out_views(final(out)@) == out_views(old(out)@) + captions_out(
            session::subtitle_views(subtitles@),
        ),
{
    let ghost before = out_views(out@);
    let ghost given = subtitles@;
    let ghost all = captions_out(session::subtitle_views(subtitles@));
    let mut subtitles: Vec<SubtitleEvent> = subtitles;
    let ghost mut n: int = 0;
    assert(given.skip(0) =~= given);
    assert(before + all.take(0) =~= before);
    while subtitles.len() > 0
        invariant
            0 <= n,
            n + subtitles@.len() == given.len() == all.len(),
            all == captions_out(session::subtitle_views(given)),
            subtitles@ == given.skip(n),
            out_views(out@) == before + all.take(n),
        decreases subtitles@.len(),
    {
        let ghost done = out@;
        let subtitle: SubtitleEvent = subtitles.remove(0);
        assert(subtitle@ == session::subtitle_views(given)[n]);
        out.push(Outgoing::Message(Payload::SubtitleEvent(subtitle)));
        proof {
            assert(out_views(out@) =~= out_views(done).push(all[n]));
            n = n + 1;
            assert(subtitles@ =~= given.skip(n));
            assert(out_views(out@) =~= before + all.take(n));
        }
    }
    assert(all.take(n) =~= all);
}

/// Put what a frame gives behind what goes out.
fn push_output(out: &mut Vec<Outgoing>, output: SessionOutput)
    ensures
        out_views(final(out)@) == out_views(old(out)@) + frame_out(output@),
{
    let ghost before = out_views(out@);
    push_captions(out, output.subtitles);
    let ghost captions = out_views(out@);
    if let Some(metrics) = output.metrics {
        out.push(Outgoing::Metrics(metrics));
        assert(out_views(out@) =~= captions.push(OutgoingView::Metrics(metrics)));
    }
    assert(out_views(out@) =~= before + frame_out(output@));
}

impl Pipeline {
    /// The pipeline of a new connection.
    pub fn new(sentences: Vec<String>, process_id: u32, whisper_built: bool) -> (pipeline: Pipeline)
        ensures
            pipeline@ == (PipelineView {
                session: None,
                stage: StageView::Idle,
                backlog: Seq::empty(),
                sentences: text::texts(sentences@),
                process_id,
                whisper_built,
            }),
            pipeline@.wf(),
    {
        let pipeline = Pipeline {
            session: None,
            stage: Stage::Idle,
            backlog: VecDeque::new(),
            sentences,
            process_id,
            whisper_built,
        };
        assert(pipeline@.backlog =~= Seq::empty());
        pipeline
    }

    /// The session that is running, if any.
    pub fn session(&self) -> (session: Option<&Session>)
        ensures
            match session {
                Some(session) => self@.session == Some(session@),
                None => self@.session is None,
            },
    {
        self.session.as_ref()
    }

    /// The session whose model is to be loaded, or whose audio is to be decoded.
    pub fn session_in_work(&self) -> (session: Option<&Session>)
        ensures
            match self@.stage {
                StageView::Loading { starting, .. } => session matches Some(session) && session@
                    == starting,
                StageView::Flushing { stopping } => session matches Some(session) && session@
                    == stopping,
                _ => match session {
                    Some(session) => self@.session == Some(session@),
                    None => self@.session is None,
                },
            },
    {
        match &self.stage {
            Stage::Loading { starting, .. } => Some(starting),
            Stage::Flushing { stopping } => Some(stopping),
            _ => self.session.as_ref(),
        }
    }

    /// Go through the batch up to the first frame that is worth a signal.
    fn advance(&mut self, first: Vec<Outgoing>) -> (turn: Turn)
        requires
            old(self)@.session matches Some(session) ==> session.wf(),
        ensures
            final(self)@.wf(),
            final(self)@.waits_for(turn.work@),
            turn.is(final(self)@, old(self)@.advanced().behind(out_views(first@))),
    {
        let ghost start = self@.advanced().behind(out_views(first@));
        let mut out: Vec<Outgoing> = first;
        while self.backlog.len() > 0
            invariant
                self@.session matches Some(session) ==> session.wf(),
                self@.advanced().behind(out_views(out@)) == start,
                start == old(self)@.advanced().behind(out_views(first@)),
            decreases self.backlog@.len(),
        {
            let ghost before = self@;
            let ghost sent = out@;
            let ghost tail = self.backlog@.skip(1);
            let frame: AudioFrame = match self.backlog.pop_front() {
                Some(frame) => frame,
                None => {
                    return Turn { out, work: Work::Idle };
                },
            };
            proof {
                assert(frame@ == before.backlog[0]);
                assert(self.backlog@ =~= tail);
                assert(self@.backlog =~= before.backlog.skip(1));
            }
            match &mut self.session {
                None => {
                    let report: Outgoing = no_session_outgoing();
                    out.push(report);
                    proof {
                        let rest = PipelineView { backlog: before.backlog.skip(1), ..before };
                        assert(out_views(out@) =~= out_views(sent) + seq![no_session()]);
                        assert(self@ =~= rest);
                        assert(rest.advanced().behind(seq![no_session()]).behind(out_views(sent))
                            =~= rest.advanced().behind(out_views(out@)));
                    }
                },
                Some(session) => {
                    let ghost active = session@;
                    match session.push_frame(&frame) {
                        Ok(Some(plan)) => {
                            self.stage = Stage::Measuring;
                            proof {
                                let rest = PipelineView {
                                    session: Some(active.after_push(frame@)),
                                    backlog: before.backlog.skip(1),
                                    ..before
                                };
                                assert(before.advanced() == (TurnView {
                                    pipeline: PipelineView { stage: StageView::Measuring, ..rest },
                                    out: Seq::empty(),
                                    work: WorkView::Measure(plan@),
                                }));
                                assert(out_views(out@) + Seq::empty() =~= out_views(out@));
                                assert(self@ =~= (PipelineView {
                                    stage: StageView::Measuring,
                                    ..rest
                                }));
                            }
                            return Turn { out, work: Work::Measure(plan) };
                        },
                        Ok(None) => {
                            proof {
                                assert(self@ =~= (PipelineView {
                                    session: Some(active.after_push(frame@)),
                                    backlog: before.backlog.skip(1),
                                    ..before
                                }));
                            }
                        },
                        Err(error) => {
                            out.push(error_outgoing(&error));
                            proof {
                                let rest = PipelineView {
                                    session: Some(active.after_push(frame@)),
                                    backlog: before.backlog.skip(1),
                                    ..before
                                };
                                assert(out_views(out@) =~= out_views(sent) + seq![
                                    error_out(error@),
                                ]);
                                assert(self@ =~= rest);
                                assert(rest.advanced().behind(seq![error_out(error@)]).behind(
                                    out_views(sent),
                                ) =~= rest.advanced().behind(out_views(out@)));
                            }
                        },
                    }
                },
            }
        }
        self.stage = Stage::Idle;
        assert(out_views(out@) + Seq::empty() =~= out_views(out@));
        Turn { out, work: Work::Idle }
    }

    /// A batch of audio frames, in order: the oldest that was queued and every other
    /// that was queued behind it.
    pub fn audio_batch(&mut self, frames: Vec<AudioFrame>) -> (turn: Turn)
        requires
            old(self)@.wf(),
            old(self)@.stage is Idle,
        ensures
            final(self)@.wf(),
            final(self)@.waits_for(turn.work@),
            turn.is(final(self)@, old(self)@.with_batch(frame_views(frames@))),
    {
        let ghost given = frames@;
        let mut frames: Vec<AudioFrame> = frames;
        let ghost mut n: int = 0;
        assert(given.skip(0) =~= given);
        assert(self.backlog@ =~= given.take(0));
        while frames.len() > 0
            invariant
                0 <= n,
                n + frames@.len() == given.len(),
                frames@ == given.skip(n),
                self.backlog@ == given.take(n),
                self@ == (PipelineView { backlog: frame_views(given.take(n)), ..old(self)@ }),
            decreases frames@.len(),
        {
            let frame: AudioFrame = frames.remove(0);
            self.backlog.push_back(frame);
            proof {
                n = n + 1;
                assert(frames@ =~= given.skip(n));
                assert(self.backlog@ =~= given.take(n));
            }
        }
        assert(given.take(n) =~= given);
        let out: Vec<Outgoing> = Vec::new();
        let turn: Turn = self.advance(out);
        proof {
            let all = PipelineView { backlog: frame_views(given), ..old(self)@ };
            assert(out_views(out@) + all.advanced().out =~= all.advanced().out);
        }
        turn
    }

    /// The signal of the frame that was to be measured.
    pub fn measured(&mut self, signal: &FrameSignal) -> (turn: Turn)
        requires
            old(self)@.wf(),
            old(self)@.stage is Measuring,
        ensures
            final(self)@.wf(),
            final(self)@.waits_for(turn.work@),
            turn.is(final(self)@, old(self)@.with_signal(signal@)),
    {
        let infer_partial: bool = self.backlog.len() == 0;
        let mut out: Vec<Outgoing> = Vec::new();
        assert(out_views(out@) =~= Seq::empty());
        match &mut self.session {
            Some(session) => match session.process(signal, infer_partial) {
                FrameStep::Done(output) => {
                    push_output(&mut out, output);
                    assert(out_views(out@) =~= frame_out(output@));
                },
                FrameStep::Decode => {
                    self.stage = Stage::Decoding;
                    return Turn { out, work: Work::Decode };
                },
            },
            None => {},
        }
        self.advance(out)
    }

    /// What came of the decoding that was asked for.
    pub fn decoded(&mut self, result: Result<Vec<DecodedSegment>>) -> (turn: Turn)
        requires
            old(self)@.wf(),
            old(self)@.stage is Decoding || old(self)@.stage is Flushing,
        ensures
            final(self)@.wf(),
            final(self)@.waits_for(turn.work@),
            turn.is(final(self)@, old(self)@.with_decoded(outcome_view(result))),
    {
        match &self.stage {
            Stage::Flushing { .. } => self.flush_decoded(result),
            _ => self.frame_decoded(result),
        }
    }

    fn frame_decoded(&mut self, result: Result<Vec<DecodedSegment>>) -> (turn: Turn)
        requires
            old(self)@.wf(),
            old(self)@.stage is Decoding,
        ensures
            final(self)@.wf(),
            final(self)@.waits_for(turn.work@),
            turn.is(final(self)@, old(self)@.with_decoded(outcome_view(result))),
    {
        let mut out: Vec<Outgoing> = Vec::new();
        assert(out_views(out@) =~= Seq::empty());
        match &mut self.session {
            Some(session) => match result {
                Ok(segments) => {
                    let output: SessionOutput = session.decoded(&segments);
                    push_output(&mut out, output);
                    assert(out_views(out@) =~= frame_out(output@));
                },
                Err(error) => {
                    session.decode_failed();
                    out.push(error_outgoing(&error));
                    assert(out_views(out@) =~= seq![error_out(error@)]);
                },
            },
            None => {},
        }
        self.advance(out)
    }

    fn flush_decoded(&mut self, result: Result<Vec<DecodedSegment>>) -> (turn: Turn)
        requires
            old(self)@.wf(),
            old(self)@.stage is Flushing,
        ensures
            final(self)@.wf(),
            final(self)@.waits_for(turn.work@),
            turn.is(final(self)@, old(self)@.with_decoded(outcome_view(result))),
    {
        let mut out: Vec<Outgoing> = Vec::new();
        assert(out_views(out@) =~= Seq::empty());
        let mut stage: Stage = Stage::Idle;
        core::mem::swap(&mut self.stage, &mut stage);
        if let Stage::Flushing { stopping } = stage {
            let mut stopping: Session = stopping;
            if let Ok(segments) = result {
                let subtitles: Vec<SubtitleEvent> = stopping.flushed(&segments);
                push_captions(&mut out, subtitles);
            }
        }
        push_stopped(&mut out);
        assert(out_views(out@) =~= old(self)@.with_decoded(outcome_view(result)).out);
        Turn { out, work: Work::Idle }
    }

    /// Whether the model of the session that is being started was loaded.
    pub fn loaded(&mut self, result: Result<()>) -> (turn: Turn)
        requires
            old(self)@.wf(),
            old(self)@.stage is Loading,
        ensures
            final(self)@.wf(),
            final(self)@.waits_for(turn.work@),
            turn.is(final(self)@, old(self)@.with_model(crate::error::failure(result))),
    {
        let mut stage: Stage = Stage::Idle;
        core::mem::swap(&mut self.stage, &mut stage);
        let out: Vec<Outgoing> = match stage {
            Stage::Loading { starting, requested_id } => match result {
                Ok(_) => {
                    let out: Vec<Outgoing> = accepted(starting.id());
                    self.session = Some(starting);
                    out
                },
                Err(error) => rejected(requested_id, &error),
            },
            _ => Vec::new(),
        };
        Turn { out, work: Work::Idle }
    }

    /// A command of the client.
    pub fn control(&mut self, command: Command) -> (turn: Turn)
        requires
            old(self)@.wf(),
            old(self)@.stage is Idle,
        ensures
            final(self)@.wf(),
            final(self)@.waits_for(turn.work@),
            turn.is(final(self)@, old(self)@.with_command(command@)),
    {
        match command {
            Command::Start(request) => self.start(request),
            Command::SetPaused(request) => {
                let out: Vec<Outgoing> = match &mut self.session {
                    Some(session) => {
                        session.set_paused(request.paused);
                        pause_answer(request.paused)
                    },
                    None => {
                        let mut out: Vec<Outgoing> = Vec::new();
                        out.push(no_session_outgoing());
                        assert(out_views(out@) =~= seq![no_session()]);
                        out
                    },
                };
                Turn { out, work: Work::Idle }
            },
            Command::Stop => self.stop(),
        }
    }

    fn start(&mut self, request: StartSessionRequest) -> (turn: Turn)
        requires
            old(self)@.wf(),
            old(self)@.stage is Idle,
        ensures
            final(self)@.wf(),
            final(self)@.waits_for(turn.work@),
            turn.is(final(self)@, old(self)@.with_start(request@)),
    {
        match Session::start(&request, &self.sentences, self.process_id, self.whisper_built) {
            Ok(starting) => {
                if starting.model_input().is_some() {
                    self.stage = Stage::Loading { starting, requested_id: request.session_id };
                    let out: Vec<Outgoing> = Vec::new();
                    assert(out_views(out@) =~= Seq::empty());
                    Turn { out, work: Work::Load }
                } else {
                    let out: Vec<Outgoing> = accepted(starting.id());
                    self.session = Some(starting);
                    Turn { out, work: Work::Idle }
                }
            },
            Err(error) => {
                let out: Vec<Outgoing> = rejected(request.session_id, &error);
                Turn { out, work: Work::Idle }
            },
        }
    }

    fn stop(&mut self) -> (turn: Turn)
        requires
            old(self)@.wf(),
            old(self)@.stage is Idle,
        ensures
            final(self)@.wf(),
            final(self)@.waits_for(turn.work@),
            turn.is(final(self)@, old(self)@.with_stop()),
    {
        let mut out: Vec<Outgoing> = Vec::new();
        assert(out_views(out@) =~= Seq::empty());
        let active: Option<Session> = self.session.take();
        if let Some(active) = active {
            let mut stopping: Session = active;
            match stopping.flush() {
                FlushStep::Done(subtitles) => {
                    push_captions(&mut out, subtitles);
                },
                FlushStep::Decode => {
                    self.stage = Stage::Flushing { stopping };
                    return Turn { out, work: Work::Decode };
                },
            }
        }
        push_stopped(&mut out);
        assert(out_views(out@) =~= old(self)@.with_stop().out);
        Turn { out, work: Work::Idle }
    }
}

// ---------------------------------------------------------------------------
// Laws
// ---------------------------------------------------------------------------

/// A stop always leaves no session and is always acknowledged, last of all that goes
/// out, whatever a decoding that it asks for comes to.
pub proof fn law_stop(pipeline: PipelineView, outcome: DecodedOutcome)
    requires
        pipeline.wf(),
        pipeline.stage is Idle,
    ensures
        ({
            let turn = pipeline.with_command(CommandView::Stop);
            let last = if turn.work is Decode {
                turn.pipeline.with_decoded(outcome)
            } else {
                turn
            };
            &&& turn.work is Decode || turn.work is Idle
            &&& turn.work is Decode ==> turn.out.len() == 0
            &&& last.work is Idle
            &&& last.pipeline == (PipelineView { session: None, ..pipeline })
            &&& last.out.len() >= stopped_out().len()
            &&& last.out.skip(last.out.len() - stopped_out().len()) == stopped_out()
        }),
{
    let turn = pipeline.with_command(CommandView::Stop);
    let last = if turn.work is Decode {
        turn.pipeline.with_decoded(outcome)
    } else {
        turn
    };
    assert(last.out.skip(last.out.len() - stopped_out().len()) =~= stopped_out());
}

/// A session that cannot be started leaves the pipeline, and any session that is
/// running, as they were. The client is told under the name that it gave.
pub proof fn law_rejected_start(pipeline: PipelineView, request: StartSessionRequestView)
    requires
        pipeline.wf(),
        pipeline.stage is Idle,
    ensures
        session::started(
            request,
            pipeline.sentences,
            pipeline.process_id,
            pipeline.whisper_built,
        ) matches Err(error) ==> pipeline.with_command(CommandView::Start(request)) == (TurnView {
            pipeline,
            out: reject_out(request.session_id, error),
            work: WorkView::Idle,
        }),
        forall|error: ErrorView|
            #![trigger pipeline.with_start(request).pipeline.with_model(Some(error))]
            pipeline.with_start(request).work is Load ==> pipeline.with_start(
                request,
            ).pipeline.with_model(Some(error)) == (TurnView {
                pipeline,
                out: reject_out(request.session_id, error),
                work: WorkView::Idle,
            }),
{
}

/// Audio without a session is refused, frame by frame, and changes nothing.
pub proof fn law_audio_without_session(pipeline: PipelineView, frames: Seq<AudioFrameView>)
    requires
        pipeline.session is None,
        pipeline.stage is Idle,
    ensures
        pipeline.with_batch(frames) == (TurnView {
            pipeline: PipelineView { backlog: Seq::empty(), ..pipeline },
            out: Seq::new(frames.len(), |i: int| no_session()),
            work: WorkView::Idle,
        }),
    decreases frames.len(),
{
    if frames.len() == 0 {
        assert(frames =~= Seq::empty());
        assert(pipeline.with_batch(frames).out =~= Seq::new(frames.len(), |i: int| no_session()));
    } else {
        law_audio_without_session(pipeline, frames.skip(1));
        assert(pipeline.with_batch(frames).out =~= Seq::new(frames.len(), |i: int| no_session()));
    }
}

/// A batch is drained: the pipeline rests only once every frame of it has been looked
/// at, and waits for a signal only while a session is there.
pub proof fn law_drained(pipeline: PipelineView)
    requires
        pipeline.session matches Some(session) ==> session.wf(),
    ensures
        ({
            let turn = pipeline.advanced();
            &&& turn.work is Idle || turn.work is Measure
            &&& turn.work is Idle ==> turn.pipeline.backlog.len() == 0
                && turn.pipeline.stage is Idle
            &&& turn.work is Measure ==> turn.pipeline.session is Some
                && turn.pipeline.stage is Measuring
            &&& turn.pipeline.session is Some <==> pipeline.session is Some
            &&& turn.pipeline.wf()
        }),
    decreases pipeline.backlog.len(),
{
    if pipeline.backlog.len() > 0 {
        let rest = PipelineView { backlog: pipeline.backlog.skip(1), ..pipeline };
        match pipeline.session {
            None => law_drained(rest),
            Some(session) => law_drained(
                PipelineView {
                    session: Some(session.after_push(pipeline.backlog[0])),
                    ..rest
                },
            ),
        }
    }
}

/// Whether something that goes out is a subtitle that may still change.
pub open spec fn is_partial(outgoing: OutgoingView) -> bool {
    outgoing matches OutgoingView::Message(PayloadView::SubtitleEvent(event)) && event.kind
        == SubtitleKind::Partial.number()
}

/// How many subtitles that may still change go out.
pub open spec fn partials(out: Seq<OutgoingView>) -> nat
    decreases out.len(),
{
    if out.len() == 0 {
        0
    } else {
        partials(out.drop_last()) + if is_partial(out.last()) {
            1nat
        } else {
            0nat
        }
    }
}

proof fn lemma_partials_add(a: Seq<OutgoingView>, b: Seq<OutgoingView>)
    ensures
        partials(a + b) == partials(a) + partials(b),
    decreases b.len(),
{
    if b.len() == 0 {
        assert(a + b =~= a);
    } else {
        lemma_partials_add(a, b.drop_last());
        assert((a + b).drop_last() =~= a + b.drop_last());
    }
}

proof fn lemma_partials_one(outgoing: OutgoingView)
    ensures
        partials(seq![outgoing]) == if is_partial(outgoing) {
            1nat
        } else {
            0nat
        },
{
    assert(seq![outgoing].drop_last() =~= Seq::empty());
    assert(partials(seq![outgoing].drop_last()) == 0);
}

/// A frame with at most one recognition event gives at most one subtitle, and one that
/// may still change only for an event that may.
proof fn lemma_frame_partials(session: SessionView, events: Seq<EventView>)
    requires
        events.len() <= 1,
    ensures
        partials(frame_out(session.output(events))) <= if events.len() == 1
            && events[0] is Partial {
            1nat
        } else {
            0nat
        },
{
    let output = session.output(events);
    let captions = captions_out(output.subtitles);
    if events.len() == 1 {
        assert(events.drop_last() =~= Seq::empty());
        assert(session::all_shown(session.subtitles, events.drop_last()) == session.subtitles);
        assert(session::all_captions(session.subtitles, events.drop_last(), session.id)
            =~= Seq::empty());
        match session::caption(session.subtitles, events[0], session.id) {
            Some(event) => {
                let outgoing = OutgoingView::Message(PayloadView::SubtitleEvent(event));
                assert(captions =~= seq![outgoing]);
                lemma_partials_one(outgoing);
            },
            None => {
                assert(captions =~= Seq::empty());
            },
        }
    } else {
        assert(captions =~= Seq::empty());
    }
    match output.metrics {
        Some(metrics) => {
            lemma_partials_one(OutgoingView::Metrics(metrics));
            lemma_partials_add(captions, seq![OutgoingView::Metrics(metrics)]);
        },
        None => {
            assert(frame_out(output) =~= captions);
        },
    }
}

/// Going through a batch asks for signals only, shows nothing, takes frames from the
/// front of the queue and counts each.
proof fn lemma_advanced(pipeline: PipelineView)
    ensures
        ({
            let turn = pipeline.advanced();
            let left = turn.pipeline.backlog;
            &&& turn.work is Idle || turn.work is Measure
            &&& turn.work is Idle ==> left.len() == 0 && turn.pipeline.stage is Idle
            &&& turn.work is Measure ==> turn.pipeline.stage is Measuring
            &&& partials(turn.out) == 0
            &&& left.len() <= pipeline.backlog.len()
            &&& left == pipeline.backlog.skip(pipeline.backlog.len() - left.len())
            &&& pipeline.session matches Some(before) ==> {
                &&& turn.pipeline.session matches Some(after)
                &&& after.metrics.audio_frames == session::counted(
                    before.metrics.audio_frames,
                    (pipeline.backlog.len() - left.len()) as nat,
                )
            }
        }),
    decreases pipeline.backlog.len(),
{
    let turn = pipeline.advanced();
    if pipeline.backlog.len() == 0 {
        assert(turn.pipeline.backlog =~= pipeline.backlog.skip(0));
    } else {
        let frame = pipeline.backlog[0];
        let rest = PipelineView { backlog: pipeline.backlog.skip(1), ..pipeline };
        match pipeline.session {
            None => {
                lemma_advanced(rest);
                lemma_partials_one(no_session());
                lemma_partials_add(seq![no_session()], rest.advanced().out);
            },
            Some(session) => {
                let rest = PipelineView { session: Some(session.after_push(frame)), ..rest };
                lemma_advanced(rest);
                if let Err(error) = session.checked(frame) {
                    lemma_partials_one(error_out(error));
                    lemma_partials_add(seq![error_out(error)], rest.advanced().out);
                }
            },
        }
        let left = turn.pipeline.backlog;
        assert(left =~= pipeline.backlog.skip(pipeline.backlog.len() - left.len()));
    }
}

/// Stale inference is merged: as long as more frames of the batch are queued behind it, a
/// frame shows no text that may still change, and within an utterance never asks for a
/// decoding.
pub proof fn law_merged_inference(pipeline: PipelineView, signal: FrameSignalView)
    requires
        pipeline.wf(),
        pipeline.stage is Measuring,
        pipeline.backlog.len() > 0,
    ensures
        partials(pipeline.with_signal(signal).out) == 0,
        (pipeline.session->0).vad.after_all(signal.levels).active ==> !(pipeline.with_signal(
            signal,
        ).work is Decode),
{
    let session = pipeline.session->0;
    let sounded = session.sounded(signal, false);
    let events = session.sound_events(signal, false);
    lemma_frame_partials(sounded, events);
    let next = PipelineView { session: Some(sounded.frame_finished(events)), ..pipeline };
    lemma_advanced(next);
    lemma_partials_add(frame_out(sounded.output(events)), next.advanced().out);
}

/// What comes back of the work that a turn asks for.
pub enum WorkOutcome {
    Signal(FrameSignalView),
    Decoded(DecodedOutcome),
}

impl TurnView {
    /// The turn together with the next, once the outcome of its work is there.
    pub open spec fn resumed(self, outcome: WorkOutcome) -> TurnView {
        match (self.work, outcome) {
            (WorkView::Measure(_), WorkOutcome::Signal(signal)) => self.pipeline.with_signal(
                signal,
            ).behind(self.out),
            (WorkView::Decode, WorkOutcome::Decoded(decoded)) => self.pipeline.with_decoded(
                decoded,
            ).behind(self.out),
            _ => self,
        }
    }

    /// The turn together with all that follow, as far as outcomes are there.
    pub open spec fn all_resumed(self, outcomes: Seq<WorkOutcome>) -> TurnView
        decreases outcomes.len(),
    {
        if outcomes.len() == 0 {
            self
        } else {
            self.all_resumed(outcomes.drop_last()).resumed(outcomes.last())
        }
    }

    /// How far a batch has come: no text that may still change has gone out before its
    /// newest frame, and the frames that are left are the last of it, every other one
    /// having been counted.
    pub open spec fn in_batch(self, session: SessionView, frames: Seq<AudioFrameView>) -> bool {
        let left = self.pipeline.backlog;
        &&& match self.work {
            WorkView::Idle => self.pipeline.stage is Idle && left.len() == 0 && partials(self.out)
                <= 1,
            WorkView::Measure(_) => self.pipeline.stage is Measuring && partials(self.out) == 0,
            WorkView::Decode => {
                &&& self.pipeline.stage is Decoding
                &&& partials(self.out) == 0
                &&& left.len() > 0 ==> !self.decodes_partial()
            },
            WorkView::Load => false,
        }
        &&& left.len() <= frames.len()
        &&& left == frames.skip(frames.len() - left.len())
        &&& self.pipeline.session matches Some(now)
        &&& now.metrics.audio_frames == session::counted(
            session.metrics.audio_frames,
            (frames.len() - left.len()) as nat,
        )
    }

    /// Whether the decoding that is asked for is of a text that may still change.
    pub open spec fn decodes_partial(self) -> bool {
        self.pipeline.session matches Some(session) && session.recognizer
            matches RecognizerView::Whisper(whisper) && whisper.pending
            matches Some(Pending::Partial { .. })
    }
}

proof fn lemma_batch_signal(
    turn: TurnView,
    signal: FrameSignalView,
    session: SessionView,
    frames: Seq<AudioFrameView>,
)
    requires
        turn.in_batch(session, frames),
        turn.work is Measure,
    ensures
        turn.resumed(WorkOutcome::Signal(signal)).in_batch(session, frames),
{
    let pipeline = turn.pipeline;
    let now = pipeline.session->0;
    let infer_partial = pipeline.backlog.len() == 0;
    let sounded = now.sounded(signal, infer_partial);
    if sounded.recognizer.needs_model() {
        assert(turn.out + Seq::empty() =~= turn.out);
    } else {
        let events = now.sound_events(signal, infer_partial);
        let next = PipelineView { session: Some(sounded.frame_finished(events)), ..pipeline };
        lemma_frame_partials(sounded, events);
        lemma_batch_rest(turn, next, frame_out(sounded.output(events)), session, frames);
    }
}

/// The frame in work is through, and the batch goes on.
proof fn lemma_batch_rest(
    turn: TurnView,
    next: PipelineView,
    out: Seq<OutgoingView>,
    session: SessionView,
    frames: Seq<AudioFrameView>,
)
    requires
        turn.in_batch(session, frames),
        partials(turn.out) == 0,
        next.backlog == turn.pipeline.backlog,
        next.session is Some,
        (next.session->0).metrics.audio_frames == (
        turn.pipeline.session->0).metrics.audio_frames,
        partials(out) <= 1,
        next.backlog.len() > 0 ==> partials(out) == 0,
    ensures
        next.advanced().behind(out).behind(turn.out).in_batch(session, frames),
{
    lemma_advanced(next);
    lemma_partials_add(out, next.advanced().out);
    lemma_partials_add(turn.out, out + next.advanced().out);
    let left = next.advanced().pipeline.backlog;
    assert(left =~= frames.skip(frames.len() - left.len()));
}

proof fn lemma_batch_decoded(
    turn: TurnView,
    outcome: DecodedOutcome,
    session: SessionView,
    frames: Seq<AudioFrameView>,
)
    requires
        turn.in_batch(session, frames),
        turn.work is Decode,
    ensures
        turn.resumed(WorkOutcome::Decoded(outcome)).in_batch(session, frames),
{
    let pipeline = turn.pipeline;
    let now = pipeline.session->0;
    match outcome {
        DecodedOutcome::Segments(decoded) => {
            let events = now.recognizer.decoded_events(decoded);
            let finished = now.model_finished();
            let next = PipelineView { session: Some(finished.frame_finished(events)), ..pipeline };
            lemma_frame_partials(finished, events);
            lemma_batch_rest(turn, next, frame_out(finished.output(events)), session, frames);
        },
        DecodedOutcome::Failed(error) => {
            let next = PipelineView { session: Some(now.model_failed()), ..pipeline };
            lemma_partials_one(error_out(error));
            lemma_batch_rest(turn, next, seq![error_out(error)], session, frames);
        },
    }
}

/// A batch goes to the session frame by frame, in the order of the queue, and is drained
/// before the pipeline rests; and only its newest frame may show a text that may still
/// change: at most one such subtitle goes out for the whole batch, whatever the signals
/// are and whatever decodings come to.
pub proof fn law_batch(
    pipeline: PipelineView,
    session: SessionView,
    frames: Seq<AudioFrameView>,
    outcomes: Seq<WorkOutcome>,
)
    requires
        pipeline.wf(),
        pipeline.stage is Idle,
        pipeline.session == Some(session),
    ensures
        ({
            let turn = pipeline.with_batch(frames).all_resumed(outcomes);
            &&& turn.in_batch(session, frames)
            &&& partials(turn.out) <= 1
            &&& turn.pipeline.backlog.len() > 0 ==> partials(turn.out) == 0
        }),
    decreases outcomes.len(),
{
    if outcomes.len() == 0 {
        let start = PipelineView { backlog: frames, ..pipeline };
        lemma_advanced(start);
    } else {
        let before = outcomes.drop_last();
        law_batch(pipeline, session, frames, before);
        let turn = pipeline.with_batch(frames).all_resumed(before);
        match outcomes.last() {
            WorkOutcome::Signal(signal) => if turn.work is Measure {
                lemma_batch_signal(turn, signal, session, frames);
            },
            WorkOutcome::Decoded(outcome) => if turn.work is Decode {
                lemma_batch_decoded(turn, outcome, session, frames);
            },
        }
    }
}

/// Pausing reaches the session at once and touches nothing else, and resuming undoes it.
pub proof fn law_pause_resume(pipeline: PipelineView, session: SessionView)
    requires
        pipeline.stage is Idle,
        pipeline.session == Some(session),
        !session.paused,
    ensures
        pipeline.with_paused(true).pipeline.session == Some(
            SessionView { paused: true, ..session },
        ),
        pipeline.with_paused(true).pipeline.with_paused(false).pipeline == pipeline,
{
}

/// Audio that was heard before a stop is not lost by it: an utterance of the stand-in
/// recogniser that is still open is committed, before the stop is acknowledged, unless it
/// says nothing or repeats the last one.
pub proof fn law_stop_commits(pipeline: PipelineView, session: SessionView)
    requires
        pipeline.stage is Idle,
        pipeline.session == Some(session),
        session.recognizer is Mock,
        session.recognizer->Mock_0.speaking,
        session.subtitles.commits(session.recognizer->Mock_0.full_text()),
    ensures
        ({
            let mock = session.recognizer->Mock_0;
            let out = pipeline.with_command(CommandView::Stop).out;
            &&& out.len() == 1 + stopped_out().len()
            &&& out[0] matches OutgoingView::Message(PayloadView::SubtitleEvent(event))
            &&& event.kind == SubtitleKind::Committed.number()
            &&& event.text == subtitle::normalized(mock.full_text())
            &&& event.start_us == mock.segment_start_us
            &&& out.skip(1) == stopped_out()
        }),
{
    let events = session.recognizer.stopping_events();
    let stopping = session.stopping();
    assert(events.drop_last() =~= Seq::empty());
    assert(session::all_shown(stopping.subtitles, events.drop_last()) == stopping.subtitles);
    assert(session::all_captions(stopping.subtitles, events.drop_last(), stopping.id)
        =~= Seq::empty());
    let out = pipeline.with_command(CommandView::Stop).out;
    assert(out.skip(1) =~= stopped_out());
}

/// `out` is the acknowledgement of a stop: it worked, and the core is idle.
pub open spec fn acknowledges_stop(out: Seq<OutgoingView>) -> bool {
    &&& out.len() == 2
    &&& out[0] matches OutgoingView::Message(PayloadView::StopSessionResponse(response))
    &&& response.ok
    &&& response.error.len() == 0
    &&& out[1] matches OutgoingView::Status { status, .. }
    &&& status == CoreStatus::Idle
}

/// Whatever is stopped and whatever a decoding for it comes to, the last two things that
/// go out say that it worked and that the core is idle.
pub proof fn law_stop_acknowledged(pipeline: PipelineView, outcome: DecodedOutcome)
    requires
        pipeline.wf(),
        pipeline.stage is Idle,
    ensures
        ({
            let turn = pipeline.with_command(CommandView::Stop);
            let out = turn.out + if turn.work is Decode {
                turn.pipeline.with_decoded(outcome).out
            } else {
                Seq::empty()
            };
            &&& out.len() >= 2
            &&& acknowledges_stop(out.skip(out.len() - 2))
        }),
{
    law_stop(pipeline, outcome);
    let turn = pipeline.with_command(CommandView::Stop);
    let last = turn.pipeline.with_decoded(outcome).out;
    let out = turn.out + if turn.work is Decode {
        last
    } else {
        Seq::empty()
    };
    assert(out =~= if turn.work is Decode {
        last
    } else {
        turn.out
    });
}

/// Speech that is still buffered when a session stops is not lost: where the decoding that
/// the stop asks for finds a text that says something and does not repeat the last
/// committed one, exactly one subtitle goes out before the acknowledgement; it is settled,
/// and its text is the normalised transcript of the decoded segments. Otherwise only the
/// acknowledgement goes out.
pub proof fn law_stop_decoded(
    pipeline: PipelineView,
    session: SessionView,
    audio: WhisperView,
    decoded: Seq<DecodedView>,
)
    requires
        pipeline.stage is Idle,
        pipeline.session == Some(session),
        session.recognizer == RecognizerView::Whisper(audio),
        audio.audio.len() >= 8_000,
    ensures
        ({
            let asked = pipeline.with_command(CommandView::Stop);
            let out = asked.pipeline.with_decoded(DecodedOutcome::Segments(decoded)).out;
            let said = whisper::transcript(whisper::all_placed(decoded, audio.audio_start_us));
            &&& asked.work is Decode
            &&& asked.out.len() == 0
            &&& said.len() > 0 && session.subtitles.commits(said) ==> {
                &&& out.len() == 3
                &&& out[0] matches OutgoingView::Message(PayloadView::SubtitleEvent(event))
                &&& event.kind == SubtitleKind::Committed.number()
                &&& event.text == subtitle::normalized(said)
                &&& event.session_id == session.id
                &&& acknowledges_stop(out.skip(1))
            }
            &&& !(said.len() > 0 && session.subtitles.commits(said)) ==> acknowledges_stop(out)
        }),
{
    let asked = pipeline.with_command(CommandView::Stop);
    let stopping = session.stopping();
    let finished = stopping.model_finished();
    let said = whisper::transcript(whisper::all_placed(decoded, audio.audio_start_us));
    let events = stopping.recognizer.decoded_events(decoded);
    let out = asked.pipeline.with_decoded(DecodedOutcome::Segments(decoded)).out;
    let captions = finished.captions(events);
    if said.len() > 0 {
        assert(events =~= seq![events[0]]);
        session::law_caption(finished, events[0]);
        if session.subtitles.commits(said) {
            assert(captions_out(captions).len() == 1);
        } else {
            assert(captions_out(captions) =~= Seq::empty());
        }
    } else {
        assert(events =~= Seq::empty());
        assert(captions =~= Seq::empty());
        assert(captions_out(captions) =~= Seq::empty());
    }
    assert(out =~= captions_out(captions) + stopped_out());
    assert(out.skip(1) =~= if captions.len() == 1 {
        stopped_out()
    } else {
        stopped_out().skip(1)
    });
}

/// What a frame gives the client goes out: its subtitles, one by one and in order, and
/// behind them its metrics, before anything of the frames behind it.
pub proof fn law_frame_goes_out(
    pipeline: PipelineView,
    session: SessionView,
    signal: FrameSignalView,
)
    requires
        pipeline.stage is Measuring,
        pipeline.session == Some(session),
    ensures
        ({
            let infer_partial = pipeline.backlog.len() == 0;
            let sounded = session.sounded(signal, infer_partial);
            let output = sounded.output(session.sound_events(signal, infer_partial));
            let turn = pipeline.with_signal(signal);
            &&& sounded.recognizer.needs_model() <==> turn.work is Decode
            &&& sounded.recognizer.needs_model() ==> turn.out.len() == 0
                && turn.pipeline.session == Some(sounded)
            &&& !sounded.recognizer.needs_model() ==> {
                &&& turn.out.len() >= output.subtitles.len()
                &&& forall|i: int| #![trigger output.subtitles[i]]
                    0 <= i < output.subtitles.len() ==> turn.out[i] == OutgoingView::Message(
                        PayloadView::SubtitleEvent(output.subtitles[i]),
                    )
                &&& output.metrics matches Some(metrics) ==> turn.out.len()
                    > output.subtitles.len() && turn.out[output.subtitles.len() as int]
                    == OutgoingView::Metrics(metrics)
            }
        }),
{
    let infer_partial = pipeline.backlog.len() == 0;
    let sounded = session.sounded(signal, infer_partial);
    let events = session.sound_events(signal, infer_partial);
    let next = PipelineView { session: Some(sounded.frame_finished(events)), ..pipeline };
    lemma_advanced(next);
}

/// What is decoded for a frame goes out: where the text shows, one subtitle that may still
/// change for an utterance that goes on, and a settled one for an utterance that has ended,
/// each with the whole transcript. A decoding that fails is reported, and the session goes
/// on.
pub proof fn law_decoded_goes_out(
    pipeline: PipelineView,
    session: SessionView,
    audio: WhisperView,
    decoded: Seq<DecodedView>,
    error: ErrorView,
)
    requires
        pipeline.stage is Decoding,
        pipeline.session == Some(session),
        session.recognizer == RecognizerView::Whisper(audio),
        audio.pending is Some,
    ensures
        ({
            let said = whisper::transcript(whisper::all_placed(decoded, audio.audio_start_us));
            let out = pipeline.with_decoded(DecodedOutcome::Segments(decoded)).out;
            &&& audio.pending->0 is Final && said.len() > 0 && session.subtitles.commits(said) ==> {
                &&& out.len() > 0
                &&& out[0] matches OutgoingView::Message(PayloadView::SubtitleEvent(event))
                &&& event.kind == SubtitleKind::Committed.number()
                &&& event.text == subtitle::normalized(said)
                &&& event.end_us == (audio.pending->0)->Final_end_us
            }
            &&& audio.pending->0 is Partial && said.len() > 0 && session.subtitles.shows_partial(
                said,
                (audio.pending->0)->Partial_end_us,
            ) ==> {
                &&& out.len() > 0
                &&& out[0] matches OutgoingView::Message(PayloadView::SubtitleEvent(event))
                &&& event.kind == SubtitleKind::Partial.number()
                &&& event.text == subtitle::normalized(said)
                &&& event.end_us == (audio.pending->0)->Partial_end_us
            }
        }),
        ({
            let turn = pipeline.with_decoded(DecodedOutcome::Failed(error));
            &&& turn.out.len() > 0
            &&& turn.out[0] matches OutgoingView::Message(PayloadView::ErrorEvent(event))
            &&& event.message == error.text()
            &&& event.code == error.code().number()
            &&& !event.fatal
            &&& turn.pipeline.session is Some
        }),
{
    let finished = session.model_finished();
    let events = session.recognizer.decoded_events(decoded);
    let said = whisper::transcript(whisper::all_placed(decoded, audio.audio_start_us));
    if said.len() > 0 {
        assert(events =~= seq![events[0]]);
        session::law_caption(finished, events[0]);
    }
    lemma_advanced(PipelineView { session: Some(session.model_failed()), ..pipeline });
}

/// A session that can be started takes the place of any other: at once, or once its model
/// is loaded. The client is told its name, and that the core listens.
pub proof fn law_accepted_start(pipeline: PipelineView, request: StartSessionRequestView)
    requires
        pipeline.stage is Idle,
    ensures
        session::started(
            request,
            pipeline.sentences,
            pipeline.process_id,
            pipeline.whisper_built,
        ) matches Ok(session) ==> {
            let asked = pipeline.with_command(CommandView::Start(request));
            let turn = if session.recognizer is Whisper {
                asked.pipeline.with_model(None)
            } else {
                asked
            };
            &&& session.recognizer is Whisper ==> asked.work is Load && asked.out.len() == 0
                && asked.pipeline.session == pipeline.session
            &&& turn.work is Idle
            &&& turn.pipeline == (PipelineView { session: Some(session), ..pipeline })
            &&& turn.out.len() == 2
            &&& turn.out[0] matches OutgoingView::Message(
                PayloadView::StartSessionResponse(response),
            )
            &&& response.accepted
            &&& response.session_id == session.id
            &&& response.error.len() == 0
            &&& turn.out[1] matches OutgoingView::Status { status, .. }
            &&& status == CoreStatus::Listening
        },
{
}

/// A request that cannot be met is answered that it is not accepted, with the reason, and
/// the reason is reported as an error too.
pub proof fn law_rejection_told(requested_id: Seq<char>, error: ErrorView)
    ensures
        ({
            let out = reject_out(requested_id, error);
            &&& out.len() == 2
            &&& out[0] matches OutgoingView::Message(PayloadView::StartSessionResponse(response))
            &&& !response.accepted
            &&& response.session_id == requested_id
            &&& response.error == error.text()
            &&& out[1] matches OutgoingView::Message(PayloadView::ErrorEvent(event))
            &&& event.code == error.code().number()
            &&& event.message == error.text()
            &&& !event.fatal
        }),
{
}

/// Pausing and resuming are answered that it worked, with the status that then holds; where
/// there is no session, that there is none.
pub proof fn law_pause_told(pipeline: PipelineView, paused: bool)
    requires
        pipeline.stage is Idle,
    ensures
        ({
            let turn = pipeline.with_paused(paused);
            &&& turn.work is Idle
            &&& pipeline.session is Some ==> {
                &&& turn.out.len() == 2
                &&& turn.out[0] matches OutgoingView::Message(
                    PayloadView::SetPausedResponse(response),
                )
                &&& response.ok
                &&& turn.out[1] matches OutgoingView::Status { status, .. }
                &&& paused <==> status == CoreStatus::Paused
                &&& !paused <==> status == CoreStatus::Listening
                &&& (turn.pipeline.session->0).paused == paused
            }
            &&& pipeline.session is None ==> {
                &&& turn.out.len() == 1
                &&& turn.out[0] matches OutgoingView::Message(PayloadView::ErrorEvent(event))
                &&& event.code == ErrorCode::InvalidSession.number()
                &&& turn.pipeline == pipeline
            }
        }),
{
}

/// A refused frame is reported with its reason, and the frames behind it are looked at as
/// if it had not been there, but for the counters.
pub proof fn law_refused_frame(pipeline: PipelineView, session: SessionView, error: ErrorView)
    requires
        pipeline.session == Some(session),
        pipeline.backlog.len() > 0,
        !session.paused,
        session.checked(pipeline.backlog[0]) == Err::<FramePlanView, ErrorView>(error),
    ensures
        ({
            let rest = PipelineView {
                session: Some(session.after_push(pipeline.backlog[0])),
                backlog: pipeline.backlog.skip(1),
                ..pipeline
            };
            let turn = pipeline.advanced();
            &&& turn.out.len() > 0
            &&& turn.out[0] matches OutgoingView::Message(PayloadView::ErrorEvent(event))
            &&& event.code == error.code().number()
            &&& event.message == error.text()
            &&& turn.out.skip(1) == rest.advanced().out
            &&& turn.work == rest.advanced().work
            &&& turn.pipeline == rest.advanced().pipeline
        }),
{
    let rest = PipelineView {
        session: Some(session.after_push(pipeline.backlog[0])),
        backlog: pipeline.backlog.skip(1),
        ..pipeline
    };
    assert(pipeline.advanced().out.skip(1) =~= rest.advanced().out);
}

/// The first frame of a batch that is worth it is handed over to be measured, with its own
/// samples, and the frames behind it wait.
pub proof fn law_measured_frame(pipeline: PipelineView, session: SessionView, plan: FramePlanView)
    requires
        pipeline.session == Some(session),
        pipeline.backlog.len() > 0,
        !session.paused,
        session.checked(pipeline.backlog[0]) == Ok::<FramePlanView, ErrorView>(plan),
    ensures
        ({
            let turn = pipeline.advanced();
            &&& turn.work == WorkView::Measure(plan)
            &&& turn.out.len() == 0
            &&& turn.pipeline.backlog == pipeline.backlog.skip(1)
            &&& turn.pipeline.session == Some(session.after_push(pipeline.backlog[0]))
        }),
{
}

/// What goes out reaches the client as it is: messages unchanged, a status with its detail
/// and the time, and every counter of the metrics.
pub proof fn law_completed(outgoing: OutgoingView, now_us: u64, audio_ms: u64, ratio: Float64)
    ensures
        match (outgoing, completed(outgoing, now_us, audio_ms, ratio)) {
            (OutgoingView::Message(payload), sent) => sent == payload,
            (OutgoingView::Status { status, detail }, PayloadView::StatusEvent(event)) => {
                &&& event.status == status.number()
                &&& event.detail == detail
                &&& event.timestamp_us == now_us
            },
            (OutgoingView::Metrics(metrics), PayloadView::MetricsEvent(event)) => {
                &&& event.audio_frames == metrics.audio_frames
                &&& event.audio_bytes == metrics.audio_bytes
                &&& event.dropped_frames == metrics.dropped_frames
                &&& event.subtitle_events == metrics.subtitle_events
                &&& event.audio_ms == audio_ms
                &&& metrics.total_frames > 0 ==> event.speech_ratio == ratio
                &&& metrics.total_frames == 0 ==> event.speech_ratio.bits == 0
            },
            _ => false,
        },
{
}

/// While a session is paused a batch gives nothing: its frames are counted and gone.
pub proof fn law_paused_batch(pipeline: PipelineView, session: SessionView)
    requires
        pipeline.session == Some(session),
        session.paused,
    ensures
        ({
            let turn = pipeline.advanced();
            &&& turn.out.len() == 0
            &&& turn.work is Idle
            &&& turn.pipeline.backlog.len() == 0
            &&& turn.pipeline.session matches Some(after)
            &&& after.paused
            &&& after.vad == session.vad
            &&& after.recognizer == session.recognizer
            &&& after.subtitles == session.subtitles
            &&& after.metrics.dropped_frames == session.metrics.dropped_frames
            &&& after.metrics.audio_frames == session::counted(
                session.metrics.audio_frames,
                pipeline.backlog.len(),
            )
        }),
    decreases pipeline.backlog.len(),
{
    if pipeline.backlog.len() > 0 {
        let next = session.after_push(pipeline.backlog[0]);
        session::law_paused(session, pipeline.backlog[0]);
        law_paused_batch(
            PipelineView {
                session: Some(next),
                backlog: pipeline.backlog.skip(1),
                ..pipeline
            },
            next,
        );
    }
}

/// The last frame of a batch gives its own subtitles and metrics and nothing else, whether
/// a model was asked or not; then the pipeline rests, with the session that the frame left.
pub proof fn law_last_frame(
    pipeline: PipelineView,
    session: SessionView,
    signal: FrameSignalView,
    decoded: Seq<DecodedView>,
)
    requires
        pipeline.stage is Measuring || pipeline.stage is Decoding,
        pipeline.session == Some(session),
        pipeline.backlog.len() == 0,
    ensures
        ({
            let sounded = session.sounded(signal, true);
            let events = session.sound_events(signal, true);
            let turn = pipeline.with_signal(signal);
            let output = sounded.output(events);
            !sounded.recognizer.needs_model() ==> {
                &&& turn.work is Idle
                &&& turn.pipeline.session == Some(sounded.frame_finished(events))
                &&& turn.out.len() == output.subtitles.len() + if output.metrics is Some {
                    1int
                } else {
                    0int
                }
            }
        }),
        ({
            let finished = session.model_finished();
            let events = session.recognizer.decoded_events(decoded);
            let turn = pipeline.with_decoded(DecodedOutcome::Segments(decoded));
            let output = finished.output(events);
            &&& turn.work is Idle
            &&& turn.pipeline.session == Some(finished.frame_finished(events))
            &&& turn.out.len() == output.subtitles.len() + if output.metrics is Some {
                1int
            } else {
                0int
            }
            &&& forall|i: int| #![trigger output.subtitles[i]]
                0 <= i < output.subtitles.len() ==> turn.out[i] == OutgoingView::Message(
                    PayloadView::SubtitleEvent(output.subtitles[i]),
                )
            &&& output.metrics matches Some(metrics) ==> turn.out.last() == OutgoingView::Metrics(
                metrics,
            )
        }),
{
}

/// Where there is no session, that is said as an error that leaves the connection open.
pub proof fn law_no_session()
    ensures
        no_session() matches OutgoingView::Message(PayloadView::ErrorEvent(event)) && event.code
            == ErrorCode::InvalidSession.number() && !event.fatal && event.message.len() > 0,
{
    reveal_strlit("no active session");
}

} // verus!
