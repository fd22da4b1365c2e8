//! Routing, the pipeline and the writer.

use translator_core::asr::whisper::DecodedSegment;
use translator_core::error::{CoreError, IoFailure, IoKind};
use translator_core::ipc;
use translator_core::ipc::transport::Endpoint;
use translator_core::ipc::{
    connection_result, ending, error_event, next_step, payload_name, status_event, Command, Ending,
    Next, Outgoing, Pipeline, Reader, Route, ServeOptions, Turn, Work, Writer,
};
use translator_core::protocol::framing::{decode_frame, encode_frame};
use translator_core::protocol::{
    AsrConfig, AudioFormat, AudioFrame, CoreStatus, Envelope, ErrorCode, ErrorEvent, Float64,
    HandshakeRequest, HandshakeResponse, HeartbeatRequest, HeartbeatResponse, MetricsEvent,
    Payload, SampleFormat, SetPausedRequest, SetPausedResponse, StartSessionRequest,
    StartSessionResponse, StatusEvent, StopSessionRequest, StopSessionResponse, SubtitleEvent,
    SubtitleKind, PROTOCOL_VERSION,
};
use translator_core::session::{FramePlan, FrameSignal, Metrics};
use translator_core::vad::{FrameLevel, Framer, VadConfig};
use translator_core::VERSION;

fn start_request() -> StartSessionRequest {
    StartSessionRequest {
        session_id: "test-session".into(),
        input_format: Some(AudioFormat {
            sample_rate: 16_000,
            channels: 1,
            format: SampleFormat::F32.value(),
        }),
        target_sample_rate: 0,
        asr: Some(AsrConfig {
            provider: "mock".into(),
            model: String::new(),
            language: String::new(),
            engine: String::new(),
            model_directory: String::new(),
        }),
        translation: None,
        subtitle: None,
    }
}

/// One second of 16 kHz mono audio, loud (a 440 Hz tone) or silent.
fn audio_frame(loud: bool) -> AudioFrame {
    let samples: Vec<f32> = (0..16_000)
        .map(|i| {
            if loud {
                0.5 * (2.0 * std::f32::consts::PI * 440.0 * i as f32 / 16_000.0).sin()
            } else {
                0.0
            }
        })
        .collect();
    let mut pcm = Vec::with_capacity(samples.len() * 4);
    for s in samples {
        pcm.extend_from_slice(&s.to_le_bytes());
    }
    AudioFrame {
        session_id: "test-session".into(),
        timestamp_us: 0,
        format: Some(AudioFormat {
            sample_rate: 16_000,
            channels: 1,
            format: SampleFormat::F32.value(),
        }),
        frames: 16_000,
        pcm,
    }
}

/// Signal processing of 16 kHz mono audio.
struct FrontEnd {
    framer: Framer,
    sum_sq: f32,
    noise_db: f32,
    audio_us: u64,
}

impl FrontEnd {
    fn new() -> FrontEnd {
        FrontEnd {
            framer: Framer::new(&VadConfig::new(16_000)),
            sum_sq: 0.0,
            noise_db: -70.0,
            audio_us: 0,
        }
    }

    fn measure(&mut self, plan: &FramePlan) -> FrameSignal {
        let start_us = self.audio_us;
        self.audio_us += plan.frames as u64 * 1_000_000 / plan.rate as u64;
        let mut levels = Vec::new();
        for (i, bits) in plan.samples.iter().enumerate() {
            let sample = f32::from_bits(*bits);
            self.sum_sq += sample * sample;
            if !self.framer.step() {
                continue;
            }
            let rms = (self.sum_sq / self.framer.frame_samples() as f32).sqrt();
            let db = 20.0 * (rms as f64 + 1e-9).log10() as f32;
            let loud = db > -55.0 && db > self.noise_db + 10.0;
            if !loud {
                self.noise_db += 0.05 * (db - self.noise_db);
                self.noise_db = self.noise_db.clamp(-90.0, -10.0);
            }
            levels.push(FrameLevel {
                loud,
                end_us: start_us + (i as u64 + 1) * 1_000_000 / 16_000,
            });
            self.sum_sq = 0.0;
        }
        FrameSignal { work: plan.samples.clone(), levels, end_us: self.audio_us }
    }

    /// Do the work of a turn until the pipeline rests; everything that goes out.
    fn finish(&mut self, pipeline: &mut Pipeline, turn: Turn) -> Vec<Outgoing> {
        let mut out = turn.out;
        let mut work = turn.work;
        loop {
            let next = match work {
                Work::Idle => return out,
                Work::Measure(plan) => pipeline.measured(&self.measure(&plan)),
                Work::Decode | Work::Load => panic!("the mock needs no model"),
            };
            out.extend(next.out);
            work = next.work;
        }
    }
}

fn pipeline() -> Pipeline {
    Pipeline::new(vec![], 1, true)
}

fn subtitles(out: &[Outgoing], wanted: SubtitleKind) -> usize {
    out.iter()
        .filter(|o| {
            matches!(o, Outgoing::Message(Payload::SubtitleEvent(SubtitleEvent { kind, .. }))
                if *kind == wanted.value())
        })
        .count()
}

fn committed(out: &[Outgoing]) -> usize {
    subtitles(out, SubtitleKind::Committed)
}

fn partial(out: &[Outgoing]) -> usize {
    subtitles(out, SubtitleKind::Partial)
}

#[test]
fn a_batch_gives_one_partial_of_its_newest_frame() {
    let mut front = FrontEnd::new();
    let mut pipeline = pipeline();
    pipeline.control(Command::Start(start_request()));
    // An utterance is open from here on.
    let turn = pipeline.audio_batch(vec![audio_frame(true)]);
    assert_eq!(partial(&front.finish(&mut pipeline, turn)), 0);
    for count in 2..5usize {
        let turn = pipeline.audio_batch((0..count).map(|_| audio_frame(true)).collect());
        let out = front.finish(&mut pipeline, turn);
        assert_eq!(partial(&out), 1);
        match &out[..] {
            [Outgoing::Message(Payload::SubtitleEvent(event))] => {
                assert_eq!(event.end_us, front.audio_us)
            }
            _ => panic!("one subtitle expected"),
        }
    }
}

#[test]
fn audio_batch_drains_queue_and_merges_partials() {
    let mut front = FrontEnd::new();
    let mut pipeline = pipeline();
    let turn = pipeline.control(Command::Start(start_request()));
    let mut out = front.finish(&mut pipeline, turn);
    assert!(pipeline.session().is_some());

    // Queue 10 loud seconds in 1 s frames: plenty to cross the partial
    // decode cadence several times, all merged into one pass.
    let queue: Vec<AudioFrame> = (0..10).map(|_| audio_frame(true)).collect();
    let turn = pipeline.audio_batch(queue);
    out.extend(front.finish(&mut pipeline, turn));
    let again = pipeline.audio_batch(vec![]);
    assert_eq!(again, Turn { out: vec![], work: Work::Idle }, "batch must drain the queue");

    let metrics = pipeline.session().unwrap().snapshot_metrics();
    assert_eq!(metrics.audio_frames, 10);

    // The whole batch gives one partial text.
    assert_eq!(partial(&out), 1);

    // A silent batch closes the VAD gate and commits an utterance.
    let turn = pipeline.audio_batch(vec![audio_frame(false)]);
    out.extend(front.finish(&mut pipeline, turn));

    assert_eq!(committed(&out), 1, "one utterance should have been committed");
}

#[test]
fn pipeline_preserves_stop_after_backlogged_audio() {
    let mut front = FrontEnd::new();
    let mut pipeline = pipeline();
    let turn = pipeline.control(Command::Start(start_request()));
    front.finish(&mut pipeline, turn);

    // Audio queued while a Stop arrives must still be flushed by the stop.
    let queue: Vec<AudioFrame> = (0..5).map(|_| audio_frame(true)).collect();
    let turn = pipeline.audio_batch(queue);
    let mut out = front.finish(&mut pipeline, turn);
    let turn = pipeline.control(Command::Stop);
    out.extend(front.finish(&mut pipeline, turn));

    let saw_committed = committed(&out) > 0;
    let saw_stop_ok = out.iter().any(|o| {
        matches!(o, Outgoing::Message(Payload::StopSessionResponse(r)) if r.ok)
    });
    assert!(saw_committed, "flush must commit the buffered utterance");
    assert!(saw_stop_ok, "stop must be acknowledged");
    assert!(pipeline.session().is_none());
}

fn no_session() -> Outgoing {
    Outgoing::Message(Payload::ErrorEvent(ErrorEvent {
        code: ErrorCode::InvalidSession.value(),
        message: "no active session".into(),
        fatal: false,
    }))
}

fn status(status: CoreStatus, detail: &str) -> Outgoing {
    Outgoing::Status { status, detail: detail.to_string() }
}

#[test]
fn without_a_session_there_is_nothing_to_do() {
    let mut pipeline = pipeline();
    let turn = pipeline.audio_batch(vec![audio_frame(true), audio_frame(false)]);
    assert_eq!(turn, Turn { out: vec![no_session(), no_session()], work: Work::Idle });
    let turn = pipeline.control(Command::SetPaused(SetPausedRequest { paused: true }));
    assert_eq!(turn, Turn { out: vec![no_session()], work: Work::Idle });
    let turn = pipeline.control(Command::Stop);
    assert_eq!(
        turn.out,
        vec![
            Outgoing::Message(Payload::StopSessionResponse(StopSessionResponse {
                ok: true,
                error: String::new(),
            })),
            status(CoreStatus::Idle, "session stopped"),
        ]
    );
}

#[test]
fn sessions_start_pause_and_resume() {
    let mut pipeline = pipeline();
    let turn = pipeline.control(Command::Start(start_request()));
    assert_eq!(
        turn.out,
        vec![
            Outgoing::Message(Payload::StartSessionResponse(StartSessionResponse {
                accepted: true,
                session_id: "test-session".into(),
                error: String::new(),
            })),
            status(CoreStatus::Listening, "session started"),
        ]
    );
    for paused in [true, false] {
        let turn = pipeline.control(Command::SetPaused(SetPausedRequest { paused }));
        assert_eq!(
            turn.out,
            vec![
                Outgoing::Message(Payload::SetPausedResponse(SetPausedResponse {
                    ok: true,
                    error: String::new(),
                })),
                status(
                    if paused { CoreStatus::Paused } else { CoreStatus::Listening },
                    "pause state updated"
                ),
            ]
        );
        assert_eq!(pipeline.session().unwrap().is_paused(), paused);
        if paused {
            let turn = pipeline.audio_batch(vec![audio_frame(true)]);
            assert_eq!(turn, Turn { out: vec![], work: Work::Idle });
        }
    }
}

#[test]
fn a_rejected_start_keeps_the_running_session() {
    let mut pipeline = pipeline();
    pipeline.control(Command::Start(start_request()));
    let bad = StartSessionRequest {
        session_id: "other".into(),
        target_sample_rate: 1,
        ..start_request()
    };
    let turn = pipeline.control(Command::Start(bad));
    let text = "invalid audio format: target sample rate 1 is out of range";
    assert_eq!(
        turn.out,
        vec![
            Outgoing::Message(Payload::StartSessionResponse(StartSessionResponse {
                accepted: false,
                session_id: "other".into(),
                error: text.into(),
            })),
            Outgoing::Message(Payload::ErrorEvent(ErrorEvent {
                code: ErrorCode::AudioFormat.value(),
                message: text.into(),
                fatal: false,
            })),
        ]
    );
    assert_eq!(pipeline.session().unwrap().id(), "test-session");
}

#[test]
fn bad_frames_do_not_stop_a_batch() {
    let mut front = FrontEnd::new();
    let mut pipeline = pipeline();
    pipeline.control(Command::Start(start_request()));
    let bad = AudioFrame { frames: 1, ..audio_frame(true) };
    let turn = pipeline.audio_batch(vec![bad, audio_frame(true)]);
    let out = front.finish(&mut pipeline, turn);
    assert_eq!(out.len(), 1);
    assert_eq!(
        out[0],
        Outgoing::Message(Payload::ErrorEvent(ErrorEvent {
            code: ErrorCode::AudioFormat.value(),
            message: "invalid audio format: frame declares 1 frames x 1 ch x 4 B = 4 bytes \
                      but carries 64000 bytes"
                .into(),
            fatal: false,
        }))
    );
    let metrics = pipeline.session().unwrap().snapshot_metrics();
    assert_eq!((metrics.audio_frames, metrics.dropped_frames), (2, 1));
}

fn whisper_request() -> StartSessionRequest {
    StartSessionRequest {
        asr: Some(AsrConfig {
            provider: "whisper".into(),
            model: "tiny".into(),
            language: String::new(),
            engine: String::new(),
            model_directory: String::new(),
        }),
        ..start_request()
    }
}

fn loud_signal(seconds: u64) -> FrameSignal {
    FrameSignal {
        work: vec![0; 16_000],
        levels: vec![FrameLevel { loud: true, end_us: seconds * 1_000_000 }; 100],
        end_us: seconds * 1_000_000,
    }
}

#[test]
fn models_are_loaded_before_a_session_runs() {
    let mut pipeline = pipeline();
    let turn = pipeline.control(Command::Start(whisper_request()));
    assert_eq!(turn, Turn { out: vec![], work: Work::Load });
    assert!(pipeline.session().is_none());
    let model = pipeline.session_in_work().unwrap().model_input().unwrap().options();
    assert_eq!(model.model, "tiny");
    let turn = pipeline.loaded(Err(CoreError::Model("gone".into())));
    assert_eq!(turn.out.len(), 2);
    assert!(pipeline.session().is_none());
    pipeline.control(Command::Start(whisper_request()));
    let turn = pipeline.loaded(Ok(()));
    assert_eq!(turn.out[1], status(CoreStatus::Listening, "session started"));
    assert_eq!(pipeline.session().unwrap().id(), "test-session");
}

#[test]
fn only_the_newest_frame_of_a_batch_is_decoded() {
    let mut pipeline = pipeline();
    pipeline.control(Command::Start(whisper_request()));
    pipeline.loaded(Ok(()));
    let mut turn = pipeline.audio_batch((0..4).map(|_| audio_frame(true)).collect());
    for second in 1..=4 {
        assert!(matches!(turn.work, Work::Measure(_)));
        turn = pipeline.measured(&loud_signal(second));
    }
    assert_eq!(turn, Turn { out: vec![], work: Work::Decode });
    assert_eq!(pipeline.session_in_work().unwrap().model_input().unwrap().audio().len(), 64_000);
    let segments = vec![DecodedSegment { text: "so far".into(), t0: 0, t1: 1 }];
    let turn = pipeline.decoded(Ok(segments));
    assert_eq!(turn.work, Work::Idle);
    assert!(matches!(&turn.out[..],
        [Outgoing::Message(Payload::SubtitleEvent(e))] if e.text == "so far"));
    // A decoding that fails is reported, and the session goes on.
    pipeline.audio_batch(vec![audio_frame(true)]);
    let turn = pipeline.measured(&loud_signal(9));
    assert_eq!(turn.work, Work::Decode);
    let turn = pipeline.decoded(Err(CoreError::Provider("whisper inference failed".into())));
    assert_eq!(
        turn.out,
        vec![Outgoing::Message(Payload::ErrorEvent(ErrorEvent {
            code: ErrorCode::ProviderFailure.value(),
            message: "provider failure: whisper inference failed".into(),
            fatal: false,
        }))]
    );
    assert!(pipeline.session().is_some());
    // Stopping decodes what is left; a failure is not the client's concern.
    let turn = pipeline.control(Command::Stop);
    assert_eq!(turn, Turn { out: vec![], work: Work::Decode });
    assert!(pipeline.session().is_none());
    let turn = pipeline.decoded(Err(CoreError::Provider("x".into())));
    assert_eq!(turn.out.len(), 2);
    assert_eq!(turn.out[1], status(CoreStatus::Idle, "session stopped"));
}

fn handshake(version: u32) -> Envelope {
    ipc::env(Payload::HandshakeRequest(HandshakeRequest {
        protocol_version: version,
        client_id: "c".into(),
        client_version: "1".into(),
        features: vec![],
    }))
}

fn refusal(message: &str) -> Route {
    Route::Reply(error_event(ErrorCode::BadRequest, message, false))
}

fn answer(accepted: bool, features: &[&str], error: &str) -> Route {
    Route::Reply(ipc::env(Payload::HandshakeResponse(HandshakeResponse {
        accepted,
        server_version: VERSION.into(),
        negotiated_protocol_version: PROTOCOL_VERSION,
        features: features.iter().map(|f| f.to_string()).collect(),
        error: error.into(),
    })))
}

fn requests() -> Vec<Envelope> {
    vec![
        ipc::env(Payload::AudioFrame(audio_frame(false))),
        ipc::env(Payload::StartSessionRequest(start_request())),
        ipc::env(Payload::SetPausedRequest(SetPausedRequest { paused: true })),
        ipc::env(Payload::StopSessionRequest(StopSessionRequest { session_id: "x".into() })),
    ]
}

#[test]
fn nothing_gets_through_before_the_handshake() {
    let mut reader = Reader::new(None);
    for request in requests() {
        assert_eq!(reader.route(request), refusal("handshake required"));
    }
    assert_eq!(
        reader.route(handshake(2)),
        answer(false, &[], "client speaks protocol v2, core speaks v1")
    );
    for request in requests() {
        assert_eq!(reader.route(request), refusal("handshake required"));
    }
    assert_eq!(
        reader.route(handshake(1)),
        answer(
            true,
            &[
                "audio.pcm",
                "asr.mock",
                "translation.none",
                "translation.mock",
                "translation.apple-translate",
            ],
            ""
        )
    );
    let routes: Vec<Route> = requests().into_iter().map(|r| reader.route(r)).collect();
    assert_eq!(
        routes,
        vec![
            Route::Audio(audio_frame(false)),
            Route::Control(Command::Start(start_request())),
            Route::Control(Command::SetPaused(SetPausedRequest { paused: true })),
            Route::Control(Command::Stop),
        ]
    );
}

#[test]
fn an_engine_is_advertised() {
    let mut reader = Reader::new(Some("cuda".into()));
    assert_eq!(
        reader.route(handshake(1)),
        answer(
            true,
            &[
                "audio.pcm",
                "asr.mock",
                "asr.whisper",
                "translation.none",
                "translation.mock",
                "translation.apple-translate",
                "asr.whisper.engine.cuda",
            ],
            ""
        )
    );
}

#[test]
fn heartbeats_are_answered_at_once() {
    let mut reader = Reader::new(None);
    assert_eq!(
        reader.route(ipc::env(Payload::HeartbeatRequest(HeartbeatRequest { timestamp_us: 99 }))),
        Route::Reply(ipc::env(Payload::HeartbeatResponse(HeartbeatResponse { timestamp_us: 99 })))
    );
}

#[test]
fn messages_of_the_core_are_not_expected() {
    let mut reader = Reader::new(None);
    assert_eq!(reader.route(Envelope { seq: 1, payload: None }), refusal("empty envelope"));
    let own = Payload::MetricsEvent(MetricsEvent {
        audio_frames: 0,
        audio_bytes: 0,
        audio_ms: 0,
        dropped_frames: 0,
        speech_ratio: Float64 { bits: 0 },
        subtitle_events: 0,
    });
    assert_eq!(payload_name(&own), "MetricsEvent");
    assert_eq!(
        reader.route(ipc::env(own)),
        refusal("unexpected message from client: MetricsEvent")
    );
}

#[test]
fn the_writer_numbers_what_goes_out() {
    let mut writer = Writer::new();
    for seq in 1..=3 {
        let bytes = writer.frame(error_event(ErrorCode::Internal, "x", true));
        let sent = decode_frame(&bytes).unwrap();
        assert_eq!(sent.seq, seq);
        assert_eq!(
            sent.payload,
            Some(Payload::ErrorEvent(ErrorEvent { code: 1, message: "x".into(), fatal: true }))
        );
    }
}

#[test]
fn what_goes_out_is_completed() {
    let ratio = Float64 { bits: 0.25f64.to_bits() };
    assert_eq!(
        status(CoreStatus::Idle, "d").envelope(5, 6, ratio),
        status_event(CoreStatus::Idle, "d", 5)
    );
    assert_eq!(
        status_event(CoreStatus::Idle, "d", 5),
        ipc::env(Payload::StatusEvent(StatusEvent { status: 1, detail: "d".into(), timestamp_us: 5 }))
    );
    let metrics = Metrics {
        audio_frames: 1,
        audio_bytes: 2,
        dropped_frames: 3,
        speech_frames: 1,
        total_frames: 4,
        subtitle_events: 5,
    };
    assert_eq!(
        Outgoing::Metrics(metrics).envelope(5, 6, ratio),
        ipc::env(Payload::MetricsEvent(metrics.event(6, ratio)))
    );
    assert_eq!(no_session().envelope(5, 6, ratio), error_event(
        ErrorCode::InvalidSession, "no active session", false
    ));
}

fn io(kind: IoKind, os_code: Option<i32>) -> CoreError {
    CoreError::Io(IoFailure { kind, os_code, message: "m".into() })
}

#[test]
fn a_client_that_is_gone_is_no_failure() {
    assert_eq!(ending(&Ok(())), Ending::Closed);
    for kind in [
        IoKind::BrokenPipe,
        IoKind::UnexpectedEof,
        IoKind::ConnectionReset,
        IoKind::ConnectionAborted,
    ] {
        assert_eq!(ending(&Err(io(kind, None))), Ending::Abrupt);
    }
    assert_eq!(ending(&Err(io(IoKind::Other, Some(232)))), Ending::Abrupt);
    assert_eq!(ending(&Err(io(IoKind::Other, Some(5)))), Ending::Failed);
    assert_eq!(ending(&Err(io(IoKind::InvalidData, None))), Ending::Failed);
    assert_eq!(ending(&Err(CoreError::Internal("x".into()))), Ending::Failed);
}

#[test]
fn the_failure_of_the_reader_comes_first() {
    let failed = |text: &str| Err(CoreError::Internal(text.to_string()));
    assert_eq!(connection_result(Ok(()), Ok(()), Ok(())), Ok(()));
    assert_eq!(connection_result(failed("r"), failed("p"), failed("w")), failed("r"));
    assert_eq!(connection_result(Ok(()), failed("p"), failed("w")), failed("p"));
    assert_eq!(connection_result(Ok(()), Ok(()), failed("w")), failed("w"));
}

#[test]
fn endpoints_are_chosen() {
    let some = |s: &str| Some(s.to_string());
    assert_eq!(Endpoint::select(some("p"), some("s"), true), Ok(Endpoint::Pipe("p".into())));
    assert_eq!(Endpoint::select(None, some("s"), false), Ok(Endpoint::UnixSocket("s".into())));
    assert_eq!(Endpoint::select(None, None, true), Ok(Endpoint::default_for_platform(true)));
    assert_eq!(
        Endpoint::default_for_platform(false).describe(),
        "/tmp/translator-core-v1.sock"
    );
    assert_eq!(
        Endpoint::default_for_platform(true).describe(),
        "\\\\.\\pipe\\translator-core-v1"
    );
    assert_eq!(
        Endpoint::select(None, some("s"), true),
        Err("--socket is not supported on Windows; use --pipe instead")
    );
    assert_eq!(
        Endpoint::select(some("p"), None, false),
        Err("--pipe is not supported on this platform; use --socket instead")
    );
}

#[test]
fn serving_is_configured() {
    let options = ServeOptions { exit_on_disconnect: true, mock_sentences: vec!["a".into()] };
    for ending in [Ending::Closed, Ending::Abrupt, Ending::Failed] {
        assert_eq!(next_step(&options, ending), Next::Exit);
    }
    let lasting = ServeOptions { exit_on_disconnect: false, mock_sentences: vec![] };
    assert_eq!(next_step(&lasting, Ending::Closed), Next::Accept);
    let mut pipeline = Pipeline::new(options.mock_sentences, 7, false);
    let unnamed = StartSessionRequest { session_id: String::new(), ..start_request() };
    pipeline.control(Command::Start(unnamed));
    assert_eq!(pipeline.session().unwrap().id(), "session-7");
}

#[test]
fn a_conversation_from_handshake_to_stop() {
    // Three utterances of 1.2 s with 0.8 s of silence behind each, in frames of 20 ms.
    let mut messages = vec![handshake(1), ipc::env(Payload::StartSessionRequest(start_request()))];
    let mut phase = 0usize;
    for _ in 0..3 {
        for (chunks, amplitude) in [(60, 0.3f32), (40, 0.00001)] {
            for _ in 0..chunks {
                let mut pcm = Vec::new();
                for _ in 0..320 {
                    let t = phase as f64 / 16_000.0;
                    let value = amplitude * (2.0 * std::f64::consts::PI * 440.0 * t).sin() as f32;
                    pcm.extend_from_slice(&value.to_le_bytes());
                    phase += 1;
                }
                messages.push(ipc::env(Payload::AudioFrame(AudioFrame {
                    frames: 320,
                    pcm,
                    ..audio_frame(false)
                })));
            }
        }
    }
    messages.push(ipc::env(Payload::StopSessionRequest(StopSessionRequest {
        session_id: "test-session".into(),
    })));

    let mut front = FrontEnd::new();
    let mut reader = Reader::new(None);
    let mut pipeline = pipeline();
    let mut writer = Writer::new();
    let mut received: Vec<Envelope> = Vec::new();
    for message in messages {
        let arrived = decode_frame(&encode_frame(&message)).unwrap();
        let out: Vec<Envelope> = match reader.route(arrived) {
            Route::Reply(envelope) => vec![envelope],
            Route::Audio(frame) => {
                let turn = pipeline.audio_batch(vec![frame]);
                complete(front.finish(&mut pipeline, turn))
            }
            Route::Control(command) => {
                let turn = pipeline.control(command);
                complete(front.finish(&mut pipeline, turn))
            }
        };
        for envelope in out {
            received.push(decode_frame(&writer.frame(envelope)).unwrap());
        }
    }

    let mut partials = 0;
    let mut committed = Vec::new();
    let mut metrics = 0;
    for (i, envelope) in received.iter().enumerate() {
        assert_eq!(envelope.seq as usize, i + 1);
        match envelope.payload.as_ref().unwrap() {
            Payload::HandshakeResponse(r) => assert!(r.accepted),
            Payload::StartSessionResponse(r) => assert!(r.accepted),
            Payload::SubtitleEvent(e) if e.kind == SubtitleKind::Partial.value() => partials += 1,
            Payload::SubtitleEvent(e) => committed.push(e.text.clone()),
            Payload::MetricsEvent(_) => metrics += 1,
            Payload::ErrorEvent(e) => panic!("core reported an error: {}", e.message),
            _ => {}
        }
    }
    assert!(partials >= 3, "expected partial subtitles, got {partials}");
    assert_eq!(committed.len(), 3);
    assert_eq!(committed[0], "[1] 这是第一段模拟识别结果。");
    assert_eq!(metrics, 300 / 64);
    assert!(matches!(
        received[received.len() - 2].payload,
        Some(Payload::StopSessionResponse(StopSessionResponse { ok: true, .. }))
    ));
}

fn complete(out: Vec<Outgoing>) -> Vec<Envelope> {
    out.into_iter().map(|o| o.envelope(1, 2, Float64 { bits: 0.5f64.to_bits() })).collect()
}
