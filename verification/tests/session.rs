//! Sessions: what starts one, and what becomes of a frame.

use translator_core::asr::whisper::DecodedSegment;
use translator_core::error::CoreError;
use translator_core::protocol::{
    AsrConfig, AudioFormat, AudioFrame, Float64, MetricsEvent, SampleFormat, StartSessionRequest,
    SubtitleConfig, SubtitleKind, TranslationConfig,
};
use translator_core::session::{
    FlushStep, FrameSignal, FrameStep, Metrics, Session, SessionOutput,
};
use translator_core::vad::FrameLevel;

fn request() -> StartSessionRequest {
    StartSessionRequest {
        session_id: "s".into(),
        input_format: Some(AudioFormat {
            sample_rate: 16_000,
            channels: 1,
            format: SampleFormat::I16.value(),
        }),
        target_sample_rate: 0,
        asr: None,
        translation: None,
        subtitle: None,
    }
}

fn start(request: &StartSessionRequest) -> Result<Session, CoreError> {
    Session::start(request, &vec!["hello".to_string()], 42, true)
}

fn start_error(request: StartSessionRequest) -> CoreError {
    start(&request).err().unwrap()
}

fn frame(frames: u32, pcm: Vec<u8>, format: Option<AudioFormat>) -> AudioFrame {
    AudioFrame { session_id: "s".into(), timestamp_us: 0, format, frames, pcm }
}

fn signal(loud: bool, count: usize, end_us: u64) -> FrameSignal {
    FrameSignal {
        work: vec![0; count * 160],
        levels: vec![FrameLevel { loud, end_us }; count],
        end_us,
    }
}

fn done(step: FrameStep) -> SessionOutput {
    match step {
        FrameStep::Done(output) => output,
        FrameStep::Decode => panic!("no decoding expected"),
    }
}

#[test]
fn a_session_takes_its_settings_from_the_request() {
    let session = start(&request()).ok().unwrap();
    assert_eq!(session.id(), "s");
    assert_eq!(session.input_rate(), 16_000);
    assert_eq!(session.target_rate(), 16_000);
    assert!(!session.is_paused());
    let named = StartSessionRequest {
        session_id: String::new(),
        input_format: None,
        target_sample_rate: 8_000,
        ..request()
    };
    let session = start(&named).ok().unwrap();
    assert_eq!(session.id(), "session-42");
    assert_eq!(session.input_rate(), 48_000);
    assert_eq!(session.target_rate(), 8_000);
}

#[test]
fn bad_audio_settings_are_refused() {
    let with = |sample_rate: u32, channels: u32, format: i32| {
        start_error(StartSessionRequest {
            input_format: Some(AudioFormat { sample_rate, channels, format }),
            ..request()
        })
    };
    let bad = |text: &str| CoreError::AudioFormat(text.to_string());
    assert_eq!(with(7_999, 1, 1), bad("input sample rate 7999 is out of range"));
    assert_eq!(with(192_001, 0, 1), bad("input sample rate 192001 is out of range"));
    assert_eq!(with(8_000, 0, 1), bad("unsupported channel count 0"));
    assert_eq!(with(8_000, 9, 9), bad("unsupported channel count 9"));
    assert_eq!(with(8_000, 8, -3), bad("unknown sample format -3"));
    assert_eq!(with(8_000, 8, 0), bad("input sample format was not specified"));
    for target_sample_rate in [7_999, 48_001] {
        assert_eq!(
            start_error(StartSessionRequest { target_sample_rate, ..request() }),
            bad(&format!("target sample rate {target_sample_rate} is out of range"))
        );
    }
}

#[test]
fn only_no_translation_is_accepted() {
    let with = |provider: &str| StartSessionRequest {
        translation: Some(TranslationConfig {
            provider: provider.to_string(),
            target_language: "zh".into(),
        }),
        ..request()
    };
    assert!(start(&with("")).is_ok());
    assert!(start(&with("none")).is_ok());
    assert_eq!(
        start_error(with("mock")),
        CoreError::Unsupported(
            "translation provider `mock` is not available in phase 1".to_string()
        )
    );
}

#[test]
fn unknown_recognisers_are_refused() {
    let asr = Some(AsrConfig {
        provider: "cloud".into(),
        model: String::new(),
        language: String::new(),
        engine: String::new(),
        model_directory: String::new(),
    });
    assert!(matches!(
        start_error(StartSessionRequest { asr, ..request() }),
        CoreError::Unsupported(_)
    ));
}

#[test]
fn frames_are_checked_and_decoded() {
    let mut session = start(&request()).ok().unwrap();
    let plan = session.push_frame(&frame(2, vec![0, 0x40, 0, 0xC0], None)).unwrap().unwrap();
    assert_eq!((plan.rate, plan.channels, plan.frames), (16_000, 1, 2));
    assert_eq!(plan.samples, vec![0.5f32.to_bits(), (-0.5f32).to_bits()]);
    let stereo = AudioFormat { sample_rate: 44_100, channels: 2, format: 1 };
    let plan = session.push_frame(&frame(1, vec![0; 8], Some(stereo))).unwrap().unwrap();
    assert_eq!((plan.rate, plan.channels, plan.samples), (44_100, 2, vec![0, 0]));
    // Zeros stand for what the session was started with.
    let blank = AudioFormat { sample_rate: 0, channels: 0, format: 2 };
    let plan = session.push_frame(&frame(1, vec![1, 0], Some(blank))).unwrap().unwrap();
    assert_eq!((plan.rate, plan.channels), (16_000, 1));
    let metrics = session.snapshot_metrics();
    assert_eq!((metrics.audio_frames, metrics.audio_bytes, metrics.dropped_frames), (3, 14, 0));
}

#[test]
fn bad_frames_are_refused() {
    let mut session = start(&request()).ok().unwrap();
    let with = |format: i32| Some(AudioFormat { sample_rate: 16_000, channels: 2, format });
    assert_eq!(
        session.push_frame(&frame(1, vec![], with(7))),
        Err(CoreError::AudioFormat("unknown sample format 7".into()))
    );
    assert_eq!(session.snapshot_metrics().dropped_frames, 1);
    assert_eq!(
        session.push_frame(&frame(1, vec![], with(0))),
        Err(CoreError::AudioFormat("sample format was not specified".into()))
    );
    assert_eq!(session.snapshot_metrics().dropped_frames, 1);
    assert_eq!(
        session.push_frame(&frame(3, vec![0; 13], with(2))),
        Err(CoreError::AudioFormat(
            "frame declares 3 frames x 2 ch x 2 B = 12 bytes but carries 13 bytes".into()
        ))
    );
    let metrics = session.snapshot_metrics();
    assert_eq!((metrics.audio_frames, metrics.audio_bytes, metrics.dropped_frames), (3, 13, 2));
}

#[test]
fn a_paused_session_only_counts() {
    let mut session = start(&request()).ok().unwrap();
    session.set_paused(true);
    assert!(session.is_paused());
    assert_eq!(session.push_frame(&frame(9, vec![0; 3], None)), Ok(None));
    let metrics = session.snapshot_metrics();
    assert_eq!((metrics.audio_frames, metrics.audio_bytes, metrics.dropped_frames), (1, 3, 0));
    session.set_paused(false);
    assert!(session.push_frame(&frame(9, vec![0; 3], None)).is_err());
}

#[test]
fn speech_becomes_subtitles() {
    let mut session = start(&request()).ok().unwrap();
    assert!(done(session.process(&signal(true, 2, 20_000), true)).subtitles.is_empty());
    assert!(done(session.process(&signal(true, 1, 30_000), true)).subtitles.is_empty());
    let partial = done(session.process(&signal(true, 12, 150_000), true)).subtitles;
    assert_eq!(partial.len(), 1);
    assert_eq!(partial[0].kind, SubtitleKind::Partial.value());
    assert_eq!((partial[0].seq, partial[0].text.as_str()), (1, "[1"));
    let committed = done(session.process(&signal(false, 30, 450_000), true)).subtitles;
    assert_eq!(committed.len(), 1);
    assert_eq!(committed[0].kind, SubtitleKind::Committed.value());
    assert_eq!((committed[0].seq, committed[0].text.as_str()), (2, "[1] hello"));
    assert_eq!((committed[0].start_us, committed[0].end_us), (30_000, 450_000));
    assert_eq!(committed[0].session_id, "s");
    assert_eq!(
        session.snapshot_metrics(),
        Metrics {
            audio_frames: 0,
            audio_bytes: 0,
            dropped_frames: 0,
            speech_frames: 15,
            total_frames: 45,
            subtitle_events: 2,
        }
    );
}

#[test]
fn metrics_come_every_64_frames() {
    let mut session = start(&request()).ok().unwrap();
    let reports: Vec<usize> = (1..=200)
        .filter(|_| done(session.process(&signal(false, 1, 0), true)).metrics.is_some())
        .collect();
    assert_eq!(reports, vec![64, 128, 192]);
}

#[test]
fn stopping_flushes_the_open_utterance() {
    let mut session = start(&request()).ok().unwrap();
    session.process(&signal(true, 5, 50_000), true);
    match session.flush() {
        FlushStep::Done(subtitles) => {
            assert_eq!(subtitles.len(), 1);
            assert_eq!(subtitles[0].text, "[1] hello");
        }
        FlushStep::Decode => panic!("the mock decodes nothing"),
    }
}

fn whisper_request() -> StartSessionRequest {
    StartSessionRequest {
        asr: Some(AsrConfig {
            provider: "whisper".into(),
            model: "tiny".into(),
            language: "en".into(),
            engine: "cpu".into(),
            model_directory: "/m".into(),
        }),
        subtitle: Some(SubtitleConfig {
            max_lines: 0,
            max_chars_per_line: 5,
            partial_interval_ms: 0,
            commit_silence_ms: 0,
        }),
        ..request()
    }
}

#[test]
fn a_model_decodes_for_the_session() {
    let mut session = start(&whisper_request()).ok().unwrap();
    let options = session.model_input().unwrap().options();
    assert_eq!((options.model.as_str(), options.language.as_str()), ("tiny", "en"));
    assert_eq!((options.engine.as_str(), options.model_directory.as_str()), ("cpu", "/m"));
    let loud = FrameSignal {
        work: vec![0; 16_000],
        levels: vec![FrameLevel { loud: true, end_us: 0 }; 100],
        end_us: 2_000_000,
    };
    assert_eq!(session.process(&loud, true), FrameStep::Decode);
    let segments = vec![DecodedSegment { text: " one two".into(), t0: 0, t1: 9 }];
    let output = session.decoded(&segments);
    assert_eq!(output.subtitles[0].lines, vec!["one t", "wo"]);
    // A failed decoding shows nothing and leaves the audio.
    let quiet = FrameSignal {
        work: vec![],
        levels: vec![FrameLevel { loud: false, end_us: 0 }; 30],
        end_us: 2_300_000,
    };
    assert_eq!(session.process(&quiet, false), FrameStep::Decode);
    session.decode_failed();
    assert_eq!(session.flush(), FlushStep::Decode);
    let subtitles = session.flushed(&segments);
    assert_eq!(subtitles[0].kind, SubtitleKind::Committed.value());
    assert_eq!(session.snapshot_metrics().subtitle_events, 2);
}

#[test]
fn metrics_as_the_client_is_told() {
    let metrics = Metrics {
        audio_frames: 1,
        audio_bytes: 2,
        dropped_frames: 3,
        speech_frames: 4,
        total_frames: 8,
        subtitle_events: 6,
    };
    let half = Float64 { bits: 0.5f64.to_bits() };
    let event = |speech_ratio| MetricsEvent {
        audio_frames: 1,
        audio_bytes: 2,
        audio_ms: 77,
        dropped_frames: 3,
        speech_ratio,
        subtitle_events: 6,
    };
    assert_eq!(metrics.event(77, half), event(half));
    let none = Metrics { total_frames: 0, ..metrics };
    assert_eq!(none.event(77, half), event(Float64 { bits: 0 }));
}
