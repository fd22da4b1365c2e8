//! Recognisers and the choice between them.

use translator_core::asr::mock::MockRecognizer;
use translator_core::asr::models::{
    check_download, decode_threads, initial_prompt, language_hint, model_file, resolve_model,
    ExplicitModel, ModelPlan,
};
use translator_core::asr::whisper::{
    join_segments, place_segments, DecodedSegment, Segment, WhisperAsr, WhisperStep, MIN_SAMPLES,
    STEP_US, WINDOW_SAMPLES,
};
use translator_core::asr::{create, AsrOptions, RecognitionEvent, Recognizer, RecognizerStep};
use translator_core::error::CoreError;
use translator_core::protocol::Float64;

fn certain() -> Float64 {
    Float64 { bits: 1.0f64.to_bits() }
}

fn texts(list: &[&str]) -> Vec<String> {
    list.iter().map(|s| s.to_string()).collect()
}

fn said(text: &str, start_us: u64, end_us: u64) -> RecognitionEvent {
    RecognitionEvent::Final { text: text.to_string(), start_us, end_us, confidence: certain() }
}

#[test]
fn mock_utterances_rotate_through_the_sentences() {
    let mut mock = MockRecognizer::new(texts(&["one", "two"]));
    assert_eq!(mock.name(), "mock");
    for (i, sentence) in ["[1] one", "[2] two", "[3] one"].iter().enumerate() {
        let start = i as u64 * 1_000_000;
        assert_eq!(mock.push_audio(true, start, true), vec![]);
        assert_eq!(mock.push_audio(false, start + 50_000, true), vec![said(sentence, start, start + 50_000)]);
        assert_eq!(mock.push_audio(false, start + 60_000, true), vec![]);
    }
}

#[test]
fn mock_partials_grow() {
    let mut mock = MockRecognizer::new(texts(&["abcdefghij"]));
    assert_eq!(mock.push_audio(true, 1_000_000, true), vec![]);
    assert_eq!(mock.push_audio(true, 1_119_999, true), vec![]);
    let partial = |text: &str, end_us: u64| {
        vec![RecognitionEvent::Partial { text: text.to_string(), start_us: 1_000_000, end_us }]
    };
    // 0.12 s at 14 characters per second: 1.68, rounded to 2.
    assert_eq!(mock.push_audio(true, 1_120_000, true), partial("[1", 1_120_000));
    assert_eq!(mock.push_audio(true, 1_200_000, true), vec![]);
    // 0.25 s: 3.5, rounded away from zero to 4.
    assert_eq!(mock.push_audio(true, 1_250_000, true), partial("[1] ", 1_250_000));
    assert_eq!(mock.push_audio(true, 9_000_000, true), partial("[1] abcdefghij", 9_000_000));
    assert_eq!(mock.flush(), vec![said("[1] abcdefghij", 1_000_000, 9_000_000)]);
    assert_eq!(mock.flush(), vec![]);
}

#[test]
fn the_rounding_is_that_of_floating_point() {
    for us in (0..3_000_000u64).step_by(617) {
        let mut mock = MockRecognizer::new(texts(&["x".repeat(60).as_str()]));
        mock.push_audio(true, 1, true);
        let events = mock.push_audio(true, 1 + us, true);
        let take = ((us as f64 / 1_000_000.0) * 14.0).round() as usize;
        if us >= 120_000 {
            let full = format!("[1] {}", "x".repeat(60));
            let expected: String = full.chars().take(take).collect();
            assert_eq!(
                events,
                vec![RecognitionEvent::Partial { text: expected, start_us: 1, end_us: 1 + us }]
            );
        } else {
            assert_eq!(events, vec![]);
        }
    }
}

#[test]
fn mock_has_sentences_of_its_own() {
    let mut mock = MockRecognizer::new(vec![]);
    mock.push_audio(true, 5, true);
    assert_eq!(mock.push_audio(false, 9, true), vec![said("[1] 这是第一段模拟识别结果。", 5, 9)]);
    for _ in 0..2 {
        mock.push_audio(true, 10, true);
        mock.push_audio(false, 11, true);
    }
    mock.push_audio(true, 20, true);
    assert_eq!(
        mock.push_audio(false, 21, true),
        vec![said("[4] Fourth line: mock recogniser output for an English sentence.", 20, 21)]
    );
}

fn options(model: &str, language: &str) -> AsrOptions {
    AsrOptions {
        model: model.to_string(),
        language: language.to_string(),
        ..Default::default()
    }
}

fn segment(text: &str, t0: i64, t1: i64) -> DecodedSegment {
    DecodedSegment { text: text.to_string(), t0, t1 }
}

#[test]
fn whisper_decodes_every_two_seconds_of_speech() {
    let mut whisper = WhisperAsr::new(options("tiny", ""));
    assert_eq!(whisper.name(), "whisper");
    assert_eq!(whisper.options().model, "tiny");
    let second = vec![1u32; 16_000];
    assert_eq!(whisper.push_audio(&second, true, 1_000_000, true), WhisperStep::Done(vec![]));
    assert_eq!(whisper.push_audio(&second, true, STEP_US, true), WhisperStep::Decode);
    assert_eq!(whisper.audio().len(), 32_000);
    assert_eq!(
        whisper.finish(&vec![segment(" hello ", 0, 50), segment("  ", 50, 60), segment("there", 60, 90)]),
        vec![RecognitionEvent::Partial {
            text: "hello there".to_string(),
            start_us: 0,
            end_us: STEP_US,
        }]
    );
    // Nothing new for another two seconds, and the audio is kept.
    assert_eq!(whisper.push_audio(&second, true, 3_000_000, true), WhisperStep::Done(vec![]));
    assert_eq!(whisper.audio().len(), 48_000);
    // Silence ends the utterance.
    assert_eq!(whisper.push_audio(&[], false, 3_100_000, false), WhisperStep::Decode);
    assert_eq!(
        whisper.finish(&vec![segment("hello there", 3, 90)]),
        vec![said("hello there", 30_000, 3_100_000)]
    );
    assert_eq!(whisper.audio().len(), 0);
    assert_eq!(whisper.flush(), WhisperStep::Done(vec![]));
}

#[test]
fn whisper_only_buffers_a_backlog() {
    let mut whisper = WhisperAsr::new(options("tiny", ""));
    let second = vec![2u32; 16_000];
    for i in 1..=5 {
        assert_eq!(
            whisper.push_audio(&second, true, i * 1_000_000, false),
            WhisperStep::Done(vec![])
        );
    }
    assert_eq!(whisper.push_audio(&second, true, 6_000_000, true), WhisperStep::Decode);
    assert_eq!(whisper.audio().len(), 96_000);
}

#[test]
fn whisper_keeps_one_window_of_audio() {
    let mut whisper = WhisperAsr::new(options("tiny", ""));
    let samples: Vec<u32> = (0..(WINDOW_SAMPLES as u32 + 16_000)).collect();
    whisper.push_audio(&samples, false, 13_000_000, true);
    assert_eq!(whisper.audio()[..], samples[16_000..]);
    // The window now starts one second in.
    assert_eq!(whisper.flush(), WhisperStep::Decode);
    assert_eq!(
        whisper.finish(&vec![segment("late", 100, 200)]),
        vec![said("late", 2_000_000, 13_000_000)]
    );
}

#[test]
fn whisper_skips_short_utterances() {
    let mut whisper = WhisperAsr::new(options("tiny", ""));
    let short = vec![0u32; MIN_SAMPLES - 1];
    assert_eq!(whisper.push_audio(&short, true, 499_937, true), WhisperStep::Done(vec![]));
    assert_eq!(whisper.push_audio(&[], false, 500_000, true), WhisperStep::Done(vec![]));
    assert_eq!(whisper.audio().len(), 0);
    let enough = vec![0u32; MIN_SAMPLES];
    whisper.push_audio(&enough, true, 1_000_000, true);
    assert_eq!(whisper.push_audio(&[], false, 1_000_001, true), WhisperStep::Decode);
    assert_eq!(whisper.finish(&vec![]), vec![]);
}

#[test]
fn whisper_keeps_its_audio_when_decoding_fails() {
    let mut whisper = WhisperAsr::new(options("tiny", ""));
    whisper.push_audio(&vec![0u32; 16_000], true, 1_000_000, true);
    assert_eq!(whisper.push_audio(&[], false, 1_000_010, true), WhisperStep::Decode);
    whisper.abandon();
    assert_eq!(whisper.audio().len(), 16_000);
    assert_eq!(whisper.flush(), WhisperStep::Decode);
    assert_eq!(whisper.finish(&vec![segment("x", 0, 1)]), vec![said("x", 0, 1_000_000)]);
}

#[test]
fn segments_are_placed_and_joined() {
    let placed = place_segments(&vec![segment(" a ", 1, 2), segment("b", -1, i64::MAX)], 5);
    assert_eq!(
        placed,
        vec![
            Segment { text: "a".to_string(), start_us: 10_005, end_us: 20_005 },
            Segment {
                text: "b".to_string(),
                start_us: 5u64.saturating_add((-1i64 as u64).wrapping_mul(10_000)),
                end_us: 5u64.saturating_add((i64::MAX as u64).wrapping_mul(10_000)),
            },
        ]
    );
    assert_eq!(join_segments(&placed), "a b");
    assert_eq!(join_segments(&vec![]), "");
}

#[test]
fn providers_are_chosen_by_name() {
    for name in ["", "mock"] {
        assert_eq!(create(name, AsrOptions::default(), false).ok().unwrap().name(), "mock");
    }
    let whisper = create("whisper", options("base", "en"), true).ok().unwrap();
    assert_eq!(whisper.name(), "whisper");
    assert_eq!(whisper.model_input().unwrap().options(), &options("base", "en"));
    assert_eq!(
        create("whisper", AsrOptions::default(), false).err(),
        Some(CoreError::Unsupported(
            "asr provider `whisper` requires the `whisper` feature (and a CUDA/CPU build)".into()
        ))
    );
    assert_eq!(
        create("cloud", AsrOptions::default(), true).err(),
        Some(CoreError::Unsupported(
            "asr provider `cloud` is not wired up in phase 1 (only `mock` and `whisper` exist)"
                .into()
        ))
    );
}

#[test]
fn recognisers_share_one_face() {
    let mut mock = create("mock", AsrOptions { sentences: texts(&["s"]), ..Default::default() }, false)
        .ok()
        .unwrap();
    assert!(mock.model_input().is_none());
    assert_eq!(mock.push_audio(&[], true, 10, true), RecognizerStep::Done(vec![]));
    assert_eq!(mock.flush(), RecognizerStep::Done(vec![said("[1] s", 10, 10)]));
    assert_eq!(mock.finish(&vec![segment("x", 0, 0)]), vec![]);
    mock.abandon();
    let mut whisper: Recognizer = create("whisper", options("tiny", ""), true).ok().unwrap();
    let audio = vec![0u32; 32_000];
    assert_eq!(whisper.push_audio(&audio, true, STEP_US, true), RecognizerStep::Decode);
    whisper.abandon();
    assert_eq!(whisper.flush(), RecognizerStep::Decode);
    assert_eq!(whisper.finish(&vec![segment("x", 0, 0)]), vec![said("x", 0, 2_000_000)]);
}

#[test]
fn options_have_defaults() {
    let opts = AsrOptions::default();
    assert_eq!(opts.model, "ggml-tiny.bin");
    assert_eq!((opts.engine.as_str(), opts.language.as_str()), ("", ""));
    assert!(opts.sentences.is_empty() && opts.initial_prompt.is_empty());
}

#[test]
fn catalog_names_stand_for_files() {
    for id in ["tiny", "tiny.en", "base", "base.en", "small", "small.en", "medium", "medium.en",
        "large-v1", "large-v2", "large-v3"]
    {
        assert_eq!(model_file(id), format!("ggml-{id}.bin"));
    }
    assert_eq!(model_file("large"), model_file("large-v3"));
    assert_eq!(model_file("ggml-tiny.bin"), "ggml-tiny.bin");
    assert_eq!(model_file("my-model.bin"), "my-model.bin");
}

#[test]
fn models_come_from_the_environment_first() {
    let explicit = |exists| {
        Some(ExplicitModel { path: "/m/x.bin".into(), shown: "\"/m/x.bin\"".into(), exists })
    };
    assert_eq!(
        resolve_model(&options("tiny", ""), explicit(true), None),
        Ok(ModelPlan::Use { path: "/m/x.bin".into() })
    );
    assert_eq!(
        resolve_model(&options("tiny", ""), explicit(false), None),
        Err(CoreError::Model(
            "TRANSLATOR_WHISPER_MODEL points to \"/m/x.bin\" which does not exist".into()
        ))
    );
}

#[test]
fn models_are_found_by_name() {
    assert_eq!(
        resolve_model(&options("tiny", ""), None, None),
        Ok(ModelPlan::Find {
            directory: None,
            file: "ggml-tiny.bin".into(),
            url: "https://hf-mirror.com/ggerganov/whisper.cpp/resolve/main/ggml-tiny.bin".into(),
        })
    );
    let opts = AsrOptions { model_directory: "/models".into(), ..options("m.bin", "") };
    assert_eq!(
        resolve_model(&opts, None, Some("http://here/".into())),
        Ok(ModelPlan::Find {
            directory: Some("/models".into()),
            file: "m.bin".into(),
            url: "http://here/m.bin".into(),
        })
    );
}

#[test]
fn downloads_must_succeed() {
    assert_eq!(check_download(true, "200 OK"), Ok(()));
    assert_eq!(
        check_download(false, "404 Not Found"),
        Err(CoreError::Model("model download failed: HTTP 404 Not Found".into()))
    );
}

#[test]
fn how_the_model_is_run() {
    assert_eq!(decode_threads(None), 4);
    assert_eq!(decode_threads(Some(2)), 2);
    assert_eq!(decode_threads(Some(64)), 8);
    assert_eq!(language_hint(&options("", "")), None);
    assert_eq!(language_hint(&options("", "en")), Some("en".to_string()));
    assert_eq!(initial_prompt(&options("", "en")), None);
    assert_eq!(initial_prompt(&options("", "zh")), Some("以下是普通话的句子。".to_string()));
    let opts = AsrOptions { initial_prompt: "p".into(), ..options("", "zh") };
    assert_eq!(initial_prompt(&opts), Some("p".to_string()));
}

#[test]
fn whisper_keeps_its_cadence_after_a_failure() {
    let mut whisper = WhisperAsr::new(options("tiny", ""));
    let audio = vec![0u32; 32_000];
    assert_eq!(whisper.push_audio(&audio, true, 5_000_000, true), WhisperStep::Decode);
    whisper.abandon();
    assert_eq!(whisper.push_audio(&[], true, 6_999_999, true), WhisperStep::Done(vec![]));
    assert_eq!(whisper.push_audio(&[], true, 7_000_000, true), WhisperStep::Decode);
}

#[test]
fn mock_only_takes_in_a_backlog() {
    let mut mock = MockRecognizer::new(texts(&["abcdefghij"]));
    mock.push_audio(true, 1_000_000, false);
    for i in 1..=10 {
        assert_eq!(mock.push_audio(true, 1_000_000 + i * 500_000, false), vec![]);
    }
    // The newest chunk gives the one partial text.
    assert_eq!(
        mock.push_audio(true, 6_000_001, true),
        vec![RecognitionEvent::Partial {
            text: "[1] abcdefghij".to_string(),
            start_us: 1_000_000,
            end_us: 6_000_001,
        }]
    );
    // The end of the utterance comes whether partial texts are wanted or not.
    assert_eq!(
        mock.push_audio(false, 7_000_000, false),
        vec![said("[1] abcdefghij", 1_000_000, 7_000_000)]
    );
}

#[test]
fn a_run_of_whisper_pushes() {
    let mut whisper = WhisperAsr::new(options("tiny", ""));
    let second = vec![0u32; 16_000];
    let mut ends = Vec::new();
    for i in 1..=9u64 {
        // Speech for seven seconds, then silence.
        match whisper.push_audio(&second, i <= 7, i * 1_000_000, true) {
            WhisperStep::Decode => {
                let events = whisper.finish(&vec![segment("x", 0, 1)]);
                assert_eq!(events.len(), 1);
                ends.push((i, matches!(events[0], RecognitionEvent::Final { .. })));
            }
            WhisperStep::Done(events) => assert!(events.is_empty()),
        }
    }
    assert_eq!(ends, vec![(2, false), (4, false), (6, false), (8, true)]);
}
