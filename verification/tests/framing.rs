//! Frames: what goes over the wire and comes back.

use translator_core::protocol::framing::{
    decode_frame, decode_payload, encode_frame, payload_length, read_frame, FrameError,
    FrameReader, MAX_FRAME_BYTES,
};
use translator_core::protocol::{
    AsrConfig, AudioFormat, AudioFrame, CoreStatus, Envelope, ErrorCode, ErrorEvent, Float64,
    HandshakeRequest, HandshakeResponse, HeartbeatRequest, HeartbeatResponse, MetricsEvent,
    Payload, SampleFormat, SetPausedRequest, SetPausedResponse, StartSessionRequest,
    StartSessionResponse, StatusEvent, StopSessionRequest, StopSessionResponse, SubtitleConfig,
    SubtitleEvent, SubtitleKind, TranslationConfig, DEFAULT_PIPE_NAME, DEFAULT_SOCKET_PATH,
    PROTOCOL_VERSION,
};

fn round_trip(payload: Option<Payload>) {
    let env = Envelope { seq: 4_000_000_000, payload };
    let bytes = encode_frame(&env);
    assert_eq!(decode_frame(&bytes), Ok(env));
}

#[test]
fn round_trips_a_frame() {
    let env = Envelope {
        seq: 7,
        payload: Some(Payload::HandshakeRequest(HandshakeRequest {
            protocol_version: PROTOCOL_VERSION,
            client_id: "test".into(),
            client_version: "0.0.0".into(),
            features: vec!["audio.f32".into()],
        })),
    };

    let bytes = encode_frame(&env);
    assert_eq!(
        u32::from_be_bytes([bytes[0], bytes[1], bytes[2], bytes[3]]) as usize,
        bytes.len() - 4
    );
    assert_eq!(decode_frame(&bytes).unwrap(), env);
}

#[test]
fn rejects_truncated_frames() {
    let env = Envelope {
        seq: 1,
        payload: Some(Payload::AudioFrame(AudioFrame {
            session_id: "s".into(),
            timestamp_us: 0,
            format: Some(AudioFormat {
                sample_rate: 48000,
                channels: 2,
                format: SampleFormat::F32.value(),
            }),
            frames: 1,
            pcm: vec![0u8; 8],
        })),
    };
    let bytes = encode_frame(&env);
    assert!(decode_frame(&bytes[..bytes.len() - 1]).is_err());
    for n in 0..4 {
        assert_eq!(decode_frame(&bytes[..n]), Err(FrameError::ShortHeader));
    }
    for n in 4..bytes.len() {
        assert_eq!(decode_frame(&bytes[..n]), Err(FrameError::Truncated));
    }
}

#[test]
fn every_payload_comes_back() {
    let text = |s: &str| s.to_string();
    round_trip(None);
    round_trip(Some(Payload::HandshakeRequest(HandshakeRequest {
        protocol_version: 0,
        client_id: text(""),
        client_version: text("é 字 \u{1F600}"),
        features: vec![text(""), text("a"), text("")],
    })));
    round_trip(Some(Payload::HandshakeResponse(HandshakeResponse {
        accepted: true,
        server_version: text("1"),
        negotiated_protocol_version: u32::MAX,
        features: vec![],
        error: text("no"),
    })));
    round_trip(Some(Payload::StartSessionRequest(StartSessionRequest {
        session_id: text("id"),
        input_format: Some(AudioFormat { sample_rate: 44_100, channels: 0, format: -1 }),
        target_sample_rate: 16_000,
        asr: Some(AsrConfig {
            provider: text("whisper"),
            model: text("tiny"),
            language: text("zh"),
            engine: text("cuda"),
            model_directory: text("C:\\models"),
        }),
        translation: Some(TranslationConfig {
            provider: text("none"),
            target_language: text(""),
        }),
        subtitle: Some(SubtitleConfig {
            max_lines: 2,
            max_chars_per_line: 40,
            partial_interval_ms: 100,
            commit_silence_ms: 300,
        }),
    })));
    round_trip(Some(Payload::StartSessionRequest(StartSessionRequest {
        session_id: text(""),
        input_format: None,
        target_sample_rate: 0,
        asr: None,
        translation: None,
        subtitle: None,
    })));
    round_trip(Some(Payload::StartSessionResponse(StartSessionResponse {
        accepted: false,
        session_id: text("x"),
        error: text("y"),
    })));
    round_trip(Some(Payload::StopSessionRequest(StopSessionRequest { session_id: text("x") })));
    round_trip(Some(Payload::StopSessionResponse(StopSessionResponse {
        ok: true,
        error: text(""),
    })));
    round_trip(Some(Payload::SetPausedRequest(SetPausedRequest { paused: true })));
    round_trip(Some(Payload::SetPausedRequest(SetPausedRequest { paused: false })));
    round_trip(Some(Payload::SetPausedResponse(SetPausedResponse {
        ok: false,
        error: text("e"),
    })));
    round_trip(Some(Payload::AudioFrame(AudioFrame {
        session_id: text("s"),
        timestamp_us: u64::MAX,
        format: None,
        frames: 300,
        pcm: (0..=255).collect(),
    })));
    round_trip(Some(Payload::SubtitleEvent(SubtitleEvent {
        session_id: text("s"),
        seq: 1,
        kind: SubtitleKind::Committed.value(),
        text: text("t"),
        translated_text: text(""),
        language: text("l"),
        start_us: 1,
        end_us: 1 << 40,
        confidence: Float64 { bits: 0.75f64.to_bits() },
        lines: vec![text("a"), text("b")],
    })));
    round_trip(Some(Payload::StatusEvent(StatusEvent {
        status: CoreStatus::Listening.value(),
        detail: text("d"),
        timestamp_us: 9,
    })));
    round_trip(Some(Payload::MetricsEvent(MetricsEvent {
        audio_frames: 1,
        audio_bytes: 2,
        audio_ms: 3,
        dropped_frames: 4,
        speech_ratio: Float64 { bits: 0.5f64.to_bits() },
        subtitle_events: 5,
    })));
    round_trip(Some(Payload::ErrorEvent(ErrorEvent {
        code: ErrorCode::ProviderFailure.value(),
        message: text("m"),
        fatal: true,
    })));
    round_trip(Some(Payload::HeartbeatRequest(HeartbeatRequest { timestamp_us: 0 })));
    round_trip(Some(Payload::HeartbeatResponse(HeartbeatResponse { timestamp_us: 77 })));
}

#[test]
fn a_small_frame_byte_for_byte() {
    let env = Envelope {
        seq: 300,
        payload: Some(Payload::HeartbeatRequest(HeartbeatRequest { timestamp_us: 5 })),
    };
    // seq: key 8, varint 300; payload: key (23 << 3) | 2, length 2, then key 8, varint 5.
    assert_eq!(
        encode_frame(&env),
        vec![0, 0, 0, 8, 0x08, 0xAC, 0x02, 0xBA, 0x01, 0x02, 0x08, 0x05]
    );
}

#[test]
fn the_numbers_of_prost_come_back_the_same() {
    let mut expected: Vec<u8> = Vec::new();
    prost::encoding::uint32::encode(1, &300, &mut expected);
    let mut inner: Vec<u8> = Vec::new();
    prost::encoding::string::encode(2, &"detail".to_string(), &mut inner);
    prost::encoding::uint64::encode(3, &u64::MAX, &mut inner);
    prost::encoding::bytes::encode(20, &inner, &mut expected);
    let env = Envelope {
        seq: 300,
        payload: Some(Payload::StatusEvent(StatusEvent {
            status: 0,
            detail: "detail".to_string(),
            timestamp_us: u64::MAX,
        })),
    };
    assert_eq!(env.encode_to_vec(), expected);
    assert_eq!(Envelope::decode(&expected), Some(env));
}

#[test]
fn doubles_are_written_as_prost_writes_them() {
    let mut inner: Vec<u8> = Vec::new();
    prost::encoding::double::encode(5, &-2.5f64, &mut inner);
    let mut expected: Vec<u8> = Vec::new();
    prost::encoding::bytes::encode(21, &inner, &mut expected);
    let env = Envelope {
        seq: 0,
        payload: Some(Payload::MetricsEvent(MetricsEvent {
            audio_frames: 0,
            audio_bytes: 0,
            audio_ms: 0,
            dropped_frames: 0,
            speech_ratio: Float64 { bits: (-2.5f64).to_bits() },
            subtitle_events: 0,
        })),
    };
    assert_eq!(env.encode_to_vec(), expected);
    assert_eq!(Envelope::decode(&expected), Some(env));
}

#[test]
fn a_negative_zero_is_left_out() {
    let with_ratio = |bits: u64| Envelope {
        seq: 1,
        payload: Some(Payload::MetricsEvent(MetricsEvent {
            audio_frames: 0,
            audio_bytes: 0,
            audio_ms: 0,
            dropped_frames: 0,
            speech_ratio: Float64 { bits },
            subtitle_events: 0,
        })),
    };
    let bytes = encode_frame(&with_ratio((-0.0f64).to_bits()));
    assert_eq!(decode_frame(&bytes), Ok(with_ratio(0)));
}

#[test]
fn what_follows_a_frame_is_not_looked_at() {
    let env = Envelope { seq: 3, payload: None };
    let mut bytes = encode_frame(&env);
    bytes.extend_from_slice(&[0xFF; 10]);
    assert_eq!(decode_frame(&bytes), Ok(env));
}

#[test]
fn malformed_payloads_are_refused() {
    // A key without a value.
    assert_eq!(decode_payload(&[0x08]), Err(FrameError::Malformed));
    // Tag zero.
    assert_eq!(decode_payload(&[0x00, 0x00]), Err(FrameError::Malformed));
    // A number where a message is expected.
    assert_eq!(decode_payload(&[0x50, 0x01]), Err(FrameError::Malformed));
    // A text that is not UTF-8: StatusEvent with detail 0xFF.
    assert_eq!(
        decode_payload(&[0xA2, 0x01, 0x03, 0x12, 0x01, 0xFF]),
        Err(FrameError::Malformed)
    );
    // A varint of eleven bytes.
    assert_eq!(
        decode_payload(&[0x08, 0xFF, 0xFF, 0xFF, 0xFF, 0xFF, 0xFF, 0xFF, 0xFF, 0xFF, 0xFF, 0x01]),
        Err(FrameError::Malformed)
    );
    assert_eq!(decode_frame(&[0, 0, 0, 1, 0x08]), Err(FrameError::Malformed));
}

#[test]
fn unknown_fields_are_skipped() {
    let mut bytes: Vec<u8> = Vec::new();
    prost::encoding::uint64::encode(900, &7, &mut bytes);
    prost::encoding::fixed32::encode(901, &7, &mut bytes);
    prost::encoding::fixed64::encode(902, &7, &mut bytes);
    prost::encoding::bytes::encode(903, &vec![1u8, 2, 3], &mut bytes);
    // A group of tag 904 with a field inside.
    prost::encoding::encode_key(904, prost::encoding::WireType::StartGroup, &mut bytes);
    prost::encoding::uint64::encode(1, &99, &mut bytes);
    prost::encoding::encode_key(904, prost::encoding::WireType::EndGroup, &mut bytes);
    prost::encoding::uint32::encode(1, &12, &mut bytes);
    assert_eq!(Envelope::decode(&bytes), Some(Envelope { seq: 12, payload: None }));
}

#[test]
fn the_last_payload_counts_and_parts_are_merged() {
    let mut first: Vec<u8> = Vec::new();
    prost::encoding::string::encode(1, &"gone".to_string(), &mut first);
    let mut part_a: Vec<u8> = Vec::new();
    prost::encoding::int32::encode(1, &2, &mut part_a);
    let mut part_b: Vec<u8> = Vec::new();
    prost::encoding::string::encode(2, &"kept".to_string(), &mut part_b);
    let mut bytes: Vec<u8> = Vec::new();
    prost::encoding::bytes::encode(14, &first, &mut bytes);
    prost::encoding::bytes::encode(20, &part_a, &mut bytes);
    prost::encoding::bytes::encode(20, &part_b, &mut bytes);
    prost::encoding::uint32::encode(1, &1, &mut bytes);
    prost::encoding::uint32::encode(1, &2, &mut bytes);
    assert_eq!(
        Envelope::decode(&bytes),
        Some(Envelope {
            seq: 2,
            payload: Some(Payload::StatusEvent(StatusEvent {
                status: 2,
                detail: "kept".to_string(),
                timestamp_us: 0,
            })),
        })
    );
}

#[test]
fn the_length_of_a_frame_is_capped() {
    assert_eq!(MAX_FRAME_BYTES, 4 * 1024 * 1024);
    assert_eq!(payload_length(&[0, 0, 1, 2]), Ok(258));
    assert_eq!(payload_length(&[0, 0x40, 0, 0]), Ok(MAX_FRAME_BYTES));
    let error = payload_length(&[0, 0x40, 0, 1]).unwrap_err();
    assert_eq!(error, FrameError::TooLong { len: 4194305 });
    assert_eq!(error.message(), "frame of 4194305 bytes exceeds 4194304 byte limit");
}

#[test]
fn frame_errors_say_what_is_wrong() {
    assert_eq!(FrameError::ShortHeader.message(), "frame shorter than 4-byte header");
    assert_eq!(FrameError::Truncated.message(), "truncated frame");
    assert_eq!(FrameError::Malformed.message(), "failed to decode Protobuf message");
    assert_eq!(FrameError::Ended.message(), "early eof");
}

#[test]
fn the_default_endpoints() {
    assert_eq!(PROTOCOL_VERSION, 1);
    assert_eq!(DEFAULT_PIPE_NAME, "\\\\.\\pipe\\translator-core-v1");
    assert_eq!(DEFAULT_SOCKET_PATH, "/tmp/translator-core-v1.sock");
}

#[test]
fn enumerations_and_their_numbers() {
    for number in 0..3 {
        assert_eq!(SampleFormat::from_value(number).unwrap().value(), number);
        assert_eq!(SubtitleKind::from_value(number).unwrap().value(), number);
    }
    for number in 0..4 {
        assert_eq!(CoreStatus::from_value(number).unwrap().value(), number);
    }
    for number in 0..7 {
        assert_eq!(ErrorCode::from_value(number).unwrap().value(), number);
    }
    assert_eq!(SampleFormat::from_value(3), None);
    assert_eq!(SubtitleKind::from_value(-1), None);
    assert_eq!(CoreStatus::from_value(4), None);
    assert_eq!(ErrorCode::from_value(7), None);
}

#[test]
fn a_frame_arrives_on_a_stream() {
    let env = Envelope {
        seq: 5,
        payload: Some(Payload::StopSessionRequest(StopSessionRequest { session_id: "x".into() })),
    };
    let bytes = encode_frame(&env);
    let len = payload_length(&bytes[..4]).unwrap();
    assert_eq!(len, bytes.len() - 4);
    assert_eq!(decode_payload(&bytes[4..]), Ok(env));
}

#[test]
fn successive_reads_give_the_frames_in_order() {
    let envelopes: Vec<Envelope> = (0..4)
        .map(|seq| Envelope {
            seq,
            payload: Some(Payload::HeartbeatRequest(HeartbeatRequest { timestamp_us: 9 })),
        })
        .collect();
    let mut bytes: Vec<u8> = Vec::new();
    for envelope in &envelopes {
        bytes.extend(encode_frame(envelope));
    }
    let mut stream: &[u8] = &bytes;
    for envelope in envelopes {
        assert_eq!(read_frame(&mut stream), Ok(Some(envelope)));
    }
    assert_eq!(read_frame(&mut stream), Ok(None));
}

#[test]
fn a_stream_may_end_anywhere() {
    for n in 0..4 {
        let mut stream: &[u8] = &[0u8; 4][..n];
        assert_eq!(read_frame(&mut stream), Ok(None));
        assert!(stream.is_empty());
    }
    let mut stream: &[u8] = &[0, 0, 0, 2, 0x08];
    assert_eq!(read_frame(&mut stream), Err(FrameError::Ended));
    let mut stream: &[u8] = &[0xFF, 0, 0, 0, 7, 8];
    assert_eq!(read_frame(&mut stream), Err(FrameError::TooLong { len: 0xFF00_0000 }));
    assert_eq!(stream, [7, 8]);
    let mut stream: &[u8] = &[0, 0, 0, 1, 0x08, 5];
    assert_eq!(read_frame(&mut stream), Err(FrameError::Malformed));
    assert_eq!(stream, [5]);
    let mut stream: &[u8] = &[0, 0, 0, 0, 5];
    assert_eq!(read_frame(&mut stream), Ok(Some(Envelope { seq: 0, payload: None })));
    assert_eq!(stream, [5]);
}

#[test]
fn a_reader_asks_for_header_and_payload_in_turn() {
    let mut reader = FrameReader::new();
    assert_eq!((reader.needs(), reader.ended()), (4, Ok(())));
    assert_eq!(reader.filled(&[0, 0, 0, 2]), Ok(None));
    assert_eq!((reader.needs(), reader.ended()), (2, Err(FrameError::Ended)));
    assert_eq!(reader.filled(&[0x08, 3]), Ok(Some(Envelope { seq: 3, payload: None })));
    assert_eq!((reader.needs(), reader.ended()), (4, Ok(())));
}
