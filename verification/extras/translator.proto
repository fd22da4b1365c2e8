// The messages between a client and the core, as `src/protocol` reads and writes them.
//
// On the wire every message travels in an Envelope, behind its length in four bytes,
// the highest first.

syntax = "proto3";

package translator.v1;

enum SampleFormat {
  SAMPLE_FORMAT_UNSPECIFIED = 0;
  SAMPLE_FORMAT_F32 = 1;
  SAMPLE_FORMAT_I16 = 2;
}

enum SubtitleKind {
  SUBTITLE_KIND_UNSPECIFIED = 0;
  SUBTITLE_KIND_PARTIAL = 1;
  SUBTITLE_KIND_COMMITTED = 2;
}

enum CoreStatus {
  CORE_STATUS_UNSPECIFIED = 0;
  CORE_STATUS_IDLE = 1;
  CORE_STATUS_LISTENING = 2;
  CORE_STATUS_PAUSED = 3;
}

enum ErrorCode {
  ERROR_CODE_UNSPECIFIED = 0;
  ERROR_CODE_INTERNAL = 1;
  ERROR_CODE_BAD_REQUEST = 2;
  ERROR_CODE_UNSUPPORTED = 3;
  ERROR_CODE_AUDIO_FORMAT = 4;
  ERROR_CODE_INVALID_SESSION = 5;
  ERROR_CODE_PROVIDER_FAILURE = 6;
}

message Envelope {
  uint32 seq = 1;
  oneof payload {
    HandshakeRequest handshake_request = 10;
    HandshakeResponse handshake_response = 11;
    StartSessionRequest start_session_request = 12;
    StartSessionResponse start_session_response = 13;
    StopSessionRequest stop_session_request = 14;
    StopSessionResponse stop_session_response = 15;
    SetPausedRequest set_paused_request = 16;
    SetPausedResponse set_paused_response = 17;
    AudioFrame audio_frame = 18;
    SubtitleEvent subtitle_event = 19;
    StatusEvent status_event = 20;
    MetricsEvent metrics_event = 21;
    ErrorEvent error_event = 22;
    HeartbeatRequest heartbeat_request = 23;
    HeartbeatResponse heartbeat_response = 24;
  }
}

// Layout of raw PCM audio.
message AudioFormat {
  uint32 sample_rate = 1;
  uint32 channels = 2;
  SampleFormat format = 3;
}

// Which recogniser a session asks for, and how it is set up.
message AsrConfig {
  string provider = 1;
  string model = 2;
  string language = 3;
  string engine = 4;
  string model_directory = 5;
}

// Which translation provider a session asks for.
message TranslationConfig {
  string provider = 1;
  string target_language = 2;
}

// How a session wants its subtitles laid out. Zero lines or characters mean the
// default; a zero interval means no spacing between partial texts.
message SubtitleConfig {
  uint32 max_lines = 1;
  uint32 max_chars_per_line = 2;
  uint32 partial_interval_ms = 3;
  uint32 commit_silence_ms = 4;
}

// Opens the conversation; the protocol versions must match.
message HandshakeRequest {
  uint32 protocol_version = 1;
  string client_id = 2;
  string client_version = 3;
  repeated string features = 4;
}

// Answers a handshake.
message HandshakeResponse {
  bool accepted = 1;
  string server_version = 2;
  uint32 negotiated_protocol_version = 3;
  repeated string features = 4;
  string error = 5;
}

// Asks for a new capture session.
message StartSessionRequest {
  string session_id = 1;
  AudioFormat input_format = 2;
  uint32 target_sample_rate = 3;
  AsrConfig asr = 4;
  TranslationConfig translation = 5;
  SubtitleConfig subtitle = 6;
}

// Answers a request for a session.
message StartSessionResponse {
  bool accepted = 1;
  string session_id = 2;
  string error = 3;
}

// Ends the session.
message StopSessionRequest {
  string session_id = 1;
}

// Answers the end of a session.
message StopSessionResponse {
  bool ok = 1;
  string error = 2;
}

// Pauses or resumes the session.
message SetPausedRequest {
  bool paused = 1;
}

// Answers a pause request.
message SetPausedResponse {
  bool ok = 1;
  string error = 2;
}

// A chunk of interleaved PCM audio.
message AudioFrame {
  string session_id = 1;
  uint64 timestamp_us = 2;
  AudioFormat format = 3;
  uint32 frames = 4;
  bytes pcm = 5;
}

// The text block that should be on screen now.
message SubtitleEvent {
  string session_id = 1;
  uint64 seq = 2;
  SubtitleKind kind = 3;
  string text = 4;
  string translated_text = 5;
  string language = 6;
  uint64 start_us = 7;
  uint64 end_us = 8;
  double confidence = 9;
  repeated string lines = 10;
}

// A change of the core's status.
message StatusEvent {
  CoreStatus status = 1;
  string detail = 2;
  uint64 timestamp_us = 3;
}

// Counters of the running session.
message MetricsEvent {
  uint64 audio_frames = 1;
  uint64 audio_bytes = 2;
  uint64 audio_ms = 3;
  uint64 dropped_frames = 4;
  double speech_ratio = 5;
  uint64 subtitle_events = 6;
}

// Something went wrong.
message ErrorEvent {
  ErrorCode code = 1;
  string message = 2;
  bool fatal = 3;
}

// Asks whether the core is alive.
message HeartbeatRequest {
  uint64 timestamp_us = 1;
}

// Answers a heartbeat with its own timestamp.
message HeartbeatResponse {
  uint64 timestamp_us = 1;
}
