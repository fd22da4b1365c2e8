//! One capture session: decode -> down-mix -> resample -> VAD -> ASR -> subtitles.
//!
//! Mixing, resampling and measuring loudness is signal processing on real numbers and
//! happens outside, and so does running a recognition model. A frame therefore goes
//! through in steps: [`Session::push_frame`] checks and decodes it, the caller turns
//! the [`FramePlan`] into a [`FrameSignal`], [`Session::process`] takes it on, and where
//! that asks for it the caller decodes the audio of the recogniser and calls
//! [`Session::decoded`] or [`Session::decode_failed`].

use crate::asr;
use crate::asr::whisper;
use crate::asr::whisper::{DecodedSegment, DecodedView, WhisperAsr};
use crate::asr::{
    AsrOptions, AsrOptionsView, EventView, RecognitionEvent, Recognizer, RecognizerStep,
    RecognizerView,
};
use crate::audio::pcm;
use crate::error::{CoreError, ErrorView, Result};
use crate::protocol::{
    AudioFormat, AudioFrame, AudioFrameView, Float64, MetricsEvent, SampleFormat,
    StartSessionRequest, StartSessionRequestView, SubtitleEvent, SubtitleEventView, SubtitleKind,
};
use crate::subtitle;
use crate::subtitle::{StabilizerView, SubtitleConfig, SubtitleStabilizer};
use crate::text;
use crate::vad;
use crate::vad::{FrameLevel, Vad, VadConfig, VadResult, VadView};
use vstd::prelude::*;

verus! {

/// The rate that the recogniser consumes unless the client asks for another.
pub const DEFAULT_TARGET_RATE: u32 = 16_000;

/// Metrics are reported once per this many processed frames.
pub const METRICS_EVERY_FRAMES: u64 = 64;

// ---------------------------------------------------------------------------
// What goes in and out
// ---------------------------------------------------------------------------

/// What a session has counted.
#[derive(Debug, Clone, Copy, PartialEq, Eq, Structural)]
pub struct Metrics {
    pub audio_frames: u64,
    pub audio_bytes: u64,
    pub dropped_frames: u64,
    pub speech_frames: u64,
    pub total_frames: u64,
    pub subtitle_events: u64,
}

impl Metrics {
    /// The counters of a session that has seen nothing.
    pub open spec fn none() -> Metrics {
        Metrics {
            audio_frames: 0,
            audio_bytes: 0,
            dropped_frames: 0,
            speech_frames: 0,
            total_frames: 0,
            subtitle_events: 0,
        }
    }

    /// The counters as the client is told. `audio_ms` is the audio time so far, and
    /// `ratio` what the speech frames are of all frames; without frames that is zero.
    pub fn event(&self, audio_ms: u64, ratio: Float64) -> (event: MetricsEvent)
        ensures
            event == (MetricsEvent {
                audio_frames: self.audio_frames,
                audio_bytes: self.audio_bytes,
                audio_ms,
                dropped_frames: self.dropped_frames,
                speech_ratio: if self.total_frames == 0 {
                    Float64 { bits: 0 }
                } else {
                    ratio
                },
                subtitle_events: self.subtitle_events,
            }),
    {
        MetricsEvent {
            audio_frames: self.audio_frames,
            audio_bytes: self.audio_bytes,
            audio_ms,
            dropped_frames: self.dropped_frames,
            speech_ratio: if self.total_frames == 0 {
                Float64 { bits: 0 }
            } else {
                ratio
            },
            subtitle_events: self.subtitle_events,
        }
    }
}

/// A checked frame, ready for signal processing.
#[derive(Debug, PartialEq)]
pub struct FramePlan {
    /// Samples per second and channel.
    pub rate: u32,
    pub channels: usize,
    /// Samples per channel.
    pub frames: u32,
    /// Interleaved samples, as bit patterns of single precision numbers.
    pub samples: Vec<u32>,
}

/// The model of [`FramePlan`].
#[verifier::ext_equal]
pub struct FramePlanView {
    pub rate: u32,
    pub channels: usize,
    pub frames: u32,
    pub samples: Seq<u32>,
}

impl View for FramePlan {
    type V = FramePlanView;

    open spec fn view(&self) -> FramePlanView {
        FramePlanView {
            rate: self.rate,
            channels: self.channels,
            frames: self.frames,
            samples: self.samples@,
        }
    }
}

/// What signal processing made of a frame.
#[derive(Debug, PartialEq)]
pub struct FrameSignal {
    /// Mono samples at the target rate, as bit patterns of single precision numbers.
    pub work: Vec<u32>,
    /// The analysis frames that they complete.
    pub levels: Vec<FrameLevel>,
    /// When the frame ends on the session audio clock.
    pub end_us: u64,
}

/// The model of [`FrameSignal`].
#[verifier::ext_equal]
pub struct FrameSignalView {
    pub work: Seq<u32>,
    pub levels: Seq<FrameLevel>,
    pub end_us: u64,
}

impl View for FrameSignal {
    type V = FrameSignalView;

    open spec fn view(&self) -> FrameSignalView {
        FrameSignalView { work: self.work@, levels: self.levels@, end_us: self.end_us }
    }
}

/// What a frame gives the client.
#[derive(Debug, PartialEq)]
pub struct SessionOutput {
    pub subtitles: Vec<SubtitleEvent>,
    pub metrics: Option<Metrics>,
}

/// The model of [`SessionOutput`].
#[verifier::ext_equal]
pub struct OutputView {
    pub subtitles: Seq<SubtitleEventView>,
    pub metrics: Option<Metrics>,
}

/// The models of several subtitles.
pub open spec fn subtitle_views(subtitles: Seq<SubtitleEvent>) -> Seq<SubtitleEventView> {
    Seq::new(subtitles.len(), |i: int| subtitles[i]@)
}

impl View for SessionOutput {
    type V = OutputView;

    open spec fn view(&self) -> OutputView {
        OutputView { subtitles: subtitle_views(self.subtitles@), metrics: self.metrics }
    }
}

/// What a step of a frame came to.
#[derive(Debug, PartialEq)]
pub enum FrameStep {
    /// The frame is through.
    Done(SessionOutput),
    /// The audio of the recogniser has to be decoded.
    Decode,
}

/// What stopping came to.
#[derive(Debug, PartialEq)]
pub enum FlushStep {
    /// The final subtitles.
    Done(Vec<SubtitleEvent>),
    /// The audio of the recogniser has to be decoded.
    Decode,
}

// ---------------------------------------------------------------------------
// Subtitles of recognition events
// ---------------------------------------------------------------------------

/// The stabilizer after one recognition event.
pub open spec fn shown(subtitles: StabilizerView, event: EventView) -> StabilizerView {
    match event {
        EventView::Partial { text, end_us, .. } => subtitles.after_partial(text, end_us),
        EventView::Final { text, .. } => subtitles.after_final(text),
    }
}

/// The subtitle that a recognition event gives, if any.
pub open spec fn caption(
    subtitles: StabilizerView,
    event: EventView,
    id: Seq<char>,
) -> Option<SubtitleEventView> {
    match event {
        EventView::Partial { text, start_us, end_us } => subtitles.partial_event(
            text,
            start_us,
            end_us,
            id,
        ),
        EventView::Final { text, start_us, end_us, confidence } => subtitles.final_event(
            text,
            start_us,
            end_us,
            confidence,
            id,
        ),
    }
}

/// The stabilizer after several recognition events.
pub open spec fn all_shown(subtitles: StabilizerView, events: Seq<EventView>) -> StabilizerView
    decreases events.len(),
{
    if events.len() == 0 {
        subtitles
    } else {
        shown(all_shown(subtitles, events.drop_last()), events.last())
    }
}

/// The subtitles that several recognition events give.
pub open spec fn all_captions(
    subtitles: StabilizerView,
    events: Seq<EventView>,
    id: Seq<char>,
) -> Seq<SubtitleEventView>
    decreases events.len(),
{
    if events.len() == 0 {
        Seq::empty()
    } else {
        let before = all_captions(subtitles, events.drop_last(), id);
        match caption(all_shown(subtitles, events.drop_last()), events.last(), id) {
            Some(event) => before.push(event),
            None => before,
        }
    }
}

/// A counter that went up `by` times.
pub open spec fn counted(counter: u64, by: nat) -> u64 {
    ((counter + by) % 0x1_0000_0000_0000_0000) as u64
}

// ---------------------------------------------------------------------------
// Starting
// ---------------------------------------------------------------------------

/// The audio layout of a session whose client names none.
pub open spec fn usual_format() -> AudioFormat {
    AudioFormat { sample_rate: 48_000, channels: 2, format: SampleFormat::F32.number() }
}

/// The audio layout that a session is started with.
pub open spec fn input_of(request: StartSessionRequestView) -> AudioFormat {
    match request.input_format {
        Some(format) => format,
        None => usual_format(),
    }
}

/// The rate that a session works at.
pub open spec fn target_of(request: StartSessionRequestView) -> u32 {
    if request.target_sample_rate == 0 {
        DEFAULT_TARGET_RATE
    } else {
        request.target_sample_rate
    }
}

/// The sample format with the given number, if there is one.
pub open spec fn format_of(number: i32) -> Option<SampleFormat> {
    if number == 0 {
        Some(SampleFormat::Unspecified)
    } else if number == 1 {
        Some(SampleFormat::F32)
    } else if number == 2 {
        Some(SampleFormat::I16)
    } else {
        None
    }
}

/// The error where a sample format has an unknown number.
pub open spec fn unknown_format(number: i32) -> ErrorView {
    ErrorView::AudioFormat("unknown sample format "@ + text::signed_text(number as int))
}

/// What is wrong with the audio layouts of a request, if anything.
pub open spec fn bad_audio(request: StartSessionRequestView) -> Option<ErrorView> {
    let input = input_of(request);
    let target = target_of(request);
    if !(8_000 <= input.sample_rate <= 192_000) {
        Some(
            ErrorView::AudioFormat(
                "input sample rate "@ + text::decimal_text(input.sample_rate as nat)
                    + " is out of range"@,
            ),
        )
    } else if !(1 <= input.channels <= 8) {
        Some(
            ErrorView::AudioFormat(
                "unsupported channel count "@ + text::decimal_text(input.channels as nat),
            ),
        )
    } else if format_of(input.format) is None {
        Some(unknown_format(input.format))
    } else if format_of(input.format) == Some(SampleFormat::Unspecified) {
        Some(ErrorView::AudioFormat("input sample format was not specified"@))
    } else if !(8_000 <= target <= 48_000) {
        Some(
            ErrorView::AudioFormat(
                "target sample rate "@ + text::decimal_text(target as nat) + " is out of range"@,
            ),
        )
    } else {
        None
    }
}

/// What is wrong with the translation that a request asks for, if anything: there is
/// none to be had.
pub open spec fn bad_translation(request: StartSessionRequestView) -> Option<ErrorView> {
    match request.translation {
        Some(translation) => if translation.provider.len() == 0 || translation.provider
            == "none"@ {
            None
        } else {
            Some(
                ErrorView::Unsupported(
                    "translation provider `"@ + translation.provider
                        + "` is not available in phase 1"@,
                ),
            )
        },
        None => None,
    }
}

/// The recognition provider that a request names.
pub open spec fn provider_of(request: StartSessionRequestView) -> Seq<char> {
    match request.asr {
        Some(config) => config.provider,
        None => "mock"@,
    }
}

/// The options of the recogniser that a request asks for.
pub open spec fn options_of(
    request: StartSessionRequestView,
    sentences: Seq<Seq<char>>,
) -> AsrOptionsView {
    match request.asr {
        Some(config) => AsrOptionsView {
            engine: config.engine,
            model_directory: config.model_directory,
            sentences,
            model: config.model,
            language: config.language,
            initial_prompt: Seq::empty(),
        },
        None => AsrOptionsView {
            engine: Seq::empty(),
            model_directory: Seq::empty(),
            sentences,
            model: Seq::empty(),
            language: Seq::empty(),
            initial_prompt: Seq::empty(),
        },
    }
}

/// The subtitle layout that a request asks for; zero lines or characters mean the
/// default.
pub open spec fn layout_of(request: StartSessionRequestView) -> SubtitleConfig {
    let standard = SubtitleConfig::standard();
    match request.subtitle {
        Some(config) => SubtitleConfig {
            max_lines: if config.max_lines == 0 {
                standard.max_lines
            } else {
                config.max_lines as usize
            },
            max_chars_per_line: if config.max_chars_per_line == 0 {
                standard.max_chars_per_line
            } else {
                config.max_chars_per_line as usize
            },
            partial_interval_ms: config.partial_interval_ms as u64,
        },
        None => standard,
    }
}

/// The name of a session; one that the client does not name is named after the process.
pub open spec fn id_of(request: StartSessionRequestView, process_id: u32) -> Seq<char> {
    if request.session_id.len() == 0 {
        "session-"@ + text::decimal_text(process_id as nat)
    } else {
        request.session_id
    }
}

/// The session that a request starts.
pub open spec fn started(
    request: StartSessionRequestView,
    sentences: Seq<Seq<char>>,
    process_id: u32,
    whisper_built: bool,
) -> std::result::Result<SessionView, ErrorView> {
    match (bad_audio(request), bad_translation(request)) {
        (Some(error), _) => Err(error),
        (None, Some(error)) => Err(error),
        (None, None) => match asr::created(
            provider_of(request),
            options_of(request, sentences),
            whisper_built,
        ) {
            Ok(recognizer) => Ok(
                SessionView {
                    id: id_of(request, process_id),
                    input_rate: input_of(request).sample_rate,
                    input_channels: input_of(request).channels as usize,
                    input_format: format_of(input_of(request).format)->0,
                    target_rate: target_of(request),
                    vad: VadView::initial(
                        VadConfig {
                            sample_rate: target_of(request),
                            frame_ms: 10,
                            start_frames: 3,
                            end_frames: 30,
                        },
                    ),
                    recognizer,
                    subtitles: StabilizerView::initial(layout_of(request)),
                    paused: false,
                    frames_since_metrics: 0,
                    metrics: Metrics::none(),
                },
            ),
            Err(error) => Err(error),
        },
    }
}

// ---------------------------------------------------------------------------
// The session
// ---------------------------------------------------------------------------

/// The model of [`Session`].
#[verifier::ext_equal]
pub struct SessionView {
    pub id: Seq<char>,
    pub input_rate: u32,
    pub input_channels: usize,
    pub input_format: SampleFormat,
    pub target_rate: u32,
    pub vad: VadView,
    pub recognizer: RecognizerView,
    pub subtitles: StabilizerView,
    pub paused: bool,
    pub frames_since_metrics: u64,
    pub metrics: Metrics,
}

impl SessionView {
    /// The audio layout is one that can be processed, and the parts are in order.
    pub open spec fn wf(self) -> bool {
        &&& 8_000 <= self.input_rate <= 192_000
        &&& 1 <= self.input_channels <= 8
        &&& self.input_format != SampleFormat::Unspecified
        &&& 8_000 <= self.target_rate <= 48_000
        &&& self.vad.wf()
        &&& self.recognizer.wf()
        &&& self.subtitles.wf()
        &&& self.frames_since_metrics < METRICS_EVERY_FRAMES
    }

    /// The session with one more frame counted.
    pub open spec fn frame_counted(self, bytes: nat) -> SessionView {
        SessionView {
            metrics: Metrics {
                audio_frames: self.metrics.audio_frames.wrapping_add(1),
                audio_bytes: self.metrics.audio_bytes.wrapping_add(bytes as u64),
                ..self.metrics
            },
            ..self
        }
    }

    /// The session with one more frame dropped.
    pub open spec fn frame_dropped(self) -> SessionView {
        SessionView {
            metrics: Metrics {
                dropped_frames: self.metrics.dropped_frames.wrapping_add(1),
                ..self.metrics
            },
            ..self
        }
    }

    /// The audio layout of a frame; that of the session where it names none.
    pub open spec fn declared(self, frame: AudioFrameView) -> AudioFormat {
        match frame.format {
            Some(format) => format,
            None => AudioFormat {
                sample_rate: self.input_rate,
                channels: self.input_channels as u32,
                format: self.input_format.number(),
            },
        }
    }

    /// The rate of a frame.
    pub open spec fn rate_of(self, frame: AudioFrameView) -> u32 {
        if self.declared(frame).sample_rate == 0 {
            self.input_rate
        } else {
            self.declared(frame).sample_rate
        }
    }

    /// The channels of a frame.
    pub open spec fn channels_of(self, frame: AudioFrameView) -> usize {
        if self.declared(frame).channels == 0 {
            self.input_channels
        } else {
            self.declared(frame).channels as usize
        }
    }

    /// How many bytes a frame should carry.
    pub open spec fn expected(self, frame: AudioFrameView, format: SampleFormat) -> usize {
        (frame.frames as usize).wrapping_mul(self.channels_of(frame)).wrapping_mul(
            pcm::sample_bytes(format) as usize,
        )
    }

    /// The error where a frame carries another number of bytes than it declares.
    pub open spec fn wrong_size(self, frame: AudioFrameView, format: SampleFormat) -> ErrorView {
        ErrorView::AudioFormat(
            "frame declares "@ + text::decimal_text(frame.frames as nat) + " frames x "@
                + text::decimal_text(self.channels_of(frame) as nat) + " ch x "@
                + text::decimal_text(pcm::sample_bytes(format)) + " B = "@ + text::decimal_text(
                self.expected(frame, format) as nat,
            ) + " bytes but carries "@ + text::decimal_text(frame.pcm.len()) + " bytes"@,
        )
    }

    /// What a frame that is not paused away comes to: the samples to process, or why
    /// it cannot be used.
    pub open spec fn checked(self, frame: AudioFrameView) -> std::result::Result<
        FramePlanView,
        ErrorView,
    > {
        match format_of(self.declared(frame).format) {
            None => Err(unknown_format(self.declared(frame).format)),
            Some(SampleFormat::Unspecified) => Err(pcm::unspecified()),
            Some(format) => if self.expected(frame, format) != frame.pcm.len() {
                Err(self.wrong_size(frame, format))
            } else {
                match pcm::samples_in(frame.pcm, format) {
                    Ok(samples) => Ok(
                        FramePlanView {
                            rate: self.rate_of(frame),
                            channels: self.channels_of(frame),
                            frames: frame.frames,
                            samples,
                        },
                    ),
                    Err(error) => Err(error),
                }
            },
        }
    }

    /// Whether a frame counts as dropped: its format is unknown or its size wrong.
    pub open spec fn drops(self, frame: AudioFrameView) -> bool {
        match format_of(self.declared(frame).format) {
            None => true,
            Some(SampleFormat::Unspecified) => false,
            Some(format) => self.expected(frame, format) != frame.pcm.len(),
        }
    }

    /// The session after a frame was checked.
    pub open spec fn after_push(self, frame: AudioFrameView) -> SessionView {
        let now = self.frame_counted(frame.pcm.len());
        if !self.paused && self.drops(frame) {
            now.frame_dropped()
        } else {
            now
        }
    }

    /// The session after the signal of a frame went through the detector and into the
    /// recogniser.
    pub open spec fn sounded(self, signal: FrameSignalView, infer_partial: bool) -> SessionView {
        let vad = self.vad.after_all(signal.levels);
        SessionView {
            vad,
            recognizer: self.recognizer.heard(
                signal.work,
                vad.active,
                signal.end_us,
                infer_partial,
            ),
            metrics: Metrics {
                speech_frames: self.metrics.speech_frames.wrapping_add(
                    vad::loud_frames(signal.levels) as u64,
                ),
                total_frames: self.metrics.total_frames.wrapping_add(signal.levels.len() as u64),
                ..self.metrics
            },
            ..self
        }
    }

    /// The events that the signal of a frame gives without any decoding.
    pub open spec fn sound_events(self, signal: FrameSignalView, infer_partial: bool) -> Seq<
        EventView,
    > {
        self.recognizer.heard_events(
            self.vad.after_all(signal.levels).active,
            signal.end_us,
            infer_partial,
        )
    }

    /// The session after recognition events were shown.
    pub open spec fn captioned(self, events: Seq<EventView>) -> SessionView {
        SessionView {
            subtitles: all_shown(self.subtitles, events),
            metrics: Metrics {
                subtitle_events: counted(
                    self.metrics.subtitle_events,
                    self.captions(events).len(),
                ),
                ..self.metrics
            },
            ..self
        }
    }

    /// The subtitles that recognition events give.
    pub open spec fn captions(self, events: Seq<EventView>) -> Seq<SubtitleEventView> {
        all_captions(self.subtitles, events, self.id)
    }

    /// Whether the frame that is being finished brings a report.
    pub open spec fn report_due(self) -> bool {
        self.frames_since_metrics.wrapping_add(1) >= METRICS_EVERY_FRAMES
    }

    /// The session once a frame with these events is through.
    pub open spec fn frame_finished(self, events: Seq<EventView>) -> SessionView {
        SessionView {
            frames_since_metrics: if self.report_due() {
                0
            } else {
                self.frames_since_metrics.wrapping_add(1)
            },
            ..self.captioned(events)
        }
    }

    /// What a frame with these events gives the client.
    pub open spec fn output(self, events: Seq<EventView>) -> OutputView {
        OutputView {
            subtitles: self.captions(events),
            metrics: if self.report_due() {
                Some(self.captioned(events).metrics)
            } else {
                None
            },
        }
    }

    /// The session once the model has decoded the audio.
    pub open spec fn model_finished(self) -> SessionView {
        SessionView { recognizer: self.recognizer.finished(), ..self }
    }

    /// The session once the model has failed to.
    pub open spec fn model_failed(self) -> SessionView {
        SessionView { recognizer: self.recognizer.abandoned(), ..self }
    }

    /// The session that is being stopped, before any decoding.
    pub open spec fn stopping(self) -> SessionView {
        SessionView { recognizer: self.recognizer.stopping(), ..self }
    }
}

/// A capture session.
pub struct Session {
    id: String,
    input_rate: u32,
    input_channels: usize,
    input_format: SampleFormat,
    target_rate: u32,
    vad: Vad,
    recognizer: Recognizer,
    subtitles: SubtitleStabilizer,
    paused: bool,
    frames_since_metrics: u64,
    metrics: Metrics,
}

impl View for Session {
    type V = SessionView;

    closed spec fn view(&self) -> SessionView {
        SessionView {
            id: self.id@,
            input_rate: self.input_rate,
            input_channels: self.input_channels,
            input_format: self.input_format,
            target_rate: self.target_rate,
            vad: self.vad@,
            recognizer: self.recognizer@,
            subtitles: self.subtitles@,
            paused: self.paused,
            frames_since_metrics: self.frames_since_metrics,
            metrics: self.metrics,
        }
    }
}

fn numbered(before: &str, number: u64, after: &str) -> (message: String)
    ensures
        message@ == before@ + text::decimal_text(number as nat) + after@,
{
    let mut message: String = text::appended(before, text::decimal(number).as_str());
    message.append(after);
    message
}

fn find_format(number: i32) -> (format: Option<SampleFormat>)
    ensures
        format == format_of(number),
{
    SampleFormat::from_value(number)
}

fn unknown_format_error(number: i32) -> (error: CoreError)
    ensures
        error@ == unknown_format(number),
{
    CoreError::AudioFormat(
        text::appended("unknown sample format ", text::signed_decimal(number).as_str()),
    )
}

/// Check the audio layouts of a request; the sample format and the rate to work at.
fn check_audio(request: &StartSessionRequest) -> (checked: Result<
    (AudioFormat, SampleFormat, u32),
>)
    ensures
        match checked {
            Ok((input, format, target)) => {
                &&& bad_audio(request@) is None
                &&& input == input_of(request@)
                &&& format_of(input.format) == Some(format)
                &&& target == target_of(request@)
            },
            Err(error) => bad_audio(request@) == Some(error@),
        },
{
    let input: AudioFormat = match request.input_format {
        Some(format) => format,
        None => AudioFormat {
            sample_rate: 48_000,
            channels: 2,
            format: SampleFormat::F32.value(),
        },
    };
    if input.sample_rate < 8_000 || input.sample_rate > 192_000 {
        return Err(
            CoreError::AudioFormat(
                numbered("input sample rate ", input.sample_rate as u64, " is out of range"),
            ),
        );
    }
    if input.channels == 0 || input.channels > 8 {
        return Err(
            CoreError::AudioFormat(
                text::appended(
                    "unsupported channel count ",
                    text::decimal(input.channels as u64).as_str(),
                ),
            ),
        );
    }
    let format: SampleFormat = match find_format(input.format) {
        Some(format) => format,
        None => {
            return Err(unknown_format_error(input.format));
        },
    };
    if format == SampleFormat::Unspecified {
        return Err(
            CoreError::AudioFormat("input sample format was not specified".to_string()),
        );
    }
    let target: u32 = if request.target_sample_rate == 0 {
        DEFAULT_TARGET_RATE
    } else {
        request.target_sample_rate
    };
    if target < 8_000 || target > 48_000 {
        return Err(
            CoreError::AudioFormat(
                numbered("target sample rate ", target as u64, " is out of range"),
            ),
        );
    }
    Ok((input, format, target))
}

/// Check the translation that a request asks for.
fn check_translation(request: &StartSessionRequest) -> (checked: Result<()>)
    ensures
        match checked {
            Ok(_) => bad_translation(request@) is None,
            Err(error) => bad_translation(request@) == Some(error@),
        },
{
    if let Some(translation) = &request.translation {
        let provider: &str = translation.provider.as_str();
        if !text::is_blank(provider) && !text::same_text(provider, "none") {
            let mut message: String = text::appended("translation provider `", provider);
            message.append("` is not available in phase 1");
            return Err(CoreError::Unsupported(message));
        }
    }
    Ok(())
}

/// The recogniser that a request asks for.
fn create_recognizer(
    request: &StartSessionRequest,
    mock_sentences: &Vec<String>,
    whisper_built: bool,
) -> (recognizer: Result<Recognizer>)
    ensures
        ({
            let wanted = asr::created(
                provider_of(request@),
                options_of(request@, text::texts(mock_sentences@)),
                whisper_built,
            );
            match recognizer {
                Ok(recognizer) => wanted == Ok::<RecognizerView, ErrorView>(recognizer@)
                    && recognizer@.wf(),
                Err(error) => wanted == Err::<RecognizerView, ErrorView>(error@),
            }
        }),
{
    let sentences: Vec<String> = text::copy_texts(mock_sentences);
    match &request.asr {
        Some(config) => {
            let options = AsrOptions {
                engine: config.engine.clone(),
                model_directory: config.model_directory.clone(),
                sentences,
                model: config.model.clone(),
                language: config.language.clone(),
                initial_prompt: String::new(),
            };
            asr::create(config.provider.as_str(), options, whisper_built)
        },
        None => {
            let options = AsrOptions {
                engine: String::new(),
                model_directory: String::new(),
                sentences,
                model: String::new(),
                language: String::new(),
                initial_prompt: String::new(),
            };
            asr::create("mock", options, whisper_built)
        },
    }
}

/// The subtitle layout that a request asks for.
fn subtitle_config(request: &StartSessionRequest) -> (cfg: SubtitleConfig)
    ensures
        cfg == layout_of(request@),
{
    let standard: SubtitleConfig = SubtitleConfig::default();
    match &request.subtitle {
        Some(config) => SubtitleConfig {
            max_lines: if config.max_lines == 0 {
                standard.max_lines
            } else {
                config.max_lines as usize
            },
            max_chars_per_line: if config.max_chars_per_line == 0 {
                standard.max_chars_per_line
            } else {
                config.max_chars_per_line as usize
            },
            partial_interval_ms: config.partial_interval_ms as u64,
        },
        None => standard,
    }
}

impl Session {
    /// Start the session that `request` asks for. `process_id` names a session that
    /// the client does not name; `whisper_built` says whether this build holds the
    /// Whisper model.
    pub fn start(
        request: &StartSessionRequest,
        mock_sentences: &Vec<String>,
        process_id: u32,
        whisper_built: bool,
    ) -> (session: Result<Session>)
        ensures
            ({
                let wanted = started(
                    request@,
                    text::texts(mock_sentences@),
                    process_id,
                    whisper_built,
                );
                match session {
                    Ok(session) => wanted == Ok::<SessionView, ErrorView>(session@)
                        && session@.wf(),
                    Err(error) => wanted == Err::<SessionView, ErrorView>(error@),
                }
            }),
    {
        let (input, input_format, target_rate): (AudioFormat, SampleFormat, u32) =
            match check_audio(request) {
            Ok(checked) => checked,
            Err(error) => {
                return Err(error);
            },
        };
        if let Err(error) = check_translation(request) {
            return Err(error);
        }
        let recognizer: Recognizer = match create_recognizer(
            request,
            mock_sentences,
            whisper_built,
        ) {
            Ok(recognizer) => recognizer,
            Err(error) => {
                return Err(error);
            },
        };
        let id: String = if text::is_blank(request.session_id.as_str()) {
            text::appended("session-", text::decimal(process_id as u64).as_str())
        } else {
            request.session_id.clone()
        };
        Ok(
            Session {
                id,
                input_rate: input.sample_rate,
                input_channels: input.channels as usize,
                input_format,
                target_rate,
                vad: Vad::new(VadConfig::new(target_rate)),
                recognizer,
                subtitles: SubtitleStabilizer::new(subtitle_config(request)),
                paused: false,
                frames_since_metrics: 0,
                metrics: Metrics {
                    audio_frames: 0,
                    audio_bytes: 0,
                    dropped_frames: 0,
                    speech_frames: 0,
                    total_frames: 0,
                    subtitle_events: 0,
                },
            },
        )
    }

    /// The name of the session.
    pub fn id(&self) -> (id: &str)
        ensures
            id@ == self@.id,
    {
        self.id.as_str()
    }

    /// Rate of the audio that comes in.
    pub fn input_rate(&self) -> (rate: u32)
        ensures
            rate == self@.input_rate,
    {
        self.input_rate
    }

    /// Rate the recogniser actually consumes.
    pub fn target_rate(&self) -> (rate: u32)
        ensures
            rate == self@.target_rate,
    {
        self.target_rate
    }

    /// Pause or resume.
    pub fn set_paused(&mut self, paused: bool)
        ensures
            final(self)@ == (SessionView { paused, ..old(self)@ }),
    {
        self.paused = paused;
    }

    /// Whether audio is only counted.
    pub fn is_paused(&self) -> (paused: bool)
        ensures
            paused == self@.paused,
    {
        self.paused
    }

    /// What has been counted so far.
    pub fn snapshot_metrics(&self) -> (metrics: Metrics)
        ensures
            metrics == self@.metrics,
    {
        self.metrics
    }

    /// The recogniser that needs a model, with its audio; `None` where it needs none.
    pub fn model_input(&self) -> (input: Option<&WhisperAsr>)
        ensures
            match input {
                Some(whisper) => self@.recognizer == RecognizerView::Whisper(whisper@),
                None => self@.recognizer is Mock,
            },
    {
        self.recognizer.model_input()
    }

    /// Count and check a frame. `None` where the session is paused.
    pub fn push_frame(&mut self, frame: &AudioFrame) -> (plan: Result<Option<FramePlan>>)
        requires
            old(self)@.wf(),
        ensures
            final(self)@ == old(self)@.after_push(frame@),
            final(self)@.wf(),
            match plan {
                Ok(None) => old(self)@.paused,
                Ok(Some(plan)) => !old(self)@.paused && old(self)@.checked(frame@) == Ok::<
                    FramePlanView,
                    ErrorView,
                >(plan@),
                Err(error) => !old(self)@.paused && old(self)@.checked(frame@) == Err::<
                    FramePlanView,
                    ErrorView,
                >(error@),
            },
    {
        self.metrics.audio_frames = self.metrics.audio_frames.wrapping_add(1);
        self.metrics.audio_bytes = self.metrics.audio_bytes.wrapping_add(frame.pcm.len() as u64);
        if self.paused {
            return Ok(None);
        }
        let declared: AudioFormat = match frame.format {
            Some(format) => format,
            None => AudioFormat {
                sample_rate: self.input_rate,
                channels: self.input_channels as u32,
                format: self.input_format.value(),
            },
        };
        let format: SampleFormat = match find_format(declared.format) {
            Some(format) => format,
            None => {
                self.metrics.dropped_frames = self.metrics.dropped_frames.wrapping_add(1);
                return Err(unknown_format_error(declared.format));
            },
        };
        let rate: u32 = if declared.sample_rate == 0 {
            self.input_rate
        } else {
            declared.sample_rate
        };
        let channels: usize = if declared.channels == 0 {
            self.input_channels
        } else {
            declared.channels as usize
        };
        let sample_bytes: usize = match pcm::bytes_per_sample(format) {
            Ok(size) => size,
            Err(error) => {
                return Err(error);
            },
        };
        let expected: usize = (frame.frames as usize).wrapping_mul(channels).wrapping_mul(
            sample_bytes,
        );
        if expected != frame.pcm.len() {
            self.metrics.dropped_frames = self.metrics.dropped_frames.wrapping_add(1);
            let mut message: String = numbered(
                "frame declares ",
                frame.frames as u64,
                " frames x ",
            );
            message.append(numbered("", channels as u64, " ch x ").as_str());
            message.append(numbered("", sample_bytes as u64, " B = ").as_str());
            message.append(numbered("", expected as u64, " bytes but carries ").as_str());
            message.append(numbered("", frame.pcm.len() as u64, " bytes").as_str());
            proof {
                reveal_strlit("");
                assert(message@ =~= old(self)@.wrong_size(frame@, format)->AudioFormat_0);
            }
            return Err(CoreError::AudioFormat(message));
        }
        match pcm::decode_to_f32(frame.pcm.as_slice(), format) {
            Ok(samples) => Ok(
                Some(FramePlan { rate, channels, frames: frame.frames, samples }),
            ),
            Err(error) => Err(error),
        }
    }

    /// Show recognition events.
    fn show(&mut self, events: &Vec<RecognitionEvent>) -> (subtitles: Vec<SubtitleEvent>)
        requires
            old(self)@.wf(),
        ensures
            final(self)@ == old(self)@.captioned(asr::event_views(events@)),
            final(self)@.wf(),
            subtitle_views(subtitles@) == old(self)@.captions(asr::event_views(events@)),
    {
        let ghost views = asr::event_views(events@);
        let mut subtitles: Vec<SubtitleEvent> = Vec::new();
        let mut i: usize = 0;
        assert(views.take(0) =~= Seq::empty());
        assert(subtitle_views(subtitles@) =~= Seq::empty());
        while i < events.len()
            invariant
                i <= events@.len(),
                views == asr::event_views(events@),
                self@ == old(self)@.captioned(views.take(i as int)),
                self@.wf(),
                subtitle_views(subtitles@) == old(self)@.captions(views.take(i as int)),
            decreases events@.len() - i,
        {
            let ghost before = self@;
            let ghost done = subtitles@;
            proof {
                assert(views.take(i + 1).drop_last() =~= views.take(i as int));
                assert(views.take(i + 1).last() == events@[i as int]@);
            }
            let event: Option<SubtitleEvent> = match &events[i] {
                RecognitionEvent::Partial { text, start_us, end_us } => self.subtitles.on_partial(
                    text.as_str(),
                    *start_us,
                    *end_us,
                    self.id.as_str(),
                ),
                RecognitionEvent::Final { text, start_us, end_us, confidence } =>
                self.subtitles.on_final(
                    text.as_str(),
                    *start_us,
                    *end_us,
                    *confidence,
                    self.id.as_str(),
                ),
            };
            assert(subtitle::event_view(event) == caption(
                before.subtitles,
                events@[i as int]@,
                before.id,
            ));
            if let Some(event) = event {
                self.metrics.subtitle_events = self.metrics.subtitle_events.wrapping_add(1);
                subtitles.push(event);
                assert(subtitle_views(subtitles@) =~= subtitle_views(done).push(event@));
            }
            i += 1;
            assert(self@ =~= old(self)@.captioned(views.take(i as int)));
        }
        assert(views.take(i as int) =~= views);
        subtitles
    }

    /// Finish a frame whose recognition events are there.
    fn finish_frame(&mut self, events: &Vec<RecognitionEvent>) -> (output: SessionOutput)
        requires
            old(self)@.wf(),
        ensures
            final(self)@ == old(self)@.frame_finished(asr::event_views(events@)),
            final(self)@.wf(),
            output@ == old(self)@.output(asr::event_views(events@)),
    {
        let subtitles: Vec<SubtitleEvent> = self.show(events);
        self.frames_since_metrics = self.frames_since_metrics.wrapping_add(1);
        let mut metrics: Option<Metrics> = None;
        if self.frames_since_metrics >= METRICS_EVERY_FRAMES {
            self.frames_since_metrics = 0;
            metrics = Some(self.snapshot_metrics());
        }
        SessionOutput { subtitles, metrics }
    }

    /// Take on what signal processing made of a frame. Only where `infer_partial` is
    /// set may the frame ask for a partial decode.
    pub fn process(&mut self, signal: &FrameSignal, infer_partial: bool) -> (step: FrameStep)
        requires
            old(self)@.wf(),
        ensures
            final(self)@.wf(),
            ({
                let sounded = old(self)@.sounded(signal@, infer_partial);
                let events = old(self)@.sound_events(signal@, infer_partial);
                match step {
                    FrameStep::Decode => {
                        &&& sounded.recognizer.needs_model()
                        &&& final(self)@ == sounded
                    },
                    FrameStep::Done(output) => {
                        &&& !sounded.recognizer.needs_model()
                        &&& final(self)@ == sounded.frame_finished(events)
                        &&& output@ == sounded.output(events)
                    },
                }
            }),
    {
        let ghost sounded = old(self)@.sounded(signal@, infer_partial);
        proof {
            vad::law_invariant(self.vad@.cfg, self.vad@, signal.levels@);
        }
        let vad: VadResult = self.vad.push(signal.levels.as_slice());
        self.metrics.speech_frames = self.metrics.speech_frames.wrapping_add(
            vad.speech_frames as u64,
        );
        self.metrics.total_frames = self.metrics.total_frames.wrapping_add(
            vad.completed_frames as u64,
        );
        match self.recognizer.push_audio(
            signal.work.as_slice(),
            vad.active,
            signal.end_us,
            infer_partial,
        ) {
            RecognizerStep::Done(events) => {
                assert(self@ =~= sounded);
                FrameStep::Done(self.finish_frame(&events))
            },
            RecognizerStep::Decode => {
                assert(self@ =~= sounded);
                FrameStep::Decode
            },
        }
    }

    /// The segments that the model found for a frame.
    pub fn decoded(&mut self, segments: &Vec<DecodedSegment>) -> (output: SessionOutput)
        requires
            old(self)@.wf(),
        ensures
            final(self)@.wf(),
            ({
                let events = old(self)@.recognizer.decoded_events(
                    whisper::decoded_views(segments@),
                );
                &&& final(self)@ == old(self)@.model_finished().frame_finished(events)
                &&& output@ == old(self)@.model_finished().output(events)
            }),
    {
        let events: Vec<RecognitionEvent> = self.recognizer.finish(segments);
        assert(self@ =~= old(self)@.model_finished());
        self.finish_frame(&events)
    }

    /// The model could not decode the audio, of a frame or where the session stops.
    pub fn decode_failed(&mut self)
        requires
            old(self)@.wf(),
        ensures
            final(self)@ == old(self)@.model_failed(),
            final(self)@.wf(),
    {
        self.recognizer.abandon();
    }

    /// Flush any buffered recognition result; the final subtitles.
    pub fn flush(&mut self) -> (step: FlushStep)
        requires
            old(self)@.wf(),
        ensures
            final(self)@.wf(),
            ({
                let stopping = old(self)@.stopping();
                let events = old(self)@.recognizer.stopping_events();
                match step {
                    FlushStep::Decode => {
                        &&& stopping.recognizer.needs_model()
                        &&& final(self)@ == stopping
                    },
                    FlushStep::Done(subtitles) => {
                        &&& !stopping.recognizer.needs_model()
                        &&& final(self)@ == stopping.captioned(events)
                        &&& subtitle_views(subtitles@) == stopping.captions(events)
                    },
                }
            }),
    {
        match self.recognizer.flush() {
            RecognizerStep::Done(events) => {
                assert(self@ =~= old(self)@.stopping());
                FlushStep::Done(self.show(&events))
            },
            RecognizerStep::Decode => {
                assert(self@ =~= old(self)@.stopping());
                FlushStep::Decode
            },
        }
    }

    /// The segments that the model found where the session stops.
    pub fn flushed(&mut self, segments: &Vec<DecodedSegment>) -> (subtitles: Vec<SubtitleEvent>)
        requires
            old(self)@.wf(),
        ensures
            final(self)@.wf(),
            ({
                let events = old(self)@.recognizer.decoded_events(
                    whisper::decoded_views(segments@),
                );
                &&& final(self)@ == old(self)@.model_finished().captioned(events)
                &&& subtitle_views(subtitles@) == old(self)@.model_finished().captions(events)
            }),
    {
        let events: Vec<RecognitionEvent> = self.recognizer.finish(segments);
        assert(self@ =~= old(self)@.model_finished());
        self.show(&events)
    }
}

// ---------------------------------------------------------------------------
// Laws
// ---------------------------------------------------------------------------

/// A product of machine words that has an even factor is even, and one that has a
/// factor of four is a multiple of four, also where it does not fit a word.
proof fn lemma_whole_product(a: usize, size: usize)
    requires
        size == 2 || size == 4,
    ensures
        a.wrapping_mul(size) % size == 0,
{
    let product = a.wrapping_mul(size);
    assert(usize::MAX == 0xFFFF_FFFF || usize::MAX == 0xFFFF_FFFF_FFFF_FFFF);
    let range = usize::MAX + 1;
    assert(product == (a * size) % range);
    assert(range % 4 == 0);
    let q = (a * size) / range;
    vstd::arithmetic::div_mod::lemma_fundamental_div_mod(a * size, range);
    if size == 2 {
        assert(product == 2 * (a - q * (range / 2))) by (nonlinear_arith)
            requires
                a * 2 == range * q + product,
                range % 4 == 0,
        ;
    } else {
        assert(product == 4 * (a - q * (range / 4))) by (nonlinear_arith)
            requires
                a * 4 == range * q + product,
                range % 4 == 0,
        ;
    }
}

/// A frame of a known format that carries as many bytes as it declares is accepted,
/// and one that is not is refused for the first of these reasons that holds.
pub proof fn law_accepted(session: SessionView, frame: AudioFrameView)
    requires
        session.wf(),
        frame.pcm.len() <= usize::MAX,
    ensures
        session.checked(frame) is Ok <==> {
            &&& format_of(session.declared(frame).format) matches Some(format)
            &&& format != SampleFormat::Unspecified
            &&& session.expected(frame, format) == frame.pcm.len()
        },
{
    if let Some(format) = format_of(session.declared(frame).format) {
        if format != SampleFormat::Unspecified {
            lemma_whole_product(
                (frame.frames as usize).wrapping_mul(session.channels_of(frame)),
                pcm::sample_bytes(format) as usize,
            );
        }
    }
}

/// A paused session only counts: neither the detector, nor the recogniser, nor the
/// subtitles see the frame, and nothing counts as dropped.
pub proof fn law_paused(session: SessionView, frame: AudioFrameView)
    requires
        session.paused,
    ensures
        session.after_push(frame) == (SessionView {
            metrics: Metrics {
                audio_frames: session.metrics.audio_frames.wrapping_add(1),
                audio_bytes: session.metrics.audio_bytes.wrapping_add(frame.pcm.len() as u64),
                ..session.metrics
            },
            ..session
        }),
{
}

/// A frame that is refused changes nothing but the counters.
pub proof fn law_refused(session: SessionView, frame: AudioFrameView)
    ensures
        session.after_push(frame) == (SessionView {
            metrics: session.after_push(frame).metrics,
            ..session
        }),
{
}

/// Subtitles are numbered one after the other, across all events of a session.
pub proof fn law_numbered(subtitles: StabilizerView, events: Seq<EventView>, id: Seq<char>)
    ensures
        ({
            let captions = all_captions(subtitles, events, id);
            &&& all_shown(subtitles, events).seq == counted(subtitles.seq, captions.len())
            &&& forall|i: int| #![trigger captions[i]]
                0 <= i < captions.len() ==> captions[i].seq == counted(
                    subtitles.seq,
                    (i + 1) as nat,
                ) && captions[i].session_id == id
        }),
    decreases events.len(),
{
    if events.len() > 0 {
        law_numbered(subtitles, events.drop_last(), id);
        let before = all_captions(subtitles, events.drop_last(), id);
        let captions = all_captions(subtitles, events, id);
        assert forall|i: int| #![trigger captions[i]] 0 <= i < captions.len() implies {
            &&& captions[i].seq == counted(subtitles.seq, (i + 1) as nat)
            &&& captions[i].session_id == id
        } by {
            if i < before.len() {
                assert(captions[i] == before[i]);
            }
        }
    }
}

/// Metrics come with every [`METRICS_EVERY_FRAMES`]-th processed frame: the frames
/// since the last report are counted up to there and start again.
pub proof fn law_report_cadence(session: SessionView, events: Seq<EventView>)
    requires
        session.wf(),
    ensures
        session.report_due() <==> session.frames_since_metrics == METRICS_EVERY_FRAMES - 1,
        session.output(events).metrics is Some <==> session.report_due(),
        session.frame_finished(events).frames_since_metrics == (session.frames_since_metrics + 1)
            % METRICS_EVERY_FRAMES as int,
{
}

/// A session that can be started is in order, and starts unpaused with nothing counted.
pub proof fn law_started(
    request: StartSessionRequestView,
    sentences: Seq<Seq<char>>,
    process_id: u32,
    whisper_built: bool,
)
    ensures
        started(request, sentences, process_id, whisper_built) matches Ok(session) ==> {
            &&& 8_000 <= session.input_rate <= 192_000
            &&& 1 <= session.input_channels <= 8
            &&& session.input_format != SampleFormat::Unspecified
            &&& 8_000 <= session.target_rate <= 48_000
            &&& session.frames_since_metrics < METRICS_EVERY_FRAMES
            &&& !session.paused
            &&& session.metrics == Metrics::none()
        },
{
}

/// The end of an utterance is committed: where the stand-in recogniser was hearing
/// speech and the frame ends it, exactly one subtitle comes out, settled and with the
/// whole sentence, unless that says nothing or repeats the last one.
pub proof fn law_utterance_committed(
    session: SessionView,
    signal: FrameSignalView,
    infer_partial: bool,
)
    requires
        session.recognizer is Mock,
        session.recognizer->Mock_0.speaking,
        !session.vad.after_all(signal.levels).active,
        session.subtitles.commits(session.recognizer->Mock_0.full_text()),
    ensures
        ({
            let said = session.recognizer->Mock_0.full_text();
            let subtitles = session.sounded(signal, infer_partial).output(
                session.sound_events(signal, infer_partial),
            ).subtitles;
            &&& subtitles.len() == 1
            &&& subtitles[0].kind == SubtitleKind::Committed.number()
            &&& subtitles[0].text == subtitle::normalized(said)
            &&& subtitles[0].session_id == session.id
            &&& subtitles[0].end_us == signal.end_us
        }),
{
    let events = session.sound_events(signal, infer_partial);
    assert(events.drop_last() =~= Seq::empty());
    assert(all_shown(session.subtitles, events.drop_last()) == session.subtitles);
    assert(all_captions(session.subtitles, events.drop_last(), session.id) =~= Seq::empty());
}

/// A frame with everything that is done for it outside.
pub struct FrameInput {
    pub frame: AudioFrameView,
    pub signal: FrameSignalView,
    pub infer_partial: bool,
    /// What the model finds where it is asked; `None` where it fails.
    pub decoded: Option<Seq<DecodedView>>,
}

/// What happens to a running session.
pub enum SessionInput {
    Pause(bool),
    Frame(FrameInput),
}

impl SessionView {
    /// The session after something happened to it, and what a frame that was accepted
    /// gives: neither one that is paused away nor one that fails is.
    #[verifier::opaque]
    pub open spec fn fed(self, input: SessionInput) -> (SessionView, Option<OutputView>) {
        match input {
            SessionInput::Pause(paused) => (SessionView { paused, ..self }, None),
            SessionInput::Frame(input) => {
                let pushed = self.after_push(input.frame);
                let sounded = pushed.sounded(input.signal, input.infer_partial);
                if self.paused || self.checked(input.frame) is Err {
                    (pushed, None)
                } else if !sounded.recognizer.needs_model() {
                    let events = pushed.sound_events(input.signal, input.infer_partial);
                    (sounded.frame_finished(events), Some(sounded.output(events)))
                } else {
                    match input.decoded {
                        Some(decoded) => {
                            let events = sounded.recognizer.decoded_events(decoded);
                            let finished = sounded.model_finished();
                            (finished.frame_finished(events), Some(finished.output(events)))
                        },
                        None => (sounded.model_failed(), None),
                    }
                }
            },
        }
    }

    /// The session after several things happened to it.
    pub open spec fn all_fed(self, inputs: Seq<SessionInput>) -> SessionView
        decreases inputs.len(),
    {
        if inputs.len() == 0 {
            self
        } else {
            self.all_fed(inputs.drop_last()).fed(inputs.last()).0
        }
    }

    /// How many frames were accepted among what happened.
    pub open spec fn accepted(self, inputs: Seq<SessionInput>) -> nat
        decreases inputs.len(),
    {
        if inputs.len() == 0 {
            0
        } else {
            self.accepted(inputs.drop_last()) + if self.all_fed(inputs.drop_last()).fed(
                inputs.last(),
            ).1 is Some {
                1nat
            } else {
                0nat
            }
        }
    }
}

/// One step: an accepted frame goes towards the next report, anything else does not.
proof fn lemma_fed(session: SessionView, input: SessionInput)
    requires
        session.frames_since_metrics < METRICS_EVERY_FRAMES,
    ensures
        ({
            let (after, output) = session.fed(input);
            &&& after.id == session.id
            &&& after.frames_since_metrics == if output is None {
                session.frames_since_metrics as int
            } else if session.frames_since_metrics + 1 == METRICS_EVERY_FRAMES {
                0
            } else {
                session.frames_since_metrics + 1
            }
            &&& output matches Some(output) ==> {
                &&& output.metrics is Some <==> session.frames_since_metrics + 1
                    == METRICS_EVERY_FRAMES
                &&& output.metrics matches Some(metrics) ==> metrics == after.metrics
                &&& after.metrics.subtitle_events == counted(
                    session.metrics.subtitle_events,
                    output.subtitles.len(),
                )
                &&& forall|i: int| #![trigger output.subtitles[i]]
                    0 <= i < output.subtitles.len() ==> output.subtitles[i].session_id
                        == session.id
            }
        }),
{
    reveal(SessionView::fed);
    if let SessionInput::Frame(input) = input {
        let pushed = session.after_push(input.frame);
        let sounded = pushed.sounded(input.signal, input.infer_partial);
        if !sounded.recognizer.needs_model() {
            let events = pushed.sound_events(input.signal, input.infer_partial);
            law_numbered(sounded.subtitles, events, sounded.id);
        } else if let Some(decoded) = input.decoded {
            let events = sounded.recognizer.decoded_events(decoded);
            law_numbered(sounded.subtitles, events, sounded.id);
        }
    }
}

/// The frames since the last report are those accepted since, and the name stays.
proof fn lemma_accepted(session: SessionView, inputs: Seq<SessionInput>)
    requires
        session.frames_since_metrics == 0,
    ensures
        session.all_fed(inputs).frames_since_metrics == session.accepted(inputs)
            % METRICS_EVERY_FRAMES as nat,
        session.all_fed(inputs).id == session.id,
    decreases inputs.len(),
{
    if inputs.len() > 0 {
        lemma_accepted(session, inputs.drop_last());
        let before = session.all_fed(inputs.drop_last());
        assert(before.frames_since_metrics < METRICS_EVERY_FRAMES);
        lemma_fed(before, inputs.last());
        let (after, output) = before.fed(inputs.last());
        assert(session.all_fed(inputs) == after);
    }
}

/// From the start of a session on, a report comes with exactly every
/// [`METRICS_EVERY_FRAMES`]-th frame that is accepted, and says what has been counted
/// with that frame; frames that are paused away or fail do not advance the count. An
/// accepted frame counts exactly the subtitles that it gives, and each carries the name
/// of the session.
pub proof fn law_every_report(
    request: StartSessionRequestView,
    sentences: Seq<Seq<char>>,
    process_id: u32,
    whisper_built: bool,
    inputs: Seq<SessionInput>,
    last: SessionInput,
)
    ensures
        started(request, sentences, process_id, whisper_built) matches Ok(session) ==> {
            let before = session.all_fed(inputs);
            let (after, output) = before.fed(last);
            let count = session.accepted(inputs.push(last));
            &&& after == session.all_fed(inputs.push(last))
            &&& count == session.accepted(inputs) + if output is Some {
                1nat
            } else {
                0nat
            }
            &&& output matches Some(output) ==> {
                &&& output.metrics is Some <==> count % METRICS_EVERY_FRAMES as nat == 0
                &&& output.metrics matches Some(metrics) ==> metrics == after.metrics
                &&& after.metrics.subtitle_events == counted(
                    before.metrics.subtitle_events,
                    output.subtitles.len(),
                )
                &&& forall|i: int| #![trigger output.subtitles[i]]
                    0 <= i < output.subtitles.len() ==> output.subtitles[i].session_id
                        == session.id
            }
        },
{
    if let Ok(session) = started(request, sentences, process_id, whisper_built) {
        lemma_accepted(session, inputs);
        assert(inputs.push(last).drop_last() =~= inputs);
        lemma_fed(session.all_fed(inputs), last);
    }
}

/// Events are shown one after the other: the subtitles of two runs of events are those of
/// the first, then those of the second in the state that the first leaves; and a single
/// event gives what the stabilizer gives for it.
pub proof fn law_captions(
    subtitles: StabilizerView,
    a: Seq<EventView>,
    b: Seq<EventView>,
    id: Seq<char>,
)
    ensures
        all_shown(subtitles, a + b) == all_shown(all_shown(subtitles, a), b),
        all_captions(subtitles, a + b, id) == all_captions(subtitles, a, id) + all_captions(
            all_shown(subtitles, a),
            b,
            id,
        ),
    decreases b.len(),
{
    if b.len() == 0 {
        assert(a + b =~= a);
        assert(all_captions(subtitles, a, id) + Seq::empty() =~= all_captions(subtitles, a, id));
    } else {
        law_captions(subtitles, a, b.drop_last(), id);
        assert((a + b).drop_last() =~= a + b.drop_last());
        assert(all_captions(subtitles, a + b, id) =~= all_captions(subtitles, a, id)
            + all_captions(all_shown(subtitles, a), b, id));
    }
}

/// A recognised text becomes a subtitle that carries it whole, with its times and the name
/// of the session: one that may still change for a partial text that shows, and a settled
/// one, with its confidence, for a final text that is committed. Any other text gives
/// none.
pub proof fn law_caption(session: SessionView, event: EventView)
    ensures
        ({
            let captions = session.captions(seq![event]);
            match event {
                EventView::Partial { text, start_us, end_us } => if session.subtitles.shows_partial(
                    text,
                    end_us,
                ) {
                    &&& captions.len() == 1
                    &&& captions[0].kind == SubtitleKind::Partial.number()
                    &&& captions[0].text == subtitle::normalized(text)
                    &&& captions[0].start_us == start_us
                    &&& captions[0].end_us == end_us
                    &&& captions[0].session_id == session.id
                } else {
                    captions.len() == 0
                },
                EventView::Final { text, start_us, end_us, confidence } =>
                if session.subtitles.commits(text) {
                    &&& captions.len() == 1
                    &&& captions[0].kind == SubtitleKind::Committed.number()
                    &&& captions[0].text == subtitle::normalized(text)
                    &&& captions[0].start_us == start_us
                    &&& captions[0].end_us == end_us
                    &&& captions[0].confidence == confidence
                    &&& captions[0].session_id == session.id
                } else {
                    captions.len() == 0
                },
            }
        }),
        session.captioned(seq![event]).recognizer == session.recognizer,
        session.captioned(seq![event]).vad == session.vad,
{
    let events = seq![event];
    assert(events.drop_last() =~= Seq::empty());
    assert(all_shown(session.subtitles, events.drop_last()) == session.subtitles);
    assert(all_captions(session.subtitles, events.drop_last(), session.id) =~= Seq::empty());
}

/// A session is started exactly where the audio layouts are in range, no translation is
/// asked for, and the recogniser can be had.
pub proof fn law_accepts(
    request: StartSessionRequestView,
    sentences: Seq<Seq<char>>,
    process_id: u32,
    whisper_built: bool,
)
    ensures
        ({
            let input = request.input_format;
            let provider = if request.asr is None {
                "mock"@
            } else {
                (request.asr->0).provider
            };
            started(request, sentences, process_id, whisper_built) is Ok <==> {
                &&& input is Some ==> {
                    &&& 8_000 <= (input->0).sample_rate <= 192_000
                    &&& 1 <= (input->0).channels <= 8
                    &&& (input->0).format == SampleFormat::F32.number() || (input->0).format
                        == SampleFormat::I16.number()
                }
                &&& request.target_sample_rate == 0 || 8_000 <= request.target_sample_rate
                    <= 48_000
                &&& request.translation is Some ==> (request.translation->0).provider.len() == 0
                    || (request.translation->0).provider == "none"@
                &&& provider.len() == 0 || provider == "mock"@ || provider == "whisper"@
                    && whisper_built
            }
        }),
{
}

/// A session that is started takes over what the request says: its name, rates, channels
/// and format, the sentences or the options of its recogniser, and the subtitle layout.
pub proof fn law_takes_over(
    request: StartSessionRequestView,
    sentences: Seq<Seq<char>>,
    process_id: u32,
    whisper_built: bool,
)
    ensures
        started(request, sentences, process_id, whisper_built) matches Ok(session) ==> {
            &&& request.session_id.len() > 0 ==> session.id == request.session_id
            &&& request.session_id.len() == 0 ==> session.id == "session-"@ + text::decimal_text(
                process_id as nat,
            )
            &&& request.input_format matches Some(input) ==> session.input_rate
                == input.sample_rate && session.input_channels == input.channels
                && session.input_format.number() == input.format
            &&& request.input_format is None ==> session.input_rate == 48_000
                && session.input_channels == 2 && session.input_format == SampleFormat::F32
            &&& session.target_rate == if request.target_sample_rate == 0 {
                16_000
            } else {
                request.target_sample_rate
            }
            &&& session.vad.cfg.sample_rate == session.target_rate
            &&& session.recognizer matches RecognizerView::Mock(mock) ==> sentences.len() > 0
                ==> mock.sentences == sentences
            &&& session.recognizer matches RecognizerView::Whisper(whisper) ==> {
                &&& whisper.options.model == (request.asr->0).model
                &&& whisper.options.language == (request.asr->0).language
                &&& whisper.options.engine == (request.asr->0).engine
                &&& whisper.options.model_directory == (request.asr->0).model_directory
                &&& whisper.audio.len() == 0
            }
            &&& request.subtitle matches Some(layout) ==> {
                &&& layout.max_lines > 0 ==> session.subtitles.cfg.max_lines == layout.max_lines
                &&& layout.max_chars_per_line > 0 ==> session.subtitles.cfg.max_chars_per_line
                    == layout.max_chars_per_line
                &&& session.subtitles.cfg.partial_interval_ms == layout.partial_interval_ms
            }
            &&& session.subtitles.history.len() == 0 && session.subtitles.seq == 0
        },
{
    reveal_strlit("mock");
    reveal_strlit("whisper");
}

/// A product that fits a machine word does not wrap.
proof fn lemma_no_wrap(a: usize, b: usize)
    requires
        a * b <= usize::MAX,
    ensures
        a.wrapping_mul(b) == a * b,
{
    assert(0 <= a * b) by (nonlinear_arith);
    let range = usize::MAX + 1;
    assert(usize::MAX == 0xFFFF_FFFF || usize::MAX == 0xFFFF_FFFF_FFFF_FFFF);
    assert(a.wrapping_mul(b) == (a * b) % range);
    vstd::arithmetic::div_mod::lemma_small_mod((a * b) as nat, range as nat);
}

/// The samples of an accepted frame are those that its payload holds, one for each
/// channel and moment, in its own layout; what the layout leaves open is that of the
/// session.
pub proof fn law_plan(session: SessionView, frame: AudioFrameView)
    requires
        session.wf(),
        frame.frames * 8 * 4 <= usize::MAX,
        frame.format matches Some(format) ==> format.channels <= 8,
    ensures
        session.checked(frame) matches Ok(plan) ==> {
            let format = if frame.format is None {
                session.input_format.number()
            } else {
                (frame.format->0).format
            };
            &&& plan.frames == frame.frames
            &&& plan.samples.len() == plan.frames * plan.channels
            &&& format == SampleFormat::F32.number() ==> pcm::samples_in(
                frame.pcm,
                SampleFormat::F32,
            ) == Ok::<Seq<u32>, ErrorView>(plan.samples)
            &&& format == SampleFormat::I16.number() ==> pcm::samples_in(
                frame.pcm,
                SampleFormat::I16,
            ) == Ok::<Seq<u32>, ErrorView>(plan.samples)
            &&& frame.format is None ==> plan.rate == session.input_rate && plan.channels
                == session.input_channels
            &&& frame.format matches Some(own) ==> {
                &&& own.sample_rate != 0 ==> plan.rate == own.sample_rate
                &&& own.sample_rate == 0 ==> plan.rate == session.input_rate
                &&& own.channels != 0 ==> plan.channels == own.channels
                &&& own.channels == 0 ==> plan.channels == session.input_channels
            }
        },
{
    if let Ok(plan) = session.checked(frame) {
        let channels = plan.channels;
        let format = format_of(session.declared(frame).format)->0;
        let size = pcm::sample_bytes(format) as usize;
        assert(frame.frames * channels * size <= usize::MAX && frame.frames * channels
            <= usize::MAX) by (nonlinear_arith)
            requires
                channels <= 8,
                size <= 4,
                frame.frames * 8 * 4 <= usize::MAX,
        ;
        pcm::law_whole_samples(frame.pcm, format);
        let product = frame.frames * channels;
        lemma_no_wrap(frame.frames as usize, channels);
        lemma_no_wrap(product as usize, size);
        assert(frame.pcm.len() == product * size);
        assert(plan.samples.len() * size == product * size);
        assert(plan.samples.len() == product) by (nonlinear_arith)
            requires
                plan.samples.len() * size == product * size,
                size > 0,
        ;
    }
}

/// What a frame is counted for: a frame and its bytes whenever it comes, a drop where it
/// is refused, unless its format says nothing, and analysis frames and loud ones among them
/// where it is processed.
pub proof fn law_counters(session: SessionView, frame: AudioFrameView, signal: FrameSignalView)
    requires
        session.wf(),
        frame.pcm.len() <= usize::MAX,
        session.metrics.audio_frames < u64::MAX,
        session.metrics.audio_bytes + frame.pcm.len() <= u64::MAX,
        session.metrics.dropped_frames < u64::MAX,
        session.metrics.speech_frames + signal.levels.len() <= u64::MAX,
        session.metrics.total_frames + signal.levels.len() <= u64::MAX,
    ensures
        ({
            let pushed = session.after_push(frame).metrics;
            let sounded = session.sounded(signal, true).metrics;
            let unspecified = frame.format is Some && (frame.format->0).format == 0;
            &&& pushed.audio_frames == session.metrics.audio_frames + 1
            &&& pushed.audio_bytes == session.metrics.audio_bytes + frame.pcm.len()
            &&& session.paused || session.checked(frame) is Ok || unspecified
                ==> pushed.dropped_frames == session.metrics.dropped_frames
            &&& !session.paused && session.checked(frame) is Err && !unspecified
                ==> pushed.dropped_frames == session.metrics.dropped_frames + 1
            &&& sounded.total_frames == session.metrics.total_frames + signal.levels.len()
            &&& sounded.speech_frames == session.metrics.speech_frames + vad::loud_frames(
                signal.levels,
            )
        }),
{
    vad::law_loud_frames(signal.levels, Seq::empty(), arbitrary());
    law_accepted(session, frame);
}

/// A frame that is processed is heard: the recogniser gets its samples and its time, with
/// speech exactly where the detector is open behind all its analysis frames.
pub proof fn law_heard(session: SessionView, signal: FrameSignalView, infer_partial: bool)
    ensures
        ({
            let sounded = session.sounded(signal, infer_partial);
            &&& sounded.vad == session.vad.after_all(signal.levels)
            &&& sounded.recognizer == session.recognizer.heard(
                signal.work,
                sounded.vad.active,
                signal.end_us,
                infer_partial,
            )
            &&& sounded.subtitles == session.subtitles
            &&& sounded.id == session.id
            &&& sounded.paused == session.paused
        }),
{
}

/// What a request leaves out is the usual: the layout of subtitles as a whole or by its
/// parts, and a prompt; the detector looks at ten milliseconds at a time, opens after three
/// loud ones and closes after thirty quiet ones.
pub proof fn law_usual(
    request: StartSessionRequestView,
    sentences: Seq<Seq<char>>,
    process_id: u32,
    whisper_built: bool,
)
    ensures
        started(request, sentences, process_id, whisper_built) matches Ok(session) ==> {
            &&& request.subtitle is None ==> session.subtitles.cfg == SubtitleConfig::standard()
            &&& request.subtitle matches Some(layout) ==> {
                &&& layout.max_lines == 0 ==> session.subtitles.cfg.max_lines
                    == SubtitleConfig::standard().max_lines
                &&& layout.max_chars_per_line == 0 ==> session.subtitles.cfg.max_chars_per_line
                    == SubtitleConfig::standard().max_chars_per_line
            }
            &&& session.recognizer matches RecognizerView::Whisper(whisper)
                ==> whisper.options.initial_prompt.len() == 0
            &&& session.vad.cfg.frame_ms == 10
            &&& session.vad.cfg.start_frames == 3
            &&& session.vad.cfg.end_frames == 30
            &&& !session.vad.active
        },
{
}

/// A request is refused for its audio before anything else, then for a translation, then
/// for its recogniser; the reason says which.
pub proof fn law_reason(
    request: StartSessionRequestView,
    sentences: Seq<Seq<char>>,
    process_id: u32,
    whisper_built: bool,
)
    ensures
        ({
            let result = started(request, sentences, process_id, whisper_built);
            let input = input_of(request);
            let in_range = 8_000 <= input.sample_rate <= 192_000 && 1 <= input.channels <= 8 && (
            input.format == SampleFormat::F32.number() || input.format
                == SampleFormat::I16.number()) && (request.target_sample_rate == 0 || 8_000
                <= request.target_sample_rate <= 48_000);
            &&& !in_range ==> result is Err && result->Err_0 is AudioFormat
            &&& in_range && result is Err ==> result->Err_0 is Unsupported
        }),
{
}

/// A frame is refused for its format or its size only.
pub proof fn law_frame_reason(session: SessionView, frame: AudioFrameView)
    requires
        session.wf(),
        frame.pcm.len() <= usize::MAX,
    ensures
        session.checked(frame) is Err ==> session.checked(frame)->Err_0 is AudioFormat,
{
    law_accepted(session, frame);
}

/// The model's answer, its failure and a stop touch nothing but the recogniser.
pub proof fn law_model(session: SessionView)
    ensures
        session.model_finished() == (SessionView {
            recognizer: session.model_finished().recognizer,
            ..session
        }),
        session.model_failed() == (SessionView {
            recognizer: session.model_failed().recognizer,
            ..session
        }),
        session.stopping() == (SessionView {
            recognizer: session.stopping().recognizer,
            ..session
        }),
        !session.model_finished().recognizer.needs_model(),
        !session.model_failed().recognizer.needs_model(),
        session.recognizer is Mock ==> session.model_failed() == session,
{
}

/// What each step of a frame leaves alone: pushing touches the counters, showing touches
/// the subtitles and their counter, finishing the distance to the next report; the name,
/// the layout of the audio and the pause stay.
pub proof fn law_untouched(
    session: SessionView,
    frame: AudioFrameView,
    signal: FrameSignalView,
    events: Seq<EventView>,
)
    ensures
        ({
            let shown = session.captioned(events);
            let finished = session.frame_finished(events);
            let sounded = session.sounded(signal, true);
            &&& shown == (SessionView {
                subtitles: all_shown(session.subtitles, events),
                metrics: Metrics {
                    subtitle_events: shown.metrics.subtitle_events,
                    ..session.metrics
                },
                ..session
            })
            &&& finished == (SessionView {
                frames_since_metrics: finished.frames_since_metrics,
                ..shown
            })
            &&& sounded == (SessionView {
                vad: sounded.vad,
                recognizer: sounded.recognizer,
                metrics: Metrics {
                    speech_frames: sounded.metrics.speech_frames,
                    total_frames: sounded.metrics.total_frames,
                    ..session.metrics
                },
                ..session
            })
            &&& session.after_push(frame).metrics.subtitle_events
                == session.metrics.subtitle_events
            &&& session.after_push(frame).metrics.total_frames == session.metrics.total_frames
            &&& session.after_push(frame).metrics.speech_frames == session.metrics.speech_frames
        }),
{
}

} // verus!
