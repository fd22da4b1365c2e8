//! Local Whisper recognition: when to decode, and what comes of it.
//!
//! Whisper is an offline, non-streaming model, so realtime subtitles are
//! approximated with a sliding-window scheme driven by the VAD:
//!
//! * While voice is active, 16 kHz mono audio of the current utterance is
//!   accumulated and the buffered window decoded again every [`STEP_US`], which
//!   gives a `Partial`.
//! * When voice activity ends, the window is decoded once more, which gives a
//!   `Final`; then the committed audio is dropped so the next utterance starts clean.
//!
//! Decoding itself is the work of the model. A call that needs it returns
//! [`WhisperStep::Decode`]; the caller decodes [`WhisperAsr::audio`] and hands the
//! segments to [`WhisperAsr::finish`], or calls [`WhisperAsr::abandon`].

use crate::asr;
use crate::asr::{AsrOptions, AsrOptionsView, EventView, RecognitionEvent};
use crate::protocol::Float64;
use crate::text;
use vstd::prelude::*;

verus! {

/// Samples per second of the audio.
pub const SAMPLE_RATE: u64 = 16_000;

/// Maximum audio kept for one utterance, in samples: 12 seconds. Whisper's context
/// window is about 30 s; this is a comfortable, low-latency default.
pub const WINDOW_SAMPLES: usize = 192_000;

/// Re-decode cadence while speaking, in microseconds of new audio since the last run.
pub const STEP_US: u64 = 2_000_000;

/// Utterances shorter than this are not decoded: half a second.
pub const MIN_SAMPLES: usize = 8_000;

/// Microseconds in the unit that the model counts time in.
pub const TICK_US: u64 = 10_000;

/// A piece of text as the model reports it, its times in ticks from the start of the
/// decoded audio.
#[derive(Debug, PartialEq)]
pub struct DecodedSegment {
    pub text: String,
    pub t0: i64,
    pub t1: i64,
}

/// The model of [`DecodedSegment`].
#[verifier::ext_equal]
pub struct DecodedView {
    pub text: Seq<char>,
    pub t0: i64,
    pub t1: i64,
}

impl View for DecodedSegment {
    type V = DecodedView;

    open spec fn view(&self) -> DecodedView {
        DecodedView { text: self.text@, t0: self.t0, t1: self.t1 }
    }
}

/// The models of several segments.
pub open spec fn decoded_views(segments: Seq<DecodedSegment>) -> Seq<DecodedView> {
    Seq::new(segments.len(), |i: int| segments[i]@)
}

/// A piece of text in absolute session time.
#[derive(Debug, PartialEq)]
pub struct Segment {
    pub text: String,
    pub start_us: u64,
    pub end_us: u64,
}

/// The model of [`Segment`].
#[verifier::ext_equal]
pub struct SegmentView {
    pub text: Seq<char>,
    pub start_us: u64,
    pub end_us: u64,
}

impl View for Segment {
    type V = SegmentView;

    open spec fn view(&self) -> SegmentView {
        SegmentView { text: self.text@, start_us: self.start_us, end_us: self.end_us }
    }
}

/// The models of several segments.
pub open spec fn segment_views(segments: Seq<Segment>) -> Seq<SegmentView> {
    Seq::new(segments.len(), |i: int| segments[i]@)
}

// ---------------------------------------------------------------------------
// Times
// ---------------------------------------------------------------------------

/// A signed number taken as an unsigned one, in two's complement.
pub open spec fn unsigned(t: i64) -> u64 {
    if t >= 0 {
        t as u64
    } else {
        (t + 0x1_0000_0000_0000_0000) as u64
    }
}

/// The time `ticks` after `start_us`, at most the largest there is.
pub open spec fn tick_time(start_us: u64, ticks: i64) -> u64 {
    let at = start_us + unsigned(ticks).wrapping_mul(TICK_US);
    if at > u64::MAX {
        u64::MAX
    } else {
        at as u64
    }
}

/// How long `samples` samples take, in microseconds.
pub open spec fn duration_us(samples: nat) -> u64 {
    (samples as u64).wrapping_mul(1_000_000) / SAMPLE_RATE
}

/// A segment of audio that starts at `start_us`: without white space at its ends, and
/// in absolute time.
pub open spec fn placed(segment: DecodedView, start_us: u64) -> SegmentView {
    SegmentView {
        text: text::trimmed(segment.text),
        start_us: tick_time(start_us, segment.t0),
        end_us: tick_time(start_us, segment.t1),
    }
}

/// Segments of audio that starts at `start_us`.
pub open spec fn all_placed(segments: Seq<DecodedView>, start_us: u64) -> Seq<SegmentView> {
    Seq::new(segments.len(), |i: int| placed(segments[i], start_us))
}

/// The texts of the segments that have any, in order.
pub open spec fn spoken(segments: Seq<SegmentView>) -> Seq<Seq<char>>
    decreases segments.len(),
{
    if segments.len() == 0 {
        Seq::empty()
    } else if segments.last().text.len() == 0 {
        spoken(segments.drop_last())
    } else {
        spoken(segments.drop_last()).push(segments.last().text)
    }
}

/// The text of all segments, with single spaces between those that say something.
pub open spec fn transcript(segments: Seq<SegmentView>) -> Seq<char> {
    text::joined(spoken(segments), seq![' '])
}

fn as_unsigned(t: i64) -> (v: u64)
    ensures
        v == unsigned(t),
{
    if t >= 0 {
        t as u64
    } else {
        (t as i128 + 0x1_0000_0000_0000_0000) as u64
    }
}

fn time_of(start_us: u64, ticks: i64) -> (us: u64)
    ensures
        us == tick_time(start_us, ticks),
{
    start_us.saturating_add(as_unsigned(ticks).wrapping_mul(TICK_US))
}

fn duration_of(samples: usize) -> (us: u64)
    ensures
        us == duration_us(samples as nat),
{
    (samples as u64).wrapping_mul(1_000_000) / SAMPLE_RATE
}

/// Put the segments of audio that starts at `start_us` into absolute session time.
pub fn place_segments(decoded: &Vec<DecodedSegment>, start_us: u64) -> (segments: Vec<Segment>)
    ensures
        segment_views(segments@) == all_placed(decoded_views(decoded@), start_us),
{
    let ghost want = all_placed(decoded_views(decoded@), start_us);
    let mut segments: Vec<Segment> = Vec::new();
    let mut i: usize = 0;
    assert(segment_views(segments@) =~= want.take(0));
    while i < decoded.len()
        invariant
            i <= decoded@.len(),
            want == all_placed(decoded_views(decoded@), start_us),
            segment_views(segments@) == want.take(i as int),
        decreases decoded@.len() - i,
    {
        let ghost done = segments@;
        let segment = Segment {
            text: text::trim(decoded[i].text.as_str()),
            start_us: time_of(start_us, decoded[i].t0),
            end_us: time_of(start_us, decoded[i].t1),
        };
        assert(decoded_views(decoded@)[i as int] == decoded@[i as int]@);
        assert(segment@ == want[i as int]);
        segments.push(segment);
        assert(segment_views(segments@) =~= segment_views(done).push(want[i as int]));
        i += 1;
        assert(segment_views(segments@) =~= want.take(i as int));
    }
    assert(want.take(i as int) =~= want);
    segments
}

/// The text of all segments, with single spaces between those that say something.
pub fn join_segments(segments: &Vec<Segment>) -> (joined: String)
    ensures
        joined@ == transcript(segment_views(segments@)),
{
    let ghost views = segment_views(segments@);
    let mut joined: String = String::new();
    let mut started: bool = false;
    let mut i: usize = 0;
    assert(views.take(0) =~= Seq::empty());
    while i < segments.len()
        invariant
            i <= segments@.len(),
            views == segment_views(segments@),
            joined@ == transcript(views.take(i as int)),
            started == (spoken(views.take(i as int)).len() > 0),
        decreases segments@.len() - i,
    {
        proof {
            assert(views.take(i + 1).drop_last() =~= views.take(i as int));
            assert(views.take(i + 1).last() == segments@[i as int]@);
            text::lemma_joined_push(
                spoken(views.take(i as int)),
                seq![' '],
                segments@[i as int].text@,
            );
        }
        let chars: Vec<char> = text::chars_of(segments[i].text.as_str());
        if chars.len() > 0 {
            if started {
                joined.push(' ');
            }
            joined.append(segments[i].text.as_str());
            started = true;
            assert(joined@ =~= transcript(views.take(i + 1)));
        }
        i += 1;
    }
    assert(views.take(i as int) =~= views);
    joined
}

// ---------------------------------------------------------------------------
// The recogniser
// ---------------------------------------------------------------------------

/// What a decoding that is under way is for.
#[derive(Debug, Clone, Copy, PartialEq, Eq, Structural)]
pub enum Pending {
    /// A text that may still change, of audio up to `end_us`.
    Partial { end_us: u64 },
    /// The text of an utterance that ended at `end_us`.
    Final { end_us: u64 },
    /// The text of what is left where the session stops.
    Flush,
}

/// The model of [`WhisperAsr`].
#[verifier::ext_equal]
pub struct WhisperView {
    pub options: AsrOptionsView,
    /// Audio of the current utterance, as bit patterns of single precision numbers.
    pub audio: Seq<u32>,
    /// Absolute session time of the first sample.
    pub audio_start_us: u64,
    /// Absolute session time up to which the audio was last decoded.
    pub last_infer_end_us: u64,
    pub speaking: bool,
    pub pending: Option<Pending>,
}

impl WhisperView {
    /// No more audio is kept than the window takes.
    pub open spec fn wf(self) -> bool {
        self.audio.len() <= WINDOW_SAMPLES
    }

    /// A recogniser that has heard nothing.
    pub open spec fn initial(options: AsrOptionsView) -> WhisperView {
        WhisperView {
            options,
            audio: Seq::empty(),
            audio_start_us: 0,
            last_infer_end_us: 0,
            speaking: false,
            pending: None,
        }
    }

    /// The state with more audio, of which only the last window is kept.
    pub open spec fn buffered(self, samples: Seq<u32>) -> WhisperView {
        let all = self.audio + samples;
        if all.len() > WINDOW_SAMPLES {
            let excess = (all.len() - WINDOW_SAMPLES) as nat;
            WhisperView {
                audio: all.skip(excess as int),
                audio_start_us: self.audio_start_us.wrapping_add(duration_us(excess)),
                ..self
            }
        } else {
            WhisperView { audio: all, ..self }
        }
    }

    /// Absolute session time of the end of the audio.
    pub open spec fn audio_end_us(self) -> u64 {
        self.audio_start_us.wrapping_add(duration_us(self.audio.len()))
    }

    /// Whether speech up to `end_us` is decoded for a partial text.
    pub open spec fn partial_due(self, end_us: u64, infer_partial: bool) -> bool {
        infer_partial && (end_us >= self.last_infer_end_us && end_us - self.last_infer_end_us
            >= STEP_US)
    }

    /// The state once a decoding for `purpose` is asked for, up to `end_us`.
    pub open spec fn asked(self, purpose: Pending, end_us: u64) -> WhisperView {
        WhisperView { last_infer_end_us: end_us, pending: Some(purpose), ..self }
    }

    /// What audio that ends at `end_us` asks for: the state, in which a decoding may
    /// be pending.
    pub open spec fn heard(
        self,
        samples: Seq<u32>,
        speech: bool,
        end_us: u64,
        infer_partial: bool,
    ) -> WhisperView {
        let now = WhisperView { pending: None, ..self.buffered(samples) };
        if speech {
            let now = WhisperView { speaking: true, ..now };
            if now.partial_due(end_us, infer_partial) {
                now.asked(Pending::Partial { end_us }, end_us)
            } else {
                now
            }
        } else if self.speaking {
            WhisperView { speaking: false, ..now }.asked(Pending::Final { end_us }, end_us)
        } else {
            now
        }
    }

    /// What stopping the session asks for.
    pub open spec fn stopping(self) -> WhisperView {
        if !self.speaking && self.audio.len() == 0 {
            WhisperView { pending: None, ..self }
        } else {
            WhisperView { speaking: false, ..self }.asked(Pending::Flush, self.audio_end_us())
        }
    }

    /// The start of a final text: that of its first segment.
    pub open spec fn final_start(self, segments: Seq<SegmentView>) -> u64 {
        if segments.len() == 0 {
            self.audio_start_us
        } else {
            segments[0].start_us
        }
    }

    /// The event that decoded segments give.
    pub open spec fn events(self, decoded: Seq<DecodedView>) -> Seq<EventView> {
        let segments = all_placed(decoded, self.audio_start_us);
        let said = transcript(segments);
        if said.len() == 0 {
            Seq::empty()
        } else {
            match self.pending {
                Some(Pending::Partial { end_us }) => seq![
                    EventView::Partial { text: said, start_us: self.audio_start_us, end_us },
                ],
                Some(Pending::Final { end_us }) => seq![
                    EventView::Final {
                        text: said,
                        start_us: self.final_start(segments),
                        end_us,
                        confidence: asr::certain(),
                    },
                ],
                Some(Pending::Flush) => seq![
                    EventView::Final {
                        text: said,
                        start_us: self.final_start(segments),
                        end_us: self.audio_end_us(),
                        confidence: asr::certain(),
                    },
                ],
                None => Seq::empty(),
            }
        }
    }

    /// The state once the segments are there: committed audio is dropped.
    pub open spec fn finished(self) -> WhisperView {
        match self.pending {
            Some(Pending::Final { end_us }) => WhisperView {
                audio: Seq::empty(),
                audio_start_us: end_us,
                pending: None,
                ..self
            },
            Some(Pending::Flush) => WhisperView { audio: Seq::empty(), pending: None, ..self },
            _ => WhisperView { pending: None, ..self },
        }
    }

    /// Whether the pending decoding is for the model: there is one, of audio that is
    /// long enough.
    pub open spec fn needs_model(self) -> bool {
        self.pending is Some && self.audio.len() >= MIN_SAMPLES
    }
}

/// What a call came to.
#[derive(Debug, PartialEq)]
pub enum WhisperStep {
    /// The call is done.
    Done(Vec<RecognitionEvent>),
    /// The audio has to be decoded.
    Decode,
}

/// The sliding window over the current utterance.
pub struct WhisperAsr {
    options: AsrOptions,
    audio: Vec<u32>,
    audio_start_us: u64,
    last_infer_end_us: u64,
    speaking: bool,
    pending: Option<Pending>,
}

impl View for WhisperAsr {
    type V = WhisperView;

    closed spec fn view(&self) -> WhisperView {
        WhisperView {
            options: self.options@,
            audio: self.audio@,
            audio_start_us: self.audio_start_us,
            last_infer_end_us: self.last_infer_end_us,
            speaking: self.speaking,
            pending: self.pending,
        }
    }
}

impl WhisperAsr {
    /// A recogniser that has heard nothing.
    pub fn new(options: AsrOptions) -> (whisper: WhisperAsr)
        ensures
            whisper@ == WhisperView::initial(options@),
            whisper@.wf(),
    {
        WhisperAsr {
            options,
            audio: Vec::new(),
            audio_start_us: 0,
            last_infer_end_us: 0,
            speaking: false,
            pending: None,
        }
    }

    /// The name of the provider.
    pub fn name(&self) -> (name: &'static str)
        ensures
            name@ == "whisper"@,
    {
        "whisper"
    }

    /// What the recogniser was set up with.
    pub fn options(&self) -> (options: &AsrOptions)
        ensures
            options@ == self@.options,
    {
        &self.options
    }

    /// The audio that is to be decoded.
    pub fn audio(&self) -> (audio: &Vec<u32>)
        ensures
            audio@ == self@.audio,
    {
        &self.audio
    }

    fn buffer(&mut self, samples: &[u32])
        requires
            old(self)@.wf(),
        ensures
            final(self)@ == old(self)@.buffered(samples@),
            final(self)@.wf(),
    {
        let ghost all = self.audio@ + samples@;
        self.audio.extend_from_slice(samples);
        assert(self.audio@ =~= all);
        let len: usize = self.audio.len();
        if len > WINDOW_SAMPLES {
            let excess: usize = len - WINDOW_SAMPLES;
            let kept: Vec<u32> = self.audio.split_off(excess);
            assert(kept@ =~= all.skip(excess as int));
            self.audio = kept;
            self.audio_start_us = self.audio_start_us.wrapping_add(duration_of(excess));
        }
    }

    fn audio_end_us(&self) -> (end_us: u64)
        ensures
            end_us == self@.audio_end_us(),
    {
        self.audio_start_us.wrapping_add(duration_of(self.audio.len()))
    }

    /// Audio that ends at `end_us`, with speech in it or not. Where `infer_partial` is
    /// not set, audio within an utterance is only buffered; the end of an utterance is
    /// decoded in any case.
    pub fn push_audio(
        &mut self,
        samples: &[u32],
        speech: bool,
        end_us: u64,
        infer_partial: bool,
    ) -> (step: WhisperStep)
        requires
            old(self)@.wf(),
        ensures
            final(self)@.wf(),
            ({
                let asked = old(self)@.heard(samples@, speech, end_us, infer_partial);
                match step {
                    WhisperStep::Decode => asked.needs_model() && final(self)@ == asked,
                    WhisperStep::Done(events) => {
                        &&& !asked.needs_model()
                        &&& final(self)@ == asked.finished()
                        &&& asr::event_views(events@) == asked.events(Seq::empty())
                        &&& events@.len() == 0
                    },
                }
            }),
    {
        let ghost asked = old(self)@.heard(samples@, speech, end_us, infer_partial);
        self.buffer(samples);
        self.pending = None;
        if speech {
            self.speaking = true;
            if infer_partial && end_us.saturating_sub(self.last_infer_end_us) >= STEP_US {
                self.last_infer_end_us = end_us;
                self.pending = Some(Pending::Partial { end_us });
            }
        } else if self.speaking {
            self.speaking = false;
            self.last_infer_end_us = end_us;
            self.pending = Some(Pending::Final { end_us });
        }
        assert(self@ == asked);
        self.settle()
    }

    /// The session stops: decode whatever is still buffered.
    pub fn flush(&mut self) -> (step: WhisperStep)
        requires
            old(self)@.wf(),
        ensures
            final(self)@.wf(),
            ({
                let asked = old(self)@.stopping();
                match step {
                    WhisperStep::Decode => asked.needs_model() && final(self)@ == asked,
                    WhisperStep::Done(events) => {
                        &&& !asked.needs_model()
                        &&& final(self)@ == asked.finished()
                        &&& asr::event_views(events@) == asked.events(Seq::empty())
                        &&& events@.len() == 0
                    },
                }
            }),
    {
        let ghost asked = old(self)@.stopping();
        self.pending = None;
        if self.speaking || self.audio.len() > 0 {
            self.speaking = false;
            self.last_infer_end_us = self.audio_end_us();
            self.pending = Some(Pending::Flush);
        }
        assert(self@ == asked);
        self.settle()
    }

    /// Ask for the model, or go on without it where the audio is too short.
    fn settle(&mut self) -> (step: WhisperStep)
        requires
            old(self)@.wf(),
        ensures
            final(self)@.wf(),
            match step {
                WhisperStep::Decode => old(self)@.needs_model() && final(self)@ == old(self)@,
                WhisperStep::Done(events) => {
                    &&& !old(self)@.needs_model()
                    &&& final(self)@ == old(self)@.finished()
                    &&& asr::event_views(events@) == old(self)@.events(Seq::empty())
                    &&& events@.len() == 0
                },
            },
    {
        if self.pending.is_some() && self.audio.len() >= MIN_SAMPLES {
            return WhisperStep::Decode;
        }
        let none: Vec<DecodedSegment> = Vec::new();
        let events: Vec<RecognitionEvent> = self.finish(&none);
        assert(decoded_views(none@) =~= Seq::empty());
        proof {
            lemma_silent(old(self)@);
        }
        assert(asr::event_views(events@).len() == events@.len());
        WhisperStep::Done(events)
    }

    /// The segments that the model found in the audio.
    pub fn finish(&mut self, decoded: &Vec<DecodedSegment>) -> (events: Vec<RecognitionEvent>)
        requires
            old(self)@.wf(),
        ensures
            final(self)@ == old(self)@.finished(),
            final(self)@.wf(),
            asr::event_views(events@) == old(self)@.events(decoded_views(decoded@)),
    {
        let segments: Vec<Segment> = place_segments(decoded, self.audio_start_us);
        let ghost views = all_placed(decoded_views(decoded@), self.audio_start_us);
        let said: String = join_segments(&segments);
        let chars: Vec<char> = text::chars_of(said.as_str());
        let start_us: u64 = if segments.len() == 0 {
            self.audio_start_us
        } else {
            assert(segments@[0]@ == segment_views(segments@)[0]);
            segments[0].start_us
        };
        let mut events: Vec<RecognitionEvent> = Vec::new();
        match self.pending {
            Some(Pending::Partial { end_us }) => {
                if chars.len() > 0 {
                    let start_us: u64 = self.audio_start_us;
                    events.push(RecognitionEvent::Partial { text: said, start_us, end_us });
                }
            },
            Some(Pending::Final { end_us }) => {
                if chars.len() > 0 {
                    events.push(final_event(said, start_us, end_us));
                }
                self.audio.clear();
                self.audio_start_us = end_us;
            },
            Some(Pending::Flush) => {
                let end_us: u64 = self.audio_end_us();
                if chars.len() > 0 {
                    events.push(final_event(said, start_us, end_us));
                }
                self.audio.clear();
            },
            None => {},
        }
        self.pending = None;
        assert(asr::event_views(events@) =~= old(self)@.events(decoded_views(decoded@)));
        assert(self@ =~= old(self)@.finished());
        events
    }

    /// The audio could not be decoded; it stays buffered.
    pub fn abandon(&mut self)
        requires
            old(self)@.wf(),
        ensures
            final(self)@ == (WhisperView { pending: None, ..old(self)@ }),
            final(self)@.wf(),
    {
        self.pending = None;
    }
}

fn final_event(text: String, start_us: u64, end_us: u64) -> (event: RecognitionEvent)
    ensures
        event@ == (EventView::Final { text: text@, start_us, end_us, confidence: asr::certain() }),
{
    RecognitionEvent::Final {
        text,
        start_us,
        end_us,
        confidence: Float64 { bits: 0x3FF0_0000_0000_0000 },
    }
}

/// Without segments there is nothing to report.
proof fn lemma_silent(state: WhisperView)
    ensures
        state.events(Seq::empty()) == Seq::<EventView>::empty(),
{
    let segments = all_placed(Seq::empty(), state.audio_start_us);
    assert(segments =~= Seq::empty());
    assert(spoken(segments) =~= Seq::empty());
    assert(transcript(segments) =~= Seq::empty());
}

// ---------------------------------------------------------------------------
// Laws
// ---------------------------------------------------------------------------

/// Backlogged audio within an utterance asks for no decoding, and is all there when
/// the newest chunk does: chunks that are only buffered leave the audio that one
/// chunk with all of it would leave.
pub proof fn law_backlog(state: WhisperView, a: Seq<u32>, b: Seq<u32>, t: u64, u: u64)
    requires
        state.wf(),
    ensures
        !state.heard(a, true, t, false).needs_model(),
        state.heard(a, true, t, false).pending is None,
        state.heard(a, true, t, false).last_infer_end_us == state.last_infer_end_us,
        state.heard(a, true, t, false).heard(b, true, u, false).audio == state.heard(
            a + b,
            true,
            u,
            false,
        ).audio,
{
    let step = state.buffered(a).buffered(b).audio;
    let all = state.buffered(a + b).audio;
    assert(state.audio + a + b =~= state.audio + (a + b));
    assert(step =~= all);
}

/// The end of an utterance is decoded whether partial texts are wanted or not.
pub proof fn law_final_always(state: WhisperView, samples: Seq<u32>, end_us: u64)
    requires
        state.speaking,
    ensures
        forall|infer: bool| #![trigger state.heard(samples, false, end_us, infer)]
            state.heard(samples, false, end_us, infer).pending == Some(Pending::Final { end_us }),
{
}

/// Once an utterance is committed, none of its audio is left.
pub proof fn law_commit_starts_clean(state: WhisperView, samples: Seq<u32>, end_us: u64)
    requires
        state.speaking,
    ensures
        ({
            let after = state.heard(samples, false, end_us, true).finished();
            after.audio.len() == 0 && after.audio_start_us == end_us && !after.speaking
                && after.pending is None
        }),
{
}

/// Partial decodes keep their distance: after one, no other is asked for before another
/// [`STEP_US`] of audio, whatever the first came to.
pub proof fn law_cadence(
    state: WhisperView,
    a: Seq<u32>,
    t: u64,
    b: Seq<u32>,
    u: u64,
    infer_partial: bool,
)
    requires
        state.heard(a, true, t, true).pending == Some(Pending::Partial { end_us: t }),
        u < t + STEP_US,
    ensures
        ({
            let asked = state.heard(a, true, t, true);
            let finished = asked.finished();
            let failed = WhisperView { pending: None, ..asked };
            &&& finished.heard(b, true, u, infer_partial).pending is None
            &&& failed.heard(b, true, u, infer_partial).pending is None
        }),
{
}

/// A chunk of audio with what the model finds where it is asked.
pub struct Push {
    pub samples: Seq<u32>,
    pub speech: bool,
    pub end_us: u64,
    pub infer_partial: bool,
    pub decoded: Seq<DecodedView>,
}

impl WhisperView {
    /// What a chunk asks for.
    pub open spec fn asked_by(self, push: Push) -> WhisperView {
        self.heard(push.samples, push.speech, push.end_us, push.infer_partial)
    }

    /// The events of a chunk, decoding included.
    pub open spec fn push_events(self, push: Push) -> Seq<EventView> {
        let asked = self.asked_by(push);
        asked.events(
            if asked.needs_model() {
                push.decoded
            } else {
                Seq::empty()
            },
        )
    }

    /// The state after several chunks, none of which failed to be decoded.
    pub open spec fn all_pushed(self, pushes: Seq<Push>) -> WhisperView
        decreases pushes.len(),
    {
        if pushes.len() == 0 {
            self
        } else {
            self.all_pushed(pushes.drop_last()).asked_by(pushes.last()).finished()
        }
    }

    /// The events of chunk `i` of several.
    pub open spec fn events_at(self, pushes: Seq<Push>, i: int) -> Seq<EventView> {
        self.all_pushed(pushes.take(i)).push_events(pushes[i])
    }
}

/// When the text of an event ends.
pub open spec fn end_of(event: EventView) -> u64 {
    match event {
        EventView::Partial { end_us, .. } => end_us,
        EventView::Final { end_us, .. } => end_us,
    }
}

/// The text of an event.
pub open spec fn text_of(event: EventView) -> Seq<char> {
    match event {
        EventView::Partial { text, .. } => text,
        EventView::Final { text, .. } => text,
    }
}

/// The times of the chunks do not go back.
pub open spec fn in_order(pushes: Seq<Push>) -> bool {
    forall|i: int, j: int|
        0 <= i <= j < pushes.len() ==> (#[trigger] pushes[i]).end_us <= (
        #[trigger] pushes[j]).end_us
}

/// One chunk: at most one event, for what was asked.
proof fn lemma_push(state: WhisperView, push: Push)
    requires
        state.pending is None,
    ensures
        ({
            let events = state.push_events(push);
            let after = state.asked_by(push).finished();
            &&& after.pending is None
            &&& after.speaking == push.speech
            &&& after.last_infer_end_us == state.last_infer_end_us || after.last_infer_end_us
                == push.end_us
            &&& events.len() <= 1
            &&& events.len() == 1 ==> {
                &&& after.last_infer_end_us == push.end_us
                &&& end_of(events[0]) == push.end_us
                &&& text_of(events[0]).len() > 0
                &&& events[0] is Partial ==> push.speech && push.end_us >= state.last_infer_end_us
                    + STEP_US
                &&& events[0] is Final ==> !push.speech && state.speaking
            }
        }),
{
}

/// The state within a run: who spoke last, and no event ends after the last decoding.
proof fn lemma_run(state: WhisperView, pushes: Seq<Push>, n: int)
    requires
        state.pending is None,
        !state.speaking,
        in_order(pushes),
        0 <= n <= pushes.len(),
    ensures
        ({
            let now = state.all_pushed(pushes.take(n));
            &&& now.pending is None
            &&& now.speaking == (n > 0 && pushes[n - 1].speech)
            &&& forall|i: int| #![trigger state.events_at(pushes, i)]
                0 <= i < n && state.events_at(pushes, i).len() > 0 ==> end_of(
                    state.events_at(pushes, i)[0],
                ) <= now.last_infer_end_us
        }),
    decreases n,
{
    if n > 0 {
        lemma_run(state, pushes, n - 1);
        let before = state.all_pushed(pushes.take(n - 1));
        let push = pushes[n - 1];
        assert(pushes.take(n).drop_last() =~= pushes.take(n - 1));
        lemma_push(before, push);
        let now = state.all_pushed(pushes.take(n));
        assert forall|i: int| #![trigger state.events_at(pushes, i)]
            0 <= i < n && state.events_at(pushes, i).len() > 0 implies end_of(
            state.events_at(pushes, i)[0],
        ) <= now.last_infer_end_us by {
            if i < n - 1 {
                lemma_event_end(state, pushes, i);
                assert(pushes[i].end_us <= pushes[n - 1].end_us);
            }
        }
    } else {
        assert(pushes.take(0) =~= Seq::empty());
    }
}

/// The event of a chunk ends with it.
proof fn lemma_event_end(state: WhisperView, pushes: Seq<Push>, i: int)
    requires
        state.pending is None,
        0 <= i < pushes.len(),
    ensures
        state.all_pushed(pushes.take(i)).pending is None,
        state.events_at(pushes, i).len() > 0 ==> end_of(state.events_at(pushes, i)[0])
            == pushes[i].end_us,
{
    lemma_no_pending(state, pushes.take(i));
    lemma_push(state.all_pushed(pushes.take(i)), pushes[i]);
}

proof fn lemma_no_pending(state: WhisperView, pushes: Seq<Push>)
    requires
        state.pending is None,
    ensures
        state.all_pushed(pushes).pending is None,
{
}

/// A run of chunks in the order of their times, from the start on, none of which fails to
/// be decoded: each gives at most one event, whose text says something and ends with the
/// chunk. Text that may still change comes only with speech, and at least [`STEP_US`]
/// after any earlier event. Settled text comes only where speech has just ended.
pub proof fn law_run(options: AsrOptionsView, pushes: Seq<Push>, n: int)
    requires
        in_order(pushes),
        0 <= n < pushes.len(),
    ensures
        ({
            let start = WhisperView::initial(options);
            let events = start.events_at(pushes, n);
            &&& events.len() <= 1
            &&& events.len() == 1 ==> {
                &&& end_of(events[0]) == pushes[n].end_us
                &&& text_of(events[0]).len() > 0
                &&& events[0] is Partial ==> {
                    &&& pushes[n].speech
                    &&& forall|i: int| #![trigger start.events_at(pushes, i)]
                        0 <= i < n && start.events_at(pushes, i).len() > 0 ==> end_of(events[0])
                            >= end_of(start.events_at(pushes, i)[0]) + STEP_US
                }
                &&& events[0] is Final ==> !pushes[n].speech && n > 0 && pushes[n - 1].speech
            }
        }),
{
    let start = WhisperView::initial(options);
    lemma_run(start, pushes, n);
    lemma_push(start.all_pushed(pushes.take(n)), pushes[n]);
}

/// The segments of two runs that say something are those of the first, then those of the
/// second.
proof fn lemma_spoken(a: Seq<SegmentView>, b: Seq<SegmentView>)
    ensures
        spoken(a + b) == spoken(a) + spoken(b),
        forall|i: int| #![trigger spoken(a)[i]] 0 <= i < spoken(a).len() ==> spoken(a)[i].len() > 0,
    decreases a.len() + b.len(),
{
    if b.len() == 0 {
        assert(a + b =~= a);
        assert(spoken(a) + spoken(b) =~= spoken(a));
        if a.len() > 0 {
            lemma_spoken(a.drop_last(), Seq::empty());
        }
    } else {
        lemma_spoken(a, b.drop_last());
        assert((a + b).drop_last() =~= a + b.drop_last());
        assert(spoken(a + b) =~= spoken(a) + spoken(b));
    }
}

/// A transcript says nothing exactly where no segment does.
proof fn lemma_transcript_empty(segments: Seq<SegmentView>)
    ensures
        transcript(segments).len() == 0 <==> spoken(segments).len() == 0,
{
    lemma_spoken(segments, Seq::empty());
    let parts = spoken(segments);
    if parts.len() > 0 {
        assert(parts[0].len() > 0);
        text::law_joined(seq![parts[0]], parts.skip(1), seq![' ']);
        assert(seq![parts[0]] + parts.skip(1) =~= parts);
    }
}

/// The transcript holds every segment that says something, in order: that of two runs of
/// segments is that of the first, a space and that of the second, where both say
/// something, and that of the other where one says nothing; and a single segment is its
/// own transcript.
pub proof fn law_transcript(a: Seq<SegmentView>, b: Seq<SegmentView>, one: SegmentView)
    ensures
        transcript(seq![one]) == one.text,
        transcript(a).len() > 0 && transcript(b).len() > 0 ==> transcript(a + b) == transcript(a)
            + seq![' '] + transcript(b),
        transcript(a).len() == 0 ==> transcript(a + b) == transcript(b),
        transcript(b).len() == 0 ==> transcript(a + b) == transcript(a),
        transcript(Seq::<SegmentView>::empty()).len() == 0,
{
    lemma_spoken(a, b);
    lemma_transcript_empty(a);
    lemma_transcript_empty(b);
    text::law_joined(spoken(a), spoken(b), seq![' ']);
    assert(seq![one].drop_last() =~= Seq::empty());
    assert(spoken(seq![one].drop_last()) == Seq::<Seq<char>>::empty());
    assert(spoken(Seq::<SegmentView>::empty()) == Seq::<Seq<char>>::empty());
    if one.text.len() == 0 {
        assert(one.text =~= Seq::empty());
        assert(spoken(seq![one]) =~= Seq::empty());
    } else {
        assert(spoken(seq![one]) =~= seq![one.text]);
    }
}

/// Segments are placed one by one: text without white space at its ends, and times
/// counted from the start of the audio in hundredths of a second.
pub proof fn law_placed(decoded: Seq<DecodedView>, start_us: u64, i: int)
    requires
        0 <= i < decoded.len(),
        0 <= decoded[i].t0 <= decoded[i].t1,
        start_us + decoded[i].t1 * 10_000 <= u64::MAX,
    ensures
        all_placed(decoded, start_us).len() == decoded.len(),
        all_placed(decoded, start_us)[i].text == text::trimmed(decoded[i].text),
        all_placed(decoded, start_us)[i].start_us - start_us == decoded[i].t0 * 10_000,
        all_placed(decoded, start_us)[i].end_us - start_us == decoded[i].t1 * 10_000,
{
}

/// The audio of `samples` samples at 16 kHz takes that many sixteenths of a millisecond.
pub proof fn law_duration(samples: nat)
    requires
        samples * 1_000_000 <= u64::MAX,
    ensures
        duration_us(samples) * 16 <= samples * 1000 < (duration_us(samples) + 1) * 16,
{
}

/// The buffer is what came last of all audio, up to twelve seconds; where older audio had
/// to go, the start moves by its length.
pub proof fn law_buffered(state: WhisperView, samples: Seq<u32>)
    requires
        state.wf(),
        samples.len() <= 0x1000_0000,
    ensures
        ({
            let all = state.audio + samples;
            let after = state.buffered(samples);
            let gone = all.len() - after.audio.len();
            &&& all == all.take(gone) + after.audio
            &&& after.audio.len() == 192_000 || gone == 0
            &&& after.audio.len() <= 192_000
            &&& after.audio_start_us == state.audio_start_us.wrapping_add(
                duration_us(gone as nat),
            )
            &&& after.speaking == state.speaking
            &&& after.last_infer_end_us == state.last_infer_end_us
        }),
{
    let all = state.audio + samples;
    let after = state.buffered(samples);
    let gone = all.len() - after.audio.len();
    assert(all =~= all.take(gone) + after.audio);
    if gone == 0 {
        assert(duration_us(0) == 0);
    }
}

/// What is decoded is told: once the model has found something that is not silence, there
/// is exactly one event, which holds the whole transcript of the placed segments. Text of
/// an utterance that goes on starts with the audio and may still change; text of one that
/// has ended, and what a stop flushes, starts with its first segment and is settled.
pub proof fn law_told(state: WhisperView, decoded: Seq<DecodedView>)
    requires
        state.pending is Some,
    ensures
        ({
            let segments = all_placed(decoded, state.audio_start_us);
            let events = state.events(decoded);
            &&& events.len() == if transcript(segments).len() == 0 {
                0nat
            } else {
                1nat
            }
            &&& events.len() == 1 ==> {
                &&& text_of(events[0]) == transcript(segments)
                &&& events[0] is Partial <==> state.pending->0 is Partial
                &&& events[0] is Partial ==> events[0]->Partial_start_us == state.audio_start_us
                &&& events[0] is Final ==> events[0]->Final_start_us == segments[0].start_us
                    && events[0]->confidence.bits == 0x3FF0_0000_0000_0000
                &&& state.pending == Some(Pending::Flush) ==> end_of(events[0])
                    == state.audio_start_us.wrapping_add(duration_us(state.audio.len()))
            }
        }),
{
    let segments = all_placed(decoded, state.audio_start_us);
    if decoded.len() == 0 {
        assert(segments =~= Seq::empty());
        law_transcript(segments, segments, arbitrary());
    }
}

/// Audio that is long enough is decoded when its time has come: the end of an utterance
/// always, two seconds after the last decoding where more speech comes, and all that is
/// left at a stop.
pub proof fn law_asks(state: WhisperView, samples: Seq<u32>, end_us: u64)
    requires
        state.wf(),
        state.audio.len() + samples.len() >= 8_000,
    ensures
        state.speaking ==> state.heard(samples, false, end_us, false).needs_model(),
        end_us >= state.last_infer_end_us + 2_000_000 ==> state.heard(
            samples,
            true,
            end_us,
            true,
        ).needs_model(),
        state.audio.len() >= 8_000 ==> state.stopping().needs_model(),
        !state.speaking ==> !state.heard(samples, false, end_us, true).needs_model(),
        state.heard(samples, true, end_us, true).speaking,
{
}

/// All audio is buffered, speech or not, whatever is asked for; the options never change,
/// and whether an utterance goes on is what was heard last.
pub proof fn law_keeps_audio(
    state: WhisperView,
    samples: Seq<u32>,
    speech: bool,
    end_us: u64,
    infer_partial: bool,
)
    ensures
        ({
            let after = state.heard(samples, speech, end_us, infer_partial);
            &&& after.audio == state.buffered(samples).audio
            &&& after.audio_start_us == state.buffered(samples).audio_start_us
            &&& after.options == state.options
            &&& after.speaking == speech
            &&& after.pending is None ==> after.last_infer_end_us == state.last_infer_end_us
            &&& after.pending is Some ==> after.last_infer_end_us == end_us
        }),
{
}

/// Nothing is asked for in silence, nor while speech goes on where no partial text is
/// wanted or its time has not come; and short audio never needs the model.
pub proof fn law_asks_nothing(
    state: WhisperView,
    samples: Seq<u32>,
    end_us: u64,
    infer_partial: bool,
)
    requires
        state.wf(),
    ensures
        !state.speaking ==> state.heard(samples, false, end_us, infer_partial).pending is None,
        !infer_partial || end_us < state.last_infer_end_us + 2_000_000 ==> state.heard(
            samples,
            true,
            end_us,
            infer_partial,
        ).pending is None,
        !state.speaking && state.audio.len() == 0 ==> state.stopping().pending is None,
        state.audio.len() < 8_000 ==> !state.needs_model(),
{
}

/// Finishing a partial text keeps the audio and where it starts; finishing a settled one
/// drops all of it. What an event ends at is what was asked for.
pub proof fn law_finished(state: WhisperView, decoded: Seq<DecodedView>)
    ensures
        ({
            let after = state.finished();
            &&& after.pending is None
            &&& after.options == state.options
            &&& after.speaking == state.speaking
            &&& after.last_infer_end_us == state.last_infer_end_us
            &&& state.pending is None || state.pending->0 is Partial ==> after.audio == state.audio
                && after.audio_start_us == state.audio_start_us
            &&& state.pending is Some && !(state.pending->0 is Partial) ==> after.audio.len() == 0
            &&& state.pending == Some(Pending::Flush) ==> after.audio_start_us
                == state.audio_start_us
            &&& state.events(decoded).len() > 0 ==> {
                &&& state.pending matches Some(Pending::Partial { end_us }) ==> end_of(
                    state.events(decoded)[0],
                ) == end_us
                &&& state.pending matches Some(Pending::Final { end_us }) ==> end_of(
                    state.events(decoded)[0],
                ) == end_us
            }
            &&& state.pending is None ==> state.events(decoded).len() == 0
        }),
{
}

/// A stop ends the utterance, keeps all audio for the last decoding and asks for it where
/// there was speech or audio.
pub proof fn law_stopping(state: WhisperView)
    ensures
        ({
            let after = state.stopping();
            &&& after.audio == state.audio
            &&& after.audio_start_us == state.audio_start_us
            &&& after.options == state.options
            &&& !after.speaking
            &&& after.pending is Some <==> state.speaking || state.audio.len() > 0
            &&& after.pending is Some ==> after.pending == Some(Pending::Flush)
            &&& after.finished().stopping().pending is None
        }),
{
}

/// A time beyond the end of the clock is the end of the clock.
pub proof fn law_clock_end(segment: DecodedView, start_us: u64)
    requires
        0 <= segment.t0,
        segment.t0 * 10_000 <= u64::MAX,
    ensures
        placed(segment, start_us).start_us >= start_us,
        start_us + segment.t0 * 10_000 >= u64::MAX ==> placed(segment, start_us).start_us
            == u64::MAX,
{
}

} // verus!
