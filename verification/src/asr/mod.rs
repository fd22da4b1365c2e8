//! Speech recognition providers.

pub mod mock;
pub mod models;
pub mod whisper;

use crate::asr::mock::{MockRecognizer, MockView};
use crate::asr::whisper::{DecodedSegment, WhisperAsr, WhisperStep, WhisperView};
use crate::error::{CoreError, ErrorView, Result};
use crate::protocol::Float64;
use crate::text;
use vstd::prelude::*;

verus! {

/// Options handed to an ASR provider when it is constructed.
#[derive(Debug, PartialEq)]
pub struct AsrOptions {
    pub engine: String,
    pub model_directory: String,
    /// Rotating sentences for the mock provider.
    pub sentences: Vec<String>,
    /// Whisper catalog ID or file name (e.g. `tiny` or `ggml-tiny.bin`).
    pub model: String,
    /// Whisper language hint (e.g. `zh`, `en`); empty means auto-detect.
    pub language: String,
    /// Whisper initial prompt; empty means the provider default, which for
    /// Whisper is a Simplified-Chinese bias prompt injected whenever
    /// `language` is `zh` (whisper's raw zh output skews Traditional).
    pub initial_prompt: String,
}

/// The model of [`AsrOptions`].
#[verifier::ext_equal]
pub struct AsrOptionsView {
    pub engine: Seq<char>,
    pub model_directory: Seq<char>,
    pub sentences: Seq<Seq<char>>,
    pub model: Seq<char>,
    pub language: Seq<char>,
    pub initial_prompt: Seq<char>,
}

impl View for AsrOptions {
    type V = AsrOptionsView;

    open spec fn view(&self) -> AsrOptionsView {
        AsrOptionsView {
            engine: self.engine@,
            model_directory: self.model_directory@,
            sentences: text::texts(self.sentences@),
            model: self.model@,
            language: self.language@,
            initial_prompt: self.initial_prompt@,
        }
    }
}

impl Default for AsrOptions {
    fn default() -> (opts: AsrOptions)
        ensures
            opts@ == (AsrOptionsView {
                engine: Seq::empty(),
                model_directory: Seq::empty(),
                sentences: Seq::empty(),
                model: "ggml-tiny.bin"@,
                language: Seq::empty(),
                initial_prompt: Seq::empty(),
            }),
    {
        let opts = AsrOptions {
            engine: String::new(),
            model_directory: String::new(),
            sentences: Vec::new(),
            model: "ggml-tiny.bin".to_string(),
            language: String::new(),
            initial_prompt: String::new(),
        };
        assert(opts@.sentences =~= Seq::empty());
        opts
    }
}

/// What a recogniser reports back to the pipeline.
#[derive(Debug, PartialEq)]
pub enum RecognitionEvent {
    /// Unstable text that may still be replaced.
    Partial { text: String, start_us: u64, end_us: u64 },
    /// Stable text that will not change any more.
    Final { text: String, start_us: u64, end_us: u64, confidence: Float64 },
}

/// The model of [`RecognitionEvent`].
#[verifier::ext_equal]
pub enum EventView {
    Partial { text: Seq<char>, start_us: u64, end_us: u64 },
    Final { text: Seq<char>, start_us: u64, end_us: u64, confidence: Float64 },
}

impl View for RecognitionEvent {
    type V = EventView;

    open spec fn view(&self) -> EventView {
        match self {
            RecognitionEvent::Partial { text, start_us, end_us } => EventView::Partial {
                text: text@,
                start_us: *start_us,
                end_us: *end_us,
            },
            RecognitionEvent::Final { text, start_us, end_us, confidence } => EventView::Final {
                text: text@,
                start_us: *start_us,
                end_us: *end_us,
                confidence: *confidence,
            },
        }
    }
}

/// The models of several events.
pub open spec fn event_views(events: Seq<RecognitionEvent>) -> Seq<EventView> {
    Seq::new(events.len(), |i: int| events[i]@)
}

/// Full confidence: the number one.
pub open spec fn certain() -> Float64 {
    Float64 { bits: 0x3FF0_0000_0000_0000 }
}

// ---------------------------------------------------------------------------
// Recognisers
// ---------------------------------------------------------------------------

/// A streaming recogniser fed with 16 kHz mono audio.
///
/// `speech` is the VAD hint that delimits utterances. `infer_partial` lets the caller
/// merge backlogged mid-utterance decodes: when more audio is already queued behind a
/// call, the caller passes `false` so the recogniser only buffers, and the newest push
/// of a batch passes `true` to run the partial decode once. Utterance-end (final)
/// decoding is unaffected and always runs when the VAD closes.
pub enum Recognizer {
    Mock(MockRecognizer),
    Whisper(WhisperAsr),
}

/// The model of [`Recognizer`].
#[verifier::ext_equal]
pub enum RecognizerView {
    Mock(MockView),
    Whisper(WhisperView),
}

impl View for Recognizer {
    type V = RecognizerView;

    open spec fn view(&self) -> RecognizerView {
        match self {
            Recognizer::Mock(mock) => RecognizerView::Mock(mock@),
            Recognizer::Whisper(whisper) => RecognizerView::Whisper(whisper@),
        }
    }
}

impl RecognizerView {
    /// The provider's own invariant.
    pub open spec fn wf(self) -> bool {
        match self {
            RecognizerView::Mock(mock) => mock.wf(),
            RecognizerView::Whisper(whisper) => whisper.wf(),
        }
    }

    /// The name of the provider.
    pub open spec fn name(self) -> Seq<char> {
        match self {
            RecognizerView::Mock(_) => "mock"@,
            RecognizerView::Whisper(_) => "whisper"@,
        }
    }

    /// Whether the model has to decode audio before anything else can happen.
    pub open spec fn needs_model(self) -> bool {
        self matches RecognizerView::Whisper(whisper) && whisper.needs_model()
    }

    /// The recogniser as audio that ends at `end_us` leaves it, before any decoding.
    pub open spec fn heard(
        self,
        samples: Seq<u32>,
        speech: bool,
        end_us: u64,
        infer_partial: bool,
    ) -> RecognizerView {
        match self {
            RecognizerView::Mock(mock) => RecognizerView::Mock(
                mock.after(speech, end_us, infer_partial),
            ),
            RecognizerView::Whisper(whisper) => {
                let asked = whisper.heard(samples, speech, end_us, infer_partial);
                RecognizerView::Whisper(
                    if asked.needs_model() {
                        asked
                    } else {
                        asked.finished()
                    },
                )
            },
        }
    }

    /// The events that audio gives without any decoding.
    pub open spec fn heard_events(self, speech: bool, end_us: u64, infer_partial: bool) -> Seq<
        EventView,
    > {
        match self {
            RecognizerView::Mock(mock) => mock.events(speech, end_us, infer_partial),
            RecognizerView::Whisper(_) => Seq::empty(),
        }
    }

    /// The recogniser as the end of the session leaves it, before any decoding.
    pub open spec fn stopping(self) -> RecognizerView {
        match self {
            RecognizerView::Mock(mock) => RecognizerView::Mock(mock.stopped()),
            RecognizerView::Whisper(whisper) => {
                let asked = whisper.stopping();
                RecognizerView::Whisper(
                    if asked.needs_model() {
                        asked
                    } else {
                        asked.finished()
                    },
                )
            },
        }
    }

    /// The events that the end of the session gives without any decoding.
    pub open spec fn stopping_events(self) -> Seq<EventView> {
        match self {
            RecognizerView::Mock(mock) => mock.flushed(),
            RecognizerView::Whisper(_) => Seq::empty(),
        }
    }

    /// The recogniser once decoded segments are there.
    pub open spec fn finished(self) -> RecognizerView {
        match self {
            RecognizerView::Mock(mock) => self,
            RecognizerView::Whisper(whisper) => RecognizerView::Whisper(whisper.finished()),
        }
    }

    /// The events that decoded segments give.
    pub open spec fn decoded_events(self, decoded: Seq<whisper::DecodedView>) -> Seq<EventView> {
        match self {
            RecognizerView::Mock(_) => Seq::empty(),
            RecognizerView::Whisper(whisper) => whisper.events(decoded),
        }
    }

    /// The recogniser once decoding has failed.
    pub open spec fn abandoned(self) -> RecognizerView {
        match self {
            RecognizerView::Mock(_) => self,
            RecognizerView::Whisper(whisper) => RecognizerView::Whisper(
                WhisperView { pending: None, ..whisper },
            ),
        }
    }
}

/// What a call came to.
#[derive(Debug, PartialEq)]
pub enum RecognizerStep {
    /// The call is done.
    Done(Vec<RecognitionEvent>),
    /// The buffered audio has to be decoded.
    Decode,
}

impl Recognizer {
    /// The name of the provider.
    pub fn name(&self) -> (name: &'static str)
        ensures
            name@ == self@.name(),
    {
        match self {
            Recognizer::Mock(mock) => mock.name(),
            Recognizer::Whisper(whisper) => whisper.name(),
        }
    }

    /// Audio whose last sample is at `end_us` on the session audio clock.
    pub fn push_audio(
        &mut self,
        samples: &[u32],
        speech: bool,
        end_us: u64,
        infer_partial: bool,
    ) -> (step: RecognizerStep)
        requires
            old(self)@.wf(),
        ensures
            final(self)@ == old(self)@.heard(samples@, speech, end_us, infer_partial),
            final(self)@.wf(),
            match step {
                RecognizerStep::Decode => final(self)@.needs_model(),
                RecognizerStep::Done(events) => {
                    &&& !final(self)@.needs_model()
                    &&& event_views(events@) == old(self)@.heard_events(
                        speech,
                        end_us,
                        infer_partial,
                    )
                },
            },
    {
        match self {
            Recognizer::Mock(mock) => RecognizerStep::Done(
                mock.push_audio(speech, end_us, infer_partial),
            ),
            Recognizer::Whisper(whisper) => match whisper.push_audio(
                samples,
                speech,
                end_us,
                infer_partial,
            ) {
                WhisperStep::Done(events) => {
                    assert(event_views(events@) =~= Seq::empty());
                    RecognizerStep::Done(events)
                },
                WhisperStep::Decode => RecognizerStep::Decode,
            },
        }
    }

    /// Emit whatever is still buffered (used when a session stops).
    pub fn flush(&mut self) -> (step: RecognizerStep)
        requires
            old(self)@.wf(),
        ensures
            final(self)@ == old(self)@.stopping(),
            final(self)@.wf(),
            match step {
                RecognizerStep::Decode => final(self)@.needs_model(),
                RecognizerStep::Done(events) => {
                    &&& !final(self)@.needs_model()
                    &&& event_views(events@) == old(self)@.stopping_events()
                },
            },
    {
        match self {
            Recognizer::Mock(mock) => RecognizerStep::Done(mock.flush()),
            Recognizer::Whisper(whisper) => match whisper.flush() {
                WhisperStep::Done(events) => {
                    assert(event_views(events@) =~= Seq::empty());
                    RecognizerStep::Done(events)
                },
                WhisperStep::Decode => RecognizerStep::Decode,
            },
        }
    }

    /// The segments that the model found in the buffered audio.
    pub fn finish(&mut self, decoded: &Vec<DecodedSegment>) -> (events: Vec<RecognitionEvent>)
        requires
            old(self)@.wf(),
        ensures
            final(self)@ == old(self)@.finished(),
            final(self)@.wf(),
            event_views(events@) == old(self)@.decoded_events(whisper::decoded_views(decoded@)),
    {
        match self {
            Recognizer::Mock(_) => {
                let events: Vec<RecognitionEvent> = Vec::new();
                assert(event_views(events@) =~= Seq::empty());
                events
            },
            Recognizer::Whisper(whisper) => whisper.finish(decoded),
        }
    }

    /// The buffered audio could not be decoded.
    pub fn abandon(&mut self)
        requires
            old(self)@.wf(),
        ensures
            final(self)@ == old(self)@.abandoned(),
            final(self)@.wf(),
    {
        match self {
            Recognizer::Mock(_) => {},
            Recognizer::Whisper(whisper) => whisper.abandon(),
        }
    }

    /// The audio that the model has to decode, with what it was set up with.
    pub fn model_input(&self) -> (input: Option<&WhisperAsr>)
        ensures
            match input {
                Some(whisper) => self@ == RecognizerView::Whisper(whisper@),
                None => self@ is Mock,
            },
    {
        match self {
            Recognizer::Mock(_) => None,
            Recognizer::Whisper(whisper) => Some(whisper),
        }
    }
}

// ---------------------------------------------------------------------------
// Choice of the provider
// ---------------------------------------------------------------------------

/// The recogniser that `provider` names. `whisper_built` says whether this build
/// holds the Whisper model.
pub open spec fn created(
    provider: Seq<char>,
    opts: AsrOptionsView,
    whisper_built: bool,
) -> std::result::Result<RecognizerView, ErrorView> {
    if provider.len() == 0 || provider == "mock"@ {
        Ok(RecognizerView::Mock(MockView::initial(opts.sentences)))
    } else if provider == "whisper"@ {
        if whisper_built {
            Ok(RecognizerView::Whisper(WhisperView::initial(opts)))
        } else {
            Err(
                ErrorView::Unsupported(
                    "asr provider `whisper` requires the `whisper` feature (and a CUDA/CPU build)"@,
                ),
            )
        }
    } else {
        Err(
            ErrorView::Unsupported(
                "asr provider `"@ + provider
                    + "` is not wired up in phase 1 (only `mock` and `whisper` exist)"@,
            ),
        )
    }
}

/// Build the recogniser named by `provider`.
pub fn create(provider: &str, opts: AsrOptions, whisper_built: bool) -> (recognizer: Result<
    Recognizer,
>)
    ensures
        match recognizer {
            Ok(recognizer) => {
                &&& created(provider@, opts@, whisper_built) == Ok::<RecognizerView, ErrorView>(
                    recognizer@,
                )
                &&& recognizer@.wf()
            },
            Err(error) => created(provider@, opts@, whisper_built) == Err::<
                RecognizerView,
                ErrorView,
            >(error@),
        },
{
    if text::is_blank(provider) || text::same_text(provider, "mock") {
        return Ok(Recognizer::Mock(MockRecognizer::new(opts.sentences)));
    }
    if text::same_text(provider, "whisper") {
        if whisper_built {
            return Ok(Recognizer::Whisper(WhisperAsr::new(opts)));
        }
        return Err(
            CoreError::Unsupported(
                "asr provider `whisper` requires the `whisper` feature (and a CUDA/CPU build)".to_string(),
            ),
        );
    }
    let mut message: String = text::appended("asr provider `", provider);
    message.append("` is not wired up in phase 1 (only `mock` and `whisper` exist)");
    Err(CoreError::Unsupported(message))
}

// ---------------------------------------------------------------------------
// Laws
// ---------------------------------------------------------------------------

/// The providers are `mock`, also where none is named, and `whisper` where it is built in;
/// any other is refused by name. A recogniser starts with what the options say.
pub proof fn law_created(provider: Seq<char>, opts: AsrOptionsView, whisper_built: bool)
    ensures
        ({
            let made = created(provider, opts, whisper_built);
            &&& made is Ok <==> provider.len() == 0 || provider == "mock"@ || provider
                == "whisper"@ && whisper_built
            &&& made is Ok && provider.len() > 0 ==> made->Ok_0.name() == provider
            &&& provider.len() == 0 ==> made == created("mock"@, opts, whisper_built)
            &&& made is Ok && made->Ok_0 is Mock ==> {
                &&& opts.sentences.len() > 0 ==> made->Ok_0->Mock_0.sentences == opts.sentences
                &&& made->Ok_0->Mock_0.index == 0
                &&& !made->Ok_0->Mock_0.speaking
            }
            &&& made is Ok && made->Ok_0 is Whisper ==> {
                &&& made->Ok_0->Whisper_0.options == opts
                &&& made->Ok_0->Whisper_0.audio.len() == 0
                &&& !made->Ok_0->Whisper_0.speaking
            }
            &&& made is Err ==> made->Err_0 is Unsupported
        }),
{
    reveal_strlit("mock");
    reveal_strlit("whisper");
}

/// A recogniser that does not need the model has nothing left to decode, and one that
/// does keeps the audio until the model has answered; a failure loses no audio.
pub proof fn law_decoding(
    state: RecognizerView,
    samples: Seq<u32>,
    speech: bool,
    end_us: u64,
    infer_partial: bool,
)
    ensures
        ({
            let heard = state.heard(samples, speech, end_us, infer_partial);
            &&& heard is Mock <==> state is Mock
            &&& heard.name() == state.name()
            &&& state is Mock ==> !heard.needs_model()
            &&& heard matches RecognizerView::Whisper(whisper) ==> {
                &&& !heard.needs_model() ==> whisper.pending is None
                &&& heard.needs_model() ==> whisper.audio == (
                state->Whisper_0).buffered(samples).audio
            }
            &&& heard.abandoned() matches RecognizerView::Whisper(failed) ==> {
                &&& failed.audio == (heard->Whisper_0).audio
                &&& failed.audio_start_us == (heard->Whisper_0).audio_start_us
                &&& failed.speaking == (heard->Whisper_0).speaking
                &&& failed.pending is None
            }
            &&& heard.abandoned() is Mock ==> heard.abandoned() == heard
            &&& !heard.abandoned().needs_model()
            &&& !heard.finished().needs_model()
        }),
{
}

/// What the stand-in hears does not depend on the samples, and the model alone makes the
/// events of the other recogniser.
pub proof fn law_events(
    state: RecognizerView,
    speech: bool,
    end_us: u64,
    infer_partial: bool,
    decoded: Seq<whisper::DecodedView>,
)
    ensures
        state matches RecognizerView::Mock(mock) ==> {
            &&& state.heard_events(speech, end_us, infer_partial) == mock.events(
                speech,
                end_us,
                infer_partial,
            )
            &&& state.stopping_events() == mock.flushed()
            &&& state.decoded_events(decoded).len() == 0
        },
        state matches RecognizerView::Whisper(whisper) ==> {
            &&& state.heard_events(speech, end_us, infer_partial).len() == 0
            &&& state.stopping_events().len() == 0
            &&& state.decoded_events(decoded) == whisper.events(decoded)
        },
{
}

} // verus!
