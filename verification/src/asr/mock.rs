//! Deterministic stand-in recogniser so the whole pipeline can be exercised
//! without any credentials or network access.
//!
//! Every detected utterance produces one `Final` event taken from a rotating
//! sentence list, plus `Partial` events that grow while the speaker is active.

use crate::asr;
use crate::asr::{EventView, RecognitionEvent};
use crate::protocol::Float64;
use crate::text;
use vstd::prelude::*;

verus! {

/// Shortest time between two partial texts, in microseconds.
pub const PARTIAL_INTERVAL_US: u64 = 120_000;

/// How fast a partial text grows.
pub const CHARS_PER_SECOND: u64 = 14;

/// The sentences that are used where none are given.
pub open spec fn standard_sentences() -> Seq<Seq<char>> {
    seq![
        "这是第一段模拟识别结果。"@,
        "第二段：当前阶段还没有接入云端语音识别服务。"@,
        "第三段，这一段刻意写得比较长一些，用来验证字幕窗口的自动换行、最大行数限制以及历史滚动是否正常。"@,
        "Fourth line: mock recogniser output for an English sentence."@,
    ]
}

/// The sentences that are used where none are given.
pub fn default_sentences() -> (sentences: Vec<String>)
    ensures
        text::texts(sentences@) == standard_sentences(),
{
    let mut sentences: Vec<String> = Vec::new();
    sentences.push("这是第一段模拟识别结果。".to_string());
    sentences.push("第二段：当前阶段还没有接入云端语音识别服务。".to_string());
    sentences.push(
        "第三段，这一段刻意写得比较长一些，用来验证字幕窗口的自动换行、最大行数限制以及历史滚动是否正常。".to_string(),
    );
    sentences.push("Fourth line: mock recogniser output for an English sentence.".to_string());
    assert(text::texts(sentences@) =~= standard_sentences());
    sentences
}

/// The model of [`MockRecognizer`].
#[verifier::ext_equal]
pub struct MockView {
    pub sentences: Seq<Seq<char>>,
    /// How many utterances have been finished.
    pub index: usize,
    pub speaking: bool,
    pub segment_start_us: u64,
    pub last_partial_us: u64,
}

/// `a - b`, or zero where that is negative.
pub open spec fn elapsed(a: u64, b: u64) -> u64 {
    if a < b {
        0
    } else {
        (a - b) as u64
    }
}

/// How many characters are spoken after `us` microseconds, rounded.
pub open spec fn spoken_chars(us: u64) -> nat {
    ((us * CHARS_PER_SECOND + 500_000) / 1_000_000) as nat
}

impl MockView {
    /// There is always something to say.
    pub open spec fn wf(self) -> bool {
        self.sentences.len() > 0
    }

    /// A recogniser that has heard nothing.
    pub open spec fn initial(sentences: Seq<Seq<char>>) -> MockView {
        MockView {
            sentences: if sentences.len() == 0 {
                standard_sentences()
            } else {
                sentences
            },
            index: 0,
            speaking: false,
            segment_start_us: 0,
            last_partial_us: 0,
        }
    }

    /// The text of the current utterance: its number and its sentence.
    pub open spec fn full_text(self) -> Seq<char> {
        "["@ + text::decimal_text(self.index.wrapping_add(1) as nat) + "] "@
            + self.sentences[self.index as int % self.sentences.len() as int]
    }

    /// What of the text is spoken after `us` microseconds.
    pub open spec fn partial_text(self, us: u64) -> Seq<char> {
        let full = self.full_text();
        if spoken_chars(us) >= full.len() {
            full
        } else {
            full.take(spoken_chars(us) as int)
        }
    }

    /// The state at the start of an utterance, or unchanged within one.
    pub open spec fn speaking_at(self, end_us: u64) -> MockView {
        if self.speaking {
            self
        } else {
            MockView { speaking: true, segment_start_us: end_us, last_partial_us: end_us, ..self }
        }
    }

    /// Whether speech up to `end_us` gives a partial text.
    pub open spec fn partial_due(self, end_us: u64) -> bool {
        elapsed(end_us, self.speaking_at(end_us).last_partial_us) >= PARTIAL_INTERVAL_US
    }

    /// The event that ends an utterance.
    pub open spec fn final_event(self, end_us: u64) -> EventView {
        EventView::Final {
            text: self.full_text(),
            start_us: self.segment_start_us,
            end_us,
            confidence: asr::certain(),
        }
    }

    /// The events of audio that ends at `end_us`. A partial text only comes where
    /// `infer_partial` is set.
    pub open spec fn events(self, speech: bool, end_us: u64, infer_partial: bool) -> Seq<
        EventView,
    > {
        let now = self.speaking_at(end_us);
        if speech && infer_partial && self.partial_due(end_us) {
            seq![
                EventView::Partial {
                    text: now.partial_text(elapsed(end_us, now.segment_start_us)),
                    start_us: now.segment_start_us,
                    end_us,
                },
            ]
        } else if !speech && self.speaking {
            seq![self.final_event(end_us)]
        } else {
            Seq::empty()
        }
    }

    /// The state after audio that ends at `end_us`.
    pub open spec fn after(self, speech: bool, end_us: u64, infer_partial: bool) -> MockView {
        if speech {
            let now = self.speaking_at(end_us);
            if infer_partial && self.partial_due(end_us) {
                MockView { last_partial_us: end_us, ..now }
            } else {
                now
            }
        } else {
            self.stopped()
        }
    }

    /// The state once nobody speaks: an utterance is counted.
    pub open spec fn stopped(self) -> MockView {
        if self.speaking {
            MockView { speaking: false, index: self.index.wrapping_add(1), ..self }
        } else {
            self
        }
    }

    /// The events where the session stops.
    pub open spec fn flushed(self) -> Seq<EventView> {
        if self.speaking {
            seq![self.final_event(self.last_partial_us)]
        } else {
            Seq::empty()
        }
    }
}

/// The stand-in recogniser.
pub struct MockRecognizer {
    sentences: Vec<String>,
    index: usize,
    speaking: bool,
    segment_start_us: u64,
    last_partial_us: u64,
}

impl View for MockRecognizer {
    type V = MockView;

    closed spec fn view(&self) -> MockView {
        MockView {
            sentences: text::texts(self.sentences@),
            index: self.index,
            speaking: self.speaking,
            segment_start_us: self.segment_start_us,
            last_partial_us: self.last_partial_us,
        }
    }
}

impl MockRecognizer {
    /// A recogniser that says `sentences` in turn.
    pub fn new(sentences: Vec<String>) -> (mock: MockRecognizer)
        ensures
            mock@ == MockView::initial(text::texts(sentences@)),
            mock@.wf(),
    {
        let sentences: Vec<String> = if sentences.len() == 0 {
            default_sentences()
        } else {
            sentences
        };
        MockRecognizer {
            sentences,
            index: 0,
            speaking: false,
            segment_start_us: 0,
            last_partial_us: 0,
        }
    }

    /// The name of the provider.
    pub fn name(&self) -> (name: &'static str)
        ensures
            name@ == "mock"@,
    {
        "mock"
    }

    fn full_text(&self) -> (text: String)
        requires
            self@.wf(),
        ensures
            text@ == self@.full_text(),
    {
        let mut out: String = "[".to_string();
        out.append(text::decimal(self.index.wrapping_add(1) as u64).as_str());
        out.append("] ");
        out.append(self.sentences[self.index % self.sentences.len()].as_str());
        out
    }

    fn partial_text(&self, us: u64) -> (text: String)
        requires
            self@.wf(),
        ensures
            text@ == self@.partial_text(us),
    {
        let full: String = self.full_text();
        let chars: Vec<char> = text::chars_of(full.as_str());
        let take: u128 = (us as u128 * CHARS_PER_SECOND as u128 + 500_000) / 1_000_000;
        if take >= chars.len() as u128 {
            full
        } else {
            text::text_of(vstd::slice::slice_subrange(chars.as_slice(), 0, take as usize))
        }
    }

    fn finish_segment(&mut self, end_us: u64) -> (event: RecognitionEvent)
        requires
            old(self)@.wf(),
        ensures
            event@ == old(self)@.final_event(end_us),
            final(self)@ == (MockView { index: old(self)@.index.wrapping_add(1), ..old(self)@ }),
    {
        let event = RecognitionEvent::Final {
            text: self.full_text(),
            start_us: self.segment_start_us,
            end_us,
            confidence: Float64 { bits: 0x3FF0_0000_0000_0000 },
        };
        self.index = self.index.wrapping_add(1);
        event
    }

    /// Audio that ends at `end_us`, with speech in it or not. Where `infer_partial` is
    /// not set, audio within an utterance is only taken in; the end of an utterance is
    /// reported in any case.
    pub fn push_audio(&mut self, speech: bool, end_us: u64, infer_partial: bool) -> (events: Vec<
        RecognitionEvent,
    >)
        requires
            old(self)@.wf(),
        ensures
            final(self)@ == old(self)@.after(speech, end_us, infer_partial),
            final(self)@.wf(),
            asr::event_views(events@) == old(self)@.events(speech, end_us, infer_partial),
    {
        let mut events: Vec<RecognitionEvent> = Vec::new();
        if speech {
            if !self.speaking {
                self.speaking = true;
                self.segment_start_us = end_us;
                self.last_partial_us = end_us;
            }
            assert(self@ == old(self)@.speaking_at(end_us));
            if infer_partial && end_us.saturating_sub(self.last_partial_us) >= PARTIAL_INTERVAL_US {
                let elapsed: u64 = end_us.saturating_sub(self.segment_start_us);
                events.push(
                    RecognitionEvent::Partial {
                        text: self.partial_text(elapsed),
                        start_us: self.segment_start_us,
                        end_us,
                    },
                );
                self.last_partial_us = end_us;
            }
        } else if self.speaking {
            self.speaking = false;
            events.push(self.finish_segment(end_us));
        }
        assert(asr::event_views(events@) =~= old(self)@.events(speech, end_us, infer_partial));
        events
    }

    /// Emit whatever is still open.
    pub fn flush(&mut self) -> (events: Vec<RecognitionEvent>)
        requires
            old(self)@.wf(),
        ensures
            final(self)@ == old(self)@.stopped(),
            final(self)@.wf(),
            asr::event_views(events@) == old(self)@.flushed(),
    {
        let mut events: Vec<RecognitionEvent> = Vec::new();
        if self.speaking {
            self.speaking = false;
            events.push(self.finish_segment(self.last_partial_us));
        }
        assert(asr::event_views(events@) =~= old(self)@.flushed());
        events
    }
}

// ---------------------------------------------------------------------------
// Laws
// ---------------------------------------------------------------------------

/// Partial texts grow: what was shown earlier in an utterance is the start of what is
/// shown later, and of the final text.
pub proof fn law_partials_grow(state: MockView, earlier_us: u64, later_us: u64)
    requires
        earlier_us <= later_us,
    ensures
        state.partial_text(earlier_us).is_prefix_of(state.partial_text(later_us)),
        state.partial_text(later_us).is_prefix_of(state.full_text()),
{
    assert(spoken_chars(earlier_us) <= spoken_chars(later_us));
}

/// A chunk of audio as the recogniser is told of it.
pub struct Chunk {
    pub speech: bool,
    pub end_us: u64,
    pub infer_partial: bool,
}

/// The state after several chunks of audio.
pub open spec fn heard(state: MockView, audio: Seq<Chunk>) -> MockView
    decreases audio.len(),
{
    if audio.len() == 0 {
        state
    } else {
        let last = audio.last();
        heard(state, audio.drop_last()).after(last.speech, last.end_us, last.infer_partial)
    }
}

/// The events of several chunks of audio.
pub open spec fn heard_events(state: MockView, audio: Seq<Chunk>) -> Seq<EventView>
    decreases audio.len(),
{
    if audio.len() == 0 {
        Seq::empty()
    } else {
        let last = audio.last();
        heard_events(state, audio.drop_last()) + heard(state, audio.drop_last()).events(
            last.speech,
            last.end_us,
            last.infer_partial,
        )
    }
}

/// The final events among `events`.
pub open spec fn finals(events: Seq<EventView>) -> Seq<EventView>
    decreases events.len(),
{
    if events.len() == 0 {
        Seq::empty()
    } else if events.last() is Final {
        finals(events.drop_last()).push(events.last())
    } else {
        finals(events.drop_last())
    }
}

/// How many utterances the audio holds that silence ends.
pub open spec fn utterances(speaking: bool, audio: Seq<Chunk>) -> nat
    decreases audio.len(),
{
    if audio.len() == 0 {
        0
    } else {
        let before = if audio.len() == 1 {
            speaking
        } else {
            audio[audio.len() - 2].speech
        };
        utterances(speaking, audio.drop_last()) + if before && !audio.last().speech {
            1nat
        } else {
            0nat
        }
    }
}

/// Final events of two runs of events.
proof fn lemma_finals_add(a: Seq<EventView>, b: Seq<EventView>)
    ensures
        finals(a + b) == finals(a) + finals(b),
    decreases b.len(),
{
    if b.len() == 0 {
        assert(a + b =~= a);
        assert(finals(a) + finals(b) =~= finals(a));
    } else {
        lemma_finals_add(a, b.drop_last());
        assert((a + b).drop_last() =~= a + b.drop_last());
        assert(finals(a + b) =~= finals(a) + finals(b));
    }
}

/// Every utterance that silence ends produces exactly one final event, whether partial
/// texts were wanted or not, and the sentences rotate: the next one follows in the list,
/// and after the last the first.
pub proof fn law_one_final_per_utterance(state: MockView, audio: Seq<Chunk>)
    requires
        state.wf(),
        state.index + audio.len() <= usize::MAX,
    ensures
        ({
            let found = finals(heard_events(state, audio));
            let after = heard(state, audio);
            &&& found.len() == utterances(state.speaking, audio)
            &&& found.len() <= audio.len()
            &&& after.index == state.index + found.len()
            &&& after.sentences == state.sentences
            &&& after.speaking == if audio.len() == 0 {
                state.speaking
            } else {
                audio.last().speech
            }
            &&& forall|i: int| #![trigger found[i]]
                0 <= i < found.len() ==> found[i]->Final_text == (MockView {
                    index: (state.index + i) as usize,
                    ..state
                }).full_text()
        }),
    decreases audio.len(),
{
    if audio.len() > 0 {
        let init = audio.drop_last();
        law_one_final_per_utterance(state, init);
        let mid = heard(state, init);
        let last = audio.last();
        let now = mid.events(last.speech, last.end_us, last.infer_partial);
        lemma_finals_add(heard_events(state, init), now);
        let before = finals(heard_events(state, init));
        let found = finals(heard_events(state, audio));
        if audio.len() > 1 {
            assert(init.last() == audio[audio.len() - 2]);
        }
        assert(now.len() <= 1);
        if now.len() == 1 {
            assert(now.drop_last() =~= Seq::empty());
            assert(finals(now.drop_last()) =~= Seq::empty());
            assert(finals(now) =~= if now[0] is Final {
                seq![now[0]]
            } else {
                Seq::empty()
            });
        } else {
            assert(now =~= Seq::empty());
            assert(finals(now) =~= Seq::empty());
        }
        assert(found == before + finals(now));
        assert forall|i: int| #![trigger found[i]] 0 <= i < found.len() implies found[i]->Final_text
            == (MockView { index: (state.index + i) as usize, ..state }).full_text() by {
            if i < before.len() {
                assert(found[i] == before[i]);
            } else {
                assert(found[i] == now[0]);
            }
        }
    }
}

/// Audio within an utterance that is only to be taken in gives no event, whatever the
/// time since the last partial text, and does not count as one; and the event that ends
/// an utterance does not depend on the flag.
pub proof fn law_only_buffers(state: MockView, end_us: u64)
    ensures
        state.events(true, end_us, false) == Seq::<EventView>::empty(),
        state.after(true, end_us, false) == state.speaking_at(end_us),
        state.speaking ==> state.after(true, end_us, false) == state,
        state.events(false, end_us, false) == state.events(false, end_us, true),
        state.after(false, end_us, false) == state.after(false, end_us, true),
{
}

/// The text of an utterance is the number of the utterance in square brackets, a space
/// and, whole, the sentence whose turn it is.
pub proof fn law_full_text(state: MockView)
    requires
        state.wf(),
        state.index < usize::MAX,
    ensures
        ({
            let full = state.full_text();
            let sentence = state.sentences[state.index as int % state.sentences.len() as int];
            let digits = full.len() - sentence.len() - 3;
            &&& digits > 0
            &&& full[0] == '['
            &&& text::decimal_value(full.subrange(1, 1 + digits)) == state.index + 1
            &&& full[1 + digits] == ']'
            &&& full[2 + digits] == ' '
            &&& full.skip(3 + digits) == sentence
        }),
{
    reveal_strlit("[");
    reveal_strlit("] ");
    let n = (state.index + 1) as nat;
    text::law_decimal(n);
    let full = state.full_text();
    let sentence = state.sentences[state.index as int % state.sentences.len() as int];
    let digits = full.len() - sentence.len() - 3;
    assert(full.subrange(1, 1 + digits) =~= text::decimal_text(n));
    assert(full.skip(3 + digits) =~= sentence);
}

/// A partial text is the start of the whole, as long as fourteen characters per second
/// make it, to the nearest character, or all of it.
pub proof fn law_partial_text(state: MockView, us: u64)
    ensures
        ({
            let part = state.partial_text(us);
            let full = state.full_text();
            &&& part == full.take(part.len() as int)
            &&& part.len() <= full.len()
            &&& part.len() < full.len() ==> -500_000 <= part.len() * 1_000_000 - us * 14 <= 500_000
            &&& part.len() == full.len() ==> us * 14 + 500_000 >= full.len() * 1_000_000
        }),
{
    let part = state.partial_text(us);
    let full = state.full_text();
    assert(part =~= full.take(part.len() as int));
}

/// An utterance runs from the first chunk with speech to the first without: its final text
/// starts and ends at their times, however many chunks come between, and nothing else ends
/// it. Meanwhile the number of the utterance stays.
pub proof fn law_utterance(state: MockView, speech: Seq<Chunk>, end_us: u64, infer_partial: bool)
    requires
        state.wf(),
        !state.speaking,
        speech.len() > 0,
        forall|i: int| 0 <= i < speech.len() ==> (#[trigger] speech[i]).speech,
    ensures
        ({
            let during = heard(state, speech);
            let events = during.events(false, end_us, infer_partial);
            &&& during.speaking
            &&& during.index == state.index
            &&& during.sentences == state.sentences
            &&& finals(heard_events(state, speech)).len() == 0
            &&& events.len() == 1
            &&& events[0] is Final
            &&& events[0]->Final_text == state.full_text()
            &&& events[0]->Final_start_us == speech[0].end_us
            &&& events[0]->Final_end_us == end_us
            &&& events[0]->confidence.bits == 0x3FF0_0000_0000_0000
            &&& !during.after(false, end_us, infer_partial).speaking
            &&& during.after(false, end_us, infer_partial).index == state.index.wrapping_add(1)
        }),
    decreases speech.len(),
{
    let before = speech.drop_last();
    assert(speech[speech.len() - 1].speech);
    let last = speech.last();
    let now = heard(state, before).events(last.speech, last.end_us, last.infer_partial);
    if before.len() > 0 {
        assert forall|i: int| 0 <= i < before.len() implies (#[trigger] before[i]).speech by {
            assert(speech[i].speech);
        }
        law_utterance(state, before, end_us, infer_partial);
        assert(before[0] == speech[0]);
    } else {
        assert(heard(state, before) == state);
        assert(heard_events(state, before) =~= Seq::empty());
    }
    lemma_finals_add(heard_events(state, before), now);
    if now.len() == 1 {
        assert(now.drop_last() =~= Seq::empty());
        assert(finals(now.drop_last()) =~= Seq::empty());
    }
}

/// Within an utterance a partial text comes exactly where one is wanted and 120 ms have
/// passed since the last, or since the utterance began; it shows what has been spoken
/// since then.
pub proof fn law_partial_due(state: MockView, end_us: u64)
    requires
        state.speaking,
    ensures
        ({
            let events = state.events(true, end_us, true);
            &&& events.len() == if end_us >= state.last_partial_us + 120_000 {
                1nat
            } else {
                0nat
            }
            &&& events.len() == 1 ==> {
                &&& events[0] is Partial
                &&& events[0]->Partial_start_us == state.segment_start_us
                &&& events[0]->Partial_end_us == end_us
                &&& end_us >= state.segment_start_us ==> events[0]->Partial_text
                    == state.partial_text((end_us - state.segment_start_us) as u64)
                &&& state.after(true, end_us, true).last_partial_us == end_us
            }
        }),
{
}

/// A stop ends an utterance as silence would at the moment of the last partial text, and
/// changes nothing where none was going on.
pub proof fn law_flush(state: MockView, infer_partial: bool)
    ensures
        state.flushed() == state.events(false, state.last_partial_us, infer_partial),
        state.stopped() == state.after(false, state.last_partial_us, infer_partial),
        !state.stopped().speaking,
        state.stopped().flushed().len() == 0,
        state.flushed().len() == if state.speaking {
            1nat
        } else {
            0nat
        },
        !state.speaking ==> state.stopped() == state,
{
}

/// An utterance starts with the first chunk of speech, which shows nothing yet; while it
/// goes on only a partial text is remembered, and its end counts it. The sentences stay.
pub proof fn law_step(state: MockView, speech: bool, end_us: u64, infer_partial: bool)
    ensures
        ({
            let after = state.after(speech, end_us, infer_partial);
            let events = state.events(speech, end_us, infer_partial);
            &&& after.sentences == state.sentences
            &&& after.speaking == speech
            &&& !state.speaking ==> events.len() == 0
            &&& speech && !state.speaking ==> after.segment_start_us == end_us
                && after.last_partial_us == end_us
            &&& speech && state.speaking ==> after.segment_start_us == state.segment_start_us
                && after.last_partial_us == if events.len() > 0 {
                end_us
            } else {
                state.last_partial_us
            }
            &&& !speech ==> after.segment_start_us == state.segment_start_us
                && after.last_partial_us == state.last_partial_us
            &&& after.index == if !speech && events.len() > 0 {
                state.index.wrapping_add(1)
            } else {
                state.index
            }
        }),
{
}

/// Without sentences of its own the stand-in says four, and every utterance is one of its
/// sentences, in turn.
pub proof fn law_initial(sentences: Seq<Seq<char>>)
    ensures
        sentences.len() > 0 ==> MockView::initial(sentences).sentences == sentences,
        MockView::initial(Seq::empty()).sentences.len() == 4,
        MockView::initial(sentences).index == 0,
        !MockView::initial(sentences).speaking,
        MockView::initial(sentences).flushed().len() == 0,
{
}

} // verus!
