//! Turns raw recognition events into a stable block of display lines.

use std::collections::VecDeque;

use crate::protocol::{Float64, SubtitleEvent, SubtitleEventView, SubtitleKind};
use crate::text;
use vstd::prelude::*;

verus! {

/// Cap on rendered visual lines so a runaway transcript cannot blow up the overlay
/// window.
pub const MAX_RENDERED_LINES: usize = 6;

/// How subtitles are laid out.
#[derive(Debug, Clone, Copy, PartialEq, Eq, Structural)]
pub struct SubtitleConfig {
    /// How many committed utterances to keep on screen.
    pub max_lines: usize,
    pub max_chars_per_line: usize,
    /// Minimum spacing between partial updates, in milliseconds.
    pub partial_interval_ms: u64,
}

impl SubtitleConfig {
    /// The layout without any wishes of the client.
    pub open spec fn standard() -> SubtitleConfig {
        SubtitleConfig { max_lines: 2, max_chars_per_line: 42, partial_interval_ms: 120 }
    }

    /// How many committed utterances stay.
    pub open spec fn kept(self) -> nat {
        if self.max_lines == 0 {
            1
        } else {
            self.max_lines as nat
        }
    }
}

impl Default for SubtitleConfig {
    fn default() -> (cfg: SubtitleConfig)
        ensures
            cfg == SubtitleConfig::standard(),
    {
        SubtitleConfig { max_lines: 2, max_chars_per_line: 42, partial_interval_ms: 120 }
    }
}

// ---------------------------------------------------------------------------
// Lines
// ---------------------------------------------------------------------------

/// The words of a text with single spaces between them.
pub open spec fn normalized(s: Seq<char>) -> Seq<char> {
    text::joined(text::words(s), seq![' '])
}

/// A text cut into lines of `max` characters, the last of which may be shorter. A
/// text that fits stays one line, and so does any text where `max` is zero.
pub open spec fn wrapped(s: Seq<char>, max: nat) -> Seq<Seq<char>>
    decreases s.len(),
{
    if max == 0 || s.len() <= max {
        seq![s]
    } else {
        seq![s.take(max as int)] + wrapped(s.skip(max as int), max)
    }
}

/// The last `limit` lines.
pub open spec fn last_lines(lines: Seq<Seq<char>>, limit: nat) -> Seq<Seq<char>> {
    if lines.len() > limit {
        lines.skip(lines.len() - limit)
    } else {
        lines
    }
}

/// The lines of several texts, one after the other.
pub open spec fn all_wrapped(entries: Seq<Seq<char>>, max: nat) -> Seq<Seq<char>>
    decreases entries.len(),
{
    if entries.len() == 0 {
        Seq::empty()
    } else {
        all_wrapped(entries.drop_last(), max) + wrapped(entries.last(), max)
    }
}

/// The words of `text` with single spaces between them.
pub fn normalize(text: &str) -> (line: String)
    ensures
        line@ == normalized(text@),
{
    text::join_words(text)
}

/// `text` cut into lines of `max_chars` characters.
pub fn wrap(text: &str, max_chars: usize) -> (lines: Vec<String>)
    ensures
        text::texts(lines@) == wrapped(text@, max_chars as nat),
{
    let chars: Vec<char> = text::chars_of(text);
    let mut lines: Vec<String> = Vec::new();
    let mut from: usize = 0;
    assert(text::texts(lines@) =~= Seq::empty());
    assert(chars@.skip(0) =~= text@);
    assert(Seq::<Seq<char>>::empty() + wrapped(text@, max_chars as nat) =~= wrapped(
        text@,
        max_chars as nat,
    ));
    while max_chars != 0 && chars.len() - from > max_chars
        invariant
            from <= chars.len(),
            text::texts(lines@) + wrapped(chars@.skip(from as int), max_chars as nat) == wrapped(
                text@,
                max_chars as nat,
            ),
        decreases chars.len() - from,
    {
        let ghost done = text::texts(lines@);
        let ghost rest = chars@.skip(from as int);
        let line: String = text::text_of(
            vstd::slice::slice_subrange(chars.as_slice(), from, from + max_chars),
        );
        assert(line@ =~= rest.take(max_chars as int));
        assert(rest.skip(max_chars as int) =~= chars@.skip(from + max_chars));
        lines.push(line);
        assert(text::texts(lines@) =~= done.push(line@));
        from += max_chars;
        assert(done + (seq![line@] + wrapped(chars@.skip(from as int), max_chars as nat))
            =~= text::texts(lines@) + wrapped(chars@.skip(from as int), max_chars as nat));
    }
    let ghost done = text::texts(lines@);
    let last: String = text::text_of(
        vstd::slice::slice_subrange(chars.as_slice(), from, chars.len()),
    );
    assert(last@ =~= chars@.skip(from as int));
    lines.push(last);
    assert(text::texts(lines@) =~= done + seq![last@]);
    lines
}

/// The last `limit` lines of `lines`.
pub fn trim_to_last(lines: Vec<String>, limit: usize) -> (last: Vec<String>)
    ensures
        text::texts(last@) == last_lines(text::texts(lines@), limit as nat),
{
    if lines.len() <= limit {
        return lines;
    }
    let ghost all = lines@;
    let mut lines: Vec<String> = lines;
    let excess: usize = lines.len() - limit;
    let last: Vec<String> = lines.split_off(excess);
    assert(text::texts(last@) =~= last_lines(text::texts(all), limit as nat));
    last
}

// ---------------------------------------------------------------------------
// The stabilizer
// ---------------------------------------------------------------------------

/// The model of [`SubtitleStabilizer`].
#[verifier::ext_equal]
pub struct StabilizerView {
    pub cfg: SubtitleConfig,
    /// The number of the last event.
    pub seq: u64,
    /// The committed utterances that are still shown, oldest first.
    pub history: Seq<Seq<char>>,
    /// The end of the last partial text that was shown, unless a committed text or a reset
    /// came since.
    pub last_partial_us: Option<u64>,
}

impl StabilizerView {
    /// A stabilizer that has shown nothing yet.
    pub open spec fn initial(cfg: SubtitleConfig) -> StabilizerView {
        StabilizerView { cfg, seq: 0, history: Seq::empty(), last_partial_us: None }
    }

    /// No more utterances are kept than the configuration allows.
    pub open spec fn wf(self) -> bool {
        self.history.len() <= self.cfg.kept()
    }

    /// The lines of the committed utterances.
    pub open spec fn rendered(self) -> Seq<Seq<char>> {
        last_lines(
            all_wrapped(self.history, self.cfg.max_chars_per_line as nat),
            MAX_RENDERED_LINES as nat,
        )
    }

    /// Whether a partial text that ends at `end_us` comes too soon after another.
    pub open spec fn too_soon(self, end_us: u64) -> bool {
        self.last_partial_us matches Some(last) && last <= end_us < last
            + self.cfg.partial_interval_ms * 1000
    }

    /// Whether a partial text that ends at `end_us` shows: it says something, and keeps
    /// its distance from the one before.
    pub open spec fn shows_partial(self, said: Seq<char>, end_us: u64) -> bool {
        normalized(said).len() > 0 && !self.too_soon(end_us)
    }

    /// Whether a final text is committed: it says something, and something else than
    /// the last one.
    pub open spec fn commits(self, said: Seq<char>) -> bool {
        &&& normalized(said).len() > 0
        &&& self.history.len() > 0 ==> self.history.last() != normalized(said)
    }

    /// The state after a partial text.
    pub open spec fn after_partial(self, said: Seq<char>, end_us: u64) -> StabilizerView {
        if self.shows_partial(said, end_us) {
            StabilizerView {
                seq: self.seq.wrapping_add(1),
                last_partial_us: Some(end_us),
                ..self
            }
        } else {
            self
        }
    }

    /// The state after a final text. Once one is committed, the next partial text shows at
    /// once; one that is not changes nothing.
    pub open spec fn after_final(self, said: Seq<char>) -> StabilizerView {
        if self.commits(said) {
            StabilizerView {
                seq: self.seq.wrapping_add(1),
                history: last_lines(self.history.push(normalized(said)), self.cfg.kept()),
                last_partial_us: None,
                ..self
            }
        } else {
            self
        }
    }

    /// The state after a reset.
    pub open spec fn after_reset(self) -> StabilizerView {
        StabilizerView { history: Seq::empty(), last_partial_us: None, ..self }
    }

    /// The event that shows `lines` in this state.
    pub open spec fn event(
        self,
        kind: SubtitleKind,
        said: Seq<char>,
        lines: Seq<Seq<char>>,
        start_us: u64,
        end_us: u64,
        confidence: Float64,
        session_id: Seq<char>,
    ) -> SubtitleEventView {
        SubtitleEventView {
            session_id,
            seq: self.seq,
            kind: kind.number(),
            text: normalized(said),
            translated_text: Seq::empty(),
            language: Seq::empty(),
            start_us,
            end_us,
            confidence,
            lines,
        }
    }

    /// The event that a partial text gives: below the committed lines, as far as the cap
    /// on lines leaves room for those.
    pub open spec fn partial_event(
        self,
        said: Seq<char>,
        start_us: u64,
        end_us: u64,
        session_id: Seq<char>,
    ) -> Option<SubtitleEventView> {
        if self.shows_partial(said, end_us) {
            Some(
                self.after_partial(said, end_us).event(
                    SubtitleKind::Partial,
                    said,
                    last_lines(
                        self.rendered() + wrapped(
                            normalized(said),
                            self.cfg.max_chars_per_line as nat,
                        ),
                        MAX_RENDERED_LINES as nat,
                    ),
                    start_us,
                    end_us,
                    Float64 { bits: 0 },
                    session_id,
                ),
            )
        } else {
            None
        }
    }

    /// The event that a final text gives.
    pub open spec fn final_event(
        self,
        said: Seq<char>,
        start_us: u64,
        end_us: u64,
        confidence: Float64,
        session_id: Seq<char>,
    ) -> Option<SubtitleEventView> {
        if self.commits(said) {
            let after = self.after_final(said);
            Some(
                after.event(
                    SubtitleKind::Committed,
                    said,
                    after.rendered(),
                    start_us,
                    end_us,
                    confidence,
                    session_id,
                ),
            )
        } else {
            None
        }
    }
}

/// The model of an event that may be there.
pub open spec fn event_view(event: Option<SubtitleEvent>) -> Option<SubtitleEventView> {
    match event {
        Some(event) => Some(event@),
        None => None,
    }
}

/// Keeps the committed utterances and numbers the events.
pub struct SubtitleStabilizer {
    cfg: SubtitleConfig,
    seq: u64,
    history: VecDeque<String>,
    last_partial_us: Option<u64>,
}

impl View for SubtitleStabilizer {
    type V = StabilizerView;

    closed spec fn view(&self) -> StabilizerView {
        StabilizerView {
            cfg: self.cfg,
            seq: self.seq,
            history: text::texts(self.history@),
            last_partial_us: self.last_partial_us,
        }
    }
}

impl SubtitleStabilizer {
    /// A stabilizer that has shown nothing yet.
    pub fn new(cfg: SubtitleConfig) -> (subs: SubtitleStabilizer)
        ensures
            subs@ == StabilizerView::initial(cfg),
            subs@.wf(),
    {
        SubtitleStabilizer { cfg, seq: 0, history: VecDeque::new(), last_partial_us: None }
    }

    /// A text that may still change. `None` where it says nothing, or comes sooner after
    /// the last one shown than the configured spacing.
    pub fn on_partial(
        &mut self,
        text: &str,
        start_us: u64,
        end_us: u64,
        session_id: &str,
    ) -> (event: Option<SubtitleEvent>)
        requires
            old(self)@.wf(),
        ensures
            final(self)@ == old(self)@.after_partial(text@, end_us),
            final(self)@.wf(),
            event_view(event) == old(self)@.partial_event(text@, start_us, end_us, session_id@),
    {
        let said: String = normalize(text);
        let chars: Vec<char> = text::chars_of(said.as_str());
        if chars.len() == 0 || self.comes_too_soon(end_us) {
            return None;
        }
        self.seq = self.seq.wrapping_add(1);
        self.last_partial_us = Some(end_us);
        let mut lines: Vec<String> = self.rendered_history();
        let mut below: Vec<String> = wrap(said.as_str(), self.cfg.max_chars_per_line);
        let ghost committed = text::texts(lines@);
        let ghost added = text::texts(below@);
        lines.append(&mut below);
        assert(text::texts(lines@) =~= committed + added);
        Some(
            self.build(
                SubtitleKind::Partial,
                said,
                trim_to_last(lines, MAX_RENDERED_LINES),
                start_us,
                end_us,
                Float64 { bits: 0 },
                session_id,
            ),
        )
    }

    /// Whether a partial text that ends at `end_us` comes too soon after another.
    fn comes_too_soon(&self, end_us: u64) -> (soon: bool)
        ensures
            soon == self@.too_soon(end_us),
    {
        match self.last_partial_us {
            Some(last) => {
                let next: u128 = last as u128 + self.cfg.partial_interval_ms as u128 * 1000;
                last <= end_us && (end_us as u128) < next
            },
            None => false,
        }
    }

    /// A text that is settled. `None` where it says nothing, or repeats the last one,
    /// which streaming engines do all the time.
    pub fn on_final(
        &mut self,
        text: &str,
        start_us: u64,
        end_us: u64,
        confidence: Float64,
        session_id: &str,
    ) -> (event: Option<SubtitleEvent>)
        requires
            old(self)@.wf(),
        ensures
            final(self)@ == old(self)@.after_final(text@),
            final(self)@.wf(),
            event_view(event) == old(self)@.final_event(
                text@,
                start_us,
                end_us,
                confidence,
                session_id@,
            ),
    {
        let said: String = normalize(text);
        let chars: Vec<char> = text::chars_of(said.as_str());
        if chars.len() == 0 {
            return None;
        }
        let count: usize = self.history.len();
        if count > 0 && text::same_text(self.history[count - 1].as_str(), said.as_str()) {
            assert(old(self)@.history.last() == said@);
            return None;
        }
        proof {
            if count > 0 {
                assert(old(self)@.history.last() == self.history@[count - 1]@);
            }
        }
        self.commit(said.clone());
        self.last_partial_us = None;
        self.seq = self.seq.wrapping_add(1);
        let lines: Vec<String> = self.rendered_history();
        Some(
            self.build(
                SubtitleKind::Committed,
                said,
                lines,
                start_us,
                end_us,
                confidence,
                session_id,
            ),
        )
    }

    /// Add an utterance and let the oldest go where there are too many.
    fn commit(&mut self, said: String)
        requires
            old(self)@.wf(),
        ensures
            final(self)@ == (StabilizerView {
                history: last_lines(old(self)@.history.push(said@), old(self)@.cfg.kept()),
                ..old(self)@
            }),
    {
        let limit: usize = if self.cfg.max_lines == 0 {
            1
        } else {
            self.cfg.max_lines
        };
        let ghost all = old(self)@.history.push(said@);
        self.history.push_back(said);
        assert(text::texts(self.history@) =~= all);
        if self.history.len() > limit {
            let oldest: Option<String> = self.history.pop_front();
            assert(text::texts(self.history@) =~= all.skip(1));
        }
    }

    /// Forget the committed utterances and when a partial text was last shown.
    pub fn reset(&mut self)
        ensures
            final(self)@ == old(self)@.after_reset(),
            final(self)@.wf(),
    {
        self.history.clear();
        self.last_partial_us = None;
        assert(self@.history =~= Seq::empty());
    }

    /// The lines of the committed utterances.
    fn rendered_history(&self) -> (lines: Vec<String>)
        ensures
            text::texts(lines@) == self@.rendered(),
    {
        let ghost history = text::texts(self.history@);
        let max: usize = self.cfg.max_chars_per_line;
        let mut lines: Vec<String> = Vec::new();
        let mut i: usize = 0;
        assert(text::texts(lines@) =~= Seq::empty());
        assert(history.take(0) =~= Seq::empty());
        while i < self.history.len()
            invariant
                i <= self.history@.len(),
                history == text::texts(self.history@),
                text::texts(lines@) == all_wrapped(history.take(i as int), max as nat),
            decreases self.history@.len() - i,
        {
            let ghost done = text::texts(lines@);
            let mut more: Vec<String> = wrap(self.history[i].as_str(), max);
            let ghost added = text::texts(more@);
            lines.append(&mut more);
            proof {
                assert(text::texts(lines@) =~= done + added);
                assert(history.take(i + 1).drop_last() =~= history.take(i as int));
                assert(history.take(i + 1).last() == self.history@[i as int]@);
            }
            i += 1;
        }
        assert(history.take(i as int) =~= history);
        trim_to_last(lines, MAX_RENDERED_LINES)
    }

    fn build(
        &self,
        kind: SubtitleKind,
        text: String,
        lines: Vec<String>,
        start_us: u64,
        end_us: u64,
        confidence: Float64,
        session_id: &str,
    ) -> (event: SubtitleEvent)
        ensures
            event@ == (SubtitleEventView {
                session_id: session_id@,
                seq: self@.seq,
                kind: kind.number(),
                text: text@,
                translated_text: Seq::empty(),
                language: Seq::empty(),
                start_us,
                end_us,
                confidence,
                lines: text::texts(lines@),
            }),
    {
        SubtitleEvent {
            session_id: session_id.to_string(),
            seq: self.seq,
            kind: kind.value(),
            text,
            translated_text: String::new(),
            language: String::new(),
            start_us,
            end_us,
            confidence,
            lines,
        }
    }
}

// ---------------------------------------------------------------------------
// Laws
// ---------------------------------------------------------------------------

/// Wrapping loses nothing, adds nothing and keeps the order: the lines put together
/// are the text. Where there is a limit, every line keeps to it, and every line but
/// the last is full.
pub proof fn law_wrap(s: Seq<char>, max: nat)
    ensures
        wrapped(s, max).len() > 0,
        text::joined(wrapped(s, max), Seq::empty()) == s,
        max > 0 ==> forall|i: int| #![trigger wrapped(s, max)[i]]
            0 <= i < wrapped(s, max).len() ==> wrapped(s, max)[i].len() <= max,
        max > 0 ==> forall|i: int| #![trigger wrapped(s, max)[i]]
            0 <= i < wrapped(s, max).len() - 1 ==> wrapped(s, max)[i].len() == max,
    decreases s.len(),
{
    if max == 0 || s.len() <= max {
    } else {
        let rest = s.skip(max as int);
        law_wrap(rest, max);
        let tail = wrapped(rest, max);
        text::lemma_joined_cons(s.take(max as int), tail);
        assert(s.take(max as int) + rest =~= s);
        let lines = wrapped(s, max);
        assert forall|i: int| #![trigger lines[i]] 0 <= i < lines.len() implies {
            &&& lines[i].len() <= max
            &&& i < lines.len() - 1 ==> lines[i].len() == max
        } by {
            if i > 0 {
                assert(lines[i] == tail[i - 1]);
            }
        }
    }
}

/// Normalising a text twice is normalising it once.
pub proof fn law_normalize(s: Seq<char>)
    ensures
        normalized(normalized(s)) == normalized(s),
{
    text::lemma_words(s);
    text::lemma_words_joined(text::words(s));
}

/// A final text that comes twice in a row is committed once: the second time there
/// is no event and nothing changes.
pub proof fn law_repeat(state: StabilizerView, said: Seq<char>)
    requires
        state.wf(),
    ensures
        !state.after_final(said).commits(said),
        state.after_final(said).after_final(said) == state.after_final(said),
        forall|start_us: u64, end_us: u64, confidence: Float64, id: Seq<char>|
            #![trigger state.after_final(said).final_event(said, start_us, end_us, confidence, id)]
            state.after_final(said).final_event(said, start_us, end_us, confidence, id) is None,
{
    let after = state.after_final(said);
    if state.commits(said) {
        assert(after.history.last() == normalized(said));
    }
}

/// A final text that gives no event, because it says nothing or repeats the last one,
/// leaves the stabilizer as it was.
pub proof fn law_dropped_final(state: StabilizerView, said: Seq<char>)
    ensures
        !state.commits(said) ==> state.after_final(said) == state,
{
}

/// A partial text leaves the committed utterances alone, and so what a later final
/// text is compared with.
pub proof fn law_partial(state: StabilizerView, said: Seq<char>, end_us: u64)
    ensures
        state.after_partial(said, end_us).history == state.history,
        state.after_partial(said, end_us).rendered() == state.rendered(),
{
}

/// Committed utterances take up no more lines than the cap, and after a final text
/// that was committed it is the last one kept.
pub proof fn law_committed(state: StabilizerView, said: Seq<char>)
    requires
        state.wf(),
    ensures
        state.rendered().len() <= MAX_RENDERED_LINES,
        state.after_final(said).wf(),
        state.commits(said) ==> state.after_final(said).history.last() == normalized(said),
{
}

/// Wrapped texts take up at least one line each.
proof fn lemma_all_wrapped(entries: Seq<Seq<char>>, max: nat)
    ensures
        all_wrapped(entries, max).len() >= entries.len(),
    decreases entries.len(),
{
    if entries.len() > 0 {
        lemma_all_wrapped(entries.drop_last(), max);
        law_wrap(entries.last(), max);
    }
}

/// The block that goes on screen has at least one line and keeps to the cap, whether the
/// text may still change or is settled, and however long it is.
pub proof fn law_lines_capped(
    state: StabilizerView,
    said: Seq<char>,
    start_us: u64,
    end_us: u64,
    confidence: Float64,
    id: Seq<char>,
)
    requires
        state.wf(),
    ensures
        state.partial_event(said, start_us, end_us, id) matches Some(event) ==> 1
            <= event.lines.len() <= MAX_RENDERED_LINES,
        state.final_event(said, start_us, end_us, confidence, id) matches Some(event) ==> 1
            <= event.lines.len() <= MAX_RENDERED_LINES,
{
    let max = state.cfg.max_chars_per_line as nat;
    law_wrap(normalized(said), max);
    lemma_all_wrapped(state.after_final(said).history, max);
}

/// What a stabilizer is told.
pub enum Call {
    Partial { text: Seq<char>, end_us: u64 },
    Final { text: Seq<char> },
    Reset,
}

impl StabilizerView {
    /// The state after a call.
    pub open spec fn after(self, call: Call) -> StabilizerView {
        match call {
            Call::Partial { text, end_us } => self.after_partial(text, end_us),
            Call::Final { text } => self.after_final(text),
            Call::Reset => self.after_reset(),
        }
    }

    /// Whether a call gives an event.
    pub open spec fn shows(self, call: Call) -> bool {
        match call {
            Call::Partial { text, end_us } => self.shows_partial(text, end_us),
            Call::Final { text } => self.commits(text),
            Call::Reset => false,
        }
    }

    /// Whether a call starts over: a text is committed, or everything forgotten.
    pub open spec fn settles(self, call: Call) -> bool {
        match call {
            Call::Partial { .. } => false,
            Call::Final { text } => self.commits(text),
            Call::Reset => true,
        }
    }

    /// The state after several calls.
    pub open spec fn after_calls(self, calls: Seq<Call>) -> StabilizerView
        decreases calls.len(),
    {
        if calls.len() == 0 {
            self
        } else {
            self.after_calls(calls.drop_last()).after(calls.last())
        }
    }

    /// The state before call `i` of several.
    pub open spec fn before_call(self, calls: Seq<Call>, i: int) -> StabilizerView {
        self.after_calls(calls.take(i))
    }

    /// How many of several calls give an event.
    pub open spec fn shown(self, calls: Seq<Call>) -> nat
        decreases calls.len(),
    {
        if calls.len() == 0 {
            0
        } else {
            self.shown(calls.drop_last()) + if self.after_calls(calls.drop_last()).shows(
                calls.last(),
            ) {
                1nat
            } else {
                0nat
            }
        }
    }

    /// The text that the latest of several calls to be committed since a reset
    /// committed, if any was.
    pub open spec fn latest(self, calls: Seq<Call>) -> Option<Seq<char>>
        decreases calls.len(),
    {
        if calls.len() == 0 {
            None
        } else {
            match calls.last() {
                Call::Final { text } => if self.after_calls(calls.drop_last()).commits(text) {
                    Some(normalized(text))
                } else {
                    self.latest(calls.drop_last())
                },
                Call::Partial { .. } => self.latest(calls.drop_last()),
                Call::Reset => None,
            }
        }
    }
}

/// The times of partial texts do not go back.
pub open spec fn in_order(calls: Seq<Call>) -> bool {
    forall|i: int, j: int|
        0 <= i <= j < calls.len() && (#[trigger] calls[i]) is Partial && (
        #[trigger] calls[j]) is Partial ==> calls[i]->end_us <= calls[j]->end_us
}

/// Since partial text `i` was shown and nothing settled, the last one shown ends no
/// earlier than it, and no later than any to come.
proof fn lemma_spacing(start: StabilizerView, calls: Seq<Call>, i: int, n: int)
    requires
        in_order(calls),
        0 <= i < n <= calls.len(),
        calls[i] is Partial,
        start.before_call(calls, i).shows(calls[i]),
        forall|k: int| #![trigger calls[k]]
            i < k < n ==> !start.before_call(calls, k).settles(calls[k]),
    ensures
        ({
            let now = start.before_call(calls, n);
            &&& now.cfg == start.cfg
            &&& now.last_partial_us matches Some(last)
            &&& calls[i]->end_us <= last
            &&& forall|k: int| #![trigger calls[k]]
                n <= k < calls.len() && calls[k] is Partial ==> last <= calls[k]->end_us
        }),
    decreases n - i,
{
    lemma_cfg(start, calls.take(n));
    assert(calls.take(n).drop_last() =~= calls.take(n - 1));
    assert(calls.take(n).last() == calls[n - 1]);
    if n > i + 1 {
        lemma_spacing(start, calls, i, n - 1);
        assert(!start.before_call(calls, n - 1).settles(calls[n - 1]));
    }
}

proof fn lemma_cfg(start: StabilizerView, calls: Seq<Call>)
    ensures
        start.after_calls(calls).cfg == start.cfg,
    decreases calls.len(),
{
    if calls.len() > 0 {
        lemma_cfg(start, calls.drop_last());
    }
}

/// Partial texts keep their distance over any run of calls: where times do not go back,
/// no two that are shown end closer to each other than the configured spacing, unless a
/// text was committed or everything forgotten in between.
pub proof fn law_spacing(start: StabilizerView, calls: Seq<Call>, i: int, j: int)
    requires
        in_order(calls),
        0 <= i < j < calls.len(),
        calls[i] is Partial,
        calls[j] is Partial,
        start.before_call(calls, i).shows(calls[i]),
        start.before_call(calls, j).shows(calls[j]),
        forall|k: int| #![trigger calls[k]]
            i < k < j ==> !start.before_call(calls, k).settles(calls[k]),
    ensures
        calls[j]->end_us >= calls[i]->end_us + start.cfg.partial_interval_ms * 1000,
{
    lemma_spacing(start, calls, i, j);
}

/// A partial text that ends less than the spacing after an earlier one that was shown,
/// with nothing settled in between and times that do not go back, gives no event and
/// changes nothing.
pub proof fn law_too_soon(start: StabilizerView, calls: Seq<Call>, i: int, j: int)
    requires
        in_order(calls),
        0 <= i < j < calls.len(),
        calls[i] is Partial,
        calls[j] is Partial,
        start.before_call(calls, i).shows(calls[i]),
        calls[j]->end_us < calls[i]->end_us + start.cfg.partial_interval_ms * 1000,
        forall|k: int| #![trigger calls[k]]
            i < k < j ==> !start.before_call(calls, k).settles(calls[k]),
    ensures
        !start.before_call(calls, j).shows(calls[j]),
        start.before_call(calls, j).after(calls[j]) == start.before_call(calls, j),
{
    lemma_spacing(start, calls, i, j);
}

/// Over any run of calls from the start, a final text gives no event exactly where it
/// says nothing or is what was committed last since a reset; only the latest counts. And
/// events are numbered in order, from one.
pub proof fn law_run(cfg: SubtitleConfig, calls: Seq<Call>, said: Seq<char>)
    ensures
        ({
            let start = StabilizerView::initial(cfg);
            let now = start.after_calls(calls);
            &&& now.wf()
            &&& now.cfg == cfg
            &&& now.seq == (start.shown(calls) % 0x1_0000_0000_0000_0000) as u64
            &&& start.latest(calls) == if now.history.len() == 0 {
                None
            } else {
                Some(now.history.last())
            }
            &&& !now.commits(said) <==> normalized(said).len() == 0 || start.latest(calls)
                == Some(normalized(said))
        }),
    decreases calls.len(),
{
    if calls.len() > 0 {
        law_run(cfg, calls.drop_last(), said);
    }
}

/// Every event that a partial text gives may still change and carries the whole text that
/// was said, whatever its length, with the given times and session name.
pub proof fn law_partial_told(
    state: StabilizerView,
    said: Seq<char>,
    start_us: u64,
    end_us: u64,
    id: Seq<char>,
)
    ensures
        state.partial_event(said, start_us, end_us, id) is Some <==> normalized(said).len() > 0 && !(
        state.last_partial_us is Some && state.last_partial_us->0 <= end_us
            < state.last_partial_us->0 + state.cfg.partial_interval_ms * 1000),
        state.partial_event(said, start_us, end_us, id) matches Some(event) ==> {
            &&& event.kind == SubtitleKind::Partial.number()
            &&& event.text == normalized(said)
            &&& event.session_id == id
            &&& event.start_us == start_us
            &&& event.end_us == end_us
            &&& event.confidence.bits == 0
            &&& event.translated_text.len() == 0
            &&& event.language.len() == 0
            &&& event.seq == state.seq.wrapping_add(1)
            &&& state.after_partial(said, end_us).seq == event.seq
        },
{
}

/// Every event that a final text gives is settled and carries the whole text that was
/// said, with the given times, confidence and session name.
pub proof fn law_final_told(
    state: StabilizerView,
    said: Seq<char>,
    start_us: u64,
    end_us: u64,
    confidence: Float64,
    id: Seq<char>,
)
    ensures
        state.final_event(said, start_us, end_us, confidence, id) is Some <==> normalized(
            said,
        ).len() > 0 && (state.history.len() == 0 || state.history.last() != normalized(said)),
        state.final_event(said, start_us, end_us, confidence, id) matches Some(event) ==> {
            &&& event.kind == SubtitleKind::Committed.number()
            &&& event.text == normalized(said)
            &&& event.session_id == id
            &&& event.start_us == start_us
            &&& event.end_us == end_us
            &&& event.confidence == confidence
            &&& event.translated_text.len() == 0
            &&& event.language.len() == 0
            &&& event.seq == state.seq.wrapping_add(1)
            &&& state.after_final(said).seq == event.seq
        },
{
}

/// The lines of several texts are those of the first ones, then those of the others, and
/// those of a single text are what it wraps to.
pub proof fn law_all_wrapped(a: Seq<Seq<char>>, b: Seq<Seq<char>>, one: Seq<char>, max: nat)
    ensures
        all_wrapped(a + b, max) == all_wrapped(a, max) + all_wrapped(b, max),
        all_wrapped(seq![one], max) == wrapped(one, max),
        all_wrapped(Seq::empty(), max).len() == 0,
    decreases b.len(),
{
    assert(seq![one].drop_last() =~= Seq::empty());
    assert(all_wrapped(seq![one].drop_last(), max) =~= Seq::empty());
    assert(Seq::<Seq<char>>::empty() + wrapped(one, max) =~= wrapped(one, max));
    if b.len() == 0 {
        assert(a + b =~= a);
        assert(all_wrapped(a, max) + all_wrapped(b, max) =~= all_wrapped(a, max));
    } else {
        law_all_wrapped(a, b.drop_last(), one, max);
        assert((a + b).drop_last() =~= a + b.drop_last());
        assert(all_wrapped(a + b, max) =~= all_wrapped(a, max) + all_wrapped(b, max));
    }
}

/// `shown` are the last of `all`, as many as `limit` leaves room for.
pub open spec fn is_end_of(shown: Seq<Seq<char>>, all: Seq<Seq<char>>, limit: nat) -> bool {
    &&& shown.len() <= all.len()
    &&& shown == all.skip(all.len() - shown.len())
    &&& shown.len() == all.len() || shown.len() == limit && limit < all.len()
}

/// The block on screen is the end of everything committed, wrapped, and of the text that
/// may still change below it: six lines, where there are that many. A final text is part
/// of what is committed.
pub proof fn law_block(
    state: StabilizerView,
    said: Seq<char>,
    start_us: u64,
    end_us: u64,
    confidence: Float64,
    id: Seq<char>,
)
    ensures
        ({
            let max = state.cfg.max_chars_per_line as nat;
            let committed = all_wrapped(state.history, max);
            &&& state.partial_event(said, start_us, end_us, id) matches Some(event) ==> is_end_of(
                event.lines,
                committed + wrapped(normalized(said), max),
                6,
            )
        }),
        state.final_event(said, start_us, end_us, confidence, id) matches Some(event) ==> is_end_of(
            event.lines,
            all_wrapped(
                state.after_final(said).history,
                state.cfg.max_chars_per_line as nat,
            ),
            6,
        ),
{
    let max = state.cfg.max_chars_per_line as nat;
    let committed = all_wrapped(state.history, max);
    let below = wrapped(normalized(said), max);
    let all = committed + below;
    let some = state.rendered() + below;
    let lines = last_lines(some, 6);
    assert(lines =~= all.skip(all.len() - lines.len()));
    let settled = all_wrapped(state.after_final(said).history, max);
    assert(last_lines(settled, 6) =~= settled.skip(settled.len() - last_lines(settled, 6).len()));
}

/// What is committed stays, newest last, until there is no more room: the utterances kept
/// are the last of those there were and the new one, as many as are configured and at
/// least one.
pub proof fn law_history(state: StabilizerView, said: Seq<char>)
    ensures
        state.commits(said) ==> is_end_of(
            state.after_final(said).history,
            state.history.push(normalized(said)),
            if state.cfg.max_lines >= 1 {
                state.cfg.max_lines as nat
            } else {
                1
            },
        ),
        state.after_final(said).cfg == state.cfg,
{
    let all = state.history.push(normalized(said));
    let kept = last_lines(all, state.cfg.kept());
    assert(kept =~= all.skip(all.len() - kept.len()));
}

/// Normalising leaves words as they are and puts one space between any two: a text
/// without white space stays, and white space between two texts becomes a single space,
/// where both say something.
pub proof fn law_normalized(a: Seq<char>, white: char, b: Seq<char>)
    requires
        text::is_white(white),
    ensures
        text::no_white(a) ==> normalized(a) == a,
        ({
            let whole = normalized(a + seq![white] + b);
            &&& normalized(a).len() > 0 && normalized(b).len() > 0 ==> whole == normalized(a)
                + seq![' '] + normalized(b)
            &&& normalized(a).len() == 0 ==> whole == normalized(b)
            &&& normalized(b).len() == 0 ==> whole == normalized(a)
        }),
{
    text::law_words(a, white, b);
    text::law_joined(text::words(a), text::words(b), seq![' ']);
    lemma_blank(a);
    lemma_blank(b);
    if text::no_white(a) {
        text::law_one_word(a);
        if a.len() == 0 {
            assert(normalized(a) =~= a);
        }
    }
}

/// A text says nothing exactly where it has no words.
proof fn lemma_blank(s: Seq<char>)
    ensures
        normalized(s).len() == 0 <==> text::words(s).len() == 0,
{
    text::lemma_words(s);
    let parts = text::words(s);
    if parts.len() > 0 {
        assert(parts[0].len() > 0);
        text::law_joined(seq![parts[0]], parts.skip(1), seq![' ']);
        assert(seq![parts[0]] + parts.skip(1) =~= parts);
    }
}

/// A reset forgets what was committed, and nothing of the numbering.
pub proof fn law_reset(state: StabilizerView)
    ensures
        state.after_reset().history.len() == 0,
        state.after_reset().seq == state.seq,
        state.after_reset().cfg == state.cfg,
        forall|end_us: u64| !(#[trigger] state.after_reset().too_soon(end_us)),
{
}

/// A text that is not shown leaves everything as it was; one that is takes the next number
/// and its time, and leaves the committed lines alone.
pub proof fn law_partial_step(
    state: StabilizerView,
    said: Seq<char>,
    start_us: u64,
    end_us: u64,
    id: Seq<char>,
)
    ensures
        ({
            let after = state.after_partial(said, end_us);
            let event = state.partial_event(said, start_us, end_us, id);
            &&& event is None ==> after == state
            &&& event is Some ==> {
                &&& after.seq == state.seq.wrapping_add(1)
                &&& after.seq == (event->0).seq
                &&& after.history == state.history
                &&& after.cfg == state.cfg
                &&& after.last_partial_us == Some(end_us)
            }
        }),
{
}

/// A settled text that is not shown leaves everything as it was; one that is takes the
/// next number, and the text that follows it may be shown at any time.
pub proof fn law_final_step(
    state: StabilizerView,
    said: Seq<char>,
    start_us: u64,
    end_us: u64,
    confidence: Float64,
    id: Seq<char>,
    next: Seq<char>,
    next_end_us: u64,
)
    ensures
        ({
            let after = state.after_final(said);
            let event = state.final_event(said, start_us, end_us, confidence, id);
            &&& event is None ==> after == state
            &&& event is Some ==> {
                &&& after.seq == state.seq.wrapping_add(1)
                &&& after.seq == (event->0).seq
                &&& after.cfg == state.cfg
                &&& after.last_partial_us is None
                &&& normalized(next).len() > 0 ==> after.shows_partial(next, next_end_us)
            }
        }),
{
}

} // verus!
