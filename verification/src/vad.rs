//! Voice activity detection: analysis frames, and the detector that opens on speech and
//! closes on silence.
//!
//! Whether a frame is loud is measured outside; what follows from it is decided here.

use vstd::prelude::*;

verus! {

/// How speech is told from silence.
#[derive(Debug, Clone, Copy, PartialEq, Eq, Structural)]
pub struct VadConfig {
    pub sample_rate: u32,
    /// Analysis frame length in milliseconds.
    pub frame_ms: u32,
    /// Consecutive loud frames required to open the detector.
    pub start_frames: usize,
    /// Consecutive quiet frames required to close the detector.
    pub end_frames: usize,
}

impl VadConfig {
    /// The samples of one analysis frame.
    pub open spec fn samples(self) -> nat {
        let samples = self.sample_rate * self.frame_ms / 1000;
        if samples < 1 {
            1
        } else {
            samples as nat
        }
    }

    /// How far before its detection a segment starts, in microseconds.
    pub open spec fn lookback_us(self) -> u64 {
        (self.start_frames as u64).wrapping_mul(self.frame_ms as u64).wrapping_mul(1000)
    }

    /// The usual detection at a sample rate.
    pub fn new(sample_rate: u32) -> (cfg: VadConfig)
        ensures
            cfg == (VadConfig { sample_rate, frame_ms: 10, start_frames: 3, end_frames: 30 }),
    {
        VadConfig { sample_rate, frame_ms: 10, start_frames: 3, end_frames: 30 }
    }

    /// The samples of one analysis frame.
    pub fn frame_samples(&self) -> (samples: u64)
        ensures
            samples == self.samples(),
            samples > 0,
    {
        assert(self.sample_rate * self.frame_ms <= u32::MAX * u32::MAX) by (nonlinear_arith)
            requires
                self.sample_rate <= u32::MAX,
                self.frame_ms <= u32::MAX,
        ;
        let samples: u64 = self.sample_rate as u64 * self.frame_ms as u64 / 1000;
        if samples < 1 {
            1
        } else {
            samples
        }
    }
}

// ---------------------------------------------------------------------------
// Frames
// ---------------------------------------------------------------------------

/// Cuts a stream of samples into frames of equal size.
#[derive(Debug)]
pub struct Framer {
    size: u64,
    filled: u64,
}

impl Framer {
    /// How many samples a frame takes.
    pub closed spec fn size(&self) -> nat {
        self.size as nat
    }

    /// How many samples of the current frame have come.
    pub closed spec fn filled(&self) -> nat {
        self.filled as nat
    }

    /// The current frame is never full.
    pub open spec fn wf(&self) -> bool {
        self.filled() < self.size()
    }

    /// A framer at the start of a frame.
    pub fn new(cfg: &VadConfig) -> (framer: Framer)
        ensures
            framer.wf(),
            framer.size() == cfg.samples(),
            framer.filled() == 0,
    {
        Framer { size: cfg.frame_samples(), filled: 0 }
    }

    /// One more sample; true where it completes a frame.
    pub fn step(&mut self) -> (complete: bool)
        requires
            old(self).wf(),
        ensures
            final(self).wf(),
            final(self).size() == old(self).size(),
            complete == (old(self).filled() + 1 == old(self).size()),
            final(self).filled() == (old(self).filled() + 1) % old(self).size(),
    {
        let complete: bool = self.filled + 1 == self.size;
        if complete {
            self.filled = 0;
            assert((old(self).filled() + 1) % old(self).size() == 0) by {
                vstd::arithmetic::div_mod::lemma_mod_self_0(old(self).size() as int);
            }
        } else {
            self.filled = self.filled + 1;
            assert((old(self).filled() + 1) % old(self).size() == old(self).filled() + 1) by {
                vstd::arithmetic::div_mod::lemma_small_mod(
                    old(self).filled() + 1,
                    old(self).size(),
                );
            }
        }
        complete
    }

    /// The samples of one frame.
    pub fn frame_samples(&self) -> (size: u64)
        ensures
            size == self.size(),
    {
        self.size
    }
}

/// How many frames `count` samples complete, and how full the next one is, one sample
/// after the other.
pub open spec fn framed(filled: nat, size: nat, count: nat) -> (nat, nat)
    decreases count,
{
    if count == 0 {
        (0, filled)
    } else {
        let (frames, at) = framed(filled, size, (count - 1) as nat);
        (
            if at + 1 == size {
                frames + 1
            } else {
                frames
            },
            (at + 1) % size,
        )
    }
}

/// However the samples are cut into chunks, a frame is complete after every `size` of
/// them.
pub proof fn law_frames(filled: nat, size: nat, count: nat)
    requires
        filled < size,
    ensures
        framed(filled, size, count) == (
            ((filled + count) / size) as nat,
            ((filled + count) % size) as nat,
        ),
    decreases count,
{
    let total = (filled + count) as int;
    if count == 0 {
        vstd::arithmetic::div_mod::lemma_fundamental_div_mod_converse(
            total,
            size as int,
            0,
            filled as int,
        );
    } else {
        law_frames(filled, size, (count - 1) as nat);
        let q = (total - 1) / size as int;
        let r = (total - 1) % size as int;
        vstd::arithmetic::div_mod::lemma_fundamental_div_mod(total - 1, size as int);
        if r + 1 == size {
            assert(total == (q + 1) * size) by (nonlinear_arith)
                requires
                    total - 1 == size * q + r,
                    r + 1 == size,
            ;
            vstd::arithmetic::div_mod::lemma_fundamental_div_mod_converse(
                total,
                size as int,
                q + 1,
                0,
            );
            vstd::arithmetic::div_mod::lemma_mod_self_0(size as int);
        } else {
            vstd::arithmetic::div_mod::lemma_mod_bound(total - 1, size as int);
            assert(total == q * size + (r + 1)) by (nonlinear_arith)
                requires
                    total - 1 == size * q + r,
            ;
            vstd::arithmetic::div_mod::lemma_fundamental_div_mod_converse(
                total,
                size as int,
                q,
                r + 1,
            );
            vstd::arithmetic::div_mod::lemma_small_mod((r + 1) as nat, size);
        }
    }
}

// ---------------------------------------------------------------------------
// The detector
// ---------------------------------------------------------------------------

/// One analysis frame, measured.
#[derive(Debug, Clone, Copy, PartialEq, Eq, Structural)]
pub struct FrameLevel {
    /// Whether the frame stands out from the noise floor.
    pub loud: bool,
    /// When the frame ends on the session audio clock.
    pub end_us: u64,
}

/// What a chunk of audio did to the detector.
#[derive(Debug, Clone, Copy, PartialEq, Eq, Structural)]
pub struct VadResult {
    /// Whether the detector is currently open.
    pub active: bool,
    /// Frames completed while consuming this chunk.
    pub completed_frames: usize,
    /// Of those, how many were classified as speech.
    pub speech_frames: usize,
}

/// The model of [`Vad`].
pub struct VadView {
    pub cfg: VadConfig,
    /// Loud frames in a row.
    pub speech_run: usize,
    /// Quiet frames in a row.
    pub silence_run: usize,
    pub active: bool,
    pub segment_start_us: u64,
}

impl VadView {
    /// An open detector has not seen the silence that closes it, and a closed one not the
    /// speech that opens it. Where no frame at all is asked for, this says less.
    pub open spec fn wf(self) -> bool {
        &&& self.active ==> self.silence_run < self.cfg.end_frames || self.silence_run == 0
            || self.cfg.start_frames == 0
        &&& !self.active ==> self.speech_run < self.cfg.start_frames || self.cfg.start_frames == 0
            || self.cfg.end_frames == 0
    }

    /// The detector before any audio.
    pub open spec fn initial(cfg: VadConfig) -> VadView {
        VadView {
            cfg,
            speech_run: 0,
            silence_run: (usize::MAX / 2) as usize,
            active: false,
            segment_start_us: 0,
        }
    }

    /// The detector after one frame.
    pub open spec fn after(self, level: FrameLevel) -> VadView {
        let speech_run = if level.loud {
            self.speech_run.wrapping_add(1)
        } else {
            0
        };
        let silence_run = if level.loud {
            0
        } else {
            self.silence_run.wrapping_add(1)
        };
        let opens = !self.active && speech_run >= self.cfg.start_frames;
        let closes = self.active && silence_run >= self.cfg.end_frames;
        VadView {
            cfg: self.cfg,
            speech_run,
            silence_run,
            active: (self.active || opens) && !closes,
            segment_start_us: if opens {
                start_of_segment(level.end_us, self.cfg.lookback_us())
            } else {
                self.segment_start_us
            },
        }
    }

    /// The detector after several frames.
    pub open spec fn after_all(self, levels: Seq<FrameLevel>) -> VadView
        decreases levels.len(),
    {
        if levels.len() == 0 {
            self
        } else {
            self.after_all(levels.drop_last()).after(levels.last())
        }
    }
}

/// When a segment that was detected at `end_us` starts.
pub open spec fn start_of_segment(end_us: u64, lookback_us: u64) -> u64 {
    if end_us < lookback_us {
        0
    } else {
        (end_us - lookback_us) as u64
    }
}

/// How many of the frames are loud.
pub open spec fn loud_frames(levels: Seq<FrameLevel>) -> nat
    decreases levels.len(),
{
    if levels.len() == 0 {
        0
    } else {
        loud_frames(levels.drop_last()) + if levels.last().loud {
            1nat
        } else {
            0nat
        }
    }
}

/// The detector of the voice activity detection.
pub struct Vad {
    cfg: VadConfig,
    speech_run: usize,
    silence_run: usize,
    active: bool,
    segment_start_us: u64,
}

impl View for Vad {
    type V = VadView;

    closed spec fn view(&self) -> VadView {
        VadView {
            cfg: self.cfg,
            speech_run: self.speech_run,
            silence_run: self.silence_run,
            active: self.active,
            segment_start_us: self.segment_start_us,
        }
    }
}

impl Vad {
    /// A closed detector.
    pub fn new(cfg: VadConfig) -> (vad: Vad)
        ensures
            vad@ == VadView::initial(cfg),
    {
        Vad {
            cfg,
            speech_run: 0,
            silence_run: usize::MAX / 2,
            active: false,
            segment_start_us: 0,
        }
    }

    /// One frame.
    fn step(&mut self, level: FrameLevel)
        ensures
            final(self)@ == old(self)@.after(level),
    {
        if level.loud {
            self.speech_run = self.speech_run.wrapping_add(1);
            self.silence_run = 0;
        } else {
            self.silence_run = self.silence_run.wrapping_add(1);
            self.speech_run = 0;
        }
        if !self.active && self.speech_run >= self.cfg.start_frames {
            self.active = true;
            let lookback_us: u64 = (self.cfg.start_frames as u64).wrapping_mul(
                self.cfg.frame_ms as u64,
            ).wrapping_mul(1000);
            self.segment_start_us = level.end_us.saturating_sub(lookback_us);
        } else if self.active && self.silence_run >= self.cfg.end_frames {
            self.active = false;
        }
    }

    /// The frames that a chunk of audio completed.
    pub fn push(&mut self, levels: &[FrameLevel]) -> (result: VadResult)
        ensures
            final(self)@ == old(self)@.after_all(levels@),
            result.active == final(self)@.active,
            result.completed_frames == levels@.len(),
            result.speech_frames == loud_frames(levels@),
    {
        let mut speech: usize = 0;
        let mut i: usize = 0;
        while i < levels.len()
            invariant
                i <= levels@.len(),
                self@ == old(self)@.after_all(levels@.take(i as int)),
                speech == loud_frames(levels@.take(i as int)),
                speech <= i,
            decreases levels@.len() - i,
        {
            assert(levels@.take(i + 1).drop_last() =~= levels@.take(i as int));
            assert(levels@.take(i + 1).last() == levels@[i as int]);
            let level: FrameLevel = levels[i];
            self.step(level);
            if level.loud {
                speech += 1;
            }
            i += 1;
        }
        assert(levels@.take(i as int) =~= levels@);
        VadResult { active: self.active, completed_frames: levels.len(), speech_frames: speech }
    }

    /// Start timestamp of the segment currently being spoken.
    pub fn segment_start_us(&self) -> (start_us: u64)
        ensures
            start_us == self@.segment_start_us,
    {
        self.segment_start_us
    }
}

// ---------------------------------------------------------------------------
// Laws
// ---------------------------------------------------------------------------

/// How the frames are handed over makes no difference.
pub proof fn law_chunks(state: VadView, a: Seq<FrameLevel>, b: Seq<FrameLevel>)
    ensures
        state.after_all(a + b) == state.after_all(a).after_all(b),
    decreases b.len(),
{
    if b.len() == 0 {
        assert(a + b =~= a);
    } else {
        law_chunks(state, a, b.drop_last());
        assert((a + b).drop_last() =~= a + b.drop_last());
    }
}

/// The detector is well-formed from the start and stays so.
pub proof fn law_invariant(cfg: VadConfig, state: VadView, levels: Seq<FrameLevel>)
    requires
        state.wf(),
    ensures
        VadView::initial(cfg).wf(),
        state.after_all(levels).wf(),
        state.after_all(levels).cfg == state.cfg,
    decreases levels.len(),
{
    if levels.len() > 0 {
        law_invariant(cfg, state, levels.drop_last());
    }
}

/// Silence never opens the detector.
pub proof fn law_silence_stays_closed(state: VadView, levels: Seq<FrameLevel>)
    requires
        !state.active,
        state.cfg.start_frames > 0,
        forall|i: int| 0 <= i < levels.len() ==> !(#[trigger] levels[i]).loud,
    ensures
        !state.after_all(levels).active,
        state.after_all(levels).cfg == state.cfg,
        loud_frames(levels) == 0,
    decreases levels.len(),
{
    if levels.len() > 0 {
        assert forall|i: int| 0 <= i < levels.drop_last().len() implies !(
        #[trigger] levels.drop_last()[i]).loud by {
            assert(!levels[i].loud);
        }
        law_silence_stays_closed(state, levels.drop_last());
        assert(!levels[levels.len() - 1].loud);
    }
}

/// The configured number of quiet frames in a row closes the detector.
pub proof fn law_silence_closes(state: VadView, levels: Seq<FrameLevel>)
    requires
        state.wf(),
        state.cfg.start_frames > 0,
        levels.len() >= 1,
        levels.len() >= state.cfg.end_frames,
        forall|i: int| 0 <= i < levels.len() ==> !(#[trigger] levels[i]).loud,
    ensures
        !state.after_all(levels).active,
{
    lemma_silence(state, levels);
}

/// While the detector stays open through silence, the run of quiet frames grows.
proof fn lemma_silence(state: VadView, levels: Seq<FrameLevel>)
    requires
        state.wf(),
        state.cfg.start_frames > 0,
        forall|i: int| 0 <= i < levels.len() ==> !(#[trigger] levels[i]).loud,
    ensures
        ({
            let after = state.after_all(levels);
            &&& after.cfg == state.cfg
            &&& after.wf()
            &&& after.active ==> state.active && after.silence_run == state.silence_run
                + levels.len() && (levels.len() > 0 ==> after.silence_run < state.cfg.end_frames)
        }),
    decreases levels.len(),
{
    if levels.len() > 0 {
        assert forall|i: int| 0 <= i < levels.drop_last().len() implies !(
        #[trigger] levels.drop_last()[i]).loud by {
            assert(!levels[i].loud);
        }
        lemma_silence(state, levels.drop_last());
        assert(!levels[levels.len() - 1].loud);
    }
}

/// The configured number of loud frames in a row opens the detector, and the segment is
/// then taken to have started that many frames before.
pub proof fn law_speech_opens(state: VadView, levels: Seq<FrameLevel>)
    requires
        state.wf(),
        !state.active,
        state.cfg.start_frames > 0,
        state.cfg.end_frames > 0,
        levels.len() >= state.cfg.start_frames,
        forall|i: int| 0 <= i < levels.len() ==> (#[trigger] levels[i]).loud,
    ensures
        state.after_all(levels).active,
        state.speech_run == 0 && levels.len() == state.cfg.start_frames
            ==> state.after_all(levels).segment_start_us == start_of_segment(
            levels.last().end_us,
            state.cfg.lookback_us(),
        ),
{
    lemma_speech(state, levels);
    if levels.len() == state.cfg.start_frames && state.speech_run == 0 {
        assert forall|i: int| 0 <= i < levels.drop_last().len() implies (
        #[trigger] levels.drop_last()[i]).loud by {
            assert(levels[i].loud);
        }
        lemma_speech(state, levels.drop_last());
        assert(levels[levels.len() - 1].loud);
    }
}

/// While the detector stays closed through speech, the run of loud frames grows.
proof fn lemma_speech(state: VadView, levels: Seq<FrameLevel>)
    requires
        state.wf(),
        !state.active,
        state.cfg.start_frames > 0,
        state.cfg.end_frames > 0,
        forall|i: int| 0 <= i < levels.len() ==> (#[trigger] levels[i]).loud,
    ensures
        ({
            let after = state.after_all(levels);
            &&& after.cfg == state.cfg
            &&& after.wf()
            &&& !after.active ==> after.speech_run == state.speech_run + levels.len()
            &&& after.active ==> state.speech_run + levels.len() >= state.cfg.start_frames
        }),
    decreases levels.len(),
{
    if levels.len() > 0 {
        assert forall|i: int| 0 <= i < levels.drop_last().len() implies (
        #[trigger] levels.drop_last()[i]).loud by {
            assert(levels[i].loud);
        }
        lemma_speech(state, levels.drop_last());
        assert(levels[levels.len() - 1].loud);
    }
}

/// An open detector closes only on quiet frames in a row: after a loud frame, fewer quiet
/// frames than configured leave it open, however many came before the loud one.
pub proof fn law_loud_keeps_open(state: VadView, loud: FrameLevel, quiet: Seq<FrameLevel>)
    requires
        state.active,
        loud.loud,
        quiet.len() < state.cfg.end_frames,
        forall|i: int| 0 <= i < quiet.len() ==> !(#[trigger] quiet[i]).loud,
    ensures
        ({
            let after = state.after(loud).after_all(quiet);
            &&& after.active
            &&& after.segment_start_us == state.segment_start_us
            &&& after.silence_run == quiet.len()
            &&& after.cfg == state.cfg
        }),
    decreases quiet.len(),
{
    if quiet.len() > 0 {
        let before = quiet.drop_last();
        assert forall|i: int| 0 <= i < before.len() implies !(#[trigger] before[i]).loud by {
            assert(!quiet[i].loud);
        }
        law_loud_keeps_open(state, loud, before);
        assert(!quiet[quiet.len() - 1].loud);
    }
}

/// A closed detector opens only on loud frames in a row: after a quiet frame, fewer loud
/// frames than configured leave it closed, however many came before the quiet one.
pub proof fn law_quiet_keeps_closed(state: VadView, quiet: FrameLevel, loud: Seq<FrameLevel>)
    requires
        !state.active,
        !quiet.loud,
        loud.len() < state.cfg.start_frames,
        forall|i: int| 0 <= i < loud.len() ==> (#[trigger] loud[i]).loud,
    ensures
        ({
            let after = state.after(quiet).after_all(loud);
            &&& !after.active
            &&& after.segment_start_us == state.segment_start_us
            &&& after.speech_run == loud.len()
            &&& after.cfg == state.cfg
        }),
    decreases loud.len(),
{
    if loud.len() > 0 {
        let before = loud.drop_last();
        assert forall|i: int| 0 <= i < before.len() implies (#[trigger] before[i]).loud by {
            assert(loud[i].loud);
        }
        law_quiet_keeps_closed(state, quiet, before);
        assert(loud[loud.len() - 1].loud);
    }
}

/// Exactly the frame that completes the run opens a closed detector, and the segment then
/// starts the length of the run before its end, or with the session.
pub proof fn law_opening(state: VadView, quiet: FrameLevel, loud: Seq<FrameLevel>)
    requires
        !state.active,
        !quiet.loud,
        loud.len() == state.cfg.start_frames,
        loud.len() > 0,
        state.cfg.start_frames * state.cfg.frame_ms * 1000 <= u64::MAX,
        forall|i: int| 0 <= i < loud.len() ==> (#[trigger] loud[i]).loud,
    ensures
        ({
            let after = state.after(quiet).after_all(loud);
            let run_us = state.cfg.start_frames * state.cfg.frame_ms * 1000;
            &&& after.active
            &&& after.segment_start_us == if loud.last().end_us >= run_us {
                loud.last().end_us - run_us
            } else {
                0
            }
        }),
{
    let before = loud.drop_last();
    assert forall|i: int| 0 <= i < before.len() implies (#[trigger] before[i]).loud by {
        assert(loud[i].loud);
    }
    law_quiet_keeps_closed(state, quiet, before);
    assert(loud[loud.len() - 1].loud);
    assert(state.cfg.start_frames * state.cfg.frame_ms <= state.cfg.start_frames
        * state.cfg.frame_ms * 1000) by (nonlinear_arith)
        requires
            state.cfg.start_frames * state.cfg.frame_ms >= 0,
    ;
    assert(state.cfg.start_frames * state.cfg.frame_ms >= 0) by (nonlinear_arith);
}

/// The loud frames of two runs add up, and a frame counts where it is loud.
pub proof fn law_loud_frames(a: Seq<FrameLevel>, b: Seq<FrameLevel>, one: FrameLevel)
    ensures
        loud_frames(a + b) == loud_frames(a) + loud_frames(b),
        loud_frames(a.push(one)) == loud_frames(a) + if one.loud {
            1int
        } else {
            0
        },
        loud_frames(a) <= a.len(),
    decreases a.len() + b.len(),
{
    assert(a.push(one).drop_last() =~= a);
    if b.len() == 0 {
        assert(a + b =~= a);
        if a.len() > 0 {
            law_loud_frames(a.drop_last(), b, one);
        }
    } else {
        law_loud_frames(a, b.drop_last(), one);
        assert((a + b).drop_last() =~= a + b.drop_last());
    }
}

/// An analysis frame holds the samples of its length in time, and at least one.
pub proof fn law_frame_length(cfg: VadConfig)
    ensures
        cfg.samples() >= 1,
        cfg.sample_rate * cfg.frame_ms >= 1000 ==> cfg.samples() * 1000 <= cfg.sample_rate
            * cfg.frame_ms < (cfg.samples() + 1) * 1000,
{
    assert(cfg.sample_rate * cfg.frame_ms >= 0) by (nonlinear_arith);
}

/// The runs count what came last: a loud frame makes the run of loud ones longer and ends
/// that of quiet ones, and the other way round. A segment keeps its start until the next
/// one opens.
pub proof fn law_runs(state: VadView, level: FrameLevel)
    ensures
        ({
            let after = state.after(level);
            &&& after.cfg == state.cfg
            &&& level.loud ==> after.silence_run == 0 && after.speech_run
                == state.speech_run.wrapping_add(1)
            &&& !level.loud ==> after.speech_run == 0 && after.silence_run
                == state.silence_run.wrapping_add(1)
            &&& state.active || !after.active ==> after.segment_start_us == state.segment_start_us
                || state.cfg.end_frames == 0
        }),
{
}

} // verus!
