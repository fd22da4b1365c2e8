//! The sample window of the streaming windowed-sinc resampler (mono).
//!
//! An output sample is a weighted sum of [`TAPS`] neighbouring input samples. This
//! keeps the input that later output samples can still touch, and hands out the
//! neighbourhood of a position. A sample is held as the bit pattern of a single
//! precision number, so zero bits are silence.

use std::collections::VecDeque;

use crate::error::{CoreError, ErrorView, Result};
use crate::text;
use vstd::prelude::*;

verus! {

/// How many input samples an output sample is made of.
pub const TAPS: usize = 32;

/// How many of them stand before the position of the output sample.
pub const HALF: usize = 16;

/// The model of [`SincResampler`].
#[verifier::ext_equal]
pub struct ResamplerView {
    pub in_rate: u32,
    pub out_rate: u32,
    /// Every input sample so far.
    pub fed: Seq<u32>,
    /// How many of them, from the start, are no longer kept.
    pub released: nat,
}

impl ResamplerView {
    /// Only samples that came in were let go.
    pub open spec fn wf(self) -> bool {
        &&& self.in_rate > 0
        &&& self.out_rate > 0
        &&& self.released <= self.fed.len() <= i64::MAX
    }

    /// The sample at stream position `index`; silence where none is kept.
    pub open spec fn sample(self, index: int) -> u32 {
        if self.released <= index < self.fed.len() {
            self.fed[index]
        } else {
            0
        }
    }

    /// Whether all input for an output sample at `base` has come in.
    pub open spec fn ready(self, base: int) -> bool {
        self.fed.len() >= base + HALF
    }

    /// The input of an output sample at `base`.
    pub open spec fn window(self, base: int) -> Seq<u32> {
        Seq::new(TAPS as nat, |tap: int| self.sample(base + tap - HALF))
    }

    /// How many of the next output samples, at `positions`, have all their input.
    pub open spec fn ready_count(self, positions: Seq<i64>) -> nat
        decreases positions.len(),
    {
        if positions.len() > 0 && self.ready(positions[0] as int) {
            1 + self.ready_count(positions.skip(1))
        } else {
            0
        }
    }

    /// The state with more input.
    pub open spec fn with_input(self, input: Seq<u32>) -> ResamplerView {
        ResamplerView { fed: self.fed + input, ..self }
    }

    /// The input of each output sample that more input makes possible, where the next
    /// output samples are at `positions`.
    pub open spec fn produced(self, input: Seq<u32>, positions: Seq<i64>) -> Seq<Seq<u32>> {
        let now = self.with_input(input);
        Seq::new(now.ready_count(positions), |i: int| now.window(positions[i] as int))
    }

    /// The state after more input: what no output sample to come can touch is let go.
    pub open spec fn processed(self, input: Seq<u32>, positions: Seq<i64>) -> ResamplerView {
        let now = self.with_input(input);
        let count = now.ready_count(positions);
        if count < positions.len() {
            ResamplerView { released: now.releasable(positions[count as int] as int), ..now }
        } else {
            now
        }
    }

    /// How many samples are let go once the next output sample is at `base`; one more
    /// than needed is kept.
    pub open spec fn releasable(self, base: int) -> nat {
        let keep_from = base - HALF - 1;
        if keep_from <= self.released {
            self.released
        } else if keep_from <= self.fed.len() {
            keep_from as nat
        } else {
            self.fed.len()
        }
    }
}

/// The error where a rate is zero.
pub open spec fn bad_rates(in_rate: u32, out_rate: u32) -> ErrorView {
    ErrorView::AudioFormat(
        "invalid resample rates "@ + text::decimal_text(in_rate as nat) + " -> "@
            + text::decimal_text(out_rate as nat),
    )
}

/// The windows of several output samples.
pub open spec fn window_views(windows: Seq<Vec<u32>>) -> Seq<Seq<u32>> {
    Seq::new(windows.len(), |i: int| windows[i]@)
}

/// Buffers the input of the resampler.
pub struct SincResampler {
    in_rate: u32,
    out_rate: u32,
    /// Input samples that are kept; `buf_base` is their absolute stream index.
    buf: VecDeque<u32>,
    buf_base: i64,
    fed: Ghost<Seq<u32>>,
}

impl View for SincResampler {
    type V = ResamplerView;

    closed spec fn view(&self) -> ResamplerView {
        ResamplerView {
            in_rate: self.in_rate,
            out_rate: self.out_rate,
            fed: self.fed@,
            released: self.buf_base as nat,
        }
    }
}

impl SincResampler {
    /// The buffer holds exactly what was fed and not let go.
    pub closed spec fn inv(&self) -> bool {
        &&& self@.wf()
        &&& self.buf_base >= 0
        &&& self.buf@ == self.fed@.skip(self.buf_base as int)
    }

    /// A resampler from one rate to another.
    pub fn new(in_rate: u32, out_rate: u32) -> (resampler: Result<SincResampler>)
        ensures
            match resampler {
                Ok(resampler) => {
                    &&& in_rate > 0 && out_rate > 0
                    &&& resampler.inv()
                    &&& resampler@ == (ResamplerView {
                        in_rate,
                        out_rate,
                        fed: Seq::empty(),
                        released: 0,
                    })
                },
                Err(error) => {
                    &&& in_rate == 0 || out_rate == 0
                    &&& error@ == bad_rates(in_rate, out_rate)
                },
            },
    {
        if in_rate == 0 || out_rate == 0 {
            let mut message: String = "invalid resample rates ".to_string();
            message.append(text::decimal(in_rate as u64).as_str());
            message.append(" -> ");
            message.append(text::decimal(out_rate as u64).as_str());
            return Err(CoreError::AudioFormat(message));
        }
        let resampler = SincResampler {
            in_rate,
            out_rate,
            buf: VecDeque::new(),
            buf_base: 0,
            fed: Ghost(Seq::empty()),
        };
        assert(resampler.buf@ =~= resampler.fed@.skip(0));
        Ok(resampler)
    }

    /// The rate of the input.
    pub fn in_rate(&self) -> (rate: u32)
        ensures
            rate == self@.in_rate,
    {
        self.in_rate
    }

    /// The rate of the output.
    pub fn out_rate(&self) -> (rate: u32)
        ensures
            rate == self@.out_rate,
    {
        self.out_rate
    }

    /// Whether `count` more samples can be numbered.
    pub fn has_room(&self, count: usize) -> (room: bool)
        requires
            self.inv(),
        ensures
            room == (self@.fed.len() + count <= i64::MAX),
    {
        self.buf_base as i128 + self.buf.len() as i128 + count as i128 <= i64::MAX as i128
    }

    /// Take in a chunk of mono input.
    pub fn feed(&mut self, input: &[u32])
        requires
            old(self).inv(),
            old(self)@.fed.len() + input@.len() <= i64::MAX,
        ensures
            final(self).inv(),
            final(self)@ == old(self)@.with_input(input@),
    {
        let ghost before = self.buf@;
        let mut i: usize = 0;
        while i < input.len()
            invariant
                i <= input@.len(),
                self.buf@ == before + input@.take(i as int),
                self.buf_base == old(self).buf_base,
                self.in_rate == old(self).in_rate,
                self.out_rate == old(self).out_rate,
            decreases input@.len() - i,
        {
            self.buf.push_back(input[i]);
            i += 1;
            assert(self.buf@ =~= before + input@.take(i as int));
        }
        self.fed = Ghost(old(self).fed@ + input@);
        assert(input@.take(i as int) =~= input@);
        assert(self.buf@ =~= self.fed@.skip(self.buf_base as int));
    }

    /// Whether all input for an output sample at `base` has come in.
    pub fn ready(&self, base: i64) -> (ready: bool)
        requires
            self.inv(),
        ensures
            ready == self@.ready(base as int),
    {
        self.buf_base as i128 + self.buf.len() as i128 >= base as i128 + HALF as i128
    }

    /// Whether all input for an output sample at `base` will have come in with `more`
    /// samples.
    pub fn ready_with(&self, base: i64, more: usize) -> (ready: bool)
        requires
            self.inv(),
        ensures
            ready == (self@.fed.len() + more >= base + HALF),
    {
        self.buf_base as i128 + self.buf.len() as i128 + more as i128 >= base as i128
            + HALF as i128
    }

    /// The sample at stream position `index`; silence where none is kept.
    fn sample_at(&self, index: i128) -> (sample: u32)
        requires
            self.inv(),
        ensures
            sample == self@.sample(index as int),
    {
        let base: i128 = self.buf_base as i128;
        if index < base || index >= base + self.buf.len() as i128 {
            return 0;
        }
        self.buf[(index - base) as usize]
    }

    /// The input of an output sample at `base`.
    pub fn window(&self, base: i64) -> (window: Vec<u32>)
        requires
            self.inv(),
        ensures
            window@ == self@.window(base as int),
    {
        let mut window: Vec<u32> = Vec::new();
        let mut tap: usize = 0;
        while tap < TAPS
            invariant
                self.inv(),
                tap <= TAPS,
                window@ == self@.window(base as int).take(tap as int),
            decreases TAPS - tap,
        {
            window.push(self.sample_at(base as i128 + tap as i128 - HALF as i128));
            tap += 1;
            assert(window@ =~= self@.window(base as int).take(tap as int));
        }
        window
    }

    /// Take in a chunk of mono input. `positions` are those of the next output samples;
    /// the input of each that is now complete comes back, in order, and what none of the
    /// others can touch is let go.
    pub fn process(&mut self, input: &[u32], positions: &[i64]) -> (windows: Vec<Vec<u32>>)
        requires
            old(self).inv(),
            old(self)@.fed.len() + input@.len() <= i64::MAX,
        ensures
            final(self).inv(),
            final(self)@ == old(self)@.processed(input@, positions@),
            window_views(windows@) == old(self)@.produced(input@, positions@),
    {
        self.feed(input);
        let ghost now = self@;
        let mut windows: Vec<Vec<u32>> = Vec::new();
        let mut i: usize = 0;
        assert(positions@.skip(0) =~= positions@);
        while i < positions.len() && self.ready(positions[i])
            invariant
                self.inv(),
                self@ == now,
                i <= positions@.len(),
                windows@.len() == i,
                now.ready_count(positions@) == i + now.ready_count(positions@.skip(i as int)),
                forall|j: int| #![trigger windows@[j]]
                    0 <= j < i ==> windows@[j]@ == now.window(positions@[j] as int),
            decreases positions@.len() - i,
        {
            windows.push(self.window(positions[i]));
            assert(positions@.skip(i as int).skip(1) =~= positions@.skip(i + 1));
            i += 1;
        }
        assert(window_views(windows@) =~= old(self)@.produced(input@, positions@));
        if i < positions.len() {
            self.release(positions[i]);
        }
        windows
    }

    /// Drop input that no output sample from `base` on can touch.
    pub fn release(&mut self, base: i64)
        requires
            old(self).inv(),
        ensures
            final(self).inv(),
            final(self)@ == (ResamplerView {
                released: old(self)@.releasable(base as int),
                ..old(self)@
            }),
    {
        let keep_from: i128 = base as i128 - HALF as i128 - 1;
        while (self.buf_base as i128) < keep_from && self.buf.len() > 0
            invariant
                self.inv(),
                self@.fed == old(self)@.fed,
                self@.in_rate == old(self)@.in_rate,
                self@.out_rate == old(self)@.out_rate,
                old(self)@.wf(),
                keep_from == base - HALF - 1,
                old(self)@.released <= self@.released,
                self@.released <= old(self)@.releasable(base as int),
            decreases self.buf@.len(),
        {
            let ghost kept = self.buf@;
            let gone: Option<u32> = self.buf.pop_front();
            self.buf_base = self.buf_base + 1;
            assert(self.buf@ =~= self.fed@.skip(self.buf_base as int));
        }
    }
}

// ---------------------------------------------------------------------------
// Laws
// ---------------------------------------------------------------------------

/// Letting input go changes no output sample that is still to come.
pub proof fn law_release(state: ResamplerView, base: int, later: int)
    requires
        state.wf(),
        later >= base,
    ensures
        ({
            let after = ResamplerView { released: state.releasable(base), ..state };
            &&& after.wf()
            &&& after.window(later) == state.window(later)
            &&& after.ready(later) == state.ready(later)
        }),
{
    let after = ResamplerView { released: state.releasable(base), ..state };
    assert(after.window(later) =~= state.window(later));
}

/// How the input is cut into chunks makes no difference: once all input for an output
/// sample is there, more input changes nothing of it.
pub proof fn law_chunks(state: ResamplerView, more: Seq<u32>, base: int)
    requires
        state.wf(),
        state.ready(base),
    ensures
        ({
            let after = ResamplerView { fed: state.fed + more, ..state };
            &&& after.ready(base)
            &&& after.window(base) == state.window(base)
        }),
{
    let after = ResamplerView { fed: state.fed + more, ..state };
    assert(after.window(base) =~= state.window(base));
}

/// The positions of output samples do not go back.
pub open spec fn ascending(positions: Seq<i64>) -> bool {
    forall|i: int, j: int|
        0 <= i <= j < positions.len() ==> #[trigger] positions[i] <= #[trigger] positions[j]
}

/// Output samples that are complete stay so, and the others follow behind them.
proof fn lemma_ready_count(part: ResamplerView, whole: ResamplerView, positions: Seq<i64>)
    requires
        part.fed.len() <= whole.fed.len(),
    ensures
        part.ready_count(positions) <= positions.len(),
        whole.ready_count(positions) == part.ready_count(positions) + whole.ready_count(
            positions.skip(part.ready_count(positions) as int),
        ),
        forall|i: int| #![trigger positions[i]]
            0 <= i < part.ready_count(positions) ==> part.ready(positions[i] as int),
    decreases positions.len(),
{
    if positions.len() > 0 && part.ready(positions[0] as int) {
        let rest = positions.skip(1);
        lemma_ready_count(part, whole, rest);
        let count = part.ready_count(rest) as int;
        assert(rest.skip(count) =~= positions.skip(count + 1));
        assert forall|i: int| #![trigger positions[i]]
            0 <= i < part.ready_count(positions) implies part.ready(positions[i] as int) by {
            if i > 0 {
                assert(rest[i - 1] == positions[i]);
            }
        }
    } else {
        assert(positions.skip(0) =~= positions);
    }
}

/// Output sample `first` and those behind it, each made of its number and its input by
/// `weigh`.
pub open spec fn weighed(
    weigh: spec_fn(int, Seq<u32>) -> u32,
    first: int,
    windows: Seq<Seq<u32>>,
) -> Seq<u32> {
    Seq::new(windows.len(), |i: int| weigh(first + i, windows[i]))
}

/// Splitting the stream into chunks changes nothing: two chunks give, one after the other,
/// the output samples that one chunk of both gives, bit for bit, however an output sample
/// is made of its number and its input, and leave the same state. `positions` has to reach
/// beyond what the input completes.
pub proof fn law_process(
    state: ResamplerView,
    a: Seq<u32>,
    b: Seq<u32>,
    positions: Seq<i64>,
    weigh: spec_fn(int, Seq<u32>) -> u32,
    first: int,
)
    requires
        state.wf(),
        state.fed.len() + a.len() + b.len() <= i64::MAX,
        ascending(positions),
        state.with_input(a + b).ready_count(positions) < positions.len(),
    ensures
        ({
            let count = state.produced(a, positions).len() as int;
            let middle = state.processed(a, positions);
            let rest = positions.skip(count);
            let whole = state.produced(a + b, positions);
            &&& state.produced(a, positions) + middle.produced(b, rest) == whole
            &&& weighed(weigh, first, state.produced(a, positions)) + weighed(
                weigh,
                first + count,
                middle.produced(b, rest),
            ) == weighed(weigh, first, whole)
            &&& middle.processed(b, rest) == state.processed(a + b, positions)
        }),
{
    let part = state.with_input(a);
    let whole = state.with_input(a + b);
    let count = part.ready_count(positions) as int;
    let rest = positions.skip(count);
    lemma_ready_count(part, whole, positions);
    let middle = state.processed(a, positions);
    let later = middle.with_input(b);
    assert(later.fed =~= whole.fed);
    lemma_same_count(later, whole, rest);
    let all = whole.ready_count(positions) as int;
    let one = state.produced(a, positions);
    let two = middle.produced(b, rest);
    let both = state.produced(a + b, positions);
    assert forall|i: int| 0 <= i < all implies #[trigger] (one + two)[i] == both[i] by {
        let base = positions[i] as int;
        if i < count {
            law_chunks(part, b, base);
            assert(part.with_input(b).fed =~= whole.fed);
        } else {
            assert(rest[i - count] == positions[i]);
            assert(positions[count] <= positions[i]);
            law_release(part, positions[count] as int, base);
            assert(later.window(base) =~= whole.window(base));
        }
    }
    assert(one + two =~= both);
    assert(weighed(weigh, first, one) + weighed(weigh, first + count, two) =~= weighed(
        weigh,
        first,
        both,
    ));
    assert(rest[all - count] == positions[all]);
    assert(positions[count] <= positions[all]);
}

/// How many output samples are complete depends on the amount of input only.
proof fn lemma_same_count(a: ResamplerView, b: ResamplerView, positions: Seq<i64>)
    requires
        a.fed.len() == b.fed.len(),
    ensures
        a.ready_count(positions) == b.ready_count(positions),
    decreases positions.len(),
{
    if positions.len() > 0 {
        lemma_same_count(a, b, positions.skip(1));
    }
}

/// No input right after other input gives no output sample.
pub proof fn law_process_nothing(state: ResamplerView, input: Seq<u32>, positions: Seq<i64>)
    ensures
        ({
            let count = state.produced(input, positions).len() as int;
            state.processed(input, positions).produced(Seq::empty(), positions.skip(count)).len()
                == 0
        }),
{
    let now = state.with_input(input);
    lemma_ready_count(now, now, positions);
    let after = state.processed(input, positions);
    assert(after.with_input(Seq::empty()).fed =~= now.fed);
    let count = now.ready_count(positions) as int;
    lemma_same_count(after.with_input(Seq::empty()), now, positions.skip(count));
}

/// A window is the audio fed around its position, sixteen samples before it and sixteen
/// from it on, however much was fed later; silence stands before the first sample and
/// behind the last.
pub proof fn law_window(state: ResamplerView, base: int, tap: int)
    requires
        0 <= tap < 32,
    ensures
        state.window(base).len() == 32,
        state.released <= base - 16 + tap < state.fed.len() ==> state.window(base)[tap]
            == state.fed[base - 16 + tap],
        base - 16 + tap < 0 || base - 16 + tap >= state.fed.len() ==> state.window(base)[tap] == 0,
        state.ready(base) <==> state.fed.len() >= base + 16,
{
}

/// One window comes for every position that is ready, in order, up to the first that is
/// not; none is skipped.
pub proof fn law_produced(state: ResamplerView, input: Seq<u32>, positions: Seq<i64>, i: int)
    requires
        0 <= i < positions.len(),
    ensures
        ({
            let now = state.with_input(input);
            let produced = state.produced(input, positions);
            &&& now.fed == state.fed + input
            &&& produced.len() <= positions.len()
            &&& i < produced.len() ==> produced[i] == now.window(positions[i] as int) && now.ready(
                positions[i] as int,
            )
            &&& i == produced.len() ==> !now.ready(positions[i] as int)
        }),
    decreases positions.len(),
{
    let now = state.with_input(input);
    lemma_ready_count(now, now, positions);
    lemma_first_unready(now, positions);
}

/// The position at which the ready ones end is not ready.
proof fn lemma_first_unready(state: ResamplerView, positions: Seq<i64>)
    ensures
        ({
            let count = state.ready_count(positions) as int;
            count < positions.len() ==> !state.ready(positions[count] as int)
        }),
    decreases positions.len(),
{
    if positions.len() > 0 && state.ready(positions[0] as int) {
        lemma_first_unready(state, positions.skip(1));
        let count = state.ready_count(positions.skip(1)) as int;
        if count < positions.skip(1).len() {
            assert(positions.skip(1)[count] == positions[count + 1]);
        }
    }
}

/// Processing keeps the rates and all that was fed, releases nothing that a window at the
/// next position or later could still see, but all that lies further back, and takes no
/// release back.
pub proof fn law_kept(state: ResamplerView, input: Seq<u32>, positions: Seq<i64>)
    requires
        state.wf(),
    ensures
        ({
            let after = state.processed(input, positions);
            let count = state.produced(input, positions).len() as int;
            &&& after.in_rate == state.in_rate && after.out_rate == state.out_rate
            &&& after.fed == state.fed + input
            &&& state.released <= after.released <= after.fed.len()
            &&& count == positions.len() ==> after.released == state.released
            &&& count < positions.len() ==> {
                &&& after.released <= positions[count] - 16 || after.released == state.released
                &&& after.released >= positions[count] - 17 || after.released == after.fed.len()
            }
        }),
{
    let now = state.with_input(input);
    lemma_ready_count(now, now, positions);
}

} // verus!
