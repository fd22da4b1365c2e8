//! Audio pre-processing: PCM decoding, channels and the sample window of the resampler.

pub mod pcm;
pub mod resampler;

use vstd::prelude::*;

verus! {

/// How many samples belong together; a track without channels has one.
pub open spec fn frame_width(channels: usize) -> nat {
    if channels <= 1 {
        1
    } else {
        channels as nat
    }
}

/// The samples of frame `i`, one of each channel.
pub open spec fn frame_at(samples: Seq<u32>, channels: usize, i: int) -> Seq<u32> {
    samples.subrange(i * frame_width(channels), (i + 1) * frame_width(channels))
}

/// Part interleaved samples into frames, one sample of each channel, whose averages make
/// up a mono track. Samples at the end that make up no whole frame are left out.
pub fn split_frames(samples: &[u32], channels: usize) -> (frames: Vec<Vec<u32>>)
    ensures
        frames@.len() == samples@.len() / frame_width(channels),
        forall|i: int| #![trigger frames@[i]]
            0 <= i < frames@.len() ==> frames@[i]@ == frame_at(samples@, channels, i),
{
    let width: usize = if channels <= 1 {
        1
    } else {
        channels
    };
    let mut frames: Vec<Vec<u32>> = Vec::new();
    let count: usize = samples.len() / width;
    let mut i: usize = 0;
    let mut at: usize = 0;
    proof {
        vstd::arithmetic::div_mod::lemma_fundamental_div_mod(
            samples@.len() as int,
            width as int,
        );
        assert(count * width == width * count) by (nonlinear_arith);
    }
    while i < count
        invariant
            i <= count,
            width == frame_width(channels),
            at == i * width,
            count * width <= samples@.len(),
            samples.len() == samples@.len(),
            frames@.len() == i,
            forall|j: int| #![trigger frames@[j]]
                0 <= j < frames@.len() ==> frames@[j]@ == frame_at(samples@, channels, j),
        decreases count - i,
    {
        assert((i + 1) * width == i * width + width) by (nonlinear_arith);
        assert((i + 1) * width <= count * width) by (nonlinear_arith)
            requires
                i + 1 <= count,
        ;
        let part: &[u32] = vstd::slice::slice_subrange(samples, at, at + width);
        let mut frame: Vec<u32> = Vec::new();
        frame.extend_from_slice(part);
        assert(frame@ =~= frame_at(samples@, channels, i as int));
        frames.push(frame);
        at = at + width;
        i += 1;
    }
    frames
}

/// Every sample of a whole frame is part of exactly that frame, in the place of its
/// channel.
pub proof fn law_frames(samples: Seq<u32>, channels: usize, i: int, channel: int)
    requires
        0 <= channel < frame_width(channels),
        0 <= i < samples.len() / frame_width(channels),
    ensures
        frame_at(samples, channels, i).len() == frame_width(channels),
        frame_at(samples, channels, i)[channel] == samples[i * frame_width(channels) + channel],
{
    let width = frame_width(channels) as int;
    let count = samples.len() as int / width;
    vstd::arithmetic::div_mod::lemma_fundamental_div_mod(samples.len() as int, width);
    assert(0 <= i * width && (i + 1) * width == i * width + width) by (nonlinear_arith)
        requires
            i >= 0,
            width >= 1,
    ;
    assert((i + 1) * width <= width * count) by (nonlinear_arith)
        requires
            i + 1 <= count,
            width >= 1,
    ;
}

} // verus!
