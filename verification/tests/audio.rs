//! PCM samples and the window of the resampler.

use translator_core::audio::pcm::{bytes_per_sample, clamp_sample, decode_to_f32, scale_word};
use translator_core::audio::resampler::{SincResampler, HALF, TAPS};
use translator_core::audio::split_frames;
use translator_core::error::CoreError;
use translator_core::protocol::SampleFormat;

fn floats(bits: Vec<u32>) -> Vec<f32> {
    bits.into_iter().map(f32::from_bits).collect()
}

#[test]
fn decodes_i16() {
    let bytes = [0x00u8, 0x00, 0x00, 0x80, 0xff, 0x7f];
    let out = floats(decode_to_f32(&bytes, SampleFormat::I16).unwrap());
    assert_eq!(out.len(), 3);
    assert!(out[0].abs() < 1e-9);
    assert!(out[1] < 0.0);
    assert!(out[2] > 0.99);
}

#[test]
fn decodes_f32() {
    let bytes = 1.0f32.to_le_bytes();
    let out = floats(decode_to_f32(&bytes, SampleFormat::F32).unwrap());
    assert!((out[0] - 1.0).abs() < 1e-9);
}

#[test]
fn rejects_unspecified() {
    assert!(decode_to_f32(&[0u8; 4], SampleFormat::Unspecified).is_err());
}

#[test]
fn every_word_is_scaled_exactly() {
    for word in i16::MIN..=i16::MAX {
        assert_eq!(scale_word(word), (word as f32 / 32768.0).to_bits());
    }
}

fn decode_words(values: &[f32]) -> Vec<u32> {
    let bytes: Vec<u8> = values.iter().flat_map(|v| v.to_le_bytes()).collect();
    decode_to_f32(&bytes, SampleFormat::F32).unwrap()
}

#[test]
fn f32_words_in_range_are_kept_bit_by_bit() {
    let values = [0.0f32, -0.0, 0.25, f32::MIN_POSITIVE, 1e-40, 1.0, -1.0];
    let bits: Vec<u32> = values.iter().map(|v| v.to_bits()).collect();
    assert_eq!(decode_words(&values), bits);
}

#[test]
fn f32_words_out_of_range_are_clamped() {
    let values = [2.0f32, -1.5, f32::INFINITY, f32::NEG_INFINITY, f32::MAX, f32::NAN, -f32::NAN];
    let expected: Vec<u32> =
        [1.0f32, -1.0, 1.0, -1.0, 1.0, 0.0, 0.0].iter().map(|v| v.to_bits()).collect();
    assert_eq!(decode_words(&values), expected);
    assert_eq!(clamp_sample(0x3F80_0001), 1.0f32.to_bits());
    assert_eq!(clamp_sample(0xBF80_0000), (-1.0f32).to_bits());
}

#[test]
fn ragged_payloads_are_refused() {
    assert_eq!(
        decode_to_f32(&[0u8; 5], SampleFormat::F32),
        Err(CoreError::AudioFormat("f32 payload of 5 bytes is not a multiple of 4".into()))
    );
    assert_eq!(
        decode_to_f32(&[0u8; 3], SampleFormat::I16),
        Err(CoreError::AudioFormat("i16 payload of 3 bytes is not a multiple of 2".into()))
    );
    assert_eq!(decode_to_f32(&[], SampleFormat::F32), Ok(vec![]));
}

#[test]
fn sample_sizes() {
    assert_eq!(bytes_per_sample(SampleFormat::F32), Ok(4));
    assert_eq!(bytes_per_sample(SampleFormat::I16), Ok(2));
    assert_eq!(
        bytes_per_sample(SampleFormat::Unspecified),
        Err(CoreError::AudioFormat("sample format was not specified".into()))
    );
}

#[test]
fn rates_of_zero_are_refused() {
    for (from, to) in [(0, 16000), (48000, 0), (0, 0)] {
        let error = SincResampler::new(from, to).err().unwrap();
        assert_eq!(
            error,
            CoreError::AudioFormat(format!("invalid resample rates {from} -> {to}"))
        );
    }
    let resampler = SincResampler::new(48000, 16000).unwrap();
    assert_eq!((resampler.in_rate(), resampler.out_rate()), (48000, 16000));
}

#[test]
fn windows_hold_the_neighbourhood() {
    let mut resampler = SincResampler::new(48000, 16000).unwrap();
    assert!(!resampler.ready(0));
    resampler.feed(&(1..=15).collect::<Vec<u32>>());
    assert!(!resampler.ready(0));
    resampler.feed(&[16]);
    assert!(resampler.ready(0));
    assert!(!resampler.ready(1));
    let window = resampler.window(0);
    assert_eq!(window.len(), TAPS);
    assert_eq!(window[..HALF], [0u32; 16]);
    assert_eq!(window[HALF..].to_vec(), (1..=16).collect::<Vec<u32>>());
}

#[test]
fn released_input_is_never_missed() {
    let mut whole = SincResampler::new(48000, 16000).unwrap();
    let input: Vec<u32> = (1..=300).collect();
    whole.feed(&input);
    let mut parts = SincResampler::new(48000, 16000).unwrap();
    let mut base = 0i64;
    for chunk in input.chunks(7) {
        assert!(parts.has_room(chunk.len()));
        parts.feed(chunk);
        while parts.ready(base) {
            assert_eq!(parts.window(base), whole.window(base));
            base += 3;
        }
        parts.release(base);
    }
    assert_eq!(base, 285);
    // What was let go is silence now.
    assert_eq!(parts.window(0), vec![0u32; TAPS]);
}

#[test]
fn samples_are_parted_into_frames() {
    assert_eq!(split_frames(&[1, 2, 3, 4, 5], 2), vec![vec![1, 2], vec![3, 4]]);
    assert_eq!(split_frames(&[1, 2], 1), vec![vec![1], vec![2]]);
    assert_eq!(split_frames(&[1, 2], 0), vec![vec![1], vec![2]]);
    assert_eq!(split_frames(&[1, 2], 3), Vec::<Vec<u32>>::new());
}

/// The averages of the frames.
fn averages(input: &[f32], channels: usize) -> Vec<f32> {
    let bits: Vec<u32> = input.iter().map(|s| s.to_bits()).collect();
    split_frames(&bits, channels)
        .iter()
        .map(|frame| {
            frame.iter().map(|s| f32::from_bits(*s)).sum::<f32>() / frame.len() as f32
        })
        .collect()
}

#[test]
fn downmixes_stereo() {
    let input = [1.0f32, 0.0, 0.5, 0.5, -1.0, 1.0];
    let mono = averages(&input, 2);
    assert_eq!(mono.len(), 3);
    assert!((mono[0] - 0.5).abs() < 1e-6);
    assert!((mono[1] - 0.5).abs() < 1e-6);
    assert!(mono[2].abs() < 1e-6);
}

#[test]
fn passes_through_mono() {
    let input = [0.25f32, -0.25];
    assert_eq!(averages(&input, 1), input);
}

#[test]
fn processing_gives_the_windows_that_are_complete() {
    let mut resampler = SincResampler::new(48000, 16000).unwrap();
    let input: Vec<u32> = (1..=20).collect();
    assert!(resampler.ready_with(4, 20) && !resampler.ready_with(5, 20));
    let windows = resampler.process(&input, &[0, 2, 4, 6]);
    assert_eq!(windows.len(), 3);
    assert_eq!(windows[1][HALF - 2..], (1..=18).collect::<Vec<u32>>());
    assert_eq!(resampler.process(&[], &[6, 8]), Vec::<Vec<u32>>::new());
    let windows = resampler.process(&[21, 22], &[6, 8]);
    assert_eq!(windows.len(), 1);
    assert_eq!(windows[0][HALF - 6..], (1..=22).collect::<Vec<u32>>());
}
