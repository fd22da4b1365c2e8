//! A windowed-sinc filter over the sample window.

use translator_core::audio::resampler::{SincResampler, HALF, TAPS};

const PHASES: usize = 256;

struct Filter {
    ratio: f64,
    table: Vec<f32>,
    input: SincResampler,
    out_pos: f64,
}

fn sinc(x: f64) -> f64 {
    if x.abs() < 1e-12 {
        return 1.0;
    }
    let px = std::f64::consts::PI * x;
    px.sin() / px
}

fn blackman(x: f64) -> f64 {
    0.42 - 0.5 * (2.0 * std::f64::consts::PI * x).cos()
        + 0.08 * (4.0 * std::f64::consts::PI * x).cos()
}

impl Filter {
    fn new(in_rate: u32, out_rate: u32) -> Filter {
        let input = SincResampler::new(in_rate, out_rate).unwrap();
        let fc = (in_rate.min(out_rate) as f64) * 0.5 * 0.92 / in_rate as f64;
        let mut table = vec![0.0f32; PHASES * TAPS];
        for phase in 0..PHASES {
            let frac = phase as f64 / PHASES as f64;
            let mut sum = 0.0f64;
            for tap in 0..TAPS {
                let a = tap as f64 - HALF as f64 - frac;
                let window = blackman(((a + HALF as f64) / TAPS as f64).clamp(0.0, 1.0));
                let h = 2.0 * fc * sinc(2.0 * fc * a) * window;
                table[phase * TAPS + tap] = h as f32;
                sum += h;
            }
            for tap in 0..TAPS {
                table[phase * TAPS + tap] /= sum as f32;
            }
        }
        Filter { ratio: in_rate as f64 / out_rate as f64, table, input, out_pos: 0.0 }
    }

    fn process(&mut self, input: &[f32], out: &mut Vec<f32>) {
        let bits: Vec<u32> = input.iter().map(|s| s.to_bits()).collect();
        let mut bases = Vec::new();
        let mut fracs = Vec::new();
        loop {
            let base = self.out_pos.floor() as i64;
            bases.push(base);
            fracs.push(self.out_pos - base as f64);
            if !self.input.ready_with(base, bits.len()) {
                break;
            }
            self.out_pos += self.ratio;
        }
        for (window, frac) in self.input.process(&bits, &bases).iter().zip(fracs) {
            let phase = ((frac * PHASES as f64) as usize).min(PHASES - 1);
            let mut acc = 0.0f32;
            for (tap, sample) in window.iter().enumerate() {
                acc += f32::from_bits(*sample) * self.table[phase * TAPS + tap];
            }
            out.push(acc);
        }
    }
}

#[test]
fn resamples_three_to_one_with_unity_dc_gain() {
    let mut resampler = Filter::new(48000, 16000);
    let input = vec![0.5f32; 4800]; // 100 ms at 48 kHz
    let mut out = Vec::new();
    resampler.process(&input, &mut out);

    // 100 ms at 16 kHz is 1600 samples; allow for the filter delay.
    assert!(
        (1550..=1650).contains(&out.len()),
        "unexpected output length {}",
        out.len()
    );
    for (i, s) in out.iter().enumerate().skip(32) {
        assert!((s - 0.5).abs() < 0.02, "sample {i} = {s}");
    }
}

#[test]
fn tracks_a_slow_sine() {
    let mut resampler = Filter::new(48000, 16000);
    let mut input = Vec::new();
    for i in 0..4800 {
        let t = i as f64 / 48000.0;
        input.push((2.0 * std::f64::consts::PI * 1000.0 * t).sin() as f32);
    }
    let mut out = Vec::new();
    resampler.process(&input, &mut out);

    // Compare the steady-state portion against the analytically expected values.
    let mut worst = 0.0f32;
    for (i, s) in out.iter().enumerate().skip(64).take(200) {
        let t = (i as f64 + 16.0) / 16000.0;
        let expected = (2.0 * std::f64::consts::PI * 1000.0 * t).sin() as f32;
        worst = worst.max((s - expected).abs());
    }
    assert!(worst < 0.08, "worst resample error {worst}");
}

#[test]
fn chunks_make_no_difference_to_the_output() {
    let input: Vec<f32> = (0..3000).map(|i| (i as f32 * 0.01).sin()).collect();
    let mut whole = Vec::new();
    Filter::new(44100, 16000).process(&input, &mut whole);
    let mut parts = Vec::new();
    let mut filter = Filter::new(44100, 16000);
    for chunk in input.chunks(113) {
        filter.process(chunk, &mut parts);
    }
    assert_eq!(whole, parts);
    // Nothing more comes of nothing.
    filter.process(&[], &mut parts);
    assert_eq!(whole, parts);
}
