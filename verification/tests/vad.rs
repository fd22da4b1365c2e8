//! Voice activity detection.

use translator_core::vad::{FrameLevel, Framer, Vad, VadConfig, VadResult};

/// Measures loudness over a noise floor.
struct Meter {
    framer: Framer,
    rate: u32,
    sum_sq: f32,
    noise_db: f32,
}

impl Meter {
    fn new(cfg: &VadConfig) -> Meter {
        Meter { framer: Framer::new(cfg), rate: cfg.sample_rate, sum_sq: 0.0, noise_db: -70.0 }
    }

    fn measure(&mut self, samples: &[f32], end_us: u64) -> Vec<FrameLevel> {
        let us_per_sample = 1_000_000.0 / self.rate.max(1) as f64;
        let start_us = end_us as f64 - samples.len() as f64 * us_per_sample;
        let mut levels = Vec::new();
        for (i, sample) in samples.iter().enumerate() {
            self.sum_sq += sample * sample;
            if !self.framer.step() {
                continue;
            }
            let rms = (self.sum_sq / self.framer.frame_samples() as f32).sqrt();
            let db = 20.0 * (rms as f64 + 1e-9).log10() as f32;
            let loud = db > -55.0 && db > self.noise_db + 10.0;
            if !loud {
                self.noise_db += 0.05 * (db - self.noise_db);
                self.noise_db = self.noise_db.clamp(-90.0, -10.0);
            }
            levels.push(FrameLevel {
                loud,
                end_us: (start_us + (i + 1) as f64 * us_per_sample) as u64,
            });
            self.sum_sq = 0.0;
        }
        levels
    }
}

fn tone(sample_rate: u32, ms: u32, amplitude: f32) -> Vec<f32> {
    let n = sample_rate as usize * ms as usize / 1000;
    (0..n)
        .map(|i| {
            amplitude
                * (2.0 * std::f64::consts::PI * 440.0 * i as f64 / sample_rate as f64).sin() as f32
        })
        .collect()
}

#[test]
fn opens_on_speech_and_closes_on_silence() {
    let rate = 16000;
    let cfg = VadConfig::new(rate);
    let mut meter = Meter::new(&cfg);
    let mut vad = Vad::new(cfg);

    let mut clock_us = 0u64;
    let speech = tone(rate, 500, 0.3);
    clock_us += speech.len() as u64 * 1_000_000 / rate as u64;
    let result = vad.push(&meter.measure(&speech, clock_us));
    assert!(result.active, "gate should open on speech");

    let silence = vec![0.0f32; rate as usize]; // 1 s of digital silence
    clock_us += silence.len() as u64 * 1_000_000 / rate as u64;
    let result = vad.push(&meter.measure(&silence, clock_us));
    assert!(!result.active, "gate should close after 1 s of silence");
}

#[test]
fn stays_closed_on_silence() {
    let rate = 16000;
    let cfg = VadConfig::new(rate);
    let mut meter = Meter::new(&cfg);
    let mut vad = Vad::new(cfg);
    let silence = vec![0.0f32; rate as usize];
    let result = vad.push(&meter.measure(&silence, 1_000_000));
    assert!(!result.active);
    assert_eq!(result.speech_frames, 0);
}

fn level(loud: bool, end_us: u64) -> FrameLevel {
    FrameLevel { loud, end_us }
}

#[test]
fn three_loud_frames_open_and_thirty_quiet_ones_close() {
    let mut vad = Vad::new(VadConfig::new(16000));
    let loud: Vec<FrameLevel> = (1..=3).map(|i| level(true, i * 10_000 + 70_000)).collect();
    let opened = |active, completed_frames, speech_frames| VadResult {
        active,
        completed_frames,
        speech_frames,
    };
    assert_eq!(vad.push(&loud[..2]), opened(false, 2, 2));
    assert_eq!(vad.push(&loud[2..]), opened(true, 1, 1));
    // Three frames of 10 ms before the end of the third.
    assert_eq!(vad.segment_start_us(), 70_000);
    let quiet: Vec<FrameLevel> = (0..30).map(|i| level(false, 200_000 + i)).collect();
    assert_eq!(vad.push(&quiet[..29]), opened(true, 29, 0));
    assert_eq!(vad.push(&quiet[29..]), opened(false, 1, 0));
    assert_eq!(vad.segment_start_us(), 70_000);
    // Two loud frames are not enough.
    assert_eq!(vad.push(&[level(true, 1), level(true, 2), level(false, 3)]), opened(false, 3, 2));
}

#[test]
fn a_segment_does_not_start_before_the_session() {
    let mut vad = Vad::new(VadConfig::new(16000));
    vad.push(&[level(true, 10_000), level(true, 20_000), level(true, 29_999)]);
    assert_eq!(vad.segment_start_us(), 0);
}

#[test]
fn frames_do_not_depend_on_chunks() {
    let cfg = VadConfig::new(16000);
    assert_eq!(cfg.frame_samples(), 160);
    let mut framer = Framer::new(&cfg);
    assert_eq!(framer.frame_samples(), 160);
    let complete: Vec<usize> = (0..500).filter(|_| framer.step()).collect();
    assert_eq!(complete, vec![159, 319, 479]);
}

#[test]
fn a_frame_has_at_least_one_sample() {
    let cfg = VadConfig { sample_rate: 10, frame_ms: 10, start_frames: 3, end_frames: 30 };
    assert_eq!(cfg.frame_samples(), 1);
    let fast = VadConfig { sample_rate: u32::MAX, frame_ms: u32::MAX, ..cfg };
    assert_eq!(fast.frame_samples(), u32::MAX as u64 * u32::MAX as u64 / 1000);
    assert_eq!(
        VadConfig::new(8000),
        VadConfig { sample_rate: 8000, frame_ms: 10, start_frames: 3, end_frames: 30 }
    );
}
