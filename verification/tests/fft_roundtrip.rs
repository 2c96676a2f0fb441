//! Round-trip through a real forward FFT: a pure sinusoid at a known
//! frequency comes back out as the right dominant bin and note name.

use rustfft::num_complex::Complex32;
use rustfft::FftPlanner;
use soundboard::note::Note;
use soundboard::spectrum::compute_frequency;
use soundboard::spectrum::dominant_bin;
use soundboard::spectrum::RATIO_SHOWN;
use soundboard::spectrum::SAMPLE_SIZE;

/// Transform a pure tone at `f0` hertz sampled at `sr` and return the
/// dominant bin of the interesting prefix, its frequency in milli-hertz,
/// and its resolved note name.
fn analyze_tone(f0: f64, sr: u32) -> (usize, u64, &'static str) {
    let n = SAMPLE_SIZE;
    let mut buf: Vec<Complex32> = (0..n)
        .map(|i| {
            let t = i as f64 / sr as f64;
            Complex32::new((2.0 * std::f64::consts::PI * f0 * t).sin() as f32, 0.0)
        })
        .collect();
    let mut planner = FftPlanner::<f32>::new();
    let fft = planner.plan_fft_forward(n);
    fft.process(&mut buf);
    let energies: Vec<u64> = buf
        .iter()
        .map(|c| (c.norm_sqr() as f64 * 1000.0) as u64)
        .collect();
    let idx = dominant_bin(&energies, n / RATIO_SHOWN);
    let hz = compute_frequency(idx, sr, n);
    (idx, hz, Note::hz_to_str(hz as i64))
}

#[test]
fn pure_tone_440hz_hits_bin_41_and_resolves_to_la() {
    let (idx, hz, name) = analyze_tone(440.0, 44_100);
    assert_eq!(idx, 41);
    assert_eq!(hz, 441_430);
    assert_eq!(name, "La");
}

#[test]
fn recovered_frequency_is_within_one_bin_width() {
    // One bin is sr / N hertz wide: 44100 / 4096, under 10.8 Hz.
    let bin_width_mhz = 44_100.0 * 1000.0 / 4096.0;
    for &(f0, expected) in &[
        (261.626, "Do"),
        (293.665, "Ré"),
        (329.628, "Mi"),
        (391.995, "Sol"),
    ] {
        let (_, hz, name) = analyze_tone(f0, 44_100);
        let err = (hz as f64 - f0 * 1000.0).abs();
        assert!(err <= bin_width_mhz, "tone {} recovered {} mHz", f0, hz);
        assert_eq!(name, expected, "tone {}", f0);
    }
}
