//! End-to-end tests of the spectral pipeline: synthetic tones are windowed
//! and transformed with rustfft (the same front end an application uses),
//! and the resulting integer spectra are fed to the verified analysis.

use num_complex::Complex;
use recognotes::analyzer::AudioAnalyzer;
use recognotes::pcm::decode_pcm16_le;
use recognotes::peaks::find_all_peaks;
use recognotes::profile::VoiceProfile;
use recognotes::scoring::rank_notes;
use rustfft::FftPlanner;
use std::f32::consts::PI;

/// Hann window, as the capture front end applies it.
fn apply_hann_window(signal: &[f32]) -> Vec<f32> {
    let n = signal.len() as f32;
    let n_minus_1 = (n - 1.0).max(1.0);
    signal
        .iter()
        .enumerate()
        .map(|(i, &sample)| {
            let window = 0.5 * (1.0 - (2.0 * PI * i as f32 / n_minus_1).cos());
            sample * window
        })
        .collect()
}

/// Power spectrum of a windowed buffer, scaled to parts per million.
fn power_spectrum_ppm(signal: &[f32]) -> Vec<u64> {
    let mut planner = FftPlanner::new();
    let fft = planner.plan_fft_forward(signal.len());
    let mut buffer: Vec<Complex<f32>> = signal.iter().map(|&s| Complex { re: s, im: 0.0 }).collect();
    fft.process(&mut buffer);
    let n = signal.len() as f32;
    buffer
        .iter()
        .map(|c| {
            let magnitude = ((c.re * c.re + c.im * c.im) / n).sqrt();
            (magnitude * 1_000_000.0) as u64
        })
        .collect()
}

/// A sum of sine tones as normalised floats.
fn tone(freqs_amps: &[(f32, f32)], samples: usize, rate: f32) -> Vec<f32> {
    (0..samples)
        .map(|i| {
            let t = i as f32 / rate;
            freqs_amps.iter().map(|&(f, a)| a * (2.0 * PI * f * t).sin()).sum()
        })
        .collect()
}

fn spectrum_of(freqs_amps: &[(f32, f32)], samples: usize, rate: f32) -> Vec<u64> {
    power_spectrum_ppm(&apply_hann_window(&tone(freqs_amps, samples, rate)))
}

/// A pure 440 Hz tone: the extractor returns one dominant peak within one
/// bin width of 440 Hz, and the analysis reports A4.
#[test]
fn test_pure_sine_440() {
    let samples = 2048usize;
    let rate = 48_000u32;
    let psd = spectrum_of(&[(440.0, 0.8)], samples, rate as f32);
    let peaks = find_all_peaks(&psd, rate, samples);
    assert!(!peaks.is_empty());
    // dominant peak within one FFT bin width (48000/2048 Hz) of 440 Hz
    let bin_width_mhz = (rate as u64) * 1000 / (samples as u64);
    let (freq, power) = peaks[0];
    assert!(
        freq.abs_diff(440_000) <= bin_width_mhz,
        "peak at {freq} mHz, bin width {bin_width_mhz}"
    );
    assert!(power >= peaks.iter().map(|p| p.1).max().unwrap());
    let analyzer = AudioAnalyzer::new();
    let notes = analyzer.analyze_spectrum(&psd, rate, samples, VoiceProfile::NoProfile);
    assert!(notes.iter().any(|n| n.note == "A4"), "notes: {notes:?}");
}

/// With a bin-aligned buffer the 440 Hz tone lands exactly on its bin, and
/// the reported A4 carries full confidence.
#[test]
fn test_pure_sine_440_bin_aligned() {
    let samples = 4800usize;
    let rate = 48_000u32;
    let psd = spectrum_of(&[(440.0, 0.8)], samples, rate as f32);
    let analyzer = AudioAnalyzer::new();
    let notes = analyzer.analyze_spectrum(&psd, rate, samples, VoiceProfile::NoProfile);
    assert!(!notes.is_empty());
    assert_eq!(notes[0].note, "A4");
    assert!(notes[0].confidence > 900_000, "confidence {}", notes[0].confidence);
    let ranked = rank_notes(&notes);
    assert_eq!(ranked[0].note, "A4");
}

/// A tone plus its exact 2nd and 3rd harmonics: harmonic suppression keeps
/// the overtones (A5 at 880 Hz, E6 at 1320 Hz) out of the result.
#[test]
fn test_harmonics_are_suppressed() {
    let samples = 4800usize;
    let rate = 48_000u32;
    let psd = spectrum_of(&[(440.0, 0.7), (880.0, 0.4), (1320.0, 0.25)], samples, rate as f32);
    let analyzer = AudioAnalyzer::new();
    let notes = analyzer.analyze_spectrum(&psd, rate, samples, VoiceProfile::NoProfile);
    assert!(notes.iter().any(|n| n.note == "A4"), "notes: {notes:?}");
    assert!(!notes.iter().any(|n| n.note == "A5"), "harmonic leaked: {notes:?}");
    assert!(!notes.iter().any(|n| n.note == "E6"), "harmonic leaked: {notes:?}");
}

/// A silent buffer of any length produces no notes, on both the multi-peak
/// and the single-peak path.
#[test]
fn test_silence_produces_no_notes() {
    let analyzer = AudioAnalyzer::new();
    for samples in [0usize, 1, 2, 3, 16, 479, 480, 2048, 4800] {
        let bytes = vec![0u8; samples * 2];
        let decoded = decode_pcm16_le(&bytes);
        assert_eq!(decoded.len(), samples);
        let floats: Vec<f32> = decoded.iter().map(|&s| f32::from(s) / 32768.0).collect();
        let psd = if samples == 0 {
            Vec::new()
        } else {
            power_spectrum_ppm(&apply_hann_window(&floats))
        };
        let notes = analyzer.analyze_spectrum(&psd, 48_000, samples, VoiceProfile::NoProfile);
        assert!(notes.is_empty(), "{samples} samples: {notes:?}");
        assert!(rank_notes(&notes).is_empty());
    }
}

/// Profile filtering at the lookup stage: a 440 Hz tone is reported under
/// no profile or a fitting one, and dropped under the bass profile.
#[test]
fn test_profile_filters_detection() {
    let samples = 4800usize;
    let rate = 48_000u32;
    let psd = spectrum_of(&[(440.0, 0.8)], samples, rate as f32);
    let analyzer = AudioAnalyzer::new();
    let tenor = analyzer.analyze_spectrum(&psd, rate, samples, VoiceProfile::Tenor);
    assert!(tenor.iter().any(|n| n.note == "A4"));
    let bass = analyzer.analyze_spectrum(&psd, rate, samples, VoiceProfile::Bass);
    assert!(bass.is_empty(), "bass profile should reject 440 Hz: {bass:?}");
}
