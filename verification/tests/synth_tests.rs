//! Behaviour of the wave synthesizer on concrete inputs.

use tonegen::math::{exp_neg, sin_quarter, FX_ONE};
use tonegen::scale::scale_freqs;
use tonegen::synth::{sample_at, AMP_HALF, AMP_ONE, MAX_TICKS};

fn p6_chord() -> Vec<u64> {
    vec![261626, 329628, 391995]
}

/// Reference evaluation of the synthesis formula in double precision.
fn reference_sample(t: f64, freqs_hz: &[f64]) -> f64 {
    let mut y = 0.0f64;
    for &f in freqs_hz {
        let decay = (-0.0015 * f * t).exp();
        let a = 0.6 * (2.0 * std::f64::consts::PI * f * t).sin() * decay;
        let b = a + 0.4 * (2.0 * std::f64::consts::PI * 2.0 * f * t).sin() * decay;
        let c = b * b * b;
        y += c * (1.0 + 16.0 * t * (-6.0 * t).exp());
    }
    (y * 0.5 + 0.5).clamp(0.0, 1.0)
}

#[test]
fn synthesis_is_deterministic() {
    let chord = p6_chord();
    for ticks in [0u64, 1, 7, 480, 48000, 480000] {
        let first = sample_at(ticks, 48000, &chord);
        let second = sample_at(ticks, 48000, &chord);
        assert_eq!(first, second);
    }
}

#[test]
fn sample_at_zero_is_midpoint() {
    let chord = p6_chord();
    assert_eq!(sample_at(0, 48000, &chord), AMP_HALF);
    let one_note = vec![440000u64];
    assert_eq!(sample_at(0, 44100, &one_note), AMP_HALF);
    let empty: Vec<u64> = vec![];
    assert_eq!(sample_at(123, 48000, &empty), AMP_HALF);
}

#[test]
fn samples_stay_in_range() {
    let scale = scale_freqs();
    for &f in scale.iter() {
        let one_note = vec![f];
        for ticks in [0u64, 1, 17, 8000, 48000, 480000, 4800000, MAX_TICKS] {
            let amp = sample_at(ticks, 48000, &one_note);
            assert!(amp <= AMP_ONE);
        }
    }
    let chord = p6_chord();
    for ticks in 0..2000u64 {
        assert!(sample_at(ticks, 48000, &chord) <= AMP_ONE);
    }
}

#[test]
fn sample_matches_double_precision_reference() {
    let chord = p6_chord();
    let chord_hz = [261.626f64, 329.628, 391.995];
    for ticks in [1u64, 2, 480, 8000, 48000, 120000, 480000] {
        let amp = sample_at(ticks, 48000, &chord) as f64 / AMP_ONE as f64;
        let expected = reference_sample(ticks as f64 / 48000.0, &chord_hz);
        assert!((amp - expected).abs() < 1e-6);
    }
}

#[test]
fn quarter_sine_and_exponential_match_reference() {
    // sin(pi/2) == 1
    let top = sin_quarter(FX_ONE) as f64 / FX_ONE as f64;
    assert!((top - 1.0).abs() < 1e-6);
    // sin(pi/4) == sqrt(2)/2
    let mid = sin_quarter(FX_ONE / 2) as f64 / FX_ONE as f64;
    assert!((mid - 0.5f64.sqrt()).abs() < 1e-6);
    // exp(0) == 1, exp(-1) == 1/e, and a large argument underflows to zero
    assert_eq!(exp_neg(0), FX_ONE);
    let inv_e = exp_neg(FX_ONE) as f64 / FX_ONE as f64;
    assert!((inv_e - (-1.0f64).exp()).abs() < 1e-6);
    assert_eq!(exp_neg(33 * FX_ONE), 0);
}

#[test]
fn extreme_rates_and_clocks_stay_in_range() {
    // The densest chord the synthesizer accepts, at both ends of the rate
    // range and of the clock range.
    let dense: Vec<u64> = vec![1000000000u64; 16];
    for rate in [1u64, 8000, 4294967296] {
        for ticks in [0u64, 1, MAX_TICKS - 1, MAX_TICKS] {
            assert!(sample_at(ticks, rate, &dense) <= AMP_ONE);
        }
    }
    assert_eq!(sample_at(0, 1, &dense), AMP_HALF);
}
