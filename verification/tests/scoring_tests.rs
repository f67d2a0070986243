//! Tests of the low-frequency bonus, note scoring and ranking.

use recognotes::fixmath::{confidence_weight, low_frequency_bonus};
use recognotes::model::DetectedNote;
use recognotes::scoring::{note_score, note_to_frequency, rank_notes};

fn note(name: &str, confidence: u32, intensity: u32) -> DetectedNote {
    DetectedNote { note: name.to_string(), confidence, intensity }
}

#[test]
fn test_low_frequency_bonus_anchor_values() {
    // 50 Hz saturates the bonus
    assert_eq!(low_frequency_bonus(50_000), 1_000_000);
    // exact power-of-two ratios have exact bonuses: 100 Hz -> 1/2,
    // 200 Hz -> 1/3, 400 Hz -> 1/4, 800 Hz -> 1/5 (near zero)
    assert_eq!(low_frequency_bonus(100_000), 500_000);
    assert_eq!(low_frequency_bonus(200_000), 333_333);
    assert_eq!(low_frequency_bonus(400_000), 250_000);
    assert_eq!(low_frequency_bonus(800_000), 200_000);
    // below 50 Hz the clamp takes over
    assert_eq!(low_frequency_bonus(30_000), 1_000_000);
    assert_eq!(low_frequency_bonus(25_000), 1_000_000);
    assert_eq!(low_frequency_bonus(24_999), 0);
}

#[test]
fn test_low_frequency_bonus_monotone() {
    let freqs = [25_000u64, 40_000, 50_000, 55_000, 80_000, 110_000, 220_000, 440_000, 880_000,
        2_000_000, 20_000_000];
    let mut last = u32::MAX;
    for f in freqs {
        let b = low_frequency_bonus(f);
        assert!(b <= last, "{f}: {b} > {last}");
        last = b;
    }
}

#[test]
fn test_note_to_frequency_table() {
    assert_eq!(note_to_frequency("C1"), 32_700);
    assert_eq!(note_to_frequency("C2"), 65_400);
    assert_eq!(note_to_frequency("C3"), 130_800);
    assert_eq!(note_to_frequency("A1"), 55_000);
    assert_eq!(note_to_frequency("A2"), 110_000);
    assert_eq!(note_to_frequency("B3"), 247_000);
    assert_eq!(note_to_frequency("G2"), 98_000);
    // anything not in the small table falls back to A4
    assert_eq!(note_to_frequency("A4"), 440_000);
    assert_eq!(note_to_frequency("C5"), 440_000);
    assert_eq!(note_to_frequency("X"), 440_000);
    assert_eq!(note_to_frequency(""), 440_000);
}

#[test]
fn test_confidence_weight_clamps() {
    assert_eq!(confidence_weight(0), 0);
    assert_eq!(confidence_weight(750_000), 750_000);
    assert_eq!(confidence_weight(1_000_000), 1_000_000);
    assert_eq!(confidence_weight(2_000_000), 1_000_000);
}

#[test]
fn test_rank_drops_low_confidence() {
    let notes = vec![
        note("A4", 99_999, 500_000), // below the 10% cut-off
        note("A2", 100_000, 500_000), // exactly at the cut-off: kept
    ];
    let ranked = rank_notes(&notes);
    assert_eq!(ranked.len(), 1);
    assert_eq!(ranked[0].note, "A2");
}

#[test]
fn test_rank_prefers_low_frequencies() {
    // a mid-confidence bass note outranks a confident, loud high note
    let high = note("A4", 900_000, 900_000);
    let low = note("A2", 500_000, 500_000);
    assert!(note_score(&low) > note_score(&high));
    let ranked = rank_notes(&vec![high, low]);
    assert_eq!(ranked.len(), 2);
    assert_eq!(ranked[0].note, "A2");
    assert_eq!(ranked[1].note, "A4");
}

#[test]
fn test_rank_returns_at_most_three() {
    let notes = vec![
        note("A1", 500_000, 500_000),
        note("A2", 500_000, 500_000),
        note("A3", 500_000, 500_000),
        note("A4", 500_000, 500_000),
    ];
    let ranked = rank_notes(&notes);
    assert_eq!(ranked.len(), 3);
    // A1 (55 Hz) gets the biggest bonus, then A2, then A3
    assert_eq!(ranked[0].note, "A1");
    assert_eq!(ranked[1].note, "A2");
    assert_eq!(ranked[2].note, "A3");
}

#[test]
fn test_rank_is_stable_on_ties() {
    // both names miss the frequency table, so the scores are identical;
    // the detection order must survive the sort
    let first = note("X1", 400_000, 400_000);
    let second = note("X2", 400_000, 400_000);
    assert_eq!(note_score(&first), note_score(&second));
    let ranked = rank_notes(&vec![first, second]);
    assert_eq!(ranked[0].note, "X1");
    assert_eq!(ranked[1].note, "X2");
}
