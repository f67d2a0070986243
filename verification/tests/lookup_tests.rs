//! Tests of the note-frequency table and nearest-note lookup.

use recognotes::notes::FrequencyToNoteLookup;

#[test]
fn test_lookup_table_creation() {
    let lookup = FrequencyToNoteLookup::new();
    // natural notes across a wide octave range: at least 35 entries
    assert!(lookup.len() >= 35);
}

#[test]
fn test_find_a4_frequency() {
    let lookup = FrequencyToNoteLookup::new();
    // A4 (440 Hz = 440_000 mHz) should be found
    let (note_name, confidence) = lookup.find_closest_note(440_000).unwrap();
    assert_eq!(note_name, "A4");
    assert!(confidence > 990_000);
}

#[test]
fn test_frequency_to_note_nearby() {
    let lookup = FrequencyToNoteLookup::new();
    // Frequency slightly off from A4 should still return A4 with lower confidence
    let (note_name, confidence) = lookup.find_closest_note(445_000).unwrap();
    let (_, exact_confidence) = lookup.find_closest_note(440_000).unwrap();
    assert_eq!(note_name, "A4");
    assert!(confidence < exact_confidence);
    assert!(confidence > 0);
}

/// Every table entry, queried at its exact reference frequency, comes back
/// as itself with full confidence.
#[test]
fn test_every_reference_frequency_maps_to_its_note() {
    let table: [(&str, u64); 49] = [
        ("C1", 32703),
        ("D1", 36708),
        ("E1", 41203),
        ("F1", 43654),
        ("G1", 48999),
        ("A1", 55000),
        ("B1", 61735),
        ("C2", 65406),
        ("D2", 73416),
        ("E2", 82407),
        ("F2", 87307),
        ("G2", 97999),
        ("A2", 110000),
        ("B2", 123471),
        ("C3", 130813),
        ("D3", 146832),
        ("E3", 164814),
        ("F3", 174614),
        ("G3", 195998),
        ("A3", 220000),
        ("B3", 246942),
        ("C4", 261626),
        ("D4", 293665),
        ("E4", 329628),
        ("F4", 349228),
        ("G4", 391995),
        ("A4", 440000),
        ("B4", 493883),
        ("C5", 523251),
        ("D5", 587330),
        ("E5", 659255),
        ("F5", 698456),
        ("G5", 783991),
        ("A5", 880000),
        ("B5", 987767),
        ("C6", 1046502),
        ("D6", 1174659),
        ("E6", 1318510),
        ("F6", 1396913),
        ("G6", 1567982),
        ("A6", 1760000),
        ("B6", 1975533),
        ("C7", 2093005),
        ("D7", 2349318),
        ("E7", 2637020),
        ("F7", 2793826),
        ("G7", 3135963),
        ("A7", 3520000),
        ("B7", 3951066),
    ];
    let lookup = FrequencyToNoteLookup::new();
    assert_eq!(lookup.len(), table.len());
    for (name, freq) in table {
        let (found, confidence) = lookup.find_closest_note(freq).unwrap();
        assert_eq!(found, name);
        assert!(confidence > 990_000, "{name}: confidence {confidence}");
    }
}

/// Confidence never rises as the frequency moves away from the nearest
/// reference, and hits zero from one semitone out.
#[test]
fn test_confidence_monotone_in_distance() {
    let lookup = FrequencyToNoteLookup::new();
    // all of these are closest to A4 = 440 Hz, in growing distance
    let above = [440_000u64, 441_000, 443_000, 445_000, 450_000, 455_000, 460_000, 465_000];
    let mut last = u32::MAX;
    for f in above {
        let (name, confidence) = lookup.find_closest_note(f).unwrap();
        assert_eq!(name, "A4");
        assert!(confidence <= last, "{f}: {confidence} > {last}");
        last = confidence;
    }
    // the same below the reference
    let below = [440_000u64, 438_000, 434_000, 428_000, 420_000];
    let mut last = u32::MAX;
    for f in below {
        let (name, confidence) = lookup.find_closest_note(f).unwrap();
        assert_eq!(name, "A4");
        assert!(confidence <= last, "{f}: {confidence} > {last}");
        last = confidence;
    }
    // 311.2 Hz sits just over one hundred cents above D4 (293.665 Hz) while
    // still nearer to D4 than to E4: confidence bottoms out at zero
    let (name, confidence) = lookup.find_closest_note(311_200).unwrap();
    assert_eq!(name, "D4");
    assert_eq!(confidence, 0);
}

#[test]
fn test_rejects_out_of_range_frequencies() {
    let lookup = FrequencyToNoteLookup::new();
    assert!(lookup.find_closest_note(0).is_none());
    assert!(lookup.find_closest_note(20_000_001).is_none());
    assert!(lookup.find_closest_note(25_000_000).is_none());
    // the boundary itself is accepted
    assert!(lookup.find_closest_note(20_000_000).is_some());
    assert!(lookup.find_closest_note(1).is_some());
}
