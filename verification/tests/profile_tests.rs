//! Tests of voice profiles and the profile frequency filter.

use recognotes::analyzer::AudioAnalyzer;
use recognotes::model::AudioData;
use recognotes::profile::{get_profile_range, VoiceProfile};

#[test]
fn test_profile_string_round_trip() {
    for name in ["no_profile", "soprano", "mezzo", "alto", "tenor", "baritone", "bass"] {
        let p = VoiceProfile::from_str(name);
        assert_eq!(p.as_str(), name);
    }
    // anything unrecognised falls back to NoProfile
    assert_eq!(VoiceProfile::from_str("countertenor"), VoiceProfile::NoProfile);
    assert_eq!(VoiceProfile::from_str(""), VoiceProfile::NoProfile);
}

#[test]
fn test_all_profiles_listing() {
    let all = VoiceProfile::all_profiles();
    assert_eq!(
        all,
        vec!["no_profile", "soprano", "mezzo", "alto", "tenor", "baritone", "bass"]
    );
}

#[test]
fn test_freq_ranges() {
    assert_eq!(VoiceProfile::NoProfile.freq_range(), None);
    assert_eq!(VoiceProfile::Bass.freq_range(), Some((65_410, 261_630)));
    assert_eq!(VoiceProfile::Soprano.freq_range(), Some((261_630, 1_046_500)));
    assert_eq!(VoiceProfile::Tenor.freq_range(), Some((130_810, 523_250)));
}

/// The bass range (65.41-261.63 Hz) filter: in-range values and values
/// within the five-percent-of-span margin pass, anything farther out does
/// not.
#[test]
fn test_bass_profile_margin() {
    let bass = VoiceProfile::Bass;
    // squarely inside
    assert!(AudioAnalyzer::is_frequency_in_profile(260_000, bass));
    assert!(AudioAnalyzer::is_frequency_in_profile(100_000, bass));
    // the margin is (261630 - 65410) / 20 = 9811 mHz on each side
    assert!(AudioAnalyzer::is_frequency_in_profile(271_441, bass));
    assert!(!AudioAnalyzer::is_frequency_in_profile(271_442, bass));
    assert!(AudioAnalyzer::is_frequency_in_profile(271_000, bass));
    assert!(AudioAnalyzer::is_frequency_in_profile(56_000, bass));
    assert!(!AudioAnalyzer::is_frequency_in_profile(55_000, bass));
    // well outside
    assert!(!AudioAnalyzer::is_frequency_in_profile(300_000, bass));
}

#[test]
fn test_no_profile_accepts_everything() {
    for f in [0u64, 1, 65_410, 300_000, 20_000_000, u64::MAX] {
        assert!(AudioAnalyzer::is_frequency_in_profile(f, VoiceProfile::NoProfile));
    }
}

#[test]
fn test_get_profile_range_display_indices() {
    assert_eq!(get_profile_range("soprano"), Some((24, 48)));
    assert_eq!(get_profile_range("mezzo"), Some((21, 45)));
    assert_eq!(get_profile_range("alto"), Some((17, 41)));
    assert_eq!(get_profile_range("tenor"), Some((12, 36)));
    assert_eq!(get_profile_range("baritone"), Some((9, 33)));
    assert_eq!(get_profile_range("bass"), Some((0, 24)));
    assert_eq!(get_profile_range("no_profile"), None);
    assert_eq!(get_profile_range("anything"), None);
}

#[test]
fn test_audio_data_get_profile() {
    let with = AudioData {
        audio_data: String::new(),
        sample_rate: 48_000,
        profile: Some("tenor".to_string()),
    };
    assert_eq!(with.get_profile(), VoiceProfile::Tenor);
    let without = AudioData { audio_data: String::new(), sample_rate: 48_000, profile: None };
    assert_eq!(without.get_profile(), VoiceProfile::NoProfile);
    let unknown = AudioData {
        audio_data: String::new(),
        sample_rate: 48_000,
        profile: Some("whistle".to_string()),
    };
    assert_eq!(unknown.get_profile(), VoiceProfile::NoProfile);
}
