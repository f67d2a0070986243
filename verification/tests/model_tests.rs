//! Tests of the transport data shapes and the base64 payload handling.

use recognotes::model::{AnalysisResult, AnalyzeRequest, AudioData, DetectedNote};

#[test]
fn test_to_bytes_decodes_base64() {
    let data = AudioData {
        audio_data: "AQID".to_string(), // [1, 2, 3]
        sample_rate: 48_000,
        profile: None,
    };
    assert_eq!(data.to_bytes().unwrap(), vec![1, 2, 3]);
    let empty = AudioData { audio_data: String::new(), sample_rate: 48_000, profile: None };
    assert_eq!(empty.to_bytes().unwrap(), Vec::<u8>::new());
}

#[test]
fn test_to_bytes_rejects_invalid_base64() {
    let bad = AudioData {
        audio_data: "not base64!!".to_string(),
        sample_rate: 48_000,
        profile: None,
    };
    let err = bad.to_bytes().unwrap_err();
    assert!(err.contains("Base64 decode error"), "{err}");
}

#[test]
fn test_request_payload_round_trip() {
    let audio: Vec<u8> = (0u8..=255).collect();
    let request = AnalyzeRequest::new(&audio, 44_100, Some("bass".to_string()));
    assert_eq!(request.sample_rate, 44_100);
    assert_eq!(request.profile.as_deref(), Some("bass"));
    // the payload travels as base64 and decodes back to the same bytes
    let received = AudioData {
        audio_data: request.audio_data,
        sample_rate: request.sample_rate,
        profile: request.profile,
    };
    assert_eq!(received.to_bytes().unwrap(), audio);
}

#[test]
fn test_analysis_result_carries_metadata() {
    let result = AnalysisResult {
        notes: vec![DetectedNote { note: "A4".to_string(), confidence: 1_000_000, intensity: 500_000 }],
        sample_rate: 48_000,
        samples_analyzed: 4800,
        timestamp_ms: 1_700_000_000_000,
    };
    assert_eq!(result.notes.len(), 1);
    assert_eq!(result.notes[0].note, "A4");
    assert_eq!(result.sample_rate, 48_000);
    assert_eq!(result.samples_analyzed, 4800);
}
