//! Tests of the PCM byte codec and the sliding capture window.

use recognotes::pcm::{decode_pcm16_le, encode_pcm16_le, slide_window, take_chunk};

#[test]
fn test_decode_known_samples() {
    let bytes: Vec<u8> = vec![
        0x00, 0x00, // 0
        0x01, 0x00, // 1
        0xFF, 0x7F, // 32767
        0x00, 0x80, // -32768
        0xFF, 0xFF, // -1
    ];
    let samples = decode_pcm16_le(&bytes);
    assert_eq!(samples, vec![0, 1, 32767, -32768, -1]);
}

#[test]
fn test_decode_ignores_trailing_odd_byte() {
    let bytes: Vec<u8> = vec![0x2A, 0x00, 0x99];
    assert_eq!(decode_pcm16_le(&bytes), vec![42]);
    let empty: Vec<u8> = vec![0x99];
    assert_eq!(decode_pcm16_le(&empty), Vec::<i16>::new());
}

#[test]
fn test_encode_decode_round_trip() {
    let samples: Vec<i16> = vec![0, 1, -1, 12345, -12345, i16::MAX, i16::MIN];
    let bytes = encode_pcm16_le(&samples);
    assert_eq!(bytes.len(), samples.len() * 2);
    assert_eq!(decode_pcm16_le(&bytes), samples);
}

#[test]
fn test_decode_encode_round_trip() {
    let bytes: Vec<u8> = (0u16..512).flat_map(|i| [(i % 256) as u8, (i / 7) as u8]).collect();
    let samples = decode_pcm16_le(&bytes);
    assert_eq!(encode_pcm16_le(&samples), bytes);
}

/// Normalising samples to floats and converting back stays within one
/// sixteen-bit step of the original values.
#[test]
fn test_float_normalisation_round_trip() {
    let samples: Vec<i16> = vec![0, 1, -1, 100, -100, 16384, -16384, i16::MAX, i16::MIN];
    for &s in &samples {
        let normalised = f32::from(s) / 32768.0;
        assert!((-1.0..=1.0).contains(&normalised));
        let back = (normalised * 32768.0).round() as i32;
        assert!((back - i32::from(s)).abs() <= 1);
    }
}

#[test]
fn test_slide_window_keeps_most_recent() {
    let mut window: Vec<i16> = vec![1, 2, 3];
    slide_window(&mut window, &vec![4, 5], 4);
    assert_eq!(window, vec![2, 3, 4, 5]);
    // under the cap nothing is dropped
    let mut window: Vec<i16> = vec![1];
    slide_window(&mut window, &vec![2], 4);
    assert_eq!(window, vec![1, 2]);
    // a cap of zero empties the window
    let mut window: Vec<i16> = vec![1, 2];
    slide_window(&mut window, &vec![3], 0);
    assert_eq!(window, Vec::<i16>::new());
}

#[test]
fn test_take_chunk_drains_from_front() {
    let mut buffer: Vec<i16> = vec![10, -20, 30, -40, 50];
    // 6 bytes = 3 samples
    let bytes = take_chunk(&mut buffer, 6);
    assert_eq!(bytes, encode_pcm16_le(&vec![10, -20, 30]));
    assert_eq!(buffer, vec![-40, 50]);
    // asking for more than is buffered takes everything
    let bytes = take_chunk(&mut buffer, 100);
    assert_eq!(bytes, encode_pcm16_le(&vec![-40, 50]));
    assert_eq!(buffer, Vec::<i16>::new());
    // an empty buffer yields no bytes
    let bytes = take_chunk(&mut buffer, 100);
    assert_eq!(bytes, Vec::<u8>::new());
}
