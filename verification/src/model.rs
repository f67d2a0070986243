//! The data carried across the analysis boundary: detected notes, the
//! assembled result, and the request shapes whose audio payload travels as
//! standard base64 text.

use crate::profile::{spec_profile_from_str, VoiceProfile};
use vstd::prelude::*;

verus! {

/// A single detected note: its name, how precisely the frequency matched
/// the reference (confidence, ppm), and the relative spectral power of the
/// peak that produced it (intensity, ppm).
#[derive(Debug)]
pub struct DetectedNote {
    pub note: String,
    pub confidence: u32,
    pub intensity: u32,
}

/// The spec-level value of a detected note.
pub ghost struct NoteView {
    pub note: Seq<char>,
    pub confidence: u32,
    pub intensity: u32,
}

impl View for DetectedNote {
    type V = NoteView;

    open spec fn view(&self) -> NoteView {
        NoteView { note: self.note@, confidence: self.confidence, intensity: self.intensity }
    }
}

impl DetectedNote {
    /// An equal note under a fresh allocation.
    pub fn duplicate(&self) -> (r: DetectedNote)
        ensures
            r@ == self@,
    {
        DetectedNote {
            note: self.note.clone(),
            confidence: self.confidence,
            intensity: self.intensity,
        }
    }
}

/// The values of a sequence of detected notes.
pub open spec fn notes_view(s: Seq<DetectedNote>) -> Seq<NoteView> {
    s.map_values(|n: DetectedNote| n@)
}

/// A complete analysis answer: the ranked notes plus the metadata the
/// caller attaches (the echoed sample rate, how many samples were analysed,
/// and a capture timestamp in milliseconds).
#[derive(Debug)]
pub struct AnalysisResult {
    pub notes: Vec<DetectedNote>,
    pub sample_rate: u32,
    pub samples_analyzed: usize,
    pub timestamp_ms: u64,
}

/// The text of a base64-decoded payload, as the standard engine decodes it.
pub uninterp spec fn base64_decoded(s: Seq<char>) -> Seq<u8>;

/// The standard base64 text of a byte payload.
pub uninterp spec fn base64_encoded(b: Seq<u8>) -> Seq<char>;

/// Whether a string is valid standard base64.
pub uninterp spec fn is_base64(s: Seq<char>) -> bool;

/// Relies on `base64::Engine::decode` with the standard engine
/// (`general_purpose::STANDARD`): the result is a function of the input
/// alone, and decoding returns an error exactly on text that is not valid
/// standard base64.
#[verifier::external_body]
fn b64_decode(s: &str) -> (r: Result<Vec<u8>, String>)
    ensures
        r is Ok <==> is_base64(s@),
        r matches Ok(b) ==> b@ == base64_decoded(s@),
{
    base64::Engine::decode(&base64::engine::general_purpose::STANDARD, s).map_err(
        |e| format!("Base64 decode error: {e}"),
    )
}

/// Relies on `base64::Engine::encode` with the standard engine: it returns
/// valid standard base64 text that decodes back to its input. The length
/// bound keeps the engine's output-size computation from overflowing.
#[verifier::external_body]
fn b64_encode(b: &Vec<u8>) -> (r: String)
    requires
        b@.len() < 0x1000_0000_0000_0000,
    ensures
        r@ == base64_encoded(b@),
        is_base64(r@),
        base64_decoded(r@) == b@,
{
    base64::Engine::encode(&base64::engine::general_purpose::STANDARD, b)
}

/// An analysis request as the transport delivers it: base64-encoded PCM
/// bytes, the sample rate, and an optional voice-profile string.
#[derive(Debug)]
pub struct AudioData {
    pub audio_data: String,
    pub sample_rate: u32,
    pub profile: Option<String>,
}

impl AudioData {
    /// Decode the base64 audio payload to raw PCM bytes.
    ///
    /// Succeeds exactly when the payload is valid standard base64, and then
    /// returns its decoded bytes; anything else is reported as an error
    /// message.
    pub fn to_bytes(&self) -> (r: Result<Vec<u8>, String>)
        ensures
            r is Ok <==> is_base64(self.audio_data@),
            r matches Ok(b) ==> b@ == base64_decoded(self.audio_data@),
    {
        b64_decode(self.audio_data.as_str())
    }

    /// The voice profile selected by the request, `NoProfile` when absent
    /// or unrecognised.
    pub fn get_profile(&self) -> (r: VoiceProfile)
        ensures
            r == match self.profile {
                Some(p) => spec_profile_from_str(p@),
                None => VoiceProfile::NoProfile,
            },
    {
        match &self.profile {
            Some(p) => VoiceProfile::from_str(p.as_str()),
            None => VoiceProfile::NoProfile,
        }
    }
}

/// An analysis request as a capture front end sends it.
#[derive(Debug)]
pub struct AnalyzeRequest {
    pub audio_data: String,
    pub sample_rate: u32,
    pub profile: Option<String>,
}

impl AnalyzeRequest {
    /// Build a request that carries the given PCM bytes as standard base64
    /// text; the payload decodes back to exactly those bytes.
    pub fn new(audio: &Vec<u8>, sample_rate: u32, profile: Option<String>) -> (r: Self)
        requires
            audio@.len() < 0x1000_0000_0000_0000,
        ensures
            r.audio_data@ == base64_encoded(audio@),
            is_base64(r.audio_data@),
            base64_decoded(r.audio_data@) == audio@,
            r.sample_rate == sample_rate,
            r.profile == profile,
    {
        AnalyzeRequest { audio_data: b64_encode(audio), sample_rate, profile }
    }
}

} // verus!
