//! The analysis pipeline from a power spectrum to detected notes.
//!
//! The caller supplies the power spectrum of one windowed sample buffer
//! (magnitudes in ppm, computed outside this library); everything after
//! that point is decided here: peak extraction with harmonic suppression,
//! voice-profile filtering, nearest-note lookup with its confidence, the
//! single-peak fallback for short buffers, and the 30% confidence cut-off that
//! screens raw detections before ranking.

use crate::fixmath::spec_confidence_ppm;
use crate::model::{notes_view, DetectedNote, NoteView};
use crate::notes::{spec_closest_index, table_spec, FrequencyToNoteLookup, MAX_LOOKUP_MHZ};
use crate::peaks::{
    find_all_peaks, find_primary_frequency, lemma_extract_sorted, lemma_silence_no_peaks,
    spec_find_all_peaks, spec_find_primary, PEAK_CAP_PPM,
};
use crate::profile::{spec_freq_range, VoiceProfile};
use vstd::prelude::*;

verus! {

/// Confidence cut-off applied to raw detections, in ppm (0.30); stricter than
/// the later ranking cut-off.
pub const DETECT_MIN_CONFIDENCE_PPM: u32 = 300_000;

/// Buffers with at least this many samples take the multi-peak path.
pub const MULTI_PEAK_MIN_SAMPLES: usize = 480;

/// Placeholder intensity reported by the single-peak fallback, in ppm.
pub const FALLBACK_INTENSITY_PPM: u32 = 500_000;

/// Whether a frequency in milli-hertz lies within a profile's vocal range,
/// widened on each side by five percent of the range's span.
pub open spec fn spec_in_profile(freq: int, profile: VoiceProfile) -> bool {
    match spec_freq_range(profile) {
        None => true,
        Some((lo, hi)) => {
            let margin = (hi - lo) / 20;
            freq + margin >= lo && freq <= hi + margin
        },
    }
}

/// The note a single extracted peak contributes: nothing when the profile
/// rejects its frequency or the frequency lies outside the lookup range,
/// otherwise the nearest table note with its confidence, carrying the
/// peak's power as intensity.
pub open spec fn spec_note_of_peak(freq: u64, power: u64, profile: VoiceProfile) -> Option<
    NoteView,
> {
    if !spec_in_profile(freq as int, profile) {
        None
    } else if freq == 0 || freq > MAX_LOOKUP_MHZ {
        None
    } else {
        let c = spec_closest_index(freq as int);
        Some(
            NoteView {
                note: table_spec()[c].0,
                confidence: spec_confidence_ppm(freq as int, table_spec()[c].1 as int) as u32,
                intensity: power as u32,
            },
        )
    }
}

/// The notes contributed by a peak list, in order.
pub open spec fn spec_notes_of_peaks(peaks: Seq<(u64, u64)>, profile: VoiceProfile) -> Seq<
    NoteView,
>
    decreases peaks.len(),
{
    if peaks.len() == 0 {
        Seq::empty()
    } else {
        let rest = spec_notes_of_peaks(peaks.drop_last(), profile);
        match spec_note_of_peak(peaks.last().0, peaks.last().1, profile) {
            Some(n) => rest.push(n),
            None => rest,
        }
    }
}

/// The multi-peak analysis of a spectrum: every fundamental the extractor
/// reports, turned into a note where the profile and the lookup accept it.
pub open spec fn spec_multi(s: Seq<u64>, rate: int, len: int, profile: VoiceProfile) -> Seq<
    NoteView,
> {
    spec_notes_of_peaks(spec_find_all_peaks(s, rate, len), profile)
}

/// The single-peak analysis of a spectrum: the strongest bin's nearest
/// note and confidence, if the bin clears the noise floor and the lookup
/// accepts its frequency.
pub open spec fn spec_single(s: Seq<u64>, rate: int, len: int) -> Option<(Seq<char>, u32)> {
    match spec_find_primary(s, rate, len) {
        None => None,
        Some((freq, _power)) => {
            if freq == 0 || freq > MAX_LOOKUP_MHZ {
                None
            } else {
                let c = spec_closest_index(freq as int);
                Some(
                    (
                        table_spec()[c].0,
                        spec_confidence_ppm(freq as int, table_spec()[c].1 as int) as u32,
                    ),
                )
            }
        },
    }
}

/// The full spectrum-to-notes decision: the multi-peak path for buffers of
/// at least [`MULTI_PEAK_MIN_SAMPLES`] samples, the single-peak fallback
/// with placeholder intensity otherwise, then the 30% confidence cut-off.
pub open spec fn spec_detect(
    s: Seq<u64>,
    rate: int,
    len: int,
    profile: VoiceProfile,
) -> Seq<NoteView> {
    let raw = if len >= MULTI_PEAK_MIN_SAMPLES {
        spec_multi(s, rate, len, profile)
    } else {
        match spec_single(s, rate, len) {
            Some((name, conf)) => seq![
                NoteView { note: name, confidence: conf, intensity: FALLBACK_INTENSITY_PPM },
            ],
            None => Seq::empty(),
        }
    };
    raw.filter(|n: NoteView| n.confidence > DETECT_MIN_CONFIDENCE_PPM)
}

/// Analyze spectra of audio buffers and decide the notes they contain.
pub struct AudioAnalyzer {
    lookup: FrequencyToNoteLookup,
}

impl AudioAnalyzer {
    /// A well-formed analyzer holds the reference note table.
    pub closed spec fn wf(&self) -> bool {
        self.lookup.wf()
    }

    /// Build an analyzer with a freshly constructed note table.
    pub fn new() -> (r: Self)
        ensures
            r.wf(),
    {
        AudioAnalyzer { lookup: FrequencyToNoteLookup::new() }
    }

    /// Whether a frequency in milli-hertz is allowed by the voice profile;
    /// `NoProfile` allows everything.
    pub fn is_frequency_in_profile(frequency: u64, profile: VoiceProfile) -> (r: bool)
        ensures
            r == spec_in_profile(frequency as int, profile),
    {
        match profile.freq_range() {
            None => true,
            Some((lo, hi)) => {
                let margin = (hi - lo) / 20;
                frequency <= hi + margin && frequency + margin >= lo
            },
        }
    }

    /// Multi-peak analysis: extract the fundamentals of a spectrum and turn
    /// each into its nearest note, filtered by the voice profile.
    pub fn analyze_spectrum_multi(
        &self,
        psd: &Vec<u64>,
        sample_rate: u32,
        signal_len: usize,
        profile: VoiceProfile,
    ) -> (r: Vec<DetectedNote>)
        requires
            self.wf(),
            1 <= sample_rate,
            signal_len == psd@.len(),
        ensures
            notes_view(r@) == spec_multi(psd@, sample_rate as int, signal_len as int, profile),
    {
        let peaks = find_all_peaks(psd, sample_rate, signal_len);
        proof {
            lemma_extract_sorted(
                psd@,
                crate::peaks::spec_threshold(psd@),
                sample_rate as int,
                signal_len as int,
                5,
            );
        }
        let mut out: Vec<DetectedNote> = Vec::new();
        let mut i: usize = 0;
        while i < peaks.len()
            invariant
                self.wf(),
                i <= peaks@.len(),
                peaks@ == spec_find_all_peaks(psd@, sample_rate as int, signal_len as int),
                forall|j: int| 0 <= j < peaks@.len() ==> (#[trigger] peaks@[j]).1 <= PEAK_CAP_PPM,
                notes_view(out@) == spec_notes_of_peaks(peaks@.take(i as int), profile),
            decreases peaks@.len() - i,
        {
            let ghost prefix = peaks@.take(i as int);
            let ghost prefix1 = peaks@.take(i as int + 1);
            proof {
                assert(prefix1.drop_last() =~= prefix);
                assert(prefix1.last() == peaks@[i as int]);
            }
            let (freq, power) = peaks[i];
            if Self::is_frequency_in_profile(freq, profile) {
                if let Some((name, conf)) = self.lookup.find_closest_note(freq) {
                    out.push(DetectedNote { note: name, confidence: conf, intensity: power as u32 });
                    proof {
                        assert(notes_view(out@) =~= spec_notes_of_peaks(prefix1, profile));
                    }
                } else {
                    proof {
                        assert(notes_view(out@) =~= spec_notes_of_peaks(prefix1, profile));
                    }
                }
            } else {
                proof {
                    assert(notes_view(out@) =~= spec_notes_of_peaks(prefix1, profile));
                }
            }
            i += 1;
        }
        proof {
            assert(peaks@.take(peaks@.len() as int) =~= peaks@);
        }
        out
    }

    /// Single-peak analysis: the nearest note of the strongest bin, with
    /// its match confidence, ignoring the peak's own power as a confidence.
    pub fn analyze_spectrum_single(
        &self,
        psd: &Vec<u64>,
        sample_rate: u32,
        signal_len: usize,
    ) -> (r: Option<(String, u32)>)
        requires
            self.wf(),
            1 <= sample_rate,
            signal_len == psd@.len(),
        ensures
            (r is Some) == (spec_single(psd@, sample_rate as int, signal_len as int) is Some),
            r matches Some(p) ==> spec_single(psd@, sample_rate as int, signal_len as int)
                matches Some(q) && p.0@ == q.0 && p.1 == q.1,
    {
        match find_primary_frequency(psd, sample_rate, signal_len) {
            None => None,
            Some((freq, _power)) => {
                match self.lookup.find_closest_note(freq) {
                    None => None,
                    Some((name, conf)) => Some((name, conf)),
                }
            },
        }
    }

    /// Decide the notes of one analysed buffer from its power spectrum:
    /// multi-peak detection for buffers of at least 480 samples, otherwise
    /// the single-peak fallback with a placeholder intensity, and in either
    /// case only detections whose confidence exceeds 30% survive.
    pub fn analyze_spectrum(
        &self,
        psd: &Vec<u64>,
        sample_rate: u32,
        signal_len: usize,
        profile: VoiceProfile,
    ) -> (r: Vec<DetectedNote>)
        requires
            self.wf(),
            1 <= sample_rate,
            signal_len == psd@.len(),
        ensures
            notes_view(r@) == spec_detect(psd@, sample_rate as int, signal_len as int, profile),
            forall|i: int|
                0 <= i < r@.len() ==> (#[trigger] r@[i]@).confidence > DETECT_MIN_CONFIDENCE_PPM,
    {
        let raw: Vec<DetectedNote> = if signal_len >= MULTI_PEAK_MIN_SAMPLES {
            self.analyze_spectrum_multi(psd, sample_rate, signal_len, profile)
        } else {
            match self.analyze_spectrum_single(psd, sample_rate, signal_len) {
                Some((name, conf)) => {
                    let ghost gname = name@;
                    let mut v: Vec<DetectedNote> = Vec::new();
                    v.push(
                        DetectedNote {
                            note: name,
                            confidence: conf,
                            intensity: FALLBACK_INTENSITY_PPM,
                        },
                    );
                    proof {
                        assert(notes_view(v@) =~= seq![
                            NoteView {
                                note: gname,
                                confidence: conf,
                                intensity: FALLBACK_INTENSITY_PPM,
                            },
                        ]);
                        assert(notes_view(v@) == (match spec_single(
                            psd@,
                            sample_rate as int,
                            signal_len as int,
                        ) {
                            Some(q) => seq![
                                NoteView {
                                    note: q.0,
                                    confidence: q.1,
                                    intensity: FALLBACK_INTENSITY_PPM,
                                },
                            ],
                            None => Seq::<NoteView>::empty(),
                        }));
                    }
                    v
                },
                None => {
                    let v: Vec<DetectedNote> = Vec::new();
                    proof {
                        assert(notes_view(v@) =~= Seq::<NoteView>::empty());
                    }
                    v
                },
            }
        };
        let ghost raw_views = notes_view(raw@);
        let mut out: Vec<DetectedNote> = Vec::new();
        proof {
            reveal(Seq::filter);
            assert(notes_view(out@) =~= notes_view(raw@.take(0)).filter(
                |n: NoteView| n.confidence > DETECT_MIN_CONFIDENCE_PPM,
            ));
        }
        let mut i: usize = 0;
        while i < raw.len()
            invariant
                i <= raw@.len(),
                notes_view(out@) == notes_view(raw@.take(i as int)).filter(
                    |n: NoteView| n.confidence > DETECT_MIN_CONFIDENCE_PPM,
                ),
            decreases raw@.len() - i,
        {
            let ghost prefix = notes_view(raw@.take(i as int));
            let ghost prefix1 = notes_view(raw@.take(i as int + 1));
            proof {
                reveal(Seq::filter);
                assert(raw@.take(i as int + 1) =~= raw@.take(i as int).push(raw@[i as int]));
                assert(prefix1 =~= prefix.push(raw@[i as int]@));
                assert(prefix1.drop_last() =~= prefix);
                assert(prefix1.last() == raw@[i as int]@);
            }
            if raw[i].confidence > DETECT_MIN_CONFIDENCE_PPM {
                out.push(raw[i].duplicate());
                proof {
                    assert(notes_view(out@) =~= prefix1.filter(
                        |n: NoteView| n.confidence > DETECT_MIN_CONFIDENCE_PPM,
                    ));
                }
            } else {
                proof {
                    assert(notes_view(out@) =~= prefix1.filter(
                        |n: NoteView| n.confidence > DETECT_MIN_CONFIDENCE_PPM,
                    ));
                }
            }
            i += 1;
        }
        proof {
            assert(raw@.take(raw@.len() as int) =~= raw@);
            assert(notes_view(out@) == spec_detect(
                psd@,
                sample_rate as int,
                signal_len as int,
                profile,
            ));
            lemma_detect_confidences(psd@, sample_rate as int, signal_len as int, profile);
            assert forall|i: int| 0 <= i < out@.len() implies (#[trigger] out@[i]@).confidence
                > DETECT_MIN_CONFIDENCE_PPM by {
                assert(notes_view(out@)[i] == out@[i]@);
            }
        }
        out
    }
}

impl Default for AudioAnalyzer {
    fn default() -> (r: Self)
        ensures
            r.wf(),
    {
        AudioAnalyzer::new()
    }
}

/// A silent spectrum produces no notes: with every candidate bin at zero
/// nothing clears the noise threshold, so both the multi-peak path and the
/// single-peak fallback come up empty, whatever the buffer length, sample
/// rate or profile.
pub proof fn lemma_silence_no_notes(s: Seq<u64>, rate: int, len: int, profile: VoiceProfile)
    requires
        forall|i: int| 1 <= i < s.len() as int / 2 ==> s[i] == 0,
    ensures
        spec_detect(s, rate, len, profile) == Seq::<NoteView>::empty(),
{
    reveal(Seq::filter);
    lemma_silence_no_peaks(s, rate, len);
    assert(spec_multi(s, rate, len, profile) =~= Seq::<NoteView>::empty());
    if len >= MULTI_PEAK_MIN_SAMPLES {
        assert(spec_detect(s, rate, len, profile) =~= Seq::<NoteView>::empty());
    } else {
        assert(spec_detect(s, rate, len, profile) =~= Seq::<NoteView>::empty());
    }
}

/// Every note the detection stage reports clears the 30% confidence
/// cut-off.
pub proof fn lemma_detect_confidences(s: Seq<u64>, rate: int, len: int, profile: VoiceProfile)
    ensures
        forall|i: int|
            0 <= i < spec_detect(s, rate, len, profile).len() ==> (#[trigger] spec_detect(
                s,
                rate,
                len,
                profile,
            )[i]).confidence > DETECT_MIN_CONFIDENCE_PPM,
{
    broadcast use vstd::prelude::Seq::lemma_filter_pred;

}

} // verus!
