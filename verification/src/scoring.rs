//! Scoring and ranking of detected notes: the decision layer that turns a
//! raw detection list into the up-to-three notes a response carries.
//!
//! Each surviving note is scored as 70% low-frequency bonus, 20% match
//! confidence and 10% spectral intensity; notes below a 10% confidence cut-off
//! are dropped first. The sort is stable, so equally scored notes keep
//! their detection order, and the executable ranking is proved equal to the
//! specification [`spec_rank`].

use crate::fixmath::{
    confidence_weight, low_frequency_bonus, score_ppm, spec_confidence_weight,
    spec_low_frequency_bonus, spec_score_ppm,
};
use crate::model::{notes_view, DetectedNote, NoteView};
use vstd::prelude::*;

verus! {

/// Confidence cut-off of the ranking stage, in ppm (0.10).
pub const RANK_MIN_CONFIDENCE_PPM: u32 = 100_000;

/// How many notes a response carries at most.
pub const MAX_RESULT_NOTES: usize = 3;

/// Approximate reference frequency of a note name in milli-hertz, keyed by
/// its letter and octave; octaves 1 through 3 are distinguished, anything
/// else falls back to the A4 reference. The values are the coarse
/// frequencies of the scoring stage, not the lookup table's exact ones.
pub open spec fn spec_note_to_frequency(name: Seq<char>) -> u64 {
    if name.len() < 2 {
        440_000u64
    } else {
        let a = name[0];
        let b = name[1];
        if a == 'C' && b == '1' {
            32_700u64
        } else if a == 'C' && b == '2' {
            65_400u64
        } else if a == 'C' && b == '3' {
            130_800u64
        } else if a == 'D' && b == '1' {
            36_700u64
        } else if a == 'D' && b == '2' {
            73_400u64
        } else if a == 'D' && b == '3' {
            146_800u64
        } else if a == 'E' && b == '1' {
            41_200u64
        } else if a == 'E' && b == '2' {
            82_400u64
        } else if a == 'E' && b == '3' {
            164_800u64
        } else if a == 'F' && b == '1' {
            43_700u64
        } else if a == 'F' && b == '2' {
            87_300u64
        } else if a == 'F' && b == '3' {
            174_600u64
        } else if a == 'G' && b == '1' {
            49_000u64
        } else if a == 'G' && b == '2' {
            98_000u64
        } else if a == 'G' && b == '3' {
            196_000u64
        } else if a == 'A' && b == '1' {
            55_000u64
        } else if a == 'A' && b == '2' {
            110_000u64
        } else if a == 'A' && b == '3' {
            220_000u64
        } else if a == 'B' && b == '1' {
            61_700u64
        } else if a == 'B' && b == '2' {
            123_500u64
        } else if a == 'B' && b == '3' {
            247_000u64
        } else {
            440_000u64
        }
    }
}

/// Approximate reference frequency of a note name, in milli-hertz, for
/// scoring.
pub fn note_to_frequency(note_name: &str) -> (r: u64)
    ensures
        r == spec_note_to_frequency(note_name@),
{
    let n = note_name.unicode_len();
    if n < 2 {
        return 440_000;
    }
    let a = note_name.get_char(0);
    let b = note_name.get_char(1);
    if a == 'C' && b == '1' {
        32_700
    } else if a == 'C' && b == '2' {
        65_400
    } else if a == 'C' && b == '3' {
        130_800
    } else if a == 'D' && b == '1' {
        36_700
    } else if a == 'D' && b == '2' {
        73_400
    } else if a == 'D' && b == '3' {
        146_800
    } else if a == 'E' && b == '1' {
        41_200
    } else if a == 'E' && b == '2' {
        82_400
    } else if a == 'E' && b == '3' {
        164_800
    } else if a == 'F' && b == '1' {
        43_700
    } else if a == 'F' && b == '2' {
        87_300
    } else if a == 'F' && b == '3' {
        174_600
    } else if a == 'G' && b == '1' {
        49_000
    } else if a == 'G' && b == '2' {
        98_000
    } else if a == 'G' && b == '3' {
        196_000
    } else if a == 'A' && b == '1' {
        55_000
    } else if a == 'A' && b == '2' {
        110_000
    } else if a == 'A' && b == '3' {
        220_000
    } else if a == 'B' && b == '1' {
        61_700
    } else if a == 'B' && b == '2' {
        123_500
    } else if a == 'B' && b == '3' {
        247_000
    } else {
        440_000
    }
}

/// The ranking score of a note value, in parts per million.
pub open spec fn spec_note_score(n: NoteView) -> int {
    spec_score_ppm(
        spec_low_frequency_bonus(spec_note_to_frequency(n.note) as int),
        spec_confidence_weight(n.confidence as int),
        n.intensity as int,
    )
}

/// The ranking score of a detected note.
pub fn note_score(n: &DetectedNote) -> (r: u64)
    ensures
        r == spec_note_score(n@),
{
    let freq = note_to_frequency(n.note.as_str());
    let bonus = low_frequency_bonus(freq);
    let conf = confidence_weight(n.confidence);
    score_ppm(bonus, conf, n.intensity)
}

/// Whether a note survives the ranking-stage confidence cut-off.
pub open spec fn spec_rank_keeps(n: NoteView) -> bool {
    n.confidence >= RANK_MIN_CONFIDENCE_PPM
}

/// The notes that survive the confidence cut-off, in order.
pub open spec fn spec_rank_filter(s: Seq<NoteView>) -> Seq<NoteView> {
    s.filter(|n: NoteView| spec_rank_keeps(n))
}

/// Stable descending insertion by score: the new note goes behind every
/// already placed note that scores at least as high.
pub open spec fn spec_insert_desc(s: Seq<NoteView>, x: NoteView) -> Seq<NoteView>
    decreases s.len(),
{
    if s.len() == 0 {
        seq![x]
    } else if spec_note_score(s.first()) >= spec_note_score(x) {
        seq![s.first()] + spec_insert_desc(s.drop_first(), x)
    } else {
        seq![x] + s
    }
}

/// Stable descending sort by score.
pub open spec fn spec_sort_desc(s: Seq<NoteView>) -> Seq<NoteView>
    decreases s.len(),
{
    if s.len() == 0 {
        Seq::empty()
    } else {
        spec_insert_desc(spec_sort_desc(s.drop_last()), s.last())
    }
}

/// The whole ranking decision: cut by confidence, sort stably by falling
/// score, keep the top three.
pub open spec fn spec_rank(s: Seq<NoteView>) -> Seq<NoteView> {
    let sorted = spec_sort_desc(spec_rank_filter(s));
    if sorted.len() > MAX_RESULT_NOTES {
        sorted.take(MAX_RESULT_NOTES as int)
    } else {
        sorted
    }
}

/// Inserting at the first position whose score falls below the new note's
/// realises the stable descending insertion.
proof fn lemma_insert_at_pos(s: Seq<NoteView>, x: NoteView, p: int)
    requires
        0 <= p <= s.len(),
        forall|j: int| 0 <= j < p ==> spec_note_score(#[trigger] s[j]) >= spec_note_score(x),
        p < s.len() ==> spec_note_score(s[p]) < spec_note_score(x),
    ensures
        spec_insert_desc(s, x) == s.take(p) + seq![x] + s.skip(p),
    decreases p,
{
    if p == 0 {
        if s.len() == 0 {
            assert(spec_insert_desc(s, x) =~= s.take(0) + seq![x] + s.skip(0));
        } else {
            assert(spec_insert_desc(s, x) =~= s.take(0) + seq![x] + s.skip(0));
        }
    } else {
        let d = s.drop_first();
        assert(forall|j: int|
            0 <= j < p - 1 ==> spec_note_score(#[trigger] d[j]) >= spec_note_score(x));
        lemma_insert_at_pos(d, x, p - 1);
        assert(seq![s.first()] + (d.take(p - 1) + seq![x] + d.skip(p - 1)) =~= s.take(p) + seq![x]
            + s.skip(p));
    }
}

/// Rank a detection list: drop the notes under the confidence cut-off, sort
/// the rest stably by falling score, and return at most the top three.
pub fn rank_notes(notes: &Vec<DetectedNote>) -> (r: Vec<DetectedNote>)
    ensures
        notes_view(r@) == spec_rank(notes_view(notes@)),
        r@.len() <= MAX_RESULT_NOTES,
        forall|i: int, j: int|
            0 <= i < j < r@.len() ==> spec_note_score(#[trigger] r@[i]@) >= spec_note_score(
                #[trigger] r@[j]@,
            ),
        forall|i: int| 0 <= i < r@.len() ==> (#[trigger] r@[i]@).confidence
            >= RANK_MIN_CONFIDENCE_PPM,
{
    let ghost all = notes_view(notes@);
    // confidence cut-off
    let mut kept: Vec<DetectedNote> = Vec::new();
    proof {
        reveal(Seq::filter);
        assert(notes_view(kept@) =~= spec_rank_filter(notes_view(notes@.take(0))));
    }
    let mut i: usize = 0;
    while i < notes.len()
        invariant
            i <= notes@.len(),
            all == notes_view(notes@),
            notes_view(kept@) == spec_rank_filter(notes_view(notes@.take(i as int))),
        decreases notes@.len() - i,
    {
        let ghost prefix = notes_view(notes@.take(i as int));
        let ghost prefix1 = notes_view(notes@.take(i as int + 1));
        proof {
            reveal(Seq::filter);
            assert(notes@.take(i as int + 1) =~= notes@.take(i as int).push(notes@[i as int]));
            assert(prefix1 =~= prefix.push(notes@[i as int]@));
            assert(prefix1.drop_last() =~= prefix);
            assert(prefix1.last() == notes@[i as int]@);
        }
        if notes[i].confidence >= RANK_MIN_CONFIDENCE_PPM {
            kept.push(notes[i].duplicate());
            proof {
                assert(notes_view(kept@) =~= spec_rank_filter(prefix).push(notes@[i as int]@));
                assert(notes_view(kept@) =~= spec_rank_filter(prefix1));
            }
        } else {
            proof {
                assert(notes_view(kept@) =~= spec_rank_filter(prefix1));
            }
        }
        i += 1;
    }
    proof {
        assert(notes@.take(notes@.len() as int) =~= notes@);
    }
    // stable insertion sort by falling score
    let mut sorted: Vec<DetectedNote> = Vec::new();
    let mut scores: Vec<u64> = Vec::new();
    let mut k: usize = 0;
    while k < kept.len()
        invariant
            k <= kept@.len(),
            scores@.len() == sorted@.len(),
            forall|j: int|
                0 <= j < sorted@.len() ==> #[trigger] scores@[j] == spec_note_score(sorted@[j]@),
            notes_view(sorted@) == spec_sort_desc(notes_view(kept@.take(k as int))),
        decreases kept@.len() - k,
    {
        let x = kept[k].duplicate();
        let xs = note_score(&x);
        let mut p: usize = 0;
        while p < scores.len() && scores[p] >= xs
            invariant
                p <= scores@.len(),
                scores@.len() == sorted@.len(),
                forall|j: int|
                    0 <= j < sorted@.len() ==> #[trigger] scores@[j] == spec_note_score(
                        sorted@[j]@,
                    ),
                xs == spec_note_score(x@),
                forall|j: int|
                    0 <= j < p ==> spec_note_score(#[trigger] sorted@[j]@) >= spec_note_score(x@),
            decreases scores@.len() - p,
        {
            p += 1;
        }
        let ghost sorted_old = notes_view(sorted@);
        proof {
            lemma_insert_at_pos(sorted_old, x@, p as int);
        }
        sorted.insert(p, x);
        scores.insert(p, xs);
        k += 1;
        proof {
            assert(notes_view(sorted@) =~= sorted_old.take(p as int) + seq![
                kept@[k as int - 1]@,
            ] + sorted_old.skip(p as int));
            assert(notes_view(sorted@) =~= spec_insert_desc(sorted_old, kept@[k as int - 1]@));
            assert(notes_view(kept@.take(k as int)).drop_last() =~= notes_view(
                kept@.take(k as int - 1),
            ));
            assert(notes_view(kept@.take(k as int)).last() == kept@[k as int - 1]@);
            assert(notes_view(kept@.take(k as int)).len() > 0);
        }
    }
    proof {
        assert(kept@.take(kept@.len() as int) =~= kept@);
    }
    // keep the top three
    if sorted.len() > MAX_RESULT_NOTES {
        sorted.truncate(MAX_RESULT_NOTES);
        proof {
            assert(notes_view(sorted@) =~= spec_rank(all));
        }
    }
    proof {
        assert(notes_view(sorted@) =~= spec_rank(all));
        lemma_rank_sorted(all);
        lemma_rank_confidences(all);
        assert forall|i: int, j: int| 0 <= i < j < sorted@.len() implies spec_note_score(
            #[trigger] sorted@[i]@,
        ) >= spec_note_score(#[trigger] sorted@[j]@) by {
            assert(notes_view(sorted@)[i] == sorted@[i]@);
            assert(notes_view(sorted@)[j] == sorted@[j]@);
        }
        assert forall|i: int| 0 <= i < sorted@.len() implies (#[trigger] sorted@[i]@).confidence
            >= RANK_MIN_CONFIDENCE_PPM by {
            assert(notes_view(sorted@)[i] == sorted@[i]@);
        }
    }
    sorted
}

/// A note list ordered by non-increasing score.
pub open spec fn spec_sorted_desc(s: Seq<NoteView>) -> bool {
    forall|i: int, j: int|
        0 <= i < j < s.len() ==> spec_note_score(#[trigger] s[i]) >= spec_note_score(
            #[trigger] s[j],
        )
}

/// Stable insertion keeps the order, adds exactly the new note, and grows
/// the list by one.
proof fn lemma_insert_desc_props(s: Seq<NoteView>, x: NoteView)
    requires
        spec_sorted_desc(s),
    ensures
        spec_sorted_desc(spec_insert_desc(s, x)),
        spec_insert_desc(s, x).to_multiset() == s.to_multiset().insert(x),
        spec_insert_desc(s, x).len() == s.len() + 1,
    decreases s.len(),
{
    broadcast use vstd::seq_lib::group_to_multiset_ensures;
    broadcast use vstd::multiset::group_multiset_axioms;

    let r = spec_insert_desc(s, x);
    if s.len() == 0 {
        assert(seq![x] =~= Seq::<NoteView>::empty().push(x));
        assert(r.to_multiset() =~= s.to_multiset().insert(x));
    } else if spec_note_score(s.first()) >= spec_note_score(x) {
        let d = s.drop_first();
        assert(spec_sorted_desc(d));
        lemma_insert_desc_props(d, x);
        let rd = spec_insert_desc(d, x);
        assert(r == seq![s.first()] + rd);
        // multiset: [s0] + rd carries s0 plus d plus x, which is s plus x
        vstd::seq_lib::lemma_multiset_commutative(seq![s.first()], rd);
        assert(seq![s.first()] =~= Seq::<NoteView>::empty().push(s.first()));
        assert(s =~= seq![s.first()] + d);
        vstd::seq_lib::lemma_multiset_commutative(seq![s.first()], d);
        assert(r.to_multiset() =~= s.to_multiset().insert(x));
        // order: the head scores at least every element that follows it
        assert forall|i: int, j: int|
            0 <= i < j < r.len() implies spec_note_score(r[i]) >= spec_note_score(r[j]) by {
            if i > 0 {
                assert(r[i] == rd[i - 1] && r[j] == rd[j - 1]);
            } else {
                let e = r[j];
                assert(rd.to_multiset().count(e) > 0);
                if e == x {
                    assert(spec_note_score(s.first()) >= spec_note_score(e));
                } else {
                    assert(d.to_multiset().count(e) > 0);
                    assert(d.contains(e));
                    let k = choose|k: int| 0 <= k < d.len() && d[k] == e;
                    assert(s[k + 1] == e);
                    assert(spec_note_score(s.first()) >= spec_note_score(e));
                }
            }
        }
    } else {
        assert(r == seq![x] + s);
        vstd::seq_lib::lemma_multiset_commutative(seq![x], s);
        assert(seq![x] =~= Seq::<NoteView>::empty().push(x));
        assert(r.to_multiset() =~= s.to_multiset().insert(x));
        assert forall|i: int, j: int|
            0 <= i < j < r.len() implies spec_note_score(r[i]) >= spec_note_score(r[j]) by {
            if i > 0 {
                assert(r[i] == s[i - 1] && r[j] == s[j - 1]);
            } else {
                assert(r[j] == s[j - 1]);
                assert(spec_note_score(s.first()) >= spec_note_score(s[j - 1]));
            }
        }
    }
}

/// The ranking's sort really sorts: its result is ordered by non-increasing
/// score and holds exactly the input notes.
pub proof fn lemma_sort_desc_props(s: Seq<NoteView>)
    ensures
        spec_sorted_desc(spec_sort_desc(s)),
        spec_sort_desc(s).to_multiset() == s.to_multiset(),
        spec_sort_desc(s).len() == s.len(),
    decreases s.len(),
{
    broadcast use vstd::seq_lib::group_to_multiset_ensures;
    broadcast use vstd::multiset::group_multiset_axioms;

    if s.len() > 0 {
        let d = s.drop_last();
        lemma_sort_desc_props(d);
        lemma_insert_desc_props(spec_sort_desc(d), s.last());
        assert(s =~= d.push(s.last()));
        assert(spec_sort_desc(s).to_multiset() =~= s.to_multiset());
    }
}

/// The ranked response is ordered by non-increasing score.
pub proof fn lemma_rank_sorted(s: Seq<NoteView>)
    ensures
        spec_sorted_desc(spec_rank(s)),
        spec_rank(s).len() <= MAX_RESULT_NOTES,
{
    let f = spec_rank_filter(s);
    lemma_sort_desc_props(f);
    let sorted = spec_sort_desc(f);
    if sorted.len() > MAX_RESULT_NOTES {
        assert forall|i: int, j: int|
            0 <= i < j < spec_rank(s).len() implies spec_note_score(
            #[trigger] spec_rank(s)[i],
        ) >= spec_note_score(#[trigger] spec_rank(s)[j]) by {
            assert(spec_rank(s)[i] == sorted[i]);
            assert(spec_rank(s)[j] == sorted[j]);
        }
    }
}

/// Every ranked note clears the 10% confidence cut-off.
pub proof fn lemma_rank_confidences(s: Seq<NoteView>)
    ensures
        forall|i: int|
            0 <= i < spec_rank(s).len() ==> (#[trigger] spec_rank(s)[i]).confidence
                >= RANK_MIN_CONFIDENCE_PPM,
{
    broadcast use vstd::prelude::Seq::lemma_filter_pred;
    broadcast use vstd::seq_lib::group_to_multiset_ensures;
    broadcast use vstd::multiset::group_multiset_axioms;

    let f = spec_rank_filter(s);
    lemma_sort_desc_props(f);
    let sorted = spec_sort_desc(f);
    assert forall|i: int| 0 <= i < spec_rank(s).len() implies (#[trigger] spec_rank(
        s,
    )[i]).confidence >= RANK_MIN_CONFIDENCE_PPM by {
        let e = spec_rank(s)[i];
        assert(sorted[i] == e);
        assert(sorted.to_multiset().count(e) > 0);
        assert(f.to_multiset().count(e) > 0);
        assert(f.contains(e));
        let k = choose|k: int| 0 <= k < f.len() && f[k] == e;
        assert(spec_rank_keeps(f[k]));
    }
}

} // verus!
