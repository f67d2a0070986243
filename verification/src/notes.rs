//! The note-frequency table: natural notes (no sharps or flats) across
//! octaves 1 through 7 in the equal-tempered tuning anchored at A4 = 440 Hz,
//! sorted ascending by frequency, with nearest lookup and a cents-based
//! confidence.
//!
//! Each reference frequency is the equal-tempered value
//! `440 Hz * 2^(semitones from A4 / 12)` rounded to the nearest milli-hertz,
//! so the table is exact integer data with a provable order.

use crate::fixmath::{
    lemma_confidence_exact, spec_confidence_ppm, confidence_ppm, PPM_ONE,
};
use vstd::prelude::*;

verus! {

/// Highest frequency the lookup accepts, in milli-hertz (20 kHz).
pub const MAX_LOOKUP_MHZ: u64 = 20_000_000;

/// The full table: note names with their reference frequencies in
/// milli-hertz, ascending.
pub open spec fn table_spec() -> Seq<(Seq<char>, u64)> {
    seq![
        ("C1"@, 32703u64),
        ("D1"@, 36708u64),
        ("E1"@, 41203u64),
        ("F1"@, 43654u64),
        ("G1"@, 48999u64),
        ("A1"@, 55000u64),
        ("B1"@, 61735u64),
        ("C2"@, 65406u64),
        ("D2"@, 73416u64),
        ("E2"@, 82407u64),
        ("F2"@, 87307u64),
        ("G2"@, 97999u64),
        ("A2"@, 110000u64),
        ("B2"@, 123471u64),
        ("C3"@, 130813u64),
        ("D3"@, 146832u64),
        ("E3"@, 164814u64),
        ("F3"@, 174614u64),
        ("G3"@, 195998u64),
        ("A3"@, 220000u64),
        ("B3"@, 246942u64),
        ("C4"@, 261626u64),
        ("D4"@, 293665u64),
        ("E4"@, 329628u64),
        ("F4"@, 349228u64),
        ("G4"@, 391995u64),
        ("A4"@, 440000u64),
        ("B4"@, 493883u64),
        ("C5"@, 523251u64),
        ("D5"@, 587330u64),
        ("E5"@, 659255u64),
        ("F5"@, 698456u64),
        ("G5"@, 783991u64),
        ("A5"@, 880000u64),
        ("B5"@, 987767u64),
        ("C6"@, 1046502u64),
        ("D6"@, 1174659u64),
        ("E6"@, 1318510u64),
        ("F6"@, 1396913u64),
        ("G6"@, 1567982u64),
        ("A6"@, 1760000u64),
        ("B6"@, 1975533u64),
        ("C7"@, 2093005u64),
        ("D7"@, 2349318u64),
        ("E7"@, 2637020u64),
        ("F7"@, 2793826u64),
        ("G7"@, 3135963u64),
        ("A7"@, 3520000u64),
        ("B7"@, 3951066u64),
    ]
}

/// The table is strictly ascending in frequency, and every reference
/// frequency is a positive value within the lookup range.
pub proof fn lemma_table_sorted()
    ensures
        table_spec().len() == 49,
        forall|i: int, j: int|
            0 <= i < j < table_spec().len() ==> table_spec()[i].1 < table_spec()[j].1,
        forall|i: int|
            0 <= i < table_spec().len() ==> 1 <= #[trigger] table_spec()[i].1 <= MAX_LOOKUP_MHZ,
{
    let t = table_spec();
    assert forall|i: int, j: int| 0 <= i < j < t.len() implies t[i].1 < t[j].1 by {
        lemma_table_adjacent_sorted(i, j);
    }
}

/// Strict order between any two table positions, by stepping through the
/// adjacent pairs.
proof fn lemma_table_adjacent_sorted(i: int, j: int)
    requires
        0 <= i < j < table_spec().len(),
    ensures
        table_spec()[i].1 < table_spec()[j].1,
    decreases j - i,
{
    if j == i + 1 {
    } else {
        lemma_table_adjacent_sorted(i, j - 1);
    }
}

/// Absolute difference of two frequencies.
pub open spec fn spec_dist(a: int, b: int) -> int {
    if a >= b {
        a - b
    } else {
        b - a
    }
}

/// The first table position whose frequency is at least `f`, starting the
/// scan at `i`; the last position when every frequency is below `f`.
pub open spec fn lower_idx_from(t: Seq<(Seq<char>, u64)>, f: int, i: int) -> int
    recommends
        0 <= i < t.len(),
    decreases t.len() - i,
    when 0 <= i < t.len()
{
    if i >= t.len() - 1 {
        t.len() - 1
    } else if t[i].1 >= f {
        i
    } else {
        lower_idx_from(t, f, i + 1)
    }
}

/// The table position of the entry nearest to `f` in absolute distance;
/// on an exact tie between the two neighbours of the insertion point, the
/// higher one.
pub open spec fn spec_closest_index(f: int) -> int {
    let t = table_spec();
    let li = lower_idx_from(t, f, 0);
    if li > 0 && spec_dist(f, t[li - 1].1 as int) < spec_dist(f, t[li].1 as int) {
        li - 1
    } else {
        li
    }
}

/// A position that splits the table into smaller-than-`f` entries on the
/// left and at-least-`f` entries at it (or is the last position) is exactly
/// `lower_idx_from` the start.
proof fn lemma_lower_idx_char(t: Seq<(Seq<char>, u64)>, f: int, l: int, i: int)
    requires
        0 <= i <= l < t.len(),
        forall|j: int| 0 <= j < l ==> t[j].1 < f,
        t[l].1 >= f || l == t.len() - 1,
    ensures
        lower_idx_from(t, f, i) == l,
    decreases l - i,
{
    if i < l {
        lemma_lower_idx_char(t, f, l, i + 1);
    }
}

/// Precomputed lookup table for frequency-to-note conversion.
pub struct FrequencyToNoteLookup {
    table: Vec<(String, u64)>,
}

impl FrequencyToNoteLookup {
    /// The table as a sequence of (name, milli-hertz) pairs.
    pub closed spec fn spec_table(&self) -> Seq<(Seq<char>, u64)> {
        self.table@.map_values(|e: (String, u64)| (e.0@, e.1))
    }

    /// A well-formed lookup holds exactly the reference table.
    pub open spec fn wf(&self) -> bool {
        self.spec_table() == table_spec()
    }

    /// Build the table of natural notes across octaves 1 through 7,
    /// ascending by frequency.
    pub fn new() -> (r: Self)
        ensures
            r.wf(),
    {
        let mut table: Vec<(String, u64)> = Vec::new();
        table.push((String::from_str("C1"), 32703));
        table.push((String::from_str("D1"), 36708));
        table.push((String::from_str("E1"), 41203));
        table.push((String::from_str("F1"), 43654));
        table.push((String::from_str("G1"), 48999));
        table.push((String::from_str("A1"), 55000));
        table.push((String::from_str("B1"), 61735));
        table.push((String::from_str("C2"), 65406));
        table.push((String::from_str("D2"), 73416));
        table.push((String::from_str("E2"), 82407));
        table.push((String::from_str("F2"), 87307));
        table.push((String::from_str("G2"), 97999));
        table.push((String::from_str("A2"), 110000));
        table.push((String::from_str("B2"), 123471));
        table.push((String::from_str("C3"), 130813));
        table.push((String::from_str("D3"), 146832));
        table.push((String::from_str("E3"), 164814));
        table.push((String::from_str("F3"), 174614));
        table.push((String::from_str("G3"), 195998));
        table.push((String::from_str("A3"), 220000));
        table.push((String::from_str("B3"), 246942));
        table.push((String::from_str("C4"), 261626));
        table.push((String::from_str("D4"), 293665));
        table.push((String::from_str("E4"), 329628));
        table.push((String::from_str("F4"), 349228));
        table.push((String::from_str("G4"), 391995));
        table.push((String::from_str("A4"), 440000));
        table.push((String::from_str("B4"), 493883));
        table.push((String::from_str("C5"), 523251));
        table.push((String::from_str("D5"), 587330));
        table.push((String::from_str("E5"), 659255));
        table.push((String::from_str("F5"), 698456));
        table.push((String::from_str("G5"), 783991));
        table.push((String::from_str("A5"), 880000));
        table.push((String::from_str("B5"), 987767));
        table.push((String::from_str("C6"), 1046502));
        table.push((String::from_str("D6"), 1174659));
        table.push((String::from_str("E6"), 1318510));
        table.push((String::from_str("F6"), 1396913));
        table.push((String::from_str("G6"), 1567982));
        table.push((String::from_str("A6"), 1760000));
        table.push((String::from_str("B6"), 1975533));
        table.push((String::from_str("C7"), 2093005));
        table.push((String::from_str("D7"), 2349318));
        table.push((String::from_str("E7"), 2637020));
        table.push((String::from_str("F7"), 2793826));
        table.push((String::from_str("G7"), 3135963));
        table.push((String::from_str("A7"), 3520000));
        table.push((String::from_str("B7"), 3951066));
        let r = FrequencyToNoteLookup { table };
        proof {
            assert(r.spec_table() =~= table_spec());
        }
        r
    }

    /// Number of entries in the table.
    pub fn len(&self) -> (n: usize)
        ensures
            n == self.spec_table().len(),
    {
        self.table.len()
    }

    /// Find the closest note for a frequency given in milli-hertz.
    ///
    /// Frequencies of zero or above 20 kHz are rejected with `None`; every
    /// other frequency yields the nearest table entry together with the
    /// cents-based confidence of the match, in parts per million.
    pub fn find_closest_note(&self, frequency: u64) -> (r: Option<(String, u32)>)
        requires
            self.wf(),
        ensures
            (r is None) <==> (frequency == 0 || frequency > MAX_LOOKUP_MHZ),
            r matches Some(p) ==> {
                let c = spec_closest_index(frequency as int);
                &&& 0 <= c < table_spec().len()
                &&& p.0@ == table_spec()[c].0
                &&& p.1 == spec_confidence_ppm(frequency as int, table_spec()[c].1 as int)
                &&& p.1 <= PPM_ONE
                &&& forall|j: int|
                    0 <= j < table_spec().len() ==> spec_dist(
                        frequency as int,
                        table_spec()[c].1 as int,
                    ) <= spec_dist(frequency as int, (#[trigger] table_spec()[j]).1 as int)
            },
    {
        if frequency == 0 || frequency > MAX_LOOKUP_MHZ {
            return None;
        }
        proof {
            lemma_table_sorted();
        }
        let ghost t = table_spec();
        let f = frequency;
        let mut left: usize = 0;
        let mut right: usize = self.table.len() - 1;
        while left < right
            invariant
                self.wf(),
                t == table_spec(),
                0 <= left <= right < self.table@.len(),
                self.table@.len() == 49,
                forall|j: int| 0 <= j < left ==> t[j].1 < f,
                right < 48 ==> t[right as int].1 >= f,
            decreases right - left,
        {
            let mid = left + (right - left) / 2;
            if self.table[mid].1 < f {
                left = mid + 1;
            } else {
                right = mid;
            }
        }
        proof {
            lemma_lower_idx_char(t, f as int, left as int, 0);
        }
        let closest_idx: usize = if left > 0 && dist(f, self.table[left - 1].1) < dist(
            f,
            self.table[left].1,
        ) {
            left - 1
        } else {
            left
        };
        let base = self.table[closest_idx].1;
        let name = self.table[closest_idx].0.clone();
        let conf = confidence_ppm(f, base);
        proof {
            assert forall|j: int| 0 <= j < table_spec().len() implies spec_dist(
                f as int,
                table_spec()[spec_closest_index(f as int)].1 as int,
            ) <= spec_dist(f as int, (#[trigger] table_spec()[j]).1 as int) by {
                lemma_closest_is_nearest(f as int, j);
            }
        }
        Some((name, conf))
    }
}

/// Absolute difference of two frequencies in milli-hertz.
fn dist(a: u64, b: u64) -> (r: u64)
    ensures
        r == spec_dist(a as int, b as int),
{
    if a >= b {
        a - b
    } else {
        b - a
    }
}

/// An exact reference frequency finds its own table entry with full
/// confidence: the nearest index is the entry itself, and the confidence of
/// a zero-distance match is one.
pub proof fn lemma_find_closest_exact(i: int)
    requires
        0 <= i < table_spec().len(),
    ensures
        spec_closest_index(table_spec()[i].1 as int) == i,
        spec_confidence_ppm(table_spec()[i].1 as int, table_spec()[i].1 as int) == PPM_ONE,
{
    let t = table_spec();
    let f = t[i].1 as int;
    lemma_table_sorted();
    lemma_lower_idx_char(t, f, i, 0);
    lemma_confidence_exact(f);
    if i > 0 {
        assert(spec_dist(f, t[i - 1].1 as int) > 0);
        assert(spec_dist(f, t[i].1 as int) == 0);
    }
}

/// What `lower_idx_from` finds: everything scanned before it lies below
/// `f`, and it points at the first entry at or above `f`, or at the last
/// entry when none is.
proof fn lemma_lower_idx_props(t: Seq<(Seq<char>, u64)>, f: int, i: int)
    requires
        0 <= i < t.len(),
    ensures
        i <= lower_idx_from(t, f, i) < t.len(),
        forall|k: int| i <= k < lower_idx_from(t, f, i) ==> (#[trigger] t[k]).1 < f,
        t[lower_idx_from(t, f, i)].1 >= f || lower_idx_from(t, f, i) == t.len() - 1,
    decreases t.len() - i,
{
    if i < t.len() - 1 && t[i].1 < f {
        lemma_lower_idx_props(t, f, i + 1);
    }
}

/// The lookup really picks the nearest note: no table entry lies closer in
/// absolute distance to the queried frequency than the chosen one.
pub proof fn lemma_closest_is_nearest(f: int, j: int)
    requires
        1 <= f,
        0 <= j < table_spec().len(),
    ensures
        spec_dist(f, table_spec()[spec_closest_index(f)].1 as int) <= spec_dist(
            f,
            table_spec()[j].1 as int,
        ),
{
    let t = table_spec();
    lemma_table_sorted();
    lemma_lower_idx_props(t, f, 0);
    let li = lower_idx_from(t, f, 0);
    let c = spec_closest_index(f);
    // the chosen index is the better of the two neighbours of li
    assert(spec_dist(f, t[c].1 as int) <= spec_dist(f, t[li].1 as int));
    if j < li {
        // entries before li all lie below f, and grow towards t[li - 1]
        assert(t[j].1 < f);
        assert(t[j].1 <= t[li - 1].1);
        assert(spec_dist(f, t[li - 1].1 as int) <= spec_dist(f, t[j].1 as int));
        if c == li {
            // li was kept, so its distance does not exceed the left one
            assert(spec_dist(f, t[c].1 as int) <= spec_dist(f, t[li - 1].1 as int));
        }
    } else if j > li {
        // then li is not the last entry, so t[li] is already at or above f
        assert(li < t.len() - 1);
        assert(t[li].1 >= f);
        assert(t[j].1 >= t[li].1);
        assert(spec_dist(f, t[li].1 as int) <= spec_dist(f, t[j].1 as int));
    }
}

} // verus!
