//! Peak extraction with iterative harmonic suppression.
//!
//! Working on an integer power spectrum (magnitudes in parts per million),
//! the extractor repeatedly takes the strongest candidate bin in the range
//! `[1, n/2)`, records it as a fundamental, and silences a band around the
//! peak itself and around its 2nd, 3rd and 4th harmonics before searching
//! again, for at most five rounds or until the remaining energy falls below
//! a noise threshold. The executable code is proved to compute exactly the
//! recursive specification [`spec_extract`], so every property of the
//! algorithm can be stated and proved against that one definition.

use vstd::arithmetic::div_mod::{lemma_fundamental_div_mod, lemma_multiply_divide_lt};
use vstd::prelude::*;

verus! {

/// Absolute magnitude floor for a multi-peak fundamental, in ppm (0.05).
pub const MIN_PEAK_PPM: u64 = 50_000;

/// Noise floor for the single strongest peak, in ppm (0.1).
pub const PRIMARY_FLOOR_PPM: u64 = 100_000;

/// Unit magnitude in ppm; recorded peak powers are capped here.
pub const PEAK_CAP_PPM: u64 = 1_000_000;

/// Largest magnitude among bins `[lo, hi)`; zero when the range is empty.
pub open spec fn max_in_range(s: Seq<u64>, lo: int, hi: int) -> int
    decreases hi - lo,
{
    if lo >= hi || hi > s.len() {
        0
    } else {
        let m = max_in_range(s, lo, hi - 1);
        if s[hi - 1] >= m {
            s[hi - 1] as int
        } else {
            m
        }
    }
}

/// Largest magnitude among the candidate bins of a spectrum, excluding the
/// DC bin and the mirrored half.
pub open spec fn spec_max_power(s: Seq<u64>) -> int {
    max_in_range(s, 1, s.len() as int / 2)
}

/// The noise threshold: a tenth of the strongest candidate magnitude, but
/// never below the absolute floor.
pub open spec fn spec_threshold(s: Seq<u64>) -> int {
    let tenth = spec_max_power(s) / 10;
    if tenth >= MIN_PEAK_PPM {
        tenth
    } else {
        MIN_PEAK_PPM as int
    }
}

/// The last bin in `[lo, hi)` holding the largest magnitude.
pub open spec fn argmax_last(s: Seq<u64>, lo: int, hi: int) -> int
    recommends
        0 <= lo < hi <= s.len(),
    decreases hi - lo,
{
    if lo + 1 >= hi {
        lo
    } else {
        let r = argmax_last(s, lo + 1, hi);
        if s[lo] > s[r] {
            lo
        } else {
            r
        }
    }
}

/// `argmax_last` points at a maximal element, and at the last one among
/// equals.
proof fn lemma_argmax_last_char(s: Seq<u64>, lo: int, hi: int)
    requires
        0 <= lo < hi <= s.len(),
    ensures
        lo <= argmax_last(s, lo, hi) < hi,
        forall|j: int| lo <= j < hi ==> #[trigger] s[j] <= s[argmax_last(s, lo, hi)],
        forall|j: int| argmax_last(s, lo, hi) < j < hi ==> #[trigger] s[j] < s[argmax_last(s, lo, hi)],
    decreases hi - lo,
{
    if lo + 1 < hi {
        lemma_argmax_last_char(s, lo + 1, hi);
    }
}

/// Every element of the range is bounded by the range maximum.
proof fn lemma_max_in_range_ge(s: Seq<u64>, lo: int, hi: int, j: int)
    requires
        lo <= j < hi <= s.len(),
    ensures
        s[j] <= max_in_range(s, lo, hi),
    decreases hi - lo,
{
    if j < hi - 1 {
        lemma_max_in_range_ge(s, lo, hi - 1, j);
    }
}

/// The maximum of a nonempty range is attained by its last argmax.
proof fn lemma_max_is_argmax(s: Seq<u64>, lo: int, hi: int)
    requires
        0 <= lo < hi <= s.len(),
    ensures
        max_in_range(s, lo, hi) == s[argmax_last(s, lo, hi)],
{
    lemma_argmax_last_char(s, lo, hi);
    let a = argmax_last(s, lo, hi);
    lemma_max_in_range_ge(s, lo, hi, a);
    lemma_max_attained(s, lo, hi);
}

/// A nonempty range's maximum equals one of its elements.
proof fn lemma_max_attained(s: Seq<u64>, lo: int, hi: int)
    requires
        0 <= lo < hi <= s.len(),
    ensures
        exists|j: int| lo <= j < hi && s[j] == max_in_range(s, lo, hi),
    decreases hi - lo,
{
    if lo + 1 == hi {
        assert(max_in_range(s, lo, lo) == 0);
        assert(s[lo] == max_in_range(s, lo, hi));
    } else {
        lemma_max_attained(s, lo, hi - 1);
        if s[hi - 1] >= max_in_range(s, lo, hi - 1) {
            assert(s[hi - 1] == max_in_range(s, lo, hi));
        }
    }
}

/// Pointwise domination carries over to range maxima.
proof fn lemma_max_in_range_mono(s1: Seq<u64>, s2: Seq<u64>, lo: int, hi: int)
    requires
        0 <= lo,
        s1.len() == s2.len(),
        forall|i: int| 0 <= i < s1.len() ==> s1[i] <= s2[i],
    ensures
        max_in_range(s1, lo, hi) <= max_in_range(s2, lo, hi),
    decreases hi - lo,
{
    if lo >= hi || hi > s1.len() {
        assert(max_in_range(s1, lo, hi) == 0);
        assert(max_in_range(s2, lo, hi) == 0);
    } else {
        lemma_max_in_range_mono(s1, s2, lo, hi - 1);
        assert(s1[hi - 1] <= s2[hi - 1]);
    }
}

/// Frequency of a spectrum bin in milli-hertz.
pub open spec fn spec_freq_of_bin(bin: int, rate: int, len: int) -> int
    recommends
        1 <= rate,
        1 <= len,
{
    (bin * rate * 1000) / len
}

/// Half-width in bins of the suppression band around a peak: three percent
/// of its frequency, divided by the bin resolution, rounded up.
pub open spec fn spec_width(freq: int, rate: int, len: int) -> int
    recommends
        1 <= rate,
{
    (3 * freq * len + (100_000 * rate - 1)) / (100_000 * rate)
}

/// The bin of the `k`-th harmonic of a frequency, rounded down.
pub open spec fn spec_harmonic_bin(k: int, freq: int, rate: int, len: int) -> int
    recommends
        1 <= rate,
{
    (k * freq * len) / (1000 * rate)
}

/// First bin of a suppression band: `c - w`, but never the DC bin.
pub open spec fn spec_band_lo(c: int, w: int) -> int {
    if c - w > 1 {
        c - w
    } else {
        1
    }
}

/// Last bin of a suppression band: `c + w`, clipped at the half-way bin.
pub open spec fn spec_band_hi(c: int, w: int, half: int) -> int {
    if c + w < half {
        c + w
    } else {
        half
    }
}

/// The spectrum with the bins `lo..=hi` silenced.
pub open spec fn spec_zero_band(s: Seq<u64>, lo: int, hi: int) -> Seq<u64> {
    Seq::new(
        s.len(),
        |i: int|
            if lo <= i <= hi {
                0u64
            } else {
                s[i]
            },
    )
}

/// Silence the band around a found fundamental and around its 2nd, 3rd and
/// 4th harmonics.
pub open spec fn spec_suppress(s: Seq<u64>, bin: int, rate: int, len: int) -> Seq<u64> {
    let half = s.len() as int / 2;
    let freq = spec_freq_of_bin(bin, rate, len);
    let w = spec_width(freq, rate, len);
    let s1 = spec_zero_band(s, spec_band_lo(bin, w), spec_band_hi(bin, w, half));
    let h2 = spec_harmonic_bin(2, freq, rate, len);
    let s2 = if h2 < half {
        spec_zero_band(s1, spec_band_lo(h2, w), spec_band_hi(h2, w, half))
    } else {
        s1
    };
    let h3 = spec_harmonic_bin(3, freq, rate, len);
    let s3 = if h3 < half {
        spec_zero_band(s2, spec_band_lo(h3, w), spec_band_hi(h3, w, half))
    } else {
        s2
    };
    let h4 = spec_harmonic_bin(4, freq, rate, len);
    if h4 < half {
        spec_zero_band(s3, spec_band_lo(h4, w), spec_band_hi(h4, w, half))
    } else {
        s3
    }
}

/// A recorded peak power, capped at unit magnitude.
pub open spec fn spec_cap_ppm(p: u64) -> u64 {
    if p > PEAK_CAP_PPM {
        PEAK_CAP_PPM
    } else {
        p
    }
}

/// The whole extraction, as a recursion: take the last strongest candidate
/// bin; stop when it falls below the threshold or the rounds run out;
/// otherwise record it and recurse on the suppressed spectrum.
pub open spec fn spec_extract(s: Seq<u64>, thr: int, rate: int, len: int, fuel: nat) -> Seq<
    (u64, u64),
>
    decreases fuel,
{
    if fuel == 0 {
        Seq::empty()
    } else {
        let half = s.len() as int / 2;
        if half < 2 {
            Seq::empty()
        } else {
            let b = argmax_last(s, 1, half);
            let p = s[b];
            if p < thr {
                Seq::empty()
            } else {
                let freq = spec_freq_of_bin(b, rate, len);
                seq![(freq as u64, spec_cap_ppm(p))] + spec_extract(
                    spec_suppress(s, b, rate, len),
                    thr,
                    rate,
                    len,
                    (fuel - 1) as nat,
                )
            }
        }
    }
}

/// All significant fundamentals of a spectrum: the extraction run with the
/// spectrum's own threshold for five rounds.
pub open spec fn spec_find_all_peaks(s: Seq<u64>, rate: int, len: int) -> Seq<(u64, u64)> {
    spec_extract(s, spec_threshold(s), rate, len, 5)
}

/// The strongest single candidate bin, if it clears the noise floor.
pub open spec fn spec_find_primary(s: Seq<u64>, rate: int, len: int) -> Option<(u64, u64)> {
    let half = s.len() as int / 2;
    if half < 2 {
        None
    } else {
        let b = argmax_last(s, 1, half);
        let p = s[b];
        if p < PRIMARY_FLOOR_PPM {
            None
        } else {
            Some((spec_freq_of_bin(b, rate, len) as u64, spec_cap_ppm(p)))
        }
    }
}

/// Index of the last strongest bin in `[lo, hi)` of a spectrum.
fn max_bin(s: &Vec<u64>, lo: usize, hi: usize) -> (r: usize)
    requires
        lo < hi <= s@.len(),
    ensures
        lo <= r < hi,
        r == argmax_last(s@, lo as int, hi as int),
        s@[r as int] == max_in_range(s@, lo as int, hi as int),
{
    let mut best: usize = lo;
    let mut i: usize = lo + 1;
    while i < hi
        invariant
            lo <= best < i <= hi,
            hi <= s@.len(),
            forall|j: int| lo <= j < i ==> s@[j] <= s@[best as int],
            forall|j: int| best < j < i ==> s@[j] < s@[best as int],
        decreases hi - i,
    {
        if s[i] >= s[best] {
            best = i;
        }
        i += 1;
    }
    proof {
        lemma_argmax_last_char(s@, lo as int, hi as int);
        let a = argmax_last(s@, lo as int, hi as int);
        if best < a {
            assert(s@[a] < s@[best as int]);
            assert(s@[best as int] <= s@[a]);
        } else if a < best {
            assert(s@[best as int] < s@[a]);
            assert(s@[a] <= s@[best as int]);
        }
        lemma_max_is_argmax(s@, lo as int, hi as int);
    }
    best
}

/// Largest magnitude among bins `[lo, hi)` of a spectrum.
fn max_power_of(s: &Vec<u64>, lo: usize, hi: usize) -> (m: u64)
    requires
        lo <= hi <= s@.len(),
    ensures
        m == max_in_range(s@, lo as int, hi as int),
{
    let mut m: u64 = 0;
    let mut i: usize = lo;
    while i < hi
        invariant
            lo <= i <= hi <= s@.len(),
            m == max_in_range(s@, lo as int, i as int),
        decreases hi - i,
    {
        if s[i] >= m {
            m = s[i];
        }
        i += 1;
    }
    m
}

/// Bounds that keep the wide intermediate products inside `u128`.
proof fn lemma_mul3_bound(a: int, b: int, c: int, ab: int, bb: int, cb: int)
    requires
        0 <= a <= ab,
        0 <= b <= bb,
        0 <= c <= cb,
    ensures
        a * b * c <= ab * bb * cb,
{
    assert(a * b * c <= ab * bb * cb) by (nonlinear_arith)
        requires
            0 <= a <= ab,
            0 <= b <= bb,
            0 <= c <= cb,
    ;
}

/// Silence the suppression band centred at `c` with half-width `w` in a
/// working spectrum whose half-way bin is `half`.
fn suppress_one(work: &mut Vec<u64>, c: usize, w: usize, half: usize)
    requires
        half == old(work)@.len() / 2,
        2 <= half,
        c < half,
        w <= half,
    ensures
        final(work)@ == spec_zero_band(
            old(work)@,
            spec_band_lo(c as int, w as int),
            spec_band_hi(c as int, w as int, half as int),
        ),
{
    let n = work.len();
    proof {
        assert(n == old(work)@.len());
        assert(2 * half <= n);
    }
    let lo: usize = if c > w && c - w > 1 {
        c - w
    } else {
        1
    };
    let hi: usize = if c + w < half {
        c + w
    } else {
        half
    };
    proof {
        assert(lo == spec_band_lo(c as int, w as int));
        assert(hi == spec_band_hi(c as int, w as int, half as int));
    }
    let mut i: usize = lo;
    while i <= hi
        invariant
            half == old(work)@.len() / 2,
            2 <= half,
            n == old(work)@.len(),
            hi <= half < n,
            lo == spec_band_lo(c as int, w as int),
            1 <= lo,
            lo <= i <= hi + 1,
            work@.len() == old(work)@.len(),
            forall|j: int| 0 <= j < work@.len() && !(lo <= j < i) ==> work@[j] == old(work)@[j],
            forall|j: int| lo <= j < i ==> work@[j] == 0,
        decreases hi + 1 - i,
    {
        work[i] = 0;
        i += 1;
    }
    proof {
        assert(final(work)@ =~= spec_zero_band(
            old(work)@,
            spec_band_lo(c as int, w as int),
            spec_band_hi(c as int, w as int, half as int),
        ));
    }
}

/// The suppression width never exceeds the bin it is centred on, and the
/// bin frequency stays below five hundred times the sample rate.
proof fn lemma_width_le_bin(b: int, rate: int, len: int)
    requires
        1 <= rate,
        1 <= b,
        2 * b < len,
    ensures
        0 <= spec_freq_of_bin(b, rate, len) < 500 * rate,
        0 <= spec_width(spec_freq_of_bin(b, rate, len), rate, len) <= b,
{
    let f = spec_freq_of_bin(b, rate, len);
    let num = b * rate * 1000;
    assert(0 < len);
    // frequency bound: b * rate * 1000 < len * (500 * rate)
    assert(num < len * (500 * rate)) by (nonlinear_arith)
        requires
            1 <= rate,
            1 <= b,
            2 * b < len,
            num == b * rate * 1000,
    ;
    lemma_multiply_divide_lt(num, len, 500 * rate);
    assert(0 <= f) by {
        vstd::arithmetic::div_mod::lemma_div_pos_is_pos(num, len);
        assert(0 <= num) by (nonlinear_arith)
            requires
                1 <= rate,
                1 <= b,
                num == b * rate * 1000,
        ;
    }
    // f * len <= b * rate * 1000
    lemma_fundamental_div_mod(num, len);
    vstd::arithmetic::div_mod::lemma_mod_division_less_than_divisor(num, len);
    assert(f * len <= num) by (nonlinear_arith)
        requires
            num == len * f + num % len,
            0 <= num % len,
            f == num / len,
    ;
    // width bound: numerator stays below (b + 1) * (100000 * rate)
    let dd = 100_000 * rate;
    let wnum = 3 * f * len + (dd - 1);
    assert(3 * f * len <= 3000 * b * rate) by (nonlinear_arith)
        requires
            f * len <= b * rate * 1000,
            0 <= f,
            0 < len,
    ;
    assert(wnum < (b + 1) * dd) by (nonlinear_arith)
        requires
            3 * f * len <= 3000 * b * rate,
            wnum == 3 * f * len + (dd - 1),
            dd == 100_000 * rate,
            1 <= rate,
            1 <= b,
    ;
    assert(0 < dd) by (nonlinear_arith)
        requires
            1 <= rate,
            dd == 100_000 * rate,
    ;
    lemma_multiply_divide_lt(wnum, dd, b + 1);
    assert(0 <= wnum) by (nonlinear_arith)
        requires
            0 <= f,
            0 < len,
            0 < dd,
            wnum == 3 * f * len + (dd - 1),
    ;
    vstd::arithmetic::div_mod::lemma_div_pos_is_pos(wnum, dd);
}

/// Find all significant spectral peaks with harmonic suppression.
///
/// `psd` is the power spectrum in ppm, `signal_len` the length of the
/// analysed buffer (which equals the spectrum length). Returns the found
/// fundamentals as (frequency in milli-hertz, power in ppm) pairs, exactly
/// as the recursive specification [`spec_find_all_peaks`] describes them.
pub fn find_all_peaks(psd: &Vec<u64>, sample_rate: u32, signal_len: usize) -> (peaks: Vec<
    (u64, u64),
>)
    requires
        1 <= sample_rate,
        signal_len == psd@.len(),
    ensures
        peaks@ == spec_find_all_peaks(psd@, sample_rate as int, signal_len as int),
        peaks@.len() <= 5,
        forall|i: int, j: int|
            0 <= i < j < peaks@.len() ==> (#[trigger] peaks@[i]).1 >= (#[trigger] peaks@[j]).1,
        forall|i: int| 0 <= i < peaks@.len() ==> (#[trigger] peaks@[i]).1 <= PEAK_CAP_PPM,
{
    let ghost rate = sample_rate as int;
    let ghost slen = signal_len as int;
    let n = psd.len();
    let half = n / 2;
    let mut peaks: Vec<(u64, u64)> = Vec::new();
    if half < 2 {
        return peaks;
    }
    let maxp = max_power_of(psd, 1, half);
    let threshold: u64 = if maxp / 10 >= MIN_PEAK_PPM {
        maxp / 10
    } else {
        MIN_PEAK_PPM
    };
    let ghost thr = threshold as int;
    proof {
        assert(thr == spec_threshold(psd@));
    }
    // the working copy that is progressively silenced
    let mut work: Vec<u64> = Vec::new();
    let mut ci: usize = 0;
    while ci < n
        invariant
            ci <= n,
            n == psd@.len(),
            work@ == psd@.take(ci as int),
        decreases n - ci,
    {
        work.push(psd[ci]);
        ci += 1;
        proof {
            assert(psd@.take(ci as int) =~= psd@.take(ci as int - 1).push(psd@[ci as int - 1]));
        }
    }
    proof {
        assert(psd@.take(n as int) =~= psd@);
    }
    let mut it: usize = 0;
    let mut done: bool = false;
    while it < 5 && !done
        invariant
            n == psd@.len(),
            signal_len == n,
            half == n / 2,
            2 <= half,
            1 <= sample_rate,
            rate == sample_rate as int,
            slen == signal_len as int,
            thr == threshold as int,
            thr == spec_threshold(psd@),
            it <= 5,
            work@.len() == n,
            peaks@ + spec_extract(work@, thr, rate, slen, (5 - it) as nat) == spec_extract(
                psd@,
                thr,
                rate,
                slen,
                5,
            ),
            done ==> spec_extract(work@, thr, rate, slen, (5 - it) as nat) =~= Seq::<
                (u64, u64),
            >::empty(),
        decreases 5 - it, (if done { 0int } else { 1int }),
    {
        let ghost fuel = (5 - it) as nat;
        let ghost w_old = work@;
        let b = max_bin(&work, 1, half);
        let p = work[b];
        if p < threshold {
            proof {
                assert(spec_extract(w_old, thr, rate, slen, fuel) =~= Seq::<(u64, u64)>::empty());
            }
            done = true;
        } else {
            proof {
                lemma_width_le_bin(b as int, rate, slen);
                lemma_mul3_bound(
                    b as int,
                    sample_rate as int,
                    1000,
                    0xFFFF_FFFF_FFFF_FFFF,
                    0xFFFF_FFFF,
                    1000,
                );
            }
            let freq_big: u128 = ((b as u128) * (sample_rate as u128) * 1000u128) / (
            signal_len as u128);
            let freq: u64 = freq_big as u64;
            proof {
                assert(freq_big == spec_freq_of_bin(b as int, rate, slen));
                // freq < 500 * rate, so it stays under 500 * (2^32 - 1)
                lemma_mul3_bound(
                    3,
                    freq as int,
                    signal_len as int,
                    3,
                    2_147_483_647_500,
                    0xFFFF_FFFF_FFFF_FFFF,
                );
            }
            let dd: u128 = 100_000u128 * (sample_rate as u128);
            let wnum: u128 = 3u128 * (freq as u128) * (signal_len as u128) + (dd - 1);
            let width_big: u128 = wnum / dd;
            let width: usize = width_big as usize;
            proof {
                assert(width_big == spec_width(freq as int, rate, slen));
                assert(width <= b);
            }
            let capped: u64 = if p > PEAK_CAP_PPM {
                PEAK_CAP_PPM
            } else {
                p
            };
            peaks.push((freq, capped));
            // silence the fundamental itself
            suppress_one(&mut work, b, width, half);
            // silence the low-order harmonics that still fall in range
            proof {
                lemma_mul3_bound(
                    4,
                    freq as int,
                    signal_len as int,
                    4,
                    2_147_483_647_500,
                    0xFFFF_FFFF_FFFF_FFFF,
                );
                lemma_mul3_bound(
                    3,
                    freq as int,
                    signal_len as int,
                    3,
                    2_147_483_647_500,
                    0xFFFF_FFFF_FFFF_FFFF,
                );
                lemma_mul3_bound(
                    2,
                    freq as int,
                    signal_len as int,
                    2,
                    2_147_483_647_500,
                    0xFFFF_FFFF_FFFF_FFFF,
                );
            }
            let hd: u128 = 1000u128 * (sample_rate as u128);
            let h2: u128 = (2u128 * (freq as u128) * (signal_len as u128)) / hd;
            if h2 < half as u128 {
                suppress_one(&mut work, h2 as usize, width, half);
            }
            let h3: u128 = (3u128 * (freq as u128) * (signal_len as u128)) / hd;
            if h3 < half as u128 {
                suppress_one(&mut work, h3 as usize, width, half);
            }
            let h4: u128 = (4u128 * (freq as u128) * (signal_len as u128)) / hd;
            if h4 < half as u128 {
                suppress_one(&mut work, h4 as usize, width, half);
            }
            proof {
                assert(h2 == spec_harmonic_bin(2, freq as int, rate, slen));
                assert(h3 == spec_harmonic_bin(3, freq as int, rate, slen));
                assert(h4 == spec_harmonic_bin(4, freq as int, rate, slen));
                assert(work@ =~= spec_suppress(w_old, b as int, rate, slen));
                assert(spec_extract(w_old, thr, rate, slen, fuel) == seq![(freq, capped)]
                    + spec_extract(work@, thr, rate, slen, (fuel - 1) as nat));
                assert(peaks@ + spec_extract(work@, thr, rate, slen, (fuel - 1) as nat)
                    =~= spec_extract(psd@, thr, rate, slen, 5));
            }
            it += 1;
        }
    }
    proof {
        if !done {
            assert(spec_extract(work@, thr, rate, slen, 0) =~= Seq::<(u64, u64)>::empty());
        }
        assert(peaks@ =~= spec_extract(psd@, thr, rate, slen, 5));
        lemma_extract_len(psd@, thr, rate, slen, 5);
        lemma_extract_sorted(psd@, thr, rate, slen, 5);
    }
    peaks
}

/// Find the single strongest candidate bin of a spectrum, if it clears the
/// noise floor, as a (frequency in milli-hertz, power in ppm) pair.
pub fn find_primary_frequency(psd: &Vec<u64>, sample_rate: u32, signal_len: usize) -> (r: Option<
    (u64, u64),
>)
    requires
        1 <= sample_rate,
        signal_len == psd@.len(),
    ensures
        r == spec_find_primary(psd@, sample_rate as int, signal_len as int),
{
    let n = psd.len();
    let half = n / 2;
    if half < 2 {
        return None;
    }
    let b = max_bin(psd, 1, half);
    let p = psd[b];
    if p < PRIMARY_FLOOR_PPM {
        return None;
    }
    proof {
        lemma_width_le_bin(b as int, sample_rate as int, signal_len as int);
        lemma_mul3_bound(
            b as int,
            sample_rate as int,
            1000,
            0xFFFF_FFFF_FFFF_FFFF,
            0xFFFF_FFFF,
            1000,
        );
    }
    let freq_big: u128 = ((b as u128) * (sample_rate as u128) * 1000u128) / (signal_len as u128);
    let freq: u64 = freq_big as u64;
    let capped: u64 = if p > PEAK_CAP_PPM {
        PEAK_CAP_PPM
    } else {
        p
    };
    Some((freq, capped))
}

/// A suppression step never raises any bin.
proof fn lemma_zero_band_le(s: Seq<u64>, lo: int, hi: int)
    ensures
        spec_zero_band(s, lo, hi).len() == s.len(),
        forall|i: int| 0 <= i < s.len() ==> #[trigger] spec_zero_band(s, lo, hi)[i] <= s[i],
{
}

/// Suppressing a peak and its harmonics never raises any bin.
proof fn lemma_suppress_le(s: Seq<u64>, bin: int, rate: int, len: int)
    ensures
        spec_suppress(s, bin, rate, len).len() == s.len(),
        forall|i: int| 0 <= i < s.len() ==> #[trigger] spec_suppress(s, bin, rate, len)[i] <= s[i],
{
    let half = s.len() as int / 2;
    let freq = spec_freq_of_bin(bin, rate, len);
    let w = spec_width(freq, rate, len);
    let s1 = spec_zero_band(s, spec_band_lo(bin, w), spec_band_hi(bin, w, half));
    lemma_zero_band_le(s, spec_band_lo(bin, w), spec_band_hi(bin, w, half));
    let h2 = spec_harmonic_bin(2, freq, rate, len);
    let s2 = if h2 < half {
        spec_zero_band(s1, spec_band_lo(h2, w), spec_band_hi(h2, w, half))
    } else {
        s1
    };
    lemma_zero_band_le(s1, spec_band_lo(h2, w), spec_band_hi(h2, w, half));
    let h3 = spec_harmonic_bin(3, freq, rate, len);
    let s3 = if h3 < half {
        spec_zero_band(s2, spec_band_lo(h3, w), spec_band_hi(h3, w, half))
    } else {
        s2
    };
    lemma_zero_band_le(s2, spec_band_lo(h3, w), spec_band_hi(h3, w, half));
    let h4 = spec_harmonic_bin(4, freq, rate, len);
    lemma_zero_band_le(s3, spec_band_lo(h4, w), spec_band_hi(h4, w, half));
}

/// The threshold never falls below the absolute magnitude floor.
pub proof fn lemma_threshold_floor(s: Seq<u64>)
    ensures
        spec_threshold(s) >= MIN_PEAK_PPM,
        spec_max_power(s) >= 0,
{
    lemma_max_nonneg(s, 1, s.len() as int / 2);
}

proof fn lemma_max_nonneg(s: Seq<u64>, lo: int, hi: int)
    ensures
        max_in_range(s, lo, hi) >= 0,
    decreases hi - lo,
{
    if !(lo >= hi || hi > s.len()) {
        lemma_max_nonneg(s, lo, hi - 1);
    }
}

/// The extractor returns at most `fuel` peaks.
pub proof fn lemma_extract_len(s: Seq<u64>, thr: int, rate: int, len: int, fuel: nat)
    ensures
        spec_extract(s, thr, rate, len, fuel).len() <= fuel,
    decreases fuel,
{
    if fuel > 0 {
        let half = s.len() as int / 2;
        if half >= 2 {
            let b = argmax_last(s, 1, half);
            if s[b] >= thr {
                lemma_extract_len(
                    spec_suppress(s, b, rate, len),
                    thr,
                    rate,
                    len,
                    (fuel - 1) as nat,
                );
            }
        }
    }
}

/// A spectrum whose candidate bins are all silent yields no peaks at all:
/// the threshold never drops below the absolute floor, so nothing clears it.
pub proof fn lemma_silence_no_peaks(s: Seq<u64>, rate: int, len: int)
    requires
        forall|i: int| 1 <= i < s.len() as int / 2 ==> s[i] == 0,
    ensures
        spec_find_all_peaks(s, rate, len) == Seq::<(u64, u64)>::empty(),
        spec_find_primary(s, rate, len) is None,
{
    let half = s.len() as int / 2;
    lemma_threshold_floor(s);
    if half >= 2 {
        lemma_argmax_last_char(s, 1, half);
        let b = argmax_last(s, 1, half);
        assert(s[b] == 0);
    }
}

/// When the strongest candidate bin clears the threshold, the first
/// reported peak is exactly that bin: its frequency and its capped power.
pub proof fn lemma_first_peak(s: Seq<u64>, rate: int, len: int)
    requires
        2 <= s.len() as int / 2,
        spec_max_power(s) >= spec_threshold(s),
    ensures
        spec_find_all_peaks(s, rate, len).len() >= 1,
        spec_find_all_peaks(s, rate, len)[0] == (
            spec_freq_of_bin(argmax_last(s, 1, s.len() as int / 2), rate, len) as u64,
            spec_cap_ppm(s[argmax_last(s, 1, s.len() as int / 2)]),
        ),
{
    let half = s.len() as int / 2;
    lemma_max_is_argmax(s, 1, half);
}

/// Peaks come out ordered by falling power, each no higher than the capped
/// maximum of the spectrum they were taken from.
pub proof fn lemma_extract_sorted(s: Seq<u64>, thr: int, rate: int, len: int, fuel: nat)
    ensures
        ({
            let r = spec_extract(s, thr, rate, len, fuel);
            &&& forall|i: int|
                0 <= i < r.len() ==> (#[trigger] r[i].1 <= PEAK_CAP_PPM && r[i].1
                    <= max_in_range(s, 1, s.len() as int / 2))
            &&& forall|i: int, j: int|
                0 <= i < j < r.len() ==> #[trigger] r[i].1 >= #[trigger] r[j].1
        }),
    decreases fuel,
{
    let r = spec_extract(s, thr, rate, len, fuel);
    let half = s.len() as int / 2;
    if fuel > 0 && half >= 2 {
        let b = argmax_last(s, 1, half);
        let p = s[b];
        if p >= thr {
            let sup = spec_suppress(s, b, rate, len);
            let rec = spec_extract(sup, thr, rate, len, (fuel - 1) as nat);
            lemma_extract_sorted(sup, thr, rate, len, (fuel - 1) as nat);
            lemma_suppress_le(s, b, rate, len);
            lemma_max_in_range_mono(sup, s, 1, half);
            lemma_max_is_argmax(s, 1, half);
            assert(r[0] == (spec_freq_of_bin(b, rate, len) as u64, spec_cap_ppm(p)));
            assert forall|i: int| 0 <= i < r.len() implies (#[trigger] r[i].1 <= PEAK_CAP_PPM
                && r[i].1 <= max_in_range(s, 1, half)) by {
                if i > 0 {
                    assert(r[i] == rec[i - 1]);
                    assert(rec[i - 1].1 <= max_in_range(sup, 1, sup.len() as int / 2));
                }
            }
            assert forall|i: int, j: int| 0 <= i < j < r.len() implies #[trigger] r[i].1
                >= #[trigger] r[j].1 by {
                if i > 0 {
                    assert(r[i] == rec[i - 1] && r[j] == rec[j - 1]);
                } else {
                    assert(r[j] == rec[j - 1]);
                    assert(rec[j - 1].1 <= max_in_range(sup, 1, sup.len() as int / 2));
                    assert(max_in_range(sup, 1, sup.len() as int / 2) <= max_in_range(s, 1, half));
                }
            }
        }
    }
}

/// Suppression really silences what it aims at: after a peak at `bin` is
/// recorded, its own band and the bands of its 2nd, 3rd and 4th harmonics
/// (where they fall below the half-way bin) hold nothing but zeros, so the
/// same fundamental and its low-order overtones cannot be picked again.
pub proof fn lemma_suppress_zeroes(s: Seq<u64>, bin: int, rate: int, len: int)
    ensures
        ({
            let half = s.len() as int / 2;
            let freq = spec_freq_of_bin(bin, rate, len);
            let w = spec_width(freq, rate, len);
            let sup = spec_suppress(s, bin, rate, len);
            &&& forall|i: int|
                0 <= i < s.len() && spec_band_lo(bin, w) <= i <= spec_band_hi(bin, w, half)
                    ==> #[trigger] sup[i] == 0
            &&& forall|i: int|
                0 <= i < s.len() && spec_harmonic_bin(2, freq, rate, len) < half && spec_band_lo(
                    spec_harmonic_bin(2, freq, rate, len),
                    w,
                ) <= i <= spec_band_hi(spec_harmonic_bin(2, freq, rate, len), w, half)
                    ==> #[trigger] sup[i] == 0
            &&& forall|i: int|
                0 <= i < s.len() && spec_harmonic_bin(3, freq, rate, len) < half && spec_band_lo(
                    spec_harmonic_bin(3, freq, rate, len),
                    w,
                ) <= i <= spec_band_hi(spec_harmonic_bin(3, freq, rate, len), w, half)
                    ==> #[trigger] sup[i] == 0
            &&& forall|i: int|
                0 <= i < s.len() && spec_harmonic_bin(4, freq, rate, len) < half && spec_band_lo(
                    spec_harmonic_bin(4, freq, rate, len),
                    w,
                ) <= i <= spec_band_hi(spec_harmonic_bin(4, freq, rate, len), w, half)
                    ==> #[trigger] sup[i] == 0
        }),
{
    let half = s.len() as int / 2;
    let freq = spec_freq_of_bin(bin, rate, len);
    let w = spec_width(freq, rate, len);
    let s1 = spec_zero_band(s, spec_band_lo(bin, w), spec_band_hi(bin, w, half));
    let h2 = spec_harmonic_bin(2, freq, rate, len);
    let s2 = if h2 < half {
        spec_zero_band(s1, spec_band_lo(h2, w), spec_band_hi(h2, w, half))
    } else {
        s1
    };
    let h3 = spec_harmonic_bin(3, freq, rate, len);
    let s3 = if h3 < half {
        spec_zero_band(s2, spec_band_lo(h3, w), spec_band_hi(h3, w, half))
    } else {
        s2
    };
    // a zeroed bin can only stay zero: every later stage is pointwise lower
    lemma_zero_band_le(s1, spec_band_lo(h2, w), spec_band_hi(h2, w, half));
    lemma_zero_band_le(s2, spec_band_lo(h3, w), spec_band_hi(h3, w, half));
    lemma_zero_band_le(s3, spec_band_lo(spec_harmonic_bin(4, freq, rate, len), w), spec_band_hi(
        spec_harmonic_bin(4, freq, rate, len),
        w,
        half,
    ));
}

} // verus!
